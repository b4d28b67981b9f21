//! What settings, links and stored texts mean, in terms of the texts that they
//! are written as.
use vstd::prelude::*;

use crate::cli::{at_uri_to_web_url, Config as SearchConfig};
use crate::config::{
    first_char, first_colon, join_path, line_setting, lookup, parse_env_file, settings, Config,
    ConfigError, EnvValues,
};
use crate::ipld::{ipld_to_json, Data};
use crate::json::{Json, JsonView};
use crate::store::list_by_handle;
use crate::text::{
    blank, contains_text, decimal, parse_i64, parse_u64, pieces, trim, trimmed, trimmed_end,
    trimmed_start, white_space,
};

verus! {

// ---- white space ----

/// Of the ASCII characters the space and the controls from tab to carriage
/// return are white space.
pub proof fn law_ascii_white_space(c: char)
    ensures
        c <= '~' ==> (white_space(c) <==> c == ' ' || '\t' <= c <= '\r'),
{
}

/// Whether a text neither starts nor ends with white space.
pub open spec fn tight(text: Seq<char>) -> bool {
    text.len() > 0 ==> !white_space(text[0]) && !white_space(text.last())
}

proof fn lemma_trimmed_start(pad: Seq<char>, text: Seq<char>)
    requires
        blank(pad),
    ensures
        trimmed_start(pad + text) == trimmed_start(text),
    decreases pad.len(),
{
    if pad.len() == 0 {
        assert(pad + text =~= text);
    } else {
        assert(white_space(pad[0]));
        assert((pad + text)[0] == pad[0]);
        assert forall|i: int| 0 <= i < pad.skip(1).len() implies white_space(
            #[trigger] pad.skip(1)[i],
        ) by {
            assert(pad.skip(1)[i] == pad[i + 1]);
        }
        assert((pad + text).skip(1) =~= pad.skip(1) + text);
        lemma_trimmed_start(pad.skip(1), text);
    }
}

proof fn lemma_trimmed_end(text: Seq<char>, pad: Seq<char>)
    requires
        blank(pad),
    ensures
        trimmed_end(text + pad) == trimmed_end(text),
    decreases pad.len(),
{
    if pad.len() == 0 {
        assert(text + pad =~= text);
    } else {
        assert(white_space(pad[pad.len() - 1]));
        assert((text + pad).last() == pad.last());
        assert forall|i: int| 0 <= i < pad.drop_last().len() implies white_space(
            #[trigger] pad.drop_last()[i],
        ) by {
            assert(pad.drop_last()[i] == pad[i]);
        }
        assert((text + pad).drop_last() =~= text + pad.drop_last());
        lemma_trimmed_end(text, pad.drop_last());
    }
}

pub proof fn lemma_trimmed(front: Seq<char>, text: Seq<char>, back: Seq<char>)
    requires
        blank(front),
        blank(back),
        tight(text),
    ensures
        trimmed(front + text + back) == text,
{
    let empty = Seq::<char>::empty();
    assert(front + text + back =~= front + (text + back));
    lemma_trimmed_start(front, text + back);
    if text.len() > 0 {
        assert((text + back)[0] == text[0]);
        lemma_trimmed_end(text, back);
    } else {
        assert(text + back =~= back + empty);
        lemma_trimmed_start(back, empty);
        assert(text =~= empty);
    }
}

/// White space around a text is taken off, and nothing else.
pub proof fn law_white_space_is_taken_off(
    padded: &str,
    front: Seq<char>,
    text: Seq<char>,
    back: Seq<char>,
    r: String,
)
    requires
        call_ensures(trim, (padded,), r),
        padded@ == front + text + back,
        blank(front),
        blank(back),
        tight(text),
    ensures
        r@ == text,
{
    lemma_trimmed(front, text, back);
}

// ---- pieces ----

/// Whether a character occurs in a text.
pub open spec fn occurs(text: Seq<char>, c: char) -> bool {
    exists|i: int| 0 <= i < text.len() && #[trigger] text[i] == c
}

/// A text without the separator is one piece, and a separator parts the
/// pieces before it from those behind it.
pub proof fn law_separators_part(before: Seq<char>, behind: Seq<char>, c: char)
    ensures
        !occurs(behind, c) ==> pieces(behind, c) == seq![behind],
        pieces(before + seq![c] + behind, c) == pieces(before, c) + pieces(behind, c),
    decreases behind.len(),
{
    let whole = before + seq![c] + behind;
    if behind.len() == 0 {
        assert(whole.drop_last() =~= before);
        assert(behind =~= Seq::<char>::empty());
        assert(pieces(whole, c) =~= pieces(before, c) + pieces(behind, c));
    } else {
        let rest = behind.drop_last();
        law_separators_part(before, rest, c);
        crate::text::lemma_pieces_nonempty(rest, c);
        assert(whole.drop_last() =~= before + seq![c] + rest);
        assert(whole.last() == behind.last());
        let front = pieces(before, c);
        let back = pieces(rest, c);
        if behind.last() == c {
            assert((front + back).push(Seq::empty()) =~= front + back.push(Seq::empty()));
        } else {
            assert((front + back).last() == back.last());
            assert((front + back).drop_last().push(back.last().push(behind.last())) =~= front
                + back.drop_last().push(back.last().push(behind.last())));
        }
        if !occurs(behind, c) {
            assert(behind[behind.len() - 1] != c);
            assert forall|i: int| 0 <= i < rest.len() implies #[trigger] rest[i] != c by {
                assert(rest[i] == behind[i]);
            }
            assert(!occurs(rest, c));
            assert(rest.push(behind.last()) =~= behind);
            assert(pieces(behind, c) =~= seq![behind]);
        }
    }
}

// ---- settings files ----

proof fn lemma_first_char(before: Seq<char>, behind: Seq<char>, c: char)
    requires
        !occurs(before, c),
    ensures
        first_char(before, c) is None,
        first_char(before + seq![c] + behind, c) == Some(before.len() as int),
    decreases before.len() + behind.len(),
{
    let whole = before + seq![c] + behind;
    if before.len() > 0 {
        let rest = before.drop_last();
        assert forall|i: int| 0 <= i < rest.len() implies #[trigger] rest[i] != c by {
            assert(rest[i] == before[i]);
        }
        assert(before[before.len() - 1] != c);
        lemma_first_char(rest, Seq::empty(), c);
    }
    if behind.len() == 0 {
        assert(whole.drop_last() =~= before);
    } else {
        assert(whole.drop_last() =~= before + seq![c] + behind.drop_last());
        lemma_first_char(before, behind.drop_last(), c);
    }
}

/// Whether a colon with a space behind it occurs in a text.
pub open spec fn colon_occurs(text: Seq<char>) -> bool {
    exists|i: int| 0 <= i && i + 1 < text.len() && #[trigger] text[i] == ':' && text[i + 1] == ' '
}

proof fn lemma_first_colon(before: Seq<char>, behind: Seq<char>)
    requires
        !colon_occurs(before),
    ensures
        first_colon(before) is None,
        first_colon(before + seq![':', ' '] + behind) == Some(before.len() as int),
    decreases before.len() + behind.len(),
{
    let whole = before + seq![':', ' '] + behind;
    if before.len() > 0 {
        let rest = before.drop_last();
        if colon_occurs(rest) {
            let i = choose|i: int|
                0 <= i && i + 1 < rest.len() && #[trigger] rest[i] == ':' && rest[i + 1] == ' ';
            assert(before[i] == ':' && before[i + 1] == ' ');
        }
        lemma_first_colon(rest, Seq::empty());
        if before.len() > 1 {
            let i = before.len() - 2;
            assert(!(before[i] == ':' && before[i + 1] == ' '));
        }
    }
    if behind.len() == 0 {
        let head = whole.drop_last();
        assert(head =~= before.push(':'));
        assert(head.drop_last() =~= before);
        assert(first_colon(head) is None);
        assert(whole[whole.len() - 2] == ':' && whole.last() == ' ');
    } else {
        assert(whole.drop_last() =~= before + seq![':', ' '] + behind.drop_last());
        lemma_first_colon(before, behind.drop_last());
    }
}

/// Whether a line is a setting: a key, an equals sign and a value, with white
/// space around each of them.
pub open spec fn sets(
    line: Seq<char>,
    key: Seq<char>,
    value: Seq<char>,
    pads: (Seq<char>, Seq<char>, Seq<char>, Seq<char>),
) -> bool {
    &&& blank(pads.0) && blank(pads.1) && blank(pads.2) && blank(pads.3)
    &&& tight(key) && tight(value)
    &&& key.len() > 0 && key[0] != '#'
    &&& !occurs(key, '=')
    &&& line == pads.0 + key + pads.1 + seq!['='] + pads.2 + value + pads.3
}

proof fn lemma_setting(
    line: Seq<char>,
    key: Seq<char>,
    value: Seq<char>,
    pads: (Seq<char>, Seq<char>, Seq<char>, Seq<char>),
)
    requires
        sets(line, key, value, pads),
    ensures
        line_setting(line) == Some((key, value)),
{
    let empty = Seq::<char>::empty();
    let before = key + pads.1;
    assert forall|i: int| 0 <= i < before.len() implies #[trigger] before[i] != '=' by {
        if i < key.len() {
            assert(before[i] == key[i]);
        } else {
            assert(before[i] == pads.1[i - key.len()]);
            assert(white_space(pads.1[i - key.len()]));
        }
    }
    let behind = if value.len() > 0 {
        pads.2 + value
    } else {
        empty
    };
    let back = if value.len() > 0 {
        pads.3
    } else {
        pads.2 + pads.3
    };
    let text = before + seq!['='] + behind;
    assert(blank(back)) by {
        assert forall|i: int| 0 <= i < back.len() implies white_space(#[trigger] back[i]) by {
            if value.len() == 0 {
                if i < pads.2.len() {
                    assert(back[i] == pads.2[i]);
                } else {
                    assert(back[i] == pads.3[i - pads.2.len()]);
                }
            }
        }
    }
    assert(line =~= pads.0 + text + back);
    assert(text[0] == key[0]);
    assert(text.last() == if value.len() > 0 {
        value.last()
    } else {
        '='
    });
    lemma_trimmed(pads.0, text, back);
    lemma_first_char(before, behind, '=');
    assert(text.take(before.len() as int) =~= empty + key + pads.1);
    lemma_trimmed(empty, key, pads.1);
    if value.len() > 0 {
        assert(text.skip(before.len() as int + 1) =~= pads.2 + value + empty);
        lemma_trimmed(pads.2, value, empty);
    } else {
        assert(text.skip(before.len() as int + 1) =~= empty + empty + empty);
        lemma_trimmed(empty, empty, empty);
        assert(value =~= empty);
    }
}

/// A line `key=value` behind the others sets the key to the value, in place of
/// what was set before, and nothing else; white space around the key and the
/// value does not matter.
pub proof fn law_lines_set_their_keys(
    earlier: &str,
    contents: &str,
    line: Seq<char>,
    key: Seq<char>,
    value: Seq<char>,
    pads: (Seq<char>, Seq<char>, Seq<char>, Seq<char>),
    had: EnvValues,
    r: EnvValues,
)
    requires
        call_ensures(parse_env_file, (earlier,), had),
        call_ensures(parse_env_file, (contents,), r),
        contents@ == earlier@ + seq!['\n'] + line,
        !occurs(line, '\n'),
        sets(line, key, value, pads),
    ensures
        r@ == had@.insert(key, value),
{
    lemma_setting(line, key, value, pads);
    lemma_last_line(earlier@, line);
}

proof fn lemma_last_line(earlier: Seq<char>, line: Seq<char>)
    requires
        !occurs(line, '\n'),
    ensures
        pieces(earlier + seq!['\n'] + line, '\n') == pieces(earlier, '\n').push(line),
        pieces(earlier, '\n').push(line).drop_last() == pieces(earlier, '\n'),
{
    law_separators_part(earlier, line, '\n');
    assert(pieces(earlier, '\n') + seq![line] =~= pieces(earlier, '\n').push(line));
    assert(pieces(earlier, '\n').push(line).drop_last() =~= pieces(earlier, '\n'));
}

/// So does a line `key: value`, where it holds no equals sign.
pub proof fn law_colons_set_keys_too(
    earlier: &str,
    contents: &str,
    key: Seq<char>,
    value: Seq<char>,
    had: EnvValues,
    r: EnvValues,
)
    requires
        call_ensures(parse_env_file, (earlier,), had),
        call_ensures(parse_env_file, (contents,), r),
        contents@ == earlier@ + seq!['\n'] + key + seq![':', ' '] + value,
        key.len() > 0 && key[0] != '#' && tight(key) && !colon_occurs(key),
        value.len() > 0 && tight(value),
        !occurs(key, '=') && !occurs(value, '='),
        !occurs(key, '\n') && !occurs(value, '\n'),
    ensures
        r@ == had@.insert(key, value),
{
    let empty = Seq::<char>::empty();
    let line = key + seq![':', ' '] + value;
    assert(contents@ =~= earlier@ + seq!['\n'] + line);
    assert forall|i: int| 0 <= i < line.len() implies #[trigger] line[i] != '=' && line[i]
        != '\n' by {
        if i < key.len() {
            assert(line[i] == key[i]);
        } else if i >= key.len() + 2 {
            assert(line[i] == value[i - key.len() - 2]);
        }
    }
    lemma_last_line(earlier@, line);
    assert(line[0] == key[0] && line.last() == value.last());
    assert(line =~= empty + line + empty);
    lemma_trimmed(empty, line, empty);
    lemma_first_char(line, empty, '=');
    lemma_first_colon(key, value);
    assert(line.take(key.len() as int) =~= empty + key + empty);
    assert(line.skip(key.len() as int + 2) =~= empty + value + empty);
    lemma_trimmed(empty, key, empty);
    lemma_trimmed(empty, value, empty);
}

/// Blank lines and comments set nothing, and an empty file has no settings.
pub proof fn law_comments_set_nothing(
    earlier: &str,
    contents: &str,
    pad: Seq<char>,
    words: Seq<char>,
    had: EnvValues,
    r: EnvValues,
)
    requires
        call_ensures(parse_env_file, (earlier,), had),
        call_ensures(parse_env_file, (contents,), r),
        contents@ == earlier@ + seq!['\n'] + (pad + words),
        blank(pad),
        words.len() > 0 ==> words[0] == '#',
        !occurs(pad + words, '\n'),
    ensures
        r@ == had@,
        earlier@.len() == 0 ==> had@ == Map::<Seq<char>, Seq<char>>::empty(),
{
    let empty = Seq::<char>::empty();
    let line = pad + words;
    lemma_last_line(earlier@, line);
    lemma_trimmed_start(pad, words);
    if words.len() > 0 {
        lemma_first_stays(words);
    } else {
        assert(words =~= empty);
    }
    if earlier@.len() == 0 {
        assert(earlier@ =~= empty);
        law_separators_part(empty, empty, '\n');
        assert(pieces(empty, '\n').drop_last() =~= Seq::<Seq<char>>::empty());
        reveal_with_fuel(settings, 2);
        assert(pieces(empty, '\n').last() == empty);
    }
}

proof fn lemma_first_stays(text: Seq<char>)
    requires
        text.len() > 0,
        text[0] == '#',
    ensures
        trimmed_start(text) == text,
        trimmed_end(text).len() > 0,
        trimmed_end(text)[0] == '#',
    decreases text.len(),
{
    if white_space(text.last()) {
        assert(text.len() > 1);
        assert(text.drop_last()[0] == text[0]);
        lemma_first_stays(text.drop_last());
    }
}

// ---- the configuration ----

/// Whether a key is set to something.
pub open spec fn given(values: EnvValues, key: Seq<char>) -> bool {
    values@.contains_key(key) && values@[key].len() > 0
}

/// Whether a setting has a value under one of two names.
pub open spec fn somewhere(env: EnvValues, file: EnvValues, name: Seq<char>, other: Seq<char>) -> bool {
    given(env, name) || given(file, name) || given(env, other) || given(file, other)
}

/// Whether a value is that of a setting: under its first name before the
/// second, and in the environment before the file; the default where it is
/// set nowhere.
pub open spec fn is_setting(
    env: EnvValues,
    file: EnvValues,
    name: Seq<char>,
    other: Seq<char>,
    default: Seq<char>,
    value: Seq<char>,
) -> bool {
    &&& given(env, name) ==> value == env@[name]
    &&& !given(env, name) && given(file, name) ==> value == file@[name]
    &&& !given(env, name) && !given(file, name) && given(env, other) ==> value == env@[other]
    &&& !given(env, name) && !given(file, name) && !given(env, other) && given(file, other)
        ==> value == file@[other]
    &&& !somewhere(env, file, name, other) ==> value == default
}

/// The configuration is made exactly where a handle and a password are set,
/// and every setting is taken from the environment before the file.
pub proof fn law_configuration_follows_the_settings(
    env: EnvValues,
    file: EnvValues,
    home: Option<&str>,
    r: Result<Config, ConfigError>,
)
    requires
        call_ensures(Config::from_env, (&env, &file, home), r),
    ensures
        r is Ok <==> somewhere(env, file, "BSEARCH_HANDLE"@, "user"@) && somewhere(
            env,
            file,
            "BSEARCH_APP_PASSWORD"@,
            "password"@,
        ),
        r matches Ok(config) ==> {
            let none = Seq::<char>::empty();
            &&& is_setting(env, file, "BSEARCH_HANDLE"@, "user"@, none, config.handle@)
            &&& is_setting(
                env,
                file,
                "BSEARCH_APP_PASSWORD"@,
                "password"@,
                none,
                config.app_password@,
            )
            &&& is_setting(env, file, "BSEARCH_DID"@, "did"@, none, config.did@)
            &&& is_setting(
                env,
                file,
                "BSEARCH_PDS_URL"@,
                "pds_url"@,
                "https://bsky.social"@,
                config.pds_url@,
            )
            &&& is_setting(
                env,
                file,
                "BSEARCH_DB_PATH"@,
                "db_path"@,
                "bsearch.db"@,
                config.db_path@,
            )
            &&& is_setting(
                env,
                file,
                "BSEARCH_JETSTREAM_HOSTNAME"@,
                "BSEARCH_JETSTREAM_HOSTNAME"@,
                "jetstream2.us-east.bsky.network"@,
                config.jetstream_hostname@,
            )
            &&& config.jetstream_key is Some <==> somewhere(
                env,
                file,
                "BSEARCH_JETSTREAM_KEY"@,
                "jetstream_key"@,
            )
            &&& config.jetstream_key matches Some(key) ==> is_setting(
                env,
                file,
                "BSEARCH_JETSTREAM_KEY"@,
                "jetstream_key"@,
                none,
                key@,
            )
        },
{
    lemma_looked_up(env, file, "BSEARCH_HANDLE"@, "user"@);
    lemma_looked_up(env, file, "BSEARCH_APP_PASSWORD"@, "password"@);
    lemma_looked_up(env, file, "BSEARCH_DID"@, "did"@);
    lemma_looked_up(env, file, "BSEARCH_PDS_URL"@, "pds_url"@);
    lemma_looked_up(env, file, "BSEARCH_DB_PATH"@, "db_path"@);
    lemma_looked_up(env, file, "BSEARCH_JETSTREAM_KEY"@, "jetstream_key"@);
    lemma_looked_up_once(env, file, "BSEARCH_JETSTREAM_HOSTNAME"@);
}

proof fn lemma_looked_up_once(env: EnvValues, file: EnvValues, name: Seq<char>)
    ensures
        crate::config::looked_up(env@, file@, seq![name]) == if given(env, name) {
            Some(env@[name])
        } else if given(file, name) {
            Some(file@[name])
        } else {
            None
        },
{
    assert(seq![name].skip(1) =~= Seq::<Seq<char>>::empty());
    reveal_with_fuel(crate::config::looked_up, 2);
}

proof fn lemma_looked_up(env: EnvValues, file: EnvValues, name: Seq<char>, other: Seq<char>)
    ensures
        crate::config::looked_up(env@, file@, seq![name, other]) == if given(env, name) {
            Some(env@[name])
        } else if given(file, name) {
            Some(file@[name])
        } else if given(env, other) {
            Some(env@[other])
        } else if given(file, other) {
            Some(file@[other])
        } else {
            None
        },
{
    assert(seq![name, other].skip(1) =~= seq![other]);
    lemma_looked_up_once(env, file, other);
    reveal_with_fuel(crate::config::looked_up, 2);
}

/// The model and the spool stand in the cache of the home directory, or of the
/// working directory where there is none, unless the model is set elsewhere;
/// the intervals are fixed.
pub proof fn law_directories_stand_in_the_cache(
    env: EnvValues,
    file: EnvValues,
    home: Option<&str>,
    r: Result<Config, ConfigError>,
)
    requires
        call_ensures(Config::from_env, (&env, &file, home), r),
    ensures
        r matches Ok(config) ==> {
            let base = match home {
                Some(path) => if path@.len() == 0 || path@.last() == '/' {
                    path@
                } else {
                    path@ + "/"@
                },
                None => "./"@,
            };
            &&& config.segment_spool_dir@ == base + ".cache/bsearch/segments"@
            &&& given(env, "BSEARCH_MODEL_DIR"@) ==> config.model_dir@
                == env@["BSEARCH_MODEL_DIR"@]
            &&& !given(env, "BSEARCH_MODEL_DIR"@) && given(file, "BSEARCH_MODEL_DIR"@)
                ==> config.model_dir@ == file@["BSEARCH_MODEL_DIR"@]
            &&& !given(env, "BSEARCH_MODEL_DIR"@) && !given(file, "BSEARCH_MODEL_DIR"@)
                ==> config.model_dir@ == base + ".cache/bsearch/all-MiniLM-L6-v2"@
            &&& config.like_batch_interval == 2
            &&& config.embedding_batch_interval == 10
            &&& config.reconnect_cursor_safety_seconds == 5
            &&& config.embedder_idle_timeout == 300
            &&& config.max_connection_seconds == 300
            &&& config.max_cursor_age_seconds == 3 * 24 * 3600
        },
{
    lemma_looked_up_once(env, file, "BSEARCH_MODEL_DIR"@);
    lemma_cache(home);
}

proof fn lemma_cache(home: Option<&str>)
    ensures
        ({
            let base = match home {
                Some(path) => if path@.len() == 0 || path@.last() == '/' {
                    path@
                } else {
                    path@ + "/"@
                },
                None => "./"@,
            };
            let path = crate::json::str_view(home);
            &&& crate::config::cache_path(path, "segments"@) == base + ".cache/bsearch/segments"@
            &&& crate::config::cache_path(path, crate::config::MODEL_NAME@) == base
                + ".cache/bsearch/all-MiniLM-L6-v2"@
        }),
{
    reveal_strlit("/");
    reveal_strlit(".");
    reveal_strlit("./");
    reveal_strlit(".cache");
    reveal_strlit("bsearch");
    reveal_strlit("segments");
    reveal_strlit("all-MiniLM-L6-v2");
    reveal_strlit(".cache/bsearch/segments");
    reveal_strlit(".cache/bsearch/all-MiniLM-L6-v2");
    let given = match home {
        Some(path) => path@,
        None => "."@,
    };
    let base = if given.len() == 0 || given.last() == '/' {
        given
    } else {
        given + "/"@
    };
    assert(home is None ==> base =~= "./"@);
    let one = crate::config::joined_path(given, ".cache"@);
    assert(one =~= base + ".cache"@);
    assert(one.last() == 'e');
    let two = crate::config::joined_path(one, "bsearch"@);
    assert(two =~= base + ".cache"@ + "/"@ + "bsearch"@);
    assert(two.last() == 'h');
    assert(crate::config::joined_path(two, "segments"@) =~= base + ".cache/bsearch/segments"@);
    assert(crate::config::joined_path(two, "all-MiniLM-L6-v2"@) =~= base
        + ".cache/bsearch/all-MiniLM-L6-v2"@);
}

/// The search command takes its flags before the environment, and that before
/// the settings file.
pub proof fn law_flags_come_first(
    cli_db: Option<String>,
    cli_model: Option<String>,
    env_db: Option<String>,
    env_model: Option<String>,
    file_db: Option<String>,
    home: Option<&str>,
    r: SearchConfig,
)
    requires
        call_ensures(
            SearchConfig::resolve,
            (cli_db, cli_model, env_db, env_model, file_db, home),
            r,
        ),
    ensures
        cli_db matches Some(path) ==> r.db_path@ == path@,
        cli_db is None ==> (env_db matches Some(path) ==> r.db_path@ == path@),
        cli_db is None && env_db is None ==> (file_db matches Some(path) ==> r.db_path@ == path@),
        cli_db is None && env_db is None && file_db is None ==> r.db_path@ == "bsearch.db"@,
        cli_model matches Some(path) ==> r.model_dir@ == path@,
        cli_model is None ==> (env_model matches Some(path) ==> r.model_dir@ == path@),
        cli_model is None && env_model is None ==> r.model_dir@ == (match home {
            Some(path) => if path@.len() == 0 || path@.last() == '/' {
                path@
            } else {
                path@ + "/"@
            },
            None => "./"@,
        }) + ".cache/bsearch/all-MiniLM-L6-v2"@,
{
    lemma_cache(home);
}

// ---- links ----

/// An address that is not one of a post stays as it is: one of another scheme,
/// or one of a record in another collection.
pub proof fn law_other_addresses_stay(
    uri: &str,
    did: Seq<char>,
    collection: Seq<char>,
    rkey: Seq<char>,
    r: String,
)
    requires
        call_ensures(at_uri_to_web_url, (uri,), r),
    ensures
        uri@.len() < 5 || uri@.take(5) != "at://"@ ==> r@ == uri@,
        uri@ == "at://"@ + did + seq!['/'] + collection + seq!['/'] + rkey && !occurs(did, '/')
            && !occurs(collection, '/') && collection != "app.bsky.feed.post"@ ==> r@ == uri@,
{
    reveal_strlit("at://");
    if uri@ == "at://"@ + did + seq!['/'] + collection + seq!['/'] + rkey && !occurs(did, '/')
        && !occurs(collection, '/') && collection != "app.bsky.feed.post"@ {
        let rest = uri@.skip(5);
        let tail = collection + seq!['/'] + rkey;
        assert(rest =~= did + seq!['/'] + tail);
        law_separators_part(did, tail, '/');
        law_separators_part(collection, rkey, '/');
        law_separators_part(Seq::empty(), did, '/');
        law_separators_part(Seq::empty(), collection, '/');
        assert(pieces(rest, '/')[1] == collection);
    }
}

/// What stands behind the key of a post in its address does not change the
/// link.
pub proof fn law_links_end_at_the_key(
    uri: &str,
    did: Seq<char>,
    rkey: Seq<char>,
    more: Seq<char>,
    r: String,
)
    requires
        call_ensures(at_uri_to_web_url, (uri,), r),
        uri@ == "at://"@ + did + seq!['/'] + "app.bsky.feed.post"@ + seq!['/'] + rkey + seq!['/']
            + more,
        !occurs(did, '/'),
        !occurs(rkey, '/'),
    ensures
        r@ == "https://bsky.app/profile/"@ + did + "/post/"@ + rkey,
{
    reveal_strlit("at://");
    reveal_strlit("app.bsky.feed.post");
    let collection = "app.bsky.feed.post"@;
    assert(!occurs(collection, '/'));
    let rest = uri@.skip(5);
    let end = rkey + seq!['/'] + more;
    let tail = collection + seq!['/'] + end;
    assert(rest =~= did + seq!['/'] + tail);
    assert(uri@.take(5) =~= "at://"@);
    law_separators_part(did, tail, '/');
    law_separators_part(collection, end, '/');
    law_separators_part(rkey, more, '/');
    law_separators_part(Seq::empty(), did, '/');
    law_separators_part(Seq::empty(), collection, '/');
    law_separators_part(Seq::empty(), rkey, '/');
    crate::text::lemma_pieces_nonempty(more, '/');
    let parts = pieces(rest, '/');
    assert(parts[0] == did && parts[1] == collection && parts[2] == rkey);
}

// ---- numbers ----

/// A number is read as it is written, with a plus sign in front or without;
/// one that is too large is none, and one with a minus sign is no unsigned
/// one.
pub proof fn law_numbers_are_read(text: &str, value: nat, u: Option<u64>, s: Option<i64>)
    requires
        call_ensures(parse_u64, (text,), u),
        call_ensures(parse_i64, (text,), s),
    ensures
        text@ == decimal(value) || text@ == seq!['+'] + decimal(value) ==> {
            &&& value <= u64::MAX ==> u == Some(value as u64)
            &&& value > u64::MAX ==> u is None
            &&& value <= i64::MAX ==> s == Some(value as i64)
            &&& value > i64::MAX ==> s is None
        },
        text@ == seq!['-'] + decimal(value) ==> {
            &&& u is None
            &&& value <= -(i64::MIN as int) ==> (s matches Some(read) && read == -value)
            &&& value > -(i64::MIN as int) ==> s is None
        },
{
    crate::text::lemma_decimal_value(value);
    let digits = decimal(value);
    assert(crate::text::is_digit(digits[0]));
    if text@ == seq!['+'] + digits {
        assert(text@.skip(1) =~= digits);
    }
    if text@ == seq!['-'] + digits {
        assert(text@.skip(1) =~= digits);
        assert(crate::text::without_plus(text@) == text@);
        assert(!crate::text::is_digit(text@[0]));
    }
}

/// A text with a character that is neither a digit nor a sign in front is no
/// number, and neither is an empty one.
pub proof fn law_words_are_no_numbers(text: &str, at: int, u: Option<u64>, s: Option<i64>)
    requires
        call_ensures(parse_u64, (text,), u),
        call_ensures(parse_i64, (text,), s),
        text@.len() == 0 || (0 <= at < text@.len() && !('0' <= text@[at] <= '9') && (at > 0 || (
        text@[at] != '+' && text@[at] != '-'))),
    ensures
        u is None,
        s is None,
{
    let bare = crate::text::without_plus(text@);
    if text@.len() > 0 {
        if text@[0] == '+' {
            assert(at > 0);
            assert(bare[at - 1] == text@[at]);
        } else {
            assert(bare[at] == text@[at]);
        }
        if text@[0] == '-' {
            assert(at > 0);
            assert(text@.skip(1)[at - 1] == text@[at]);
        }
    }
}

// ---- records ----

/// An integer of a record is cut to 64 bits: what it becomes differs from it by
/// a multiple of their number.
pub proof fn law_integers_are_cut(n: i128, r: Json)
    requires
        call_ensures(ipld_to_json, (&Data::Integer(n),), r),
    ensures
        r@ is Unsigned || r@ is Negative,
        r@ matches JsonView::Unsigned(cut) ==> cut <= i64::MAX && (n - cut)
            % 0x1_0000_0000_0000_0000 == 0,
        r@ matches JsonView::Negative(cut) ==> cut < 0 && (n - cut) % 0x1_0000_0000_0000_0000 == 0,
{
}

/// A record keeps what it holds in its JSON form: plain values are themselves,
/// lists and fields hold the forms of their members in their order, and bytes
/// and links are objects with one member.
pub proof fn law_records_keep_what_they_hold(value: Data, r: Json, i: int, inner: Json)
    requires
        call_ensures(ipld_to_json, (&value,), r),
        value matches Data::List(items) ==> (0 <= i < items@.len() ==> call_ensures(
            ipld_to_json,
            (&items@[i],),
            inner,
        )),
        value matches Data::Fields(fields) ==> (0 <= i < fields@.len() ==> call_ensures(
            ipld_to_json,
            (&fields@[i].1,),
            inner,
        )),
    ensures
        value is Null ==> r@ == JsonView::Null,
        value matches Data::Bool(b) ==> r@ == JsonView::Bool(b),
        value matches Data::String(s) ==> r@ == JsonView::String(s@),
        value matches Data::Integer(n) ==> (0 <= n <= i64::MAX ==> r@ == JsonView::Unsigned(
            n as u64,
        )),
        value matches Data::Integer(n) ==> (i64::MIN <= n < 0 ==> r@ == JsonView::Negative(
            n as i64,
        )),
        value matches Data::Float { bits } ==> ((bits as int / 0x10_0000_0000_0000) % 0x800 != 0x7ff
            ==> r@ == (JsonView::Float { bits })),
        value matches Data::Float { bits } ==> ((bits as int / 0x10_0000_0000_0000) % 0x800 == 0x7ff
            ==> r@ == JsonView::Null),
        value matches Data::Link(cid) ==> r@ == JsonView::Object(
            seq![("$link"@, JsonView::String(cid@))],
        ),
        value matches Data::Bytes(bytes) ==> (r@ matches JsonView::Object(fields) && fields.len()
            == 1 && fields[0].0 == "$bytes"@ && (fields[0].1 matches JsonView::String(text)
            && text.len() == (8 * bytes@.len() + 5) / 6)),
        value matches Data::List(items) ==> (r@ matches JsonView::Array(forms) && forms.len()
            == items@.len() && (0 <= i < items@.len() ==> forms[i] == inner@)),
        value matches Data::Fields(fields) ==> (r@ matches JsonView::Object(forms) && forms.len()
            == fields@.len() && (0 <= i < fields@.len() ==> forms[i].0 == fields@[i].0@
            && forms[i].1 == inner@)),
{
    match value {
        Data::List(items) => {
            if 0 <= i < items@.len() {
                assert(value@->List_0[i] == items@[i]@);
            }
        },
        Data::Fields(fields) => {
            if 0 <= i < fields@.len() {
                assert(value@->Fields_0[i] == (fields@[i].0@, fields@[i].1@));
            }
        },
        Data::Integer(n) => {
            if 0 <= n <= i64::MAX {
                assert(n as int % 0x1_0000_0000_0000_0000 == n);
            }
            if i64::MIN <= n < 0 {
                assert(n as int % 0x1_0000_0000_0000_0000 == n + 0x1_0000_0000_0000_0000);
            }
        },
        _ => {},
    }
}

// ---- lookup and paths ----

/// A setting is looked up under its first name before the second, and in the
/// environment before the file.
pub proof fn law_settings_are_looked_up(
    env: EnvValues,
    file: EnvValues,
    key: &str,
    other: &str,
    r: Option<String>,
)
    requires
        call_ensures(lookup, (&env, &file, key, other), r),
    ensures
        r is Some <==> somewhere(env, file, key@, other@),
        r matches Some(value) ==> is_setting(env, file, key@, other@, Seq::empty(), value@),
{
    lemma_looked_up(env, file, key@, other@);
}

/// A name is put behind a path with one slash between them.
pub proof fn law_names_are_put_behind_paths(base: &str, name: &str, r: String)
    requires
        call_ensures(join_path, (base, name), r),
    ensures
        base@.len() == 0 || base@.last() == '/' ==> r@ == base@ + name@,
        base@.len() > 0 && base@.last() != '/' ==> r@ == base@ + seq!['/'] + name@,
{
}

/// A text is listed exactly where one of the texts equals it.
pub proof fn law_listed_texts_are_found(texts: Vec<String>, text: &str, r: bool)
    requires
        call_ensures(contains_text, (&texts, text), r),
    ensures
        r <==> exists|i: int| 0 <= i < texts@.len() && (#[trigger] texts@[i])@ == text@,
{
    let all = crate::text::text_views(texts@);
    if all.contains(text@) {
        let i = choose|i: int| 0 <= i < all.len() && all[i] == text@;
        assert(texts@[i]@ == text@);
    }
    if exists|i: int| 0 <= i < texts@.len() && (#[trigger] texts@[i])@ == text@ {
        let i = choose|i: int| 0 <= i < texts@.len() && (#[trigger] texts@[i])@ == text@;
        assert(all[i] == text@);
        assert(all.contains(text@));
    }
}

/// The statement for the posts of a handle asks for the handle, and for the
/// source where one is given.
pub proof fn law_listing_asks_for_the_handle(has_source: bool, r: &'static str)
    requires
        call_ensures(list_by_handle, (has_source,), r),
    ensures
        has_source ==> r@
            == "SELECT p.id, p.uri, p.cid, p.author_did, p.author_handle, p.text, p.created_at, p.source, p.indexed_at FROM posts p WHERE p.author_handle = ?1 AND p.source = ?2"@,
        !has_source ==> r@
            == "SELECT p.id, p.uri, p.cid, p.author_did, p.author_handle, p.text, p.created_at, p.source, p.indexed_at FROM posts p WHERE p.author_handle = ?1"@,
{
}

/// A number in decimal is its digits, the last of them the ones.
pub proof fn law_numbers_are_written_in_decimal(value: nat)
    ensures
        decimal(value).last() as int == '0' as int + value % 10,
        value < 10 ==> decimal(value).len() == 1,
        value >= 10 ==> decimal(value).drop_last() == decimal(value / 10),
{
    if value >= 10 {
        assert(decimal(value).drop_last() =~= decimal(value / 10));
    }
}

} // verus!
