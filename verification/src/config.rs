//! The configuration of the service: settings from the environment and from
//! a settings file, with their defaults.
use vstd::prelude::*;
use vstd::string::StringExecFns;

use crate::json::string_view;
use crate::text::{
    chars_of, pieces, range_views, split_ranges, str_eq, text_between, trimmed, trimmed_range,
};

verus! {

// ---- settings files ----

/// The first place of a character in a text.
pub open spec fn first_char(text: Seq<char>, c: char) -> Option<int>
    decreases text.len(),
{
    if text.len() == 0 {
        None
    } else {
        match first_char(text.drop_last(), c) {
            Some(i) => Some(i),
            None => if text.last() == c {
                Some(text.len() - 1)
            } else {
                None
            },
        }
    }
}

/// The first place of a colon with a space behind it.
pub open spec fn first_colon(text: Seq<char>) -> Option<int>
    decreases text.len(),
{
    if text.len() < 2 {
        None
    } else {
        match first_colon(text.drop_last()) {
            Some(i) => Some(i),
            None => if text[text.len() - 2] == ':' && text.last() == ' ' {
                Some(text.len() - 2)
            } else {
                None
            },
        }
    }
}

/// The setting that a line makes: what stands before and behind its first
/// equals sign, or else its first colon with a space. Blank lines and comments
/// make none.
pub open spec fn line_setting(line: Seq<char>) -> Option<(Seq<char>, Seq<char>)> {
    let text = trimmed(line);
    if text.len() == 0 || text[0] == '#' {
        None
    } else {
        match first_char(text, '=') {
            Some(i) => Some((trimmed(text.take(i)), trimmed(text.skip(i + 1)))),
            None => match first_colon(text) {
                Some(i) => Some((trimmed(text.take(i)), trimmed(text.skip(i + 2)))),
                None => None,
            },
        }
    }
}

/// The settings that lines make; of two for one key the later one counts.
pub open spec fn settings(lines: Seq<Seq<char>>) -> Map<Seq<char>, Seq<char>>
    decreases lines.len(),
{
    if lines.len() == 0 {
        Map::empty()
    } else {
        match line_setting(lines.last()) {
            Some((key, value)) => settings(lines.drop_last()).insert(key, value),
            None => settings(lines.drop_last()),
        }
    }
}

/// Settings by their keys.
#[derive(Debug)]
pub struct EnvValues {
    entries: Vec<(String, String)>,
}

/// The settings that entries hold; the later one of a key counts.
pub open spec fn entry_map(entries: Seq<(String, String)>) -> Map<Seq<char>, Seq<char>>
    decreases entries.len(),
{
    if entries.len() == 0 {
        Map::empty()
    } else {
        entry_map(entries.drop_last()).insert(entries.last().0@, entries.last().1@)
    }
}

impl View for EnvValues {
    type V = Map<Seq<char>, Seq<char>>;

    closed spec fn view(&self) -> Map<Seq<char>, Seq<char>> {
        entry_map(self.entries@)
    }
}

/// A key that no entry has is not in the map; one that an entry has, and no
/// later one, is there with its value.
proof fn lemma_entry_map(entries: Seq<(String, String)>, key: Seq<char>)
    ensures
        entry_map(entries).dom().finite(),
        (forall|i: int| 0 <= i < entries.len() ==> (#[trigger] entries[i]).0@ != key)
            ==> !entry_map(entries).contains_key(key),
        forall|i: int|
            0 <= i < entries.len() && (#[trigger] entries[i]).0@ == key && (forall|j: int|
                i < j < entries.len() ==> (#[trigger] entries[j]).0@ != key)
                ==> entry_map(entries).contains_key(key) && entry_map(entries)[key]
                == entries[i].1@,
    decreases entries.len(),
{
    if entries.len() > 0 {
        let rest = entries.drop_last();
        lemma_entry_map(rest, key);
        if forall|i: int| 0 <= i < entries.len() ==> (#[trigger] entries[i]).0@ != key {
            assert forall|i: int| 0 <= i < rest.len() implies (#[trigger] rest[i]).0@ != key by {
                assert(rest[i] == entries[i]);
            }
            assert(entries[entries.len() - 1].0@ != key);
        }
        assert forall|i: int|
            0 <= i < entries.len() && (#[trigger] entries[i]).0@ == key && (forall|j: int|
                i < j < entries.len() ==> (#[trigger] entries[j]).0@ != key) implies entry_map(
            entries,
        ).contains_key(key) && entry_map(entries)[key] == entries[i].1@ by {
            if i < rest.len() {
                assert(rest[i] == entries[i]);
                assert(entries[entries.len() - 1].0@ != key);
                assert forall|j: int| i < j < rest.len() implies (#[trigger] rest[j]).0@
                    != key by {
                    assert(rest[j] == entries[j]);
                }
            }
        }
    }
}

/// Whether no two entries have one key.
pub open spec fn distinct_keys(entries: Seq<(String, String)>) -> bool {
    forall|i: int, j: int|
        0 <= i < j < entries.len() ==> (#[trigger] entries[i]).0@ != (#[trigger] entries[j]).0@
}

/// Replacing the entry of a key sets it.
proof fn lemma_replaced_entry(entries: Seq<(String, String)>, i: int, entry: (String, String))
    requires
        distinct_keys(entries),
        0 <= i < entries.len(),
        entries[i].0@ == entry.0@,
    ensures
        distinct_keys(entries.update(i, entry)),
        entry_map(entries.update(i, entry)) == entry_map(entries).insert(entry.0@, entry.1@),
    decreases entries.len(),
{
    let changed = entries.update(i, entry);
    let rest = entries.drop_last();
    assert forall|a: int, b: int| 0 <= a < b < changed.len() implies (#[trigger] changed[a]).0@ != (
    #[trigger] changed[b]).0@ by {
        assert(entries[a].0@ != entries[b].0@);
    }
    if i == entries.len() - 1 {
        assert(changed.drop_last() =~= rest);
        assert(entry_map(changed) =~= entry_map(entries).insert(entry.0@, entry.1@));
    } else {
        assert(distinct_keys(rest)) by {
            assert forall|a: int, b: int| 0 <= a < b < rest.len() implies (#[trigger] rest[a]).0@
                != (#[trigger] rest[b]).0@ by {
                assert(entries[a].0@ != entries[b].0@);
            }
        }
        lemma_replaced_entry(rest, i, entry);
        assert(changed.drop_last() =~= rest.update(i, entry));
        assert(entries[i].0@ != entries[entries.len() - 1].0@);
        assert(entry_map(changed) =~= entry_map(entries).insert(entry.0@, entry.1@));
    }
}

/// Entries with distinct keys are as many as the keys.
proof fn lemma_entry_count(entries: Seq<(String, String)>)
    requires
        distinct_keys(entries),
    ensures
        entry_map(entries).dom().finite(),
        entry_map(entries).dom().len() == entries.len(),
    decreases entries.len(),
{
    if entries.len() > 0 {
        let rest = entries.drop_last();
        let key = entries.last().0@;
        assert(distinct_keys(rest)) by {
            assert forall|a: int, b: int| 0 <= a < b < rest.len() implies (#[trigger] rest[a]).0@
                != (#[trigger] rest[b]).0@ by {
                assert(entries[a].0@ != entries[b].0@);
            }
        }
        lemma_entry_count(rest);
        lemma_entry_map(rest, key);
        assert forall|i: int| 0 <= i < rest.len() implies (#[trigger] rest[i]).0@ != key by {
            assert(entries[i].0@ != entries[entries.len() - 1].0@);
        }
        assert(!entry_map(rest).contains_key(key));
        assert(entry_map(entries).dom() =~= entry_map(rest).dom().insert(key));
    }
}

impl EnvValues {
    pub fn new() -> (r: EnvValues)
        ensures
            r.valid(),
            r@ == Map::<Seq<char>, Seq<char>>::empty(),
    {
        EnvValues { entries: Vec::new() }
    }

    /// Whether no key is set twice.
    pub closed spec fn valid(self) -> bool {
        distinct_keys(self.entries@)
    }

    /// Sets a key, in place of an earlier setting.
    pub fn insert(&mut self, key: String, value: String)
        requires
            old(self).valid(),
        ensures
            final(self).valid(),
            final(self)@ == old(self)@.insert(key@, value@),
    {
        let ghost had = self.entries@;
        let mut i: usize = 0;
        while i < self.entries.len()
            invariant
                i <= self.entries@.len(),
                self.entries@ == had,
                had == old(self).entries@,
                distinct_keys(had),
                forall|j: int| 0 <= j < i ==> (#[trigger] had[j]).0@ != key@,
            decreases self.entries@.len() - i,
        {
            if str_eq(self.entries[i].0.as_str(), key.as_str()) {
                let ghost new = (key, value);
                self.entries[i] = (key, value);
                proof {
                    lemma_replaced_entry(had, i as int, new);
                    assert(self.entries@ =~= had.update(i as int, new));
                }
                return;
            }
            i = i + 1;
        }
        self.entries.push((key, value));
        assert(self.entries@.drop_last() =~= had);
    }

    /// The value of a key.
    pub fn get(&self, key: &str) -> (r: Option<&String>)
        ensures
            match r {
                Some(value) => self@.contains_key(key@) && self@[key@] == value@,
                None => !self@.contains_key(key@),
            },
    {
        proof {
            lemma_entry_map(self.entries@, key@);
        }
        let mut i: usize = self.entries.len();
        while i > 0
            invariant
                i <= self.entries@.len(),
                forall|j: int| i <= j < self.entries@.len() ==> (#[trigger] self.entries@[j]).0@
                    != key@,
            decreases i,
        {
            i = i - 1;
            if str_eq(self.entries[i].0.as_str(), key) {
                proof {
                    lemma_entry_map(self.entries@, key@);
                }
                return Some(&self.entries[i].1);
            }
        }
        None
    }

    /// The number of settings.
    pub fn len(&self) -> (r: usize)
        requires
            self.valid(),
        ensures
            r == self@.dom().len(),
    {
        proof {
            lemma_entry_count(self.entries@);
        }
        self.entries.len()
    }
}

fn find_char(chars: &Vec<char>, from: usize, to: usize, c: char) -> (r: Option<usize>)
    requires
        from <= to <= chars@.len(),
    ensures
        match first_char(chars@.subrange(from as int, to as int), c) {
            Some(i) => r == Some((from + i) as usize) && from <= from + i < to,
            None => r is None,
        },
{
    let ghost text = chars@.subrange(from as int, to as int);
    let mut i: usize = from;
    assert(text.take(0) =~= Seq::<char>::empty());
    while i < to
        invariant
            from <= i <= to <= chars@.len(),
            text == chars@.subrange(from as int, to as int),
            first_char(text.take(i - from), c) is None,
        decreases to - i,
    {
        proof {
            assert(text.take(i - from + 1).drop_last() =~= text.take(i - from));
            assert(text.take(i - from + 1).last() == chars@[i as int]);
            if chars@[i as int] == c {
                lemma_first_char(text, c, i - from + 1);
            }
        }
        if chars[i] == c {
            return Some(i);
        }
        i = i + 1;
    }
    assert(text.take(i - from) =~= text);
    None
}

/// A place that was found stays the first one.
proof fn lemma_first_char(text: Seq<char>, c: char, upto: int)
    requires
        0 <= upto <= text.len(),
    ensures
        first_char(text.take(upto), c) matches Some(i) ==> first_char(text, c) == Some(i),
    decreases text.len() - upto,
{
    if upto == text.len() {
        assert(text.take(upto) =~= text);
    } else {
        lemma_first_char(text, c, upto + 1);
        assert(text.take(upto + 1).drop_last() =~= text.take(upto));
    }
}

fn find_colon(chars: &Vec<char>, from: usize, to: usize) -> (r: Option<usize>)
    requires
        from <= to <= chars@.len(),
    ensures
        match first_colon(chars@.subrange(from as int, to as int)) {
            Some(i) => r == Some((from + i) as usize) && from <= from + i && from + i + 2 <= to,
            None => r is None,
        },
{
    let ghost text = chars@.subrange(from as int, to as int);
    if to - from < 2 {
        return None;
    }
    let mut i: usize = from + 1;
    while i < to
        invariant
            from + 1 <= i <= to <= chars@.len(),
            text == chars@.subrange(from as int, to as int),
            first_colon(text.take(i - from)) is None,
        decreases to - i,
    {
        proof {
            let longer = text.take(i - from + 1);
            assert(longer.drop_last() =~= text.take(i - from));
            assert(longer.last() == chars@[i as int]);
            assert(longer[longer.len() - 2] == chars@[i - 1]);
            if chars@[i - 1] == ':' && chars@[i as int] == ' ' {
                lemma_first_colon(text, i - from + 1);
            }
        }
        if chars[i - 1] == ':' && chars[i] == ' ' {
            return Some(i - 1);
        }
        i = i + 1;
    }
    assert(text.take(i - from) =~= text);
    None
}

proof fn lemma_first_colon(text: Seq<char>, upto: int)
    requires
        0 <= upto <= text.len(),
    ensures
        first_colon(text.take(upto)) matches Some(i) ==> first_colon(text) == Some(i),
    decreases text.len() - upto,
{
    if upto == text.len() {
        assert(text.take(upto) =~= text);
    } else {
        lemma_first_colon(text, upto + 1);
        assert(text.take(upto + 1).drop_last() =~= text.take(upto));
    }
}

/// What an optional setting holds.
pub open spec fn setting_view(setting: Option<(String, String)>) -> Option<
    (Seq<char>, Seq<char>),
> {
    match setting {
        Some((key, value)) => Some((key@, value@)),
        None => None,
    }
}

/// The text between two places, without the white space around it.
fn trimmed_text(chars: &Vec<char>, from: usize, to: usize) -> (r: String)
    requires
        from <= to <= chars@.len(),
    ensures
        r@ == trimmed(chars@.subrange(from as int, to as int)),
{
    let (start, end) = trimmed_range(chars, from, to);
    text_between(chars, start, end)
}

/// The setting that a line makes.
fn read_line(chars: &Vec<char>, from: usize, to: usize) -> (r: Option<(String, String)>)
    requires
        from <= to <= chars@.len(),
    ensures
        setting_view(r) == line_setting(chars@.subrange(from as int, to as int)),
{
    let (start, end) = trimmed_range(chars, from, to);
    let ghost text = chars@.subrange(start as int, end as int);
    if start == end || chars[start] == '#' {
        assert(start < end ==> text[0] == chars@[start as int]);
        return None;
    }
    assert(text[0] == chars@[start as int]);
    match find_char(chars, start, end, '=') {
        Some(i) => {
            assert(text.take(i - start) =~= chars@.subrange(start as int, i as int));
            assert(text.skip(i - start + 1) =~= chars@.subrange(i + 1, end as int));
            Some((trimmed_text(chars, start, i), trimmed_text(chars, i + 1, end)))
        },
        None => match find_colon(chars, start, end) {
            Some(i) => {
                assert(text.take(i - start) =~= chars@.subrange(start as int, i as int));
                assert(text.skip(i - start + 2) =~= chars@.subrange(i + 2, end as int));
                Some((trimmed_text(chars, start, i), trimmed_text(chars, i + 2, end)))
            },
            None => None,
        },
    }
}

/// Reads the contents of a settings file, whose lines may be `key=value` or
/// `key: value`.
pub fn parse_env_file(contents: &str) -> (r: EnvValues)
    ensures
        r.valid(),
        r@ == settings(pieces(contents@, '\n')),
{
    let chars = chars_of(contents);
    let lines = split_ranges(&chars, '\n');
    let ghost all = pieces(contents@, '\n');
    let mut values = EnvValues::new();
    let mut i: usize = 0;
    assert(all.take(0) =~= Seq::<Seq<char>>::empty());
    while i < lines.len()
        invariant
            i <= lines@.len(),
            chars@ == contents@,
            all == range_views(chars@, lines@),
            forall|j: int| 0 <= j < lines@.len() ==> (#[trigger] lines@[j]).0 <= lines@[j].1
                <= chars@.len(),
            values.valid(),
            values@ == settings(all.take(i as int)),
        decreases lines@.len() - i,
    {
        let (from, to) = lines[i];
        proof {
            assert(all.take(i + 1).drop_last() =~= all.take(i as int));
            assert(all.take(i + 1).last() == chars@.subrange(from as int, to as int));
        }
        if let Some((key, value)) = read_line(&chars, from, to) {
            values.insert(key, value);
        }
        i = i + 1;
    }
    assert(all.take(i as int) =~= all);
    values
}

// ---- lookup ----

/// The value of a key, where it has one that is not empty.
pub open spec fn set_value(values: Map<Seq<char>, Seq<char>>, key: Seq<char>) -> Option<Seq<char>> {
    if values.contains_key(key) && values[key].len() > 0 {
        Some(values[key])
    } else {
        None
    }
}

/// The value of the first key that has one, in the environment before the
/// file.
pub open spec fn looked_up(
    env: Map<Seq<char>, Seq<char>>,
    file: Map<Seq<char>, Seq<char>>,
    keys: Seq<Seq<char>>,
) -> Option<Seq<char>>
    decreases keys.len(),
{
    if keys.len() == 0 {
        None
    } else {
        match set_value(env, keys[0]) {
            Some(value) => Some(value),
            None => match set_value(file, keys[0]) {
                Some(value) => Some(value),
                None => looked_up(env, file, keys.skip(1)),
            },
        }
    }
}

fn get_set(values: &EnvValues, key: &str) -> (r: Option<String>)
    ensures
        string_view(r) == set_value(values@, key@),
{
    match values.get(key) {
        Some(value) => if value.as_str().unicode_len() > 0 {
            Some(value.clone())
        } else {
            None
        },
        None => None,
    }
}

/// Looks a setting up under one key.
fn lookup_one(env: &EnvValues, file: &EnvValues, key: &str) -> (r: Option<String>)
    ensures
        string_view(r) == looked_up(env@, file@, seq![key@]),
{
    assert(seq![key@].skip(1) =~= Seq::<Seq<char>>::empty());
    reveal_with_fuel(looked_up, 2);
    match get_set(env, key) {
        Some(value) => Some(value),
        None => get_set(file, key),
    }
}

/// Looks a setting up under a key, and then under another one.
pub fn lookup(env: &EnvValues, file: &EnvValues, key: &str, other: &str) -> (r: Option<String>)
    ensures
        string_view(r) == looked_up(env@, file@, seq![key@, other@]),
{
    proof {
        assert(seq![key@, other@].skip(1) =~= seq![other@]);
        reveal_with_fuel(looked_up, 2);
    }
    match get_set(env, key) {
        Some(value) => Some(value),
        None => match get_set(file, key) {
            Some(value) => Some(value),
            None => lookup_one(env, file, other),
        },
    }
}

/// A setting of the environment has precedence over the file, the first name
/// of a setting over the second, and a setting that is empty counts as none.
pub proof fn law_environment_before_file(
    env: Map<Seq<char>, Seq<char>>,
    file: Map<Seq<char>, Seq<char>>,
    key: Seq<char>,
    other: Seq<char>,
)
    ensures
        env.contains_key(key) && env[key].len() > 0 ==> looked_up(env, file, seq![key, other])
            == Some(env[key]),
        !(env.contains_key(key) && env[key].len() > 0) && file.contains_key(key) && file[key].len()
            > 0 ==> looked_up(env, file, seq![key, other]) == Some(file[key]),
        looked_up(env, file, seq![key, other]) matches Some(value) ==> value.len() > 0,
{
    assert(seq![key, other].skip(1) =~= seq![other]);
    assert(seq![other].skip(1) =~= Seq::<Seq<char>>::empty());
    reveal_with_fuel(looked_up, 3);
}

// ---- paths ----

/// A path with a name behind it.
pub open spec fn joined_path(base: Seq<char>, name: Seq<char>) -> Seq<char> {
    if base.len() == 0 || base.last() == '/' {
        base + name
    } else {
        base + seq!['/'] + name
    }
}

/// Puts a name behind a path.
pub fn join_path(base: &str, name: &str) -> (r: String)
    ensures
        r@ == joined_path(base@, name@),
{
    let mut path = base.to_owned();
    let len: usize = base.unicode_len();
    if len > 0 && base.get_char(len - 1) != '/' {
        proof {
            reveal_strlit("/");
        }
        path.append("/");
        assert("/"@ =~= seq!['/']);
    }
    path.append(name);
    path
}

/// A directory of the cache below the home directory, or below the working
/// directory where there is no home.
pub open spec fn cache_path(home: Option<Seq<char>>, name: Seq<char>) -> Seq<char> {
    let base = match home {
        Some(home) => home,
        None => "."@,
    };
    joined_path(joined_path(joined_path(base, ".cache"@), "bsearch"@), name)
}

/// A directory of the cache.
pub fn cache_dir(home: Option<&str>, name: &str) -> (r: String)
    ensures
        r@ == cache_path(crate::json::str_view(home), name@),
{
    let base = match home {
        Some(home) => home,
        None => ".",
    };
    let cache = join_path(base, ".cache");
    let own = join_path(cache.as_str(), "bsearch");
    join_path(own.as_str(), name)
}

// ---- the configuration ----

/// The name of the embedding model.
pub const MODEL_NAME: &'static str = "all-MiniLM-L6-v2";

/// The configuration of the service.
#[derive(Debug, Clone)]
pub struct Config {
    pub handle: String,
    pub app_password: String,
    pub did: String,
    pub pds_url: String,
    pub db_path: String,
    pub model_dir: String,
    pub jetstream_hostname: String,
    /// The key of the sealed archive, where there is one.
    pub jetstream_key: Option<String>,
    /// Where whole segments are downloaded to.
    pub segment_spool_dir: String,
    pub like_batch_interval: u64,
    pub embedding_batch_interval: u64,
    pub reconnect_cursor_safety_seconds: i64,
    /// How long the embedding loop may sit idle before the model is dropped.
    pub embedder_idle_timeout: u64,
    /// How long a live connection is kept before it is remade.
    pub max_connection_seconds: u64,
    /// How far back the earlier stream version replays.
    pub max_cursor_age_seconds: u64,
}

/// What keeps a configuration from being made.
#[derive(Debug, Clone, Copy, PartialEq, Eq, Structural)]
pub enum ConfigError {
    /// The handle or the password is not set.
    MissingCredentials,
}

/// A setting, or its default.
pub open spec fn setting_or(setting: Option<Seq<char>>, default: Seq<char>) -> Seq<char> {
    match setting {
        Some(value) => value,
        None => default,
    }
}

/// Whether a configuration is what the settings make it.
pub open spec fn config_fits(
    env: Map<Seq<char>, Seq<char>>,
    file: Map<Seq<char>, Seq<char>>,
    home: Option<Seq<char>>,
    c: Config,
) -> bool {
    &&& looked_up(env, file, seq!["BSEARCH_HANDLE"@, "user"@]) == Some(c.handle@)
    &&& looked_up(env, file, seq!["BSEARCH_APP_PASSWORD"@, "password"@]) == Some(c.app_password@)
    &&& c.did@ == setting_or(looked_up(env, file, seq!["BSEARCH_DID"@, "did"@]), Seq::empty())
    &&& c.pds_url@ == setting_or(
        looked_up(env, file, seq!["BSEARCH_PDS_URL"@, "pds_url"@]),
        "https://bsky.social"@,
    )
    &&& c.db_path@ == setting_or(
        looked_up(env, file, seq!["BSEARCH_DB_PATH"@, "db_path"@]),
        "bsearch.db"@,
    )
    &&& c.model_dir@ == setting_or(
        looked_up(env, file, seq!["BSEARCH_MODEL_DIR"@]),
        cache_path(home, MODEL_NAME@),
    )
    &&& c.jetstream_hostname@ == setting_or(
        looked_up(env, file, seq!["BSEARCH_JETSTREAM_HOSTNAME"@]),
        "jetstream2.us-east.bsky.network"@,
    )
    &&& string_view(c.jetstream_key) == looked_up(
        env,
        file,
        seq!["BSEARCH_JETSTREAM_KEY"@, "jetstream_key"@],
    )
    &&& c.segment_spool_dir@ == cache_path(home, "segments"@)
    &&& c.like_batch_interval == 2
    &&& c.embedding_batch_interval == 10
    &&& c.reconnect_cursor_safety_seconds == 5
    &&& c.embedder_idle_timeout == 300
    &&& c.max_connection_seconds == 300
    &&& c.max_cursor_age_seconds == 259_200
}

fn value_or(setting: Option<String>, default: &str) -> (r: String)
    ensures
        r@ == setting_or(string_view(setting), default@),
{
    match setting {
        Some(value) => value,
        None => default.to_owned(),
    }
}

impl Config {
    /// Makes the configuration from the environment, the settings file and
    /// the home directory.
    pub fn from_env(env: &EnvValues, file: &EnvValues, home: Option<&str>) -> (r: Result<
        Config,
        ConfigError,
    >)
        ensures
            r is Err <==> looked_up(env@, file@, seq!["BSEARCH_HANDLE"@, "user"@]) is None
                || looked_up(env@, file@, seq!["BSEARCH_APP_PASSWORD"@, "password"@]) is None,
            r matches Ok(config) ==> config_fits(
                env@,
                file@,
                crate::json::str_view(home),
                config,
            ),
    {
        let handle = match lookup(env, file, "BSEARCH_HANDLE", "user") {
            Some(handle) => handle,
            None => {
                return Err(ConfigError::MissingCredentials);
            },
        };
        let app_password = match lookup(env, file, "BSEARCH_APP_PASSWORD", "password") {
            Some(app_password) => app_password,
            None => {
                return Err(ConfigError::MissingCredentials);
            },
        };
        let default_model_dir = cache_dir(home, MODEL_NAME);
        let empty = String::new();
        assert(empty@ =~= Seq::<char>::empty());
        Ok(
            Config {
                handle,
                app_password,
                did: value_or(lookup(env, file, "BSEARCH_DID", "did"), empty.as_str()),
                pds_url: value_or(
                    lookup(env, file, "BSEARCH_PDS_URL", "pds_url"),
                    "https://bsky.social",
                ),
                db_path: value_or(lookup(env, file, "BSEARCH_DB_PATH", "db_path"), "bsearch.db"),
                model_dir: value_or(
                    lookup_one(env, file, "BSEARCH_MODEL_DIR"),
                    default_model_dir.as_str(),
                ),
                jetstream_hostname: value_or(
                    lookup_one(env, file, "BSEARCH_JETSTREAM_HOSTNAME"),
                    "jetstream2.us-east.bsky.network",
                ),
                jetstream_key: lookup(env, file, "BSEARCH_JETSTREAM_KEY", "jetstream_key"),
                segment_spool_dir: cache_dir(home, "segments"),
                like_batch_interval: 2,
                embedding_batch_interval: 10,
                reconnect_cursor_safety_seconds: 5,
                embedder_idle_timeout: 300,
                max_connection_seconds: 300,
                max_cursor_age_seconds: 259_200,
            },
        )
    }
}

} // verus!
