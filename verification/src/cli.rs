//! The search command: its configuration, what its arguments ask for, and the
//! links it shows.
use vstd::prelude::*;
use vstd::string::StringExecFns;

use crate::config::{cache_dir, cache_path, MODEL_NAME};
use crate::json::{str_view, string_view};
use crate::text::{chars_of, pieces, range_views, split_ranges, str_eq, text_between};

verus! {

/// Where the search command finds its database and its model.
#[derive(Debug, Clone)]
pub struct Config {
    pub db_path: String,
    pub model_dir: String,
}

/// The first of the values that is given.
pub open spec fn first_given(
    flag: Option<Seq<char>>,
    env: Option<Seq<char>>,
    file: Option<Seq<char>>,
    default: Seq<char>,
) -> Seq<char> {
    match flag {
        Some(value) => value,
        None => match env {
            Some(value) => value,
            None => match file {
                Some(value) => value,
                None => default,
            },
        },
    }
}

fn pick(flag: Option<String>, env: Option<String>, file: Option<String>, default: String) -> (r: String)
    ensures
        r@ == first_given(string_view(flag), string_view(env), string_view(file), default@),
{
    match flag {
        Some(value) => value,
        None => match env {
            Some(value) => value,
            None => match file {
                Some(value) => value,
                None => default,
            },
        },
    }
}

impl Config {
    /// Resolves the configuration: command-line flags before the environment,
    /// the environment before the settings file, and defaults last. The model
    /// directory has no setting in the file.
    pub fn resolve(
        cli_db: Option<String>,
        cli_model: Option<String>,
        env_db: Option<String>,
        env_model: Option<String>,
        file_db: Option<String>,
        home: Option<&str>,
    ) -> (r: Config)
        ensures
            r.db_path@ == first_given(
                string_view(cli_db),
                string_view(env_db),
                string_view(file_db),
                "bsearch.db"@,
            ),
            r.model_dir@ == first_given(
                string_view(cli_model),
                string_view(env_model),
                None,
                cache_path(str_view(home), MODEL_NAME@),
            ),
    {
        Config {
            db_path: pick(cli_db, env_db, file_db, "bsearch.db".to_owned()),
            model_dir: pick(cli_model, env_model, None, cache_dir(home, MODEL_NAME)),
        }
    }
}

/// What the arguments of the search command ask for.
#[derive(Debug, Clone, Copy, PartialEq, Eq, Structural)]
pub enum SearchPlan {
    /// Neither a query nor a handle: there is nothing to search for.
    Refuse,
    /// No query: list the posts of the handle.
    ListByHandle,
    Keyword,
    Semantic,
    Hybrid,
}

impl SearchPlan {
    /// Whether the query has to be embedded first: keyword search and lists
    /// do without the model.
    pub fn needs_embedding(&self) -> (r: bool)
        ensures
            r == (*self == SearchPlan::Semantic || *self == SearchPlan::Hybrid),
    {
        match self {
            SearchPlan::Semantic => true,
            SearchPlan::Hybrid => true,
            _ => false,
        }
    }
}

/// Decides what the arguments of the search command ask for.
pub fn plan_search(has_query: bool, has_handle: bool, mode: &str) -> (r: SearchPlan)
    ensures
        r == if !has_query && !has_handle {
            SearchPlan::Refuse
        } else if !has_query {
            SearchPlan::ListByHandle
        } else if mode@ == "keyword"@ {
            SearchPlan::Keyword
        } else if mode@ == "semantic"@ {
            SearchPlan::Semantic
        } else {
            SearchPlan::Hybrid
        },
{
    if !has_query {
        if has_handle {
            SearchPlan::ListByHandle
        } else {
            SearchPlan::Refuse
        }
    } else if str_eq(mode, "keyword") {
        SearchPlan::Keyword
    } else if str_eq(mode, "semantic") {
        SearchPlan::Semantic
    } else {
        SearchPlan::Hybrid
    }
}

// ---- links ----

/// The address of a post on the web: for a post address made of a repository,
/// the post collection and a record key. Anything else stays as it is.
pub open spec fn web_url(uri: Seq<char>) -> Seq<char> {
    let prefix = "at://"@;
    let parts = pieces(uri.skip(prefix.len() as int), '/');
    if uri.len() >= prefix.len() && uri.take(prefix.len() as int) == prefix && parts.len() >= 3
        && parts[1] == "app.bsky.feed.post"@ {
        "https://bsky.app/profile/"@ + parts[0] + "/post/"@ + parts[2]
    } else {
        uri
    }
}

/// Turns the address of a post into its address on the web.
pub fn at_uri_to_web_url(uri: &str) -> (r: String)
    ensures
        r@ == web_url(uri@),
{
    proof {
        reveal_strlit("at://");
    }
    let len: usize = uri.unicode_len();
    if len < 5 {
        return uri.to_owned();
    }
    let head = uri.substring_char(0, 5);
    assert(uri@.take(5) =~= head@);
    if !str_eq(head, "at://") {
        return uri.to_owned();
    }
    let rest = uri.substring_char(5, len);
    assert(rest@ =~= uri@.skip(5));
    let chars = chars_of(rest);
    let parts = split_ranges(&chars, '/');
    if parts.len() < 3 {
        return uri.to_owned();
    }
    let ghost views = range_views(chars@, parts@);
    assert(views[0] == chars@.subrange(parts@[0].0 as int, parts@[0].1 as int));
    assert(views[1] == chars@.subrange(parts@[1].0 as int, parts@[1].1 as int));
    assert(views[2] == chars@.subrange(parts@[2].0 as int, parts@[2].1 as int));
    let collection = text_between(&chars, parts[1].0, parts[1].1);
    if !str_eq(collection.as_str(), "app.bsky.feed.post") {
        return uri.to_owned();
    }
    let mut url = "https://bsky.app/profile/".to_owned();
    let repository = text_between(&chars, parts[0].0, parts[0].1);
    url.append(repository.as_str());
    url.append("/post/");
    let key = text_between(&chars, parts[2].0, parts[2].1);
    url.append(key.as_str());
    url
}

/// A text without slashes is a single piece.
proof fn lemma_no_slash(text: Seq<char>)
    requires
        forall|i: int| 0 <= i < text.len() ==> #[trigger] text[i] != '/',
    ensures
        pieces(text, '/') == seq![text],
    decreases text.len(),
{
    if text.len() == 0 {
        assert(text =~= Seq::<char>::empty());
    } else {
        let rest = text.drop_last();
        assert forall|i: int| 0 <= i < rest.len() implies #[trigger] rest[i] != '/' by {
            assert(rest[i] == text[i]);
        }
        lemma_no_slash(rest);
        assert(text[text.len() - 1] != '/');
        assert(rest.push(text.last()) =~= text);
        assert(pieces(text, '/') =~= seq![text]);
    }
}

/// The pieces of a text, a slash and a text without slashes are those of the
/// first text and the second text.
proof fn lemma_pieces_join(a: Seq<char>, b: Seq<char>)
    requires
        forall|i: int| 0 <= i < b.len() ==> #[trigger] b[i] != '/',
    ensures
        pieces(a + seq!['/'] + b, '/') == pieces(a, '/').push(b),
    decreases b.len(),
{
    let whole = a + seq!['/'] + b;
    if b.len() == 0 {
        assert(whole.drop_last() =~= a);
        assert(whole.last() == '/');
        assert(b =~= Seq::<char>::empty());
    } else {
        let rest = b.drop_last();
        assert forall|i: int| 0 <= i < rest.len() implies #[trigger] rest[i] != '/' by {
            assert(rest[i] == b[i]);
        }
        lemma_pieces_join(a, rest);
        assert(whole.drop_last() =~= a + seq!['/'] + rest);
        assert(whole.last() == b.last());
        assert(b[b.len() - 1] != '/');
        let before = pieces(a, '/').push(rest);
        assert(before.drop_last() =~= pieces(a, '/'));
        assert(rest.push(b.last()) =~= b);
    }
}

/// Every post that is indexed has a web address: the address that the ingest
/// rules build for a repository and a record key without slashes leads to the
/// page of that post.
pub proof fn law_indexed_posts_have_links(did: Seq<char>, rkey: Seq<char>)
    requires
        forall|i: int| 0 <= i < did.len() ==> #[trigger] did[i] != '/',
        forall|i: int| 0 <= i < rkey.len() ==> #[trigger] rkey[i] != '/',
    ensures
        web_url(crate::ingest::post_uri(did, rkey)) == "https://bsky.app/profile/"@ + did
            + "/post/"@ + rkey,
{
    reveal_strlit("at://");
    reveal_strlit("/");
    reveal_strlit("app.bsky.feed.post");
    let uri = crate::ingest::post_uri(did, rkey);
    let collection = "app.bsky.feed.post"@;
    let rest = did + seq!['/'] + collection + seq!['/'] + rkey;
    assert("/"@ =~= seq!['/']);
    assert(uri =~= "at://"@ + rest);
    assert(uri.take(5) =~= "at://"@);
    assert(uri.skip(5) =~= rest);
    assert forall|i: int| 0 <= i < collection.len() implies #[trigger] collection[i] != '/' by {}
    lemma_no_slash(did);
    lemma_pieces_join(did, collection);
    lemma_pieces_join(did + seq!['/'] + collection, rkey);
    assert(pieces(rest, '/') =~= seq![did, collection, rkey]);
}

} // verus!
