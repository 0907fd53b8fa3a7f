//! What the `ModelScope` HTTP client sends: its user agent, and the cookie
//! header built from a saved login.

use vstd::prelude::*;

use crate::paths::join_with;

verus! {

/// The user-agent header name.
pub const USER_AGENT_HEADER: &'static str = "User-Agent";

/// The user agent `ModelScope` downloads are made with.
pub const USER_AGENT_VALUE: &'static str = "Mozilla/5.0 (Windows NT 10.0; Win64; x64) AppleWebKit/537.36 (KHTML, like Gecko) Chrome/89.0.4389.90 Safari/537.36";

/// The name of the saved cookies file.
pub const COOKIES_FILE: &'static str = "cookies";

#[verifier::external_type_specification]
#[verifier::external_body]
pub struct ExJsonError(serde_json::Error);

/// The entries of the JSON object a text holds, each value as a string when
/// it is one: `None` when the text is not JSON, `Some(None)` when it is JSON
/// but no object.
pub uninterp spec fn json_object_entries(text: Seq<char>) -> Option<Option<Seq<(Seq<char>, Option<Seq<char>>)>>>;

/// The model of parsed entries.
pub open spec fn entries_view(v: Vec<(String, Option<String>)>) -> Seq<(Seq<char>, Option<Seq<char>>)> {
    v@.map_values(|e: (String, Option<String>)| (e.0@, crate::unified::opt_view(e.1)))
}

/// `serde_json::from_str::<serde_json::Value>`, read as an object: its
/// entries in the order the map iterates them, each value as a string when
/// it is one. The result is named by `json_object_entries`.
#[verifier::external_body]
fn parse_json_object(text: &str) -> (res: Result<Option<Vec<(String, Option<String>)>>, serde_json::Error>)
    ensures
        match res {
            Ok(o) => json_object_entries(text@) == Some(match o {
                Some(v) => Some(entries_view(v)),
                None => None,
            }),
            Err(_) => json_object_entries(text@) is None,
        },
{
    match serde_json::from_str::<serde_json::Value>(text) {
        Ok(value) => Ok(value.as_object().map(|map| {
            map.iter().map(|(k, v)| (k.clone(), v.as_str().map(|s| s.to_owned()))).collect()
        })),
        Err(error) => Err(error),
    }
}

/// Why saved cookies could not be read.
#[derive(Debug)]
pub enum CookieError {
    /// The file is not JSON.
    Json(serde_json::Error),
    /// The JSON is not an object.
    NotObject,
}

/// One `name=value` pair; a value that is not a string counts as empty.
pub open spec fn cookie_pair(e: (Seq<char>, Option<Seq<char>>)) -> Seq<char> {
    e.0 + "="@ + match e.1 {
        Some(v) => v,
        None => seq![],
    }
}

/// The pairs of saved entries.
pub open spec fn cookie_pairs(entries: Seq<(Seq<char>, Option<Seq<char>>)>) -> Seq<Seq<char>> {
    entries.map_values(|e: (Seq<char>, Option<Seq<char>>)| cookie_pair(e))
}

/// The cookie header of saved entries: the pairs joined with `; `.
pub open spec fn cookie_header_spec(entries: Seq<(Seq<char>, Option<Seq<char>>)>) -> Seq<char> {
    join_with(cookie_pairs(entries), "; "@)
}

/// The cookie header of a saved cookies file.
pub fn cookie_header(text: &str) -> (res: Result<String, CookieError>)
    ensures
        match res {
            Ok(h) => json_object_entries(text@) matches Some(Some(es)) && h@ == cookie_header_spec(es),
            Err(CookieError::Json(_)) => json_object_entries(text@) is None,
            Err(CookieError::NotObject) => json_object_entries(text@) == Some(None::<Seq<(Seq<char>, Option<Seq<char>>)>>),
        },
{
    let entries = match parse_json_object(text) {
        Err(e) => {
            return Err(CookieError::Json(e));
        },
        Ok(None) => {
            return Err(CookieError::NotObject);
        },
        Ok(Some(v)) => v,
    };
    let ghost es = entries_view(entries);
    let mut header = String::new();
    let mut i: usize = 0;
    while i < entries.len()
        invariant
            i <= entries@.len(),
            es == entries_view(entries),
            header@ == join_with(cookie_pairs(es.take(i as int)), "; "@),
        decreases entries@.len() - i,
    {
        if i > 0 {
            header.append("; ");
        }
        header.append(entries[i].0.as_str());
        header.append("=");
        match &entries[i].1 {
            Some(v) => header.append(v.as_str()),
            None => {},
        }
        proof {
            let prev = cookie_pairs(es.take(i as int));
            let next = cookie_pairs(es.take(i + 1));
            assert(next =~= prev.push(cookie_pair(es[i as int])));
            assert(next.drop_last() =~= prev);
            if i == 0 {
                assert(prev =~= Seq::<Seq<char>>::empty());
            }
        }
        i += 1;
    }
    assert(es.take(i as int) =~= es);
    Ok(header)
}

} // verus!
