//! Lookup of the embedded page assets: the page template by name, and a
//! static asset by request path, with the media type its extension maps to.

use vstd::prelude::*;

use crate::lookup::{find_pair, find_pair_index};
use vstd::utf8::{decode_utf8, valid_utf8};

verus! {

/// The embedded page assets, as pairs of name and raw bytes: the page
/// templates and the static files the page requests.
pub struct AssetStore {
    /// Page templates by file name.
    pub templates: Vec<(String, Vec<u8>)>,
    /// Static assets by file name.
    pub statics: Vec<(String, Vec<u8>)>,
}

/// Relies on String::from_utf8: the bytes decode to exactly the text that
/// the UTF-8 coding gives them, and fail to decode otherwise.
#[verifier::external_body]
fn string_from_utf8(bytes: Vec<u8>) -> (r: Option<String>)
    ensures
        match r {
            Some(s) => valid_utf8(bytes@) && s@ == decode_utf8(bytes@),
            None => !valid_utf8(bytes@),
        },
{
    match String::from_utf8(bytes) {
        Ok(s) => Some(s),
        Err(_) => None,
    }
}

/// Fetch a page template by name and decode it as text; an unknown name or
/// undecodable bytes give nothing.
pub fn get_template(store: &AssetStore, name: &str) -> (r: Option<String>)
    ensures
        ({
            let i = find_pair(store.templates@, name@);
            &&& (i == -1 ==> r is None)
            &&& (i >= 0 ==> {
                let bytes = store.templates@[i].1@;
                &&& (valid_utf8(bytes) ==> (r matches Some(s) && s@ == decode_utf8(bytes)))
                &&& (!valid_utf8(bytes) ==> r is None)
            })
        }),
{
    match find_pair_index(&store.templates, name) {
        Some(i) => {
            let bytes = store.templates[i].1.clone();
            proof {
                assert(bytes@ =~= store.templates@[i as int].1@);
            }
            string_from_utf8(bytes)
        },
        None => None,
    }
}

/// The path under which a static asset is stored: the request path with a
/// leading `/static/` or `static/` removed.
pub open spec fn strip_static_spec(p: Seq<char>) -> Seq<char> {
    if p.len() >= 8 && p.subrange(0, 8) == "/static/"@ {
        p.skip(8)
    } else if p.len() >= 7 && p.subrange(0, 7) == "static/"@ {
        p.skip(7)
    } else {
        p
    }
}

/// Strip a leading `/static/` or `static/` from a request path.
pub fn strip_static_prefix<'a>(path: &'a str) -> (r: &'a str)
    ensures
        r@ == strip_static_spec(path@),
{
    proof {
        reveal_strlit("/static/");
        reveal_strlit("static/");
    }
    let len = path.unicode_len();
    if crate::strutil::str_starts_with(path, "/static/") {
        let r = path.substring_char(8, len);
        proof {
            assert(r@ =~= path@.skip(8));
        }
        return r;
    }
    if crate::strutil::str_starts_with(path, "static/") {
        let r = path.substring_char(7, len);
        proof {
            assert(r@ =~= path@.skip(7));
        }
        return r;
    }
    path
}

/// Index of the last `'.'` of the path, or -1 when there is none.
pub open spec fn last_dot(s: Seq<char>) -> int
    decreases s.len(),
{
    if s.len() == 0 {
        -1
    } else if s[s.len() - 1] == '.' {
        s.len() - 1
    } else {
        last_dot(s.drop_last())
    }
}

proof fn lemma_last_dot_none(s: Seq<char>)
    requires
        forall|t: int| 0 <= t < s.len() ==> s[t] != '.',
    ensures
        last_dot(s) == -1,
    decreases s.len(),
{
    if s.len() == 0 {
    } else {
        assert forall|t: int| 0 <= t < s.drop_last().len() implies s.drop_last()[t] != '.' by {
            assert(s.drop_last()[t] == s[t]);
        }
        lemma_last_dot_none(s.drop_last());
    }
}

proof fn lemma_last_dot_is(s: Seq<char>, k: int)
    requires
        0 <= k < s.len(),
        s[k] == '.',
        forall|t: int| k < t < s.len() ==> s[t] != '.',
    ensures
        last_dot(s) == k,
    decreases s.len(),
{
    if k == s.len() - 1 {
    } else {
        assert(s[s.len() - 1] != '.');
        assert(s.drop_last()[k] == s[k]);
        assert forall|t: int| k < t < s.drop_last().len() implies s.drop_last()[t] != '.' by {
            assert(s.drop_last()[t] == s[t]);
        }
        lemma_last_dot_is(s.drop_last(), k);
    }
}

/// The extension a path's media type goes by: what follows its last `'.'`,
/// or the whole path when it has none.
pub open spec fn ext_of(s: Seq<char>) -> Seq<char> {
    if last_dot(s) == -1 {
        s
    } else {
        s.skip(last_dot(s) + 1)
    }
}

/// The part of the path that follows its last `'.'`, or the whole path
/// when it has none.
fn extension_of<'a>(path: &'a str) -> (r: &'a str)
    ensures
        r@ == ext_of(path@),
{
    let len = path.unicode_len();
    let mut i: usize = len;
    loop
        invariant
            i <= len,
            len == path@.len(),
            forall|t: int| i <= t < len ==> path@[t] != '.',
        decreases i,
    {
        if i == 0 {
            proof {
                lemma_last_dot_none(path@);
            }
            return path;
        }
        let c = path.get_char(i - 1);
        if c == '.' {
            proof {
                lemma_last_dot_is(path@, i - 1);
            }
            let r = path.substring_char(i, len);
            proof {
                assert(r@ =~= path@.skip(i as int));
            }
            return r;
        }
        i = i - 1;
    }
}

/// The media type an extension maps to; an unknown one counts as plain
/// bytes.
pub open spec fn mime_spec(ext: Seq<char>) -> Seq<char> {
    if ext == "css"@ {
        "text/css"@
    } else if ext == "js"@ {
        "application/javascript"@
    } else if ext == "html"@ {
        "text/html"@
    } else if ext == "json"@ {
        "application/json"@
    } else if ext == "png"@ {
        "image/png"@
    } else if ext == "jpg"@ || ext == "jpeg"@ {
        "image/jpeg"@
    } else if ext == "svg"@ {
        "image/svg+xml"@
    } else if ext == "woff"@ || ext == "woff2"@ {
        "font/woff2"@
    } else if ext == "ttf"@ {
        "font/ttf"@
    } else if ext == "eot"@ {
        "application/vnd.ms-fontobject"@
    } else {
        "application/octet-stream"@
    }
}

/// The media type a path's extension maps to.
pub fn get_mime_type(path: &str) -> (r: &'static str)
    ensures
        r@ == mime_spec(ext_of(path@)),
{
    let ext = extension_of(path);
    if crate::strutil::str_eq(ext, "css") {
        "text/css"
    } else if crate::strutil::str_eq(ext, "js") {
        "application/javascript"
    } else if crate::strutil::str_eq(ext, "html") {
        "text/html"
    } else if crate::strutil::str_eq(ext, "json") {
        "application/json"
    } else if crate::strutil::str_eq(ext, "png") {
        "image/png"
    } else if crate::strutil::str_eq(ext, "jpg") || crate::strutil::str_eq(ext, "jpeg") {
        "image/jpeg"
    } else if crate::strutil::str_eq(ext, "svg") {
        "image/svg+xml"
    } else if crate::strutil::str_eq(ext, "woff") || crate::strutil::str_eq(ext, "woff2") {
        "font/woff2"
    } else if crate::strutil::str_eq(ext, "ttf") {
        "font/ttf"
    } else if crate::strutil::str_eq(ext, "eot") {
        "application/vnd.ms-fontobject"
    } else {
        "application/octet-stream"
    }
}

/// Fetch a static asset by request path, together with the media type of
/// its name; an unknown path gives nothing.
pub fn get_asset(store: &AssetStore, path: &str) -> (r: Option<(Vec<u8>, &'static str)>)
    ensures
        ({
            let stripped = strip_static_spec(path@);
            let i = find_pair(store.statics@, stripped);
            &&& (i == -1 ==> r is None)
            &&& (i >= 0 ==> (r matches Some(p) && p.0@ == store.statics@[i].1@ && p.1@ == mime_spec(
                ext_of(stripped),
            )))
        }),
{
    let asset_path = strip_static_prefix(path);
    match find_pair_index(&store.statics, asset_path) {
        Some(i) => {
            let data = store.statics[i].1.clone();
            proof {
                assert(data@ =~= store.statics@[i as int].1@);
            }
            let mime = get_mime_type(asset_path);
            Some((data, mime))
        },
        None => None,
    }
}

} // verus!
