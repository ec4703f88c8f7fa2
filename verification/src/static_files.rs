use vstd::prelude::*;

use crate::http::Body;
use crate::http::HttpResponse;
use crate::http::STATUS_NOT_FOUND;
use crate::http::STATUS_OK;

verus! {

/// The index of the last occurrence of `c` in `s`, or `-1` when `s` has
/// none.
pub open spec fn last_index_of(s: Seq<char>, c: char) -> int
    decreases s.len(),
{
    if s.len() == 0 {
        -1
    } else if s.last() == c {
        s.len() - 1
    } else {
        last_index_of(s.drop_last(), c)
    }
}

/// The extension of a path: the characters after the last dot of its final
/// component, provided that dot is not the component's first character.
pub open spec fn spec_extension(p: Seq<char>) -> Option<Seq<char>> {
    let name = p.subrange(last_index_of(p, '/') + 1, p.len() as int);
    let d = last_index_of(name, '.');
    if d > 0 {
        Some(name.subrange(d + 1, name.len() as int))
    } else {
        None
    }
}

/// The extensions the fixed lookup table maps to a specific content type.
pub open spec fn known_extension(e: Seq<char>) -> bool {
    e == "html"@ || e == "css"@ || e == "js"@ || e == "png"@ || e == "jpg"@ || e == "jpeg"@ || e
        == "gif"@
}

/// The fixed extension-to-content-type table; everything outside it gets the
/// generic binary type.
pub open spec fn mime_of_extension(e: Seq<char>) -> Seq<char> {
    if e == "html"@ {
        "text/html"@
    } else if e == "css"@ {
        "text/css"@
    } else if e == "js"@ {
        "application/javascript"@
    } else if e == "png"@ {
        "image/png"@
    } else if e == "jpg"@ || e == "jpeg"@ {
        "image/jpeg"@
    } else if e == "gif"@ {
        "image/gif"@
    } else {
        "application/octet-stream"@
    }
}

/// The content type a path is served with.
pub open spec fn spec_mime_type(p: Seq<char>) -> Seq<char> {
    match spec_extension(p) {
        Some(e) => mime_of_extension(e),
        None => "application/octet-stream"@,
    }
}

/// `i` is the last occurrence of `c` when nothing after it is `c`.
proof fn lemma_last_index_at(s: Seq<char>, c: char, i: int)
    requires
        0 <= i < s.len(),
        s[i] == c,
        forall|k: int| i < k < s.len() ==> s[k] != c,
    ensures
        last_index_of(s, c) == i,
    decreases s.len(),
{
    if i < s.len() - 1 {
        lemma_last_index_at(s.drop_last(), c, i);
    }
}

/// A sequence without `c` has no last occurrence of it.
proof fn lemma_last_index_absent(s: Seq<char>, c: char)
    requires
        forall|k: int| 0 <= k < s.len() ==> s[k] != c,
    ensures
        last_index_of(s, c) == -1,
    decreases s.len(),
{
    if s.len() != 0 {
        lemma_last_index_absent(s.drop_last(), c);
    }
}

/// The position of the last occurrence of `c` in `s`, as the spec
/// `last_index_of` gives it, or nothing when `s` has none.
fn char_last_index(s: &str, c: char) -> (r: Option<usize>)
    ensures
        r matches Some(i) ==> i < s@.len() && last_index_of(s@, c) == i,
        r is None ==> last_index_of(s@, c) == -1,
{
    let n = s.unicode_len();
    let mut j = n;
    while j > 0
        invariant
            j <= n,
            n == s@.len(),
            forall|k: int| j <= k < s@.len() ==> s@[k] != c,
        decreases j,
    {
        j = j - 1;
        if s.get_char(j) == c {
            proof {
                lemma_last_index_at(s@, c, j as int);
            }
            return Some(j);
        }
    }
    proof {
        lemma_last_index_absent(s@, c);
    }
    None
}

/// Whether two string slices read the same.
pub fn str_eq(a: &str, b: &str) -> (r: bool)
    ensures
        r == (a@ == b@),
{
    let n = a.unicode_len();
    let m = b.unicode_len();
    if n != m {
        proof {
            assert(a@ != b@) by {
                assert(a@.len() != b@.len());
            }
        }
        return false;
    }
    let mut i: usize = 0;
    while i < n
        invariant
            i <= n,
            n == a@.len(),
            n == b@.len(),
            forall|k: int| 0 <= k < i ==> a@[k] == b@[k],
        decreases n - i,
    {
        if a.get_char(i) != b.get_char(i) {
            proof {
                assert(a@[i as int] != b@[i as int]);
            }
            return false;
        }
        i = i + 1;
    }
    proof {
        assert(a@ =~= b@);
    }
    true
}

/// The content type of the file at the given path, from the fixed
/// extension-to-content-type table.
pub fn get_mime_type(path: &str) -> (m: &'static str)
    ensures
        m@ == spec_mime_type(path@),
{
    let n = path.unicode_len();
    let start = match char_last_index(path, '/') {
        Some(i) => i + 1,
        None => 0,
    };
    let name = path.substring_char(start, n);
    proof {
        assert(name@ == path@.subrange(last_index_of(path@, '/') + 1, path@.len() as int));
    }
    let name_len = name.unicode_len();
    let ext = match char_last_index(name, '.') {
        Some(d) => {
            if d > 0 {
                Some(name.substring_char(d + 1, name_len))
            } else {
                None
            }
        },
        None => None,
    };
    match ext {
        Some(e) => {
            proof {
                assert(spec_extension(path@) == Some(e@));
            }
            if str_eq(e, "html") {
                "text/html"
            } else if str_eq(e, "css") {
                "text/css"
            } else if str_eq(e, "js") {
                "application/javascript"
            } else if str_eq(e, "png") {
                "image/png"
            } else if str_eq(e, "jpg") {
                "image/jpeg"
            } else if str_eq(e, "jpeg") {
                "image/jpeg"
            } else if str_eq(e, "gif") {
                "image/gif"
            } else {
                "application/octet-stream"
            }
        },
        None => {
            proof {
                assert(spec_extension(path@) is None);
            }
            "application/octet-stream"
        },
    }
}

/// The request path prefixed with the static-asset root: where the
/// catch-all route looks for the file to serve.
pub fn static_file_target(uri_path: &str) -> (p: String)
    ensures
        p@ == "./static"@ + uri_path@,
{
    let mut p = "./static".to_owned();
    p.append(uri_path);
    p
}

/// A path that names a directory is served as the `index.html` within it; a
/// file path is left as it is.
pub fn resolve_directory(path: String, is_dir: bool) -> (q: String)
    ensures
        !is_dir ==> q@ == path@,
        is_dir && (path@.len() == 0 || path@.last() != '/') ==> q@ == path@ + "/index.html"@,
        is_dir && path@.len() > 0 && path@.last() == '/' ==> q@ == path@ + "index.html"@,
{
    if !is_dir {
        return path;
    }
    let n = path.as_str().unicode_len();
    let mut q = path;
    if n > 0 && q.as_str().get_char(n - 1) == '/' {
        q.append("index.html");
    } else {
        q.append("/index.html");
    }
    q
}

/// The catch-all route's reply for each outcome of reading the resolved
/// file: the raw bytes under the path's content type when the read
/// succeeded, and a fixed not-found reply when it did not.
pub fn serve_static_file(path: &str, contents: Option<Vec<u8>>) -> (r: HttpResponse)
    ensures
        contents matches Some(bytes) ==> (r.body matches Body::File(ct, b) && ct@ == spec_mime_type(
            path@,
        ) && b == bytes && r.status == STATUS_OK),
        contents is None ==> (r.body matches Body::Text(t) && t@ == "File not found"@ && r.status
            == STATUS_NOT_FOUND),
{
    match contents {
        Some(bytes) => {
            let ct = String::from_str(get_mime_type(path));
            HttpResponse { status: STATUS_OK, body: Body::File(ct, bytes) }
        },
        None => HttpResponse {
            status: STATUS_NOT_FOUND,
            body: Body::Text("File not found".to_owned()),
        },
    }
}

/// The last occurrence of `c` in `s + t` sits at `t`'s last occurrence of
/// it, when `t` has one.
proof fn lemma_last_index_append(s: Seq<char>, t: Seq<char>, c: char, j: int)
    requires
        0 <= j < t.len(),
        t[j] == c,
        forall|k: int| j < k < t.len() ==> t[k] != c,
    ensures
        last_index_of(s + t, c) == s.len() + j,
{
    assert forall|k: int| s.len() + j < k < (s + t).len() implies (s + t)[k] != c by {
        assert((s + t)[k] == t[k - s.len()]);
    }
    lemma_last_index_at(s + t, c, s.len() + j);
}

/// A directory path is served through its index file: whatever the
/// directory's own name, the resolved target ends in the index file name and
/// is therefore served as html when it can be read at all.
pub proof fn lemma_directory_serves_index(p: Seq<char>)
    ensures
        spec_mime_type(p + "/index.html"@) == "text/html"@,
{
    reveal_strlit("/index.html");
    reveal_strlit("index");
    reveal_strlit(".html");
    reveal_strlit("index.html");
    reveal_strlit("html");
    reveal_strlit("/");
    reveal_strlit(".");
    let t = "/index.html"@;
    let full = p + t;
    lemma_last_index_append(p, t, '/', 0);
    assert(last_index_of(full, '/') == p.len());
    let name = full.subrange(p.len() as int + 1, full.len() as int);
    assert(name =~= "index.html"@);
    assert("index.html"@ =~= "index"@ + ".html"@);
    lemma_last_index_append("index"@, ".html"@, '.', 0);
    assert(last_index_of(name, '.') == 5);
    assert(name.subrange(6, name.len() as int) =~= "html"@);
    assert(spec_extension(full) == Some("html"@));
}

/// An extension outside the fixed table is served with the generic binary
/// content type, and so is a path with no extension at all.
pub proof fn lemma_unknown_extension_generic(p: Seq<char>)
    requires
        match spec_extension(p) {
            Some(e) => !known_extension(e),
            None => true,
        },
    ensures
        spec_mime_type(p) == "application/octet-stream"@,
{
}

} // verus!
