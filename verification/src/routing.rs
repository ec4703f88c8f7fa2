use vstd::prelude::*;

use crate::static_files::str_eq;

verus! {

/// The request methods the route table distinguishes.
#[derive(Clone, Copy, PartialEq, Eq, Debug)]
pub enum Method {
    Get,
    Post,
    Put,
    Delete,
}

/// Where a request lands. The first seven are the fixed routes; `StaticFile`
/// is the catch-all for unmatched paths; `BadRequest` stands for a matched
/// pattern whose id segment is not a number of the expected width; and
/// `MethodNotAllowed` for a matched path whose method the table does not
/// accept there.
#[derive(Clone, Copy, PartialEq, Eq, Debug)]
pub enum Route {
    Root,
    UserById(u32),
    UserDetails,
    TodosAll,
    TodoCreate,
    TodoMarkCompleted(i32),
    TodoDelete(i32),
    StaticFile,
    BadRequest,
    MethodNotAllowed,
}

pub open spec fn is_digit(c: char) -> bool {
    48 <= c as int <= 57
}

pub open spec fn digit_val(c: char) -> int {
    c as int - 48
}

pub open spec fn all_digits(s: Seq<char>) -> bool {
    forall|i: int| 0 <= i < s.len() ==> is_digit(#[trigger] s[i])
}

/// The value of a run of decimal digits, most significant first.
pub open spec fn dec_val(s: Seq<char>) -> int
    decreases s.len(),
{
    if s.len() == 0 {
        0
    } else {
        dec_val(s.drop_last()) * 10 + digit_val(s.last())
    }
}

/// The unsigned 32-bit reading of a path segment: defined exactly when the
/// segment is a nonempty digit run whose value fits.
pub open spec fn spec_parse_u32(s: Seq<char>) -> Option<int> {
    if s.len() > 0 && all_digits(s) && dec_val(s) <= u32::MAX {
        Some(dec_val(s))
    } else {
        None
    }
}

/// The signed 32-bit reading of a path segment: an optional leading minus
/// sign before a nonempty digit run, defined exactly when the value fits.
pub open spec fn spec_parse_i32(s: Seq<char>) -> Option<int> {
    if s.len() > 0 && s[0] == '-' {
        let d = s.subrange(1, s.len() as int);
        if d.len() > 0 && all_digits(d) && -dec_val(d) >= i32::MIN {
            Some(-dec_val(d))
        } else {
            None
        }
    } else if s.len() > 0 && all_digits(s) && dec_val(s) <= i32::MAX {
        Some(dec_val(s))
    } else {
        None
    }
}

proof fn lemma_dec_val_nonneg(s: Seq<char>)
    requires
        all_digits(s),
    ensures
        dec_val(s) >= 0,
    decreases s.len(),
{
    if s.len() != 0 {
        assert(all_digits(s.drop_last())) by {
            assert(forall|i: int| 0 <= i < s.len() - 1 ==> s.drop_last()[i] == s[i]);
        }
        lemma_dec_val_nonneg(s.drop_last());
    }
}

/// A digit run is worth at least any of its prefixes.
proof fn lemma_dec_val_prefix_bound(s: Seq<char>, i: int)
    requires
        all_digits(s),
        0 <= i <= s.len(),
    ensures
        dec_val(s.take(i)) <= dec_val(s),
    decreases s.len() - i,
{
    if i < s.len() {
        lemma_dec_val_prefix_bound(s, i + 1);
        assert(s.take(i + 1).drop_last() =~= s.take(i));
        assert(s.take(i + 1).last() == s[i]);
        assert(all_digits(s.take(i))) by {
            assert(forall|k: int| 0 <= k < i ==> s.take(i)[k] == s[k]);
        }
        lemma_dec_val_nonneg(s.take(i));
    } else {
        assert(s.take(i) =~= s);
    }
}

/// Reads a path segment as an unsigned 32-bit decimal number; nothing when
/// the segment is not a digit run or its value does not fit.
pub fn parse_u32(s: &str) -> (r: Option<u32>)
    ensures
        r matches Some(v) ==> spec_parse_u32(s@) == Some(v as int),
        r is None ==> spec_parse_u32(s@) is None,
{
    let n = s.unicode_len();
    if n == 0 {
        return None;
    }
    let mut acc: u64 = 0;
    let mut i: usize = 0;
    while i < n
        invariant
            i <= n,
            n == s@.len(),
            all_digits(s@.take(i as int)),
            acc == dec_val(s@.take(i as int)),
            acc <= u32::MAX,
        decreases n - i,
    {
        let c = s.get_char(i);
        let v = c as u32;
        if v < 48 || v > 57 {
            proof {
                assert(!is_digit(s@[i as int]));
            }
            return None;
        }
        proof {
            assert(s@.take(i as int + 1).drop_last() =~= s@.take(i as int));
            assert(s@.take(i as int + 1).last() == s@[i as int]);
            assert(all_digits(s@.take(i as int + 1))) by {
                assert(forall|k: int|
                    0 <= k < i as int + 1 ==> s@.take(i as int + 1)[k] == s@[k]);
            }
        }
        acc = acc * 10 + ((v - 48) as u64);
        i = i + 1;
        if acc > 0xFFFF_FFFF {
            proof {
                if all_digits(s@) {
                    lemma_dec_val_prefix_bound(s@, i as int);
                }
            }
            return None;
        }
    }
    proof {
        assert(s@.take(n as int) =~= s@);
    }
    Some(acc as u32)
}

/// Reads a path segment as a signed 32-bit decimal number, an optional
/// leading minus sign allowed; nothing when the segment is not such a number
/// or its value does not fit.
pub fn parse_i32(s: &str) -> (r: Option<i32>)
    ensures
        r matches Some(v) ==> spec_parse_i32(s@) == Some(v as int),
        r is None ==> spec_parse_i32(s@) is None,
{
    let n = s.unicode_len();
    if n == 0 {
        return None;
    }
    if s.get_char(0) == '-' {
        let ghost d = s@.subrange(1, s@.len() as int);
        if n == 1 {
            proof {
                assert(d.len() == 0);
            }
            return None;
        }
        let mut acc: u64 = 0;
        let mut i: usize = 1;
        while i < n
            invariant
                1 <= i <= n,
                n == s@.len(),
                s@[0] == '-',
                d == s@.subrange(1, s@.len() as int),
                all_digits(d.take(i as int - 1)),
                acc == dec_val(d.take(i as int - 1)),
                acc <= 0x8000_0000,
            decreases n - i,
        {
            let c = s.get_char(i);
            let v = c as u32;
            if v < 48 || v > 57 {
                proof {
                    assert(d[i as int - 1] == s@[i as int]);
                    assert(!is_digit(d[i as int - 1]));
                }
                return None;
            }
            proof {
                assert(d.take(i as int).drop_last() =~= d.take(i as int - 1));
                assert(d.take(i as int).last() == d[i as int - 1]);
                assert(d[i as int - 1] == s@[i as int]);
                assert(all_digits(d.take(i as int))) by {
                    assert(forall|k: int| 0 <= k < i as int ==> d.take(i as int)[k] == d[k]);
                }
            }
            acc = acc * 10 + ((v - 48) as u64);
            i = i + 1;
            if acc > 0x8000_0000 {
                proof {
                    if all_digits(d) {
                        lemma_dec_val_prefix_bound(d, i as int - 1);
                    }
                }
                return None;
            }
        }
        proof {
            assert(d.take(n as int - 1) =~= d);
        }
        if acc == 0x8000_0000 {
            return Some(i32::MIN);
        }
        Some(0 - (acc as i32))
    } else {
        let mut acc: u64 = 0;
        let mut i: usize = 0;
        while i < n
            invariant
                i <= n,
                n == s@.len(),
                s@[0] != '-',
                all_digits(s@.take(i as int)),
                acc == dec_val(s@.take(i as int)),
                acc <= i32::MAX,
            decreases n - i,
        {
            let c = s.get_char(i);
            let v = c as u32;
            if v < 48 || v > 57 {
                proof {
                    assert(!is_digit(s@[i as int]));
                }
                return None;
            }
            proof {
                assert(s@.take(i as int + 1).drop_last() =~= s@.take(i as int));
                assert(s@.take(i as int + 1).last() == s@[i as int]);
                assert(all_digits(s@.take(i as int + 1))) by {
                    assert(forall|k: int|
                        0 <= k < i as int + 1 ==> s@.take(i as int + 1)[k] == s@[k]);
                }
            }
            acc = acc * 10 + ((v - 48) as u64);
            i = i + 1;
            if acc > 0x7FFF_FFFF {
                proof {
                    if all_digits(s@) {
                        lemma_dec_val_prefix_bound(s@, i as int);
                    }
                }
                return None;
            }
        }
        proof {
            assert(s@.take(n as int) =~= s@);
        }
        Some(acc as i32)
    }
}

/// Whether `s` begins with `p`.
pub fn has_prefix(s: &str, p: &str) -> (r: bool)
    ensures
        r == (s@.len() >= p@.len() && s@.subrange(0, p@.len() as int) == p@),
{
    let n = s.unicode_len();
    let m = p.unicode_len();
    if n < m {
        return false;
    }
    let mut i: usize = 0;
    while i < m
        invariant
            i <= m,
            m <= n,
            n == s@.len(),
            m == p@.len(),
            forall|k: int| 0 <= k < i ==> s@[k] == p@[k],
        decreases m - i,
    {
        if s.get_char(i) != p.get_char(i) {
            proof {
                assert(s@.subrange(0, p@.len() as int)[i as int] != p@[i as int]);
            }
            return false;
        }
        i = i + 1;
    }
    proof {
        assert(s@.subrange(0, p@.len() as int) =~= p@);
    }
    true
}

/// Whether `s` ends with `p`.
pub fn has_suffix(s: &str, p: &str) -> (r: bool)
    ensures
        r == (s@.len() >= p@.len() && s@.subrange(s@.len() - p@.len(), s@.len() as int) == p@),
{
    let n = s.unicode_len();
    let m = p.unicode_len();
    if n < m {
        return false;
    }
    let mut i: usize = 0;
    while i < m
        invariant
            i <= m,
            m <= n,
            n == s@.len(),
            m == p@.len(),
            forall|k: int| 0 <= k < i ==> s@[s@.len() - p@.len() + k] == p@[k],
        decreases m - i,
    {
        if s.get_char(n - m + i) != p.get_char(i) {
            proof {
                assert(s@.subrange(s@.len() - p@.len(), s@.len() as int)[i as int] != p@[
                    i as int]);
            }
            return false;
        }
        i = i + 1;
    }
    proof {
        assert(s@.subrange(s@.len() - p@.len(), s@.len() as int) =~= p@);
    }
    true
}

/// Whether `c` occurs anywhere in `s`.
pub fn has_char(s: &str, c: char) -> (r: bool)
    ensures
        r == (exists|i: int| 0 <= i < s@.len() && s@[i] == c),
{
    let n = s.unicode_len();
    let mut i: usize = 0;
    while i < n
        invariant
            i <= n,
            n == s@.len(),
            forall|k: int| 0 <= k < i ==> s@[k] != c,
        decreases n - i,
    {
        if s.get_char(i) == c {
            return true;
        }
        i = i + 1;
    }
    false
}

/// No separator anywhere: the text is a single path segment.
pub open spec fn single_segment(s: Seq<char>) -> bool {
    forall|i: int| 0 <= i < s.len() ==> #[trigger] s[i] != '/'
}

/// A path of the shape `/user/{id}`: one nonempty segment after the prefix.
pub open spec fn is_user_path(p: Seq<char>) -> bool {
    p.len() > 6 && p.subrange(0, 6) == "/user/"@ && single_segment(p.subrange(6, p.len() as int))
}

pub open spec fn user_seg(p: Seq<char>) -> Seq<char> {
    p.subrange(6, p.len() as int)
}

/// A path of the shape `/todo/{id}/mark/completed`.
pub open spec fn is_todo_mark_path(p: Seq<char>) -> bool {
    p.len() > 21 && p.subrange(0, 6) == "/todo/"@ && p.subrange(p.len() - 15, p.len() as int)
        == "/mark/completed"@ && single_segment(p.subrange(6, p.len() - 15))
}

pub open spec fn todo_mark_seg(p: Seq<char>) -> Seq<char> {
    p.subrange(6, p.len() - 15)
}

/// A path of the shape `/todo/{id}/delete`.
pub open spec fn is_todo_delete_path(p: Seq<char>) -> bool {
    p.len() > 13 && p.subrange(0, 6) == "/todo/"@ && p.subrange(p.len() - 7, p.len() as int)
        == "/delete"@ && single_segment(p.subrange(6, p.len() - 7))
}

pub open spec fn todo_delete_seg(p: Seq<char>) -> Seq<char> {
    p.subrange(6, p.len() - 7)
}

/// The route table. Fixed paths come first; the parameterised patterns
/// next; everything else falls through to the static-file catch-all, which
/// answers only reads. A path the table knows under another method is
/// refused as such rather than falling through, so `/todos/all` can never be
/// served as a static file.
pub open spec fn spec_route(m: Method, p: Seq<char>) -> Route {
    if p == "/root"@ {
        if m is Get {
            Route::Root
        } else {
            Route::MethodNotAllowed
        }
    } else if p == "/user/details"@ {
        if m is Post {
            Route::UserDetails
        } else {
            Route::MethodNotAllowed
        }
    } else if p == "/todos/all"@ {
        if m is Get {
            Route::TodosAll
        } else {
            Route::MethodNotAllowed
        }
    } else if p == "/todo/create"@ {
        if m is Post {
            Route::TodoCreate
        } else {
            Route::MethodNotAllowed
        }
    } else if is_user_path(p) {
        if m is Get {
            match spec_parse_u32(user_seg(p)) {
                Some(v) => Route::UserById(v as u32),
                None => Route::BadRequest,
            }
        } else {
            Route::MethodNotAllowed
        }
    } else if is_todo_mark_path(p) {
        if m is Put {
            match spec_parse_i32(todo_mark_seg(p)) {
                Some(v) => Route::TodoMarkCompleted(v as i32),
                None => Route::BadRequest,
            }
        } else {
            Route::MethodNotAllowed
        }
    } else if is_todo_delete_path(p) {
        if m is Delete {
            match spec_parse_i32(todo_delete_seg(p)) {
                Some(v) => Route::TodoDelete(v as i32),
                None => Route::BadRequest,
            }
        } else {
            Route::MethodNotAllowed
        }
    } else {
        if m is Get {
            Route::StaticFile
        } else {
            Route::MethodNotAllowed
        }
    }
}

/// Resolves a request against the route table.
pub fn match_route(m: Method, path: &str) -> (r: Route)
    ensures
        r == spec_route(m, path@),
{
    proof {
        reveal_strlit("/user/");
        reveal_strlit("/todo/");
        reveal_strlit("/mark/completed");
        reveal_strlit("/delete");
    }
    let n = path.unicode_len();
    if str_eq(path, "/root") {
        return if matches!(m, Method::Get) {
            Route::Root
        } else {
            Route::MethodNotAllowed
        };
    }
    if str_eq(path, "/user/details") {
        return if matches!(m, Method::Post) {
            Route::UserDetails
        } else {
            Route::MethodNotAllowed
        };
    }
    if str_eq(path, "/todos/all") {
        return if matches!(m, Method::Get) {
            Route::TodosAll
        } else {
            Route::MethodNotAllowed
        };
    }
    if str_eq(path, "/todo/create") {
        return if matches!(m, Method::Post) {
            Route::TodoCreate
        } else {
            Route::MethodNotAllowed
        };
    }
    if n > 6 && has_prefix(path, "/user/") {
        let seg = path.substring_char(6, n);
        if !has_char(seg, '/') {
            if !matches!(m, Method::Get) {
                return Route::MethodNotAllowed;
            }
            return match parse_u32(seg) {
                Some(v) => Route::UserById(v),
                None => Route::BadRequest,
            };
        }
    }
    if n > 21 && has_prefix(path, "/todo/") && has_suffix(path, "/mark/completed") {
        let seg = path.substring_char(6, n - 15);
        if !has_char(seg, '/') {
            if !matches!(m, Method::Put) {
                return Route::MethodNotAllowed;
            }
            return match parse_i32(seg) {
                Some(v) => Route::TodoMarkCompleted(v),
                None => Route::BadRequest,
            };
        }
    }
    if n > 13 && has_prefix(path, "/todo/") && has_suffix(path, "/delete") {
        let seg = path.substring_char(6, n - 7);
        if !has_char(seg, '/') {
            if !matches!(m, Method::Delete) {
                return Route::MethodNotAllowed;
            }
            return match parse_i32(seg) {
                Some(v) => Route::TodoDelete(v),
                None => Route::BadRequest,
            };
        }
    }
    if matches!(m, Method::Get) {
        Route::StaticFile
    } else {
        Route::MethodNotAllowed
    }
}

} // verus!
