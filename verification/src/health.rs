//! Health checks of a new container: where an HTTP probe connects and what
//! it asks for.

use vstd::prelude::*;
use crate::text::{chars_of, find_from, first_index, push_str, starts_with, starts_with_at, string_of_range};

verus! {

/// The URL without its `http://` scheme, if it has one.
pub open spec fn without_scheme(url: Seq<char>) -> Seq<char> {
    if starts_with(url, "http://"@) {
        url.skip(7)
    } else {
        url
    }
}

/// The authority an HTTP probe connects to and the path it requests: the
/// text before the first `/` after the scheme, and `/` followed by the rest
/// (`/` alone when there is no path).
pub open spec fn probe_target(url: Seq<char>) -> (Seq<char>, Seq<char>) {
    let w = without_scheme(url);
    let i = first_index(w, '/');
    if i < 0 {
        (w, "/"@)
    } else {
        (w.take(i), "/"@ + w.skip(i + 1))
    }
}

/// Where an HTTP health probe of `url` connects, and the path it requests
/// (see [`probe_target`]).
pub fn http_target(url: &str) -> (r: (String, String))
    ensures
        (r.0@, r.1@) == probe_target(url@),
{
    let v = chars_of(url);
    let n = v.len();
    let scheme = chars_of("http://");
    proof {
        reveal_strlit("http://");
    }
    assert(v@.subrange(0, n as int) =~= v@);
    let start: usize = if starts_with_at(v.as_slice(), 0, n, scheme.as_slice()) {
        scheme.len()
    } else {
        0
    };
    let ghost w = without_scheme(url@);
    assert(v@.subrange(start as int, n as int) =~= w);
    let i = find_from(v.as_slice(), start, n, '/');
    let authority = string_of_range(v.as_slice(), start, i);
    let mut path = String::new();
    push_str(&mut path, "/");
    if i < n {
        crate::text::push_range(&mut path, v.as_slice(), i + 1, n);
        assert(authority@ =~= w.take(i - start));
        assert(path@ =~= "/"@ + w.skip(i - start + 1));
    }
    (authority, path)
}

} // verus!
