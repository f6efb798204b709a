//! Container logs: the text of a chunk of a container's output as it is
//! published to the dashboard.

use vstd::prelude::*;
use vstd::utf8::{decode_utf8, valid_utf8};
use crate::api::public_routes::{lossy_decode, string_from_utf8_lossy};
use crate::text::{chars_of, string_of_range};

verus! {

/// `s` without the newlines it ends with.
pub open spec fn trim_newlines_end(s: Seq<char>) -> Seq<char>
    decreases s.len(),
{
    if s.len() > 0 && s.last() == '\n' {
        trim_newlines_end(s.drop_last())
    } else {
        s
    }
}

/// The text published for decoded output: without its trailing newlines;
/// nothing when that leaves it empty.
pub fn published_text(text: &str) -> (r: Option<String>)
    ensures
        trim_newlines_end(text@).len() == 0 <==> r is None,
        r matches Some(t) ==> t@ == trim_newlines_end(text@),
{
    let v = chars_of(text);
    let mut k = v.len();
    assert(v@.take(k as int) =~= v@);
    while k > 0 && v[k - 1] == '\n'
        invariant
            k <= v@.len(),
            v@ == text@,
            trim_newlines_end(v@.take(k as int)) == trim_newlines_end(v@),
        decreases k,
    {
        assert(v@.take(k as int).drop_last() =~= v@.take(k - 1));
        k = k - 1;
    }
    if k == 0 {
        return None;
    }
    assert(v@.subrange(0, k as int) =~= v@.take(k as int));
    Some(string_of_range(v.as_slice(), 0, k))
}

/// The text published for a chunk of a container's output: decoded as
/// UTF-8 (invalid sequences replaced), then as [`published_text`] says.
pub fn log_text(bytes: &[u8]) -> (r: Option<String>)
    ensures
        trim_newlines_end(lossy_decode(bytes@)).len() == 0 <==> r is None,
        r matches Some(t) ==> t@ == trim_newlines_end(lossy_decode(bytes@)),
        valid_utf8(bytes@) ==> (r is None <==> trim_newlines_end(decode_utf8(bytes@)).len() == 0),
        valid_utf8(bytes@) ==> (r matches Some(t) ==> t@ == trim_newlines_end(decode_utf8(bytes@))),
{
    let text = string_from_utf8_lossy(bytes);
    published_text(text.as_str())
}

} // verus!
