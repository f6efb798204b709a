//! Character-sequence helpers shared by the rest of the library.
//!
//! Text is specified as `Seq<char>` (the view of `str`/`String`) and handled
//! in executable code as `Vec<char>` plus index ranges, so that trimming,
//! splitting and searching can be stated and proved once here.

use vstd::prelude::*;

verus! {

// ───────────────────────────── specifications ─────────────────────────────

/// Rust's `char::is_whitespace`: the Unicode `White_Space` property.
pub open spec fn is_ws(c: char) -> bool {
    let u = c as u32;
    (9 <= u && u <= 13) || u == 32 || u == 0x85 || u == 0xA0 || u == 0x1680 || (0x2000 <= u
        && u <= 0x200A) || u == 0x2028 || u == 0x2029 || u == 0x202F || u == 0x205F || u
        == 0x3000
}

/// `str::trim_end`.
pub open spec fn trim_end(s: Seq<char>) -> Seq<char>
    decreases s.len(),
{
    if s.len() > 0 && is_ws(s.last()) {
        trim_end(s.drop_last())
    } else {
        s
    }
}

/// `str::trim_start`.
pub open spec fn trim_start(s: Seq<char>) -> Seq<char>
    decreases s.len(),
{
    if s.len() > 0 && is_ws(s[0]) {
        trim_start(s.drop_first())
    } else {
        s
    }
}

/// `str::trim`.
pub open spec fn trim(s: Seq<char>) -> Seq<char> {
    trim_start(trim_end(s))
}

/// True when every character of `s` is whitespace (`s.trim().is_empty()`).
pub open spec fn is_blank(s: Seq<char>) -> bool {
    forall|i: int| 0 <= i < s.len() ==> is_ws(#[trigger] s[i])
}

/// Index of the first `c` in `s`, or `-1` when `s` has none.
pub open spec fn first_index(s: Seq<char>, c: char) -> int
    decreases s.len(),
{
    if s.len() == 0 {
        -1
    } else if s[0] == c {
        0
    } else {
        let r = first_index(s.drop_first(), c);
        if r < 0 {
            -1
        } else {
            r + 1
        }
    }
}

/// `s` begins with `p`.
pub open spec fn starts_with(s: Seq<char>, p: Seq<char>) -> bool {
    p.len() <= s.len() && s.take(p.len() as int) == p
}

/// `s` ends with `p`.
pub open spec fn ends_with(s: Seq<char>, p: Seq<char>) -> bool {
    p.len() <= s.len() && s.skip(s.len() - p.len()) == p
}

/// `t` occurs in `s` at index `i`.
pub open spec fn occurs_at(s: Seq<char>, t: Seq<char>, i: int) -> bool {
    0 <= i && i + t.len() <= s.len() && s.subrange(i, i + t.len()) == t
}

/// `str::contains` for a string pattern.
pub open spec fn contains(s: Seq<char>, t: Seq<char>) -> bool {
    exists|i: int| occurs_at(s, t, i)
}

/// The decimal digit character for `d < 10`.
pub open spec fn digit_char(d: nat) -> char {
    if d == 0 {
        '0'
    } else if d == 1 {
        '1'
    } else if d == 2 {
        '2'
    } else if d == 3 {
        '3'
    } else if d == 4 {
        '4'
    } else if d == 5 {
        '5'
    } else if d == 6 {
        '6'
    } else if d == 7 {
        '7'
    } else if d == 8 {
        '8'
    } else {
        '9'
    }
}

/// Decimal rendering of `n`, as `format!("{n}")` prints it.
pub open spec fn dec(n: nat) -> Seq<char>
    decreases n,
{
    if n < 10 {
        seq![digit_char(n)]
    } else {
        dec(n / 10).push(digit_char(n % 10))
    }
}

/// `c` is one of `'0'..='9'`.
pub open spec fn is_digit(c: char) -> bool {
    '0' <= c && c <= '9'
}

/// All characters of `s` are decimal digits.
pub open spec fn all_digits(s: Seq<char>) -> bool {
    forall|i: int| 0 <= i < s.len() ==> is_digit(#[trigger] s[i])
}

/// Value of a run of decimal digits.
pub open spec fn digits_value(s: Seq<char>) -> nat
    decreases s.len(),
{
    if s.len() == 0 {
        0
    } else {
        digits_value(s.drop_last()) * 10 + ((s.last() as u32) - 48) as nat
    }
}

/// `str::parse` for an unsigned integer type whose largest value is `max`:
/// an optional leading `+`, then one or more decimal digits, without overflow.
pub open spec fn parse_unsigned(s: Seq<char>, max: nat) -> Option<nat> {
    let d = if s.len() > 1 && s[0] == '+' {
        s.drop_first()
    } else {
        s
    };
    if d.len() == 0 || !all_digits(d) || digits_value(d) > max {
        None
    } else {
        Some(digits_value(d))
    }
}


/// Drops one trailing `'\r'` (what `str::lines` does to a line that ended
/// in `"\r\n"`).
pub open spec fn strip_cr(l: Seq<char>) -> Seq<char> {
    if l.len() > 0 && l.last() == '\r' {
        l.drop_last()
    } else {
        l
    }
}

/// `str::lines`: pieces separated by `'\n'`, a `'\r'` before the `'\n'`
/// removed, and no empty piece after a final `'\n'`.
pub open spec fn lines(s: Seq<char>) -> Seq<Seq<char>>
    decreases s.len(),
{
    if s.len() == 0 {
        Seq::empty()
    } else {
        let i = first_index(s, '\n');
        if i < 0 {
            seq![s]
        } else {
            proof {
                lemma_first_index(s, '\n');
            }
            seq![strip_cr(s.take(i))] + lines(s.skip(i + 1))
        }
    }
}

/// The pieces of `v` that the index pairs of `r` delimit.
pub open spec fn pieces(v: Seq<char>, r: Seq<(usize, usize)>) -> Seq<Seq<char>> {
    Seq::new(r.len(), |k: int| v.subrange(r[k].0 as int, r[k].1 as int))
}

/// Index pairs that all lie within `v`.
pub open spec fn ranges_within(v: Seq<char>, r: Seq<(usize, usize)>) -> bool {
    forall|k: int| 0 <= k < r.len() ==> #[trigger] r[k].0 <= r[k].1 && r[k].1 <= v.len()
}

// ───────────────────────────────── lemmas ─────────────────────────────────

/// `first_index` is the first occurrence, or `-1` when there is none.
pub proof fn lemma_first_index(s: Seq<char>, c: char)
    ensures
        -1 <= first_index(s, c) < s.len(),
        first_index(s, c) == -1 <==> (forall|j: int| 0 <= j < s.len() ==> s[j] != c),
        first_index(s, c) >= 0 ==> s[first_index(s, c)] == c,
        forall|j: int| 0 <= j < first_index(s, c) ==> s[j] != c,
    decreases s.len(),
{
    if s.len() > 0 && s[0] != c {
        lemma_first_index(s.drop_first(), c);
        assert forall|j: int| 0 <= j < s.len() implies #[trigger] s[j] == s.drop_first()[j - 1]
            || j == 0 by {}
    }
}

/// A position that is the first occurrence is what `first_index` returns.
pub proof fn lemma_first_index_is(s: Seq<char>, c: char, i: int)
    requires
        -1 <= i < s.len(),
        i >= 0 ==> s[i] == c,
        forall|j: int| 0 <= j < s.len() && (i < 0 || j < i) ==> s[j] != c,
    ensures
        first_index(s, c) == i,
{
    lemma_first_index(s, c);
    let r = first_index(s, c);
    if r >= 0 && i >= 0 {
        if r < i {
            assert(s[r] != c);
        } else if i < r {
            assert(s[i] != c);
        }
    } else if r >= 0 && i < 0 {
        assert(s[r] != c);
    } else if r < 0 && i >= 0 {
        assert(s[i] != c);
    }
}

/// Digit characters are digits and carry their value.
pub proof fn lemma_digit_char(d: nat)
    requires
        d < 10,
    ensures
        is_digit(digit_char(d)),
        (digit_char(d) as u32 - 48) as nat == d,
{
}

/// Parsing the rendering of a number gives it back.
pub proof fn lemma_dec_digits(n: nat)
    ensures
        all_digits(dec(n)),
        digits_value(dec(n)) == n,
        dec(n).len() >= 1,
    decreases n,
{
    let t = dec(n);
    lemma_digit_char(n % 10);
    if n < 10 {
        assert(n % 10 == n);
        assert(t == seq![digit_char(n)]);
        assert(t.drop_last() =~= Seq::<char>::empty());
        assert(digits_value(t.drop_last()) == 0);
        assert(t.last() == digit_char(n));
        assert(digits_value(t) == digits_value(t.drop_last()) * 10 + ((t.last() as u32) - 48) as nat);
        assert(all_digits(t)) by {
            assert forall|i: int| 0 <= i < t.len() implies is_digit(#[trigger] t[i]) by {
                assert(i == 0);
            }
        }
    } else {
        lemma_dec_digits(n / 10);
        let d = dec(n / 10);
        assert(t == d.push(digit_char(n % 10)));
        assert(t.drop_last() =~= d);
        assert(t.last() == digit_char(n % 10));
        assert(digits_value(t) == digits_value(t.drop_last()) * 10 + ((t.last() as u32) - 48) as nat);
        assert(digits_value(t) == (n / 10) * 10 + n % 10);
        assert(n == (n / 10) * 10 + n % 10);
        assert forall|i: int| 0 <= i < t.len() implies is_digit(#[trigger] t[i]) by {
            if i < d.len() {
                assert(t[i] == d[i]);
            }
        }
    }
}

/// A digit run's value bounds the value of each of its prefixes.
pub proof fn lemma_digits_value_prefix(s: Seq<char>, k: int)
    requires
        0 <= k <= s.len(),
        all_digits(s),
    ensures
        digits_value(s.take(k)) <= digits_value(s),
    decreases s.len() - k,
{
    if k == s.len() {
        assert(s.take(k) =~= s);
    } else {
        lemma_digits_value_prefix(s, k + 1);
        let t = s.take(k + 1);
        assert(t.drop_last() =~= s.take(k));
        assert(t.last() == s[k]);
        assert(is_digit(s[k]));
        assert(digits_value(t) == digits_value(s.take(k)) * 10 + ((s[k] as u32) - 48) as nat);
    }
}

// ─────────────────────────── executable helpers ───────────────────────────

/// `char::is_whitespace`.
pub fn char_is_ws(c: char) -> (b: bool)
    ensures
        b == is_ws(c),
{
    let u = c as u32;
    (9 <= u && u <= 13) || u == 32 || u == 0x85 || u == 0xA0 || u == 0x1680 || (0x2000 <= u
        && u <= 0x200A) || u == 0x2028 || u == 0x2029 || u == 0x202F || u == 0x205F || u
        == 0x3000
}

/// The characters of `s`, in order.
pub fn chars_of(s: &str) -> (v: Vec<char>)
    ensures
        v@ == s@,
{
    let mut v: Vec<char> = Vec::new();
    for c in it: s.chars()
        invariant
            v@ == it.seq().take(it.index() as int),
    {
        v.push(c);
    }
    v
}

/// `String::push`: appends one character.
#[verifier::external_body]
pub fn push_char(s: &mut String, c: char)
    ensures
        final(s)@ == old(s)@.push(c),
{
    s.push(c);
}

/// Appends `v[lo..hi]` to `out`.
pub fn push_range(out: &mut String, v: &[char], lo: usize, hi: usize)
    requires
        lo <= hi <= v@.len(),
    ensures
        final(out)@ == old(out)@ + v@.subrange(lo as int, hi as int),
{
    let ghost start = out@;
    let mut i = lo;
    while i < hi
        invariant
            lo <= i <= hi <= v@.len(),
            out@ == start + v@.subrange(lo as int, i as int),
        decreases hi - i,
    {
        push_char(out, v[i]);
        i = i + 1;
        assert(v@.subrange(lo as int, i as int) =~= v@.subrange(lo as int, i - 1).push(v@[i - 1]));
    }
}

/// Appends a string slice.
pub fn push_str(out: &mut String, s: &str)
    ensures
        final(out)@ == old(out)@ + s@,
{
    let v = chars_of(s);
    push_range(out, v.as_slice(), 0, v.len());
    assert(v@.subrange(0, v@.len() as int) =~= v@);
}

/// The string made of `v[lo..hi]`.
pub fn string_of_range(v: &[char], lo: usize, hi: usize) -> (s: String)
    requires
        lo <= hi <= v@.len(),
    ensures
        s@ == v@.subrange(lo as int, hi as int),
{
    let mut s = String::new();
    push_range(&mut s, v, lo, hi);
    s
}

/// The string made of all of `v`.
pub fn string_of(v: &[char]) -> (s: String)
    ensures
        s@ == v@,
{
    let s = string_of_range(v, 0, v.len());
    assert(v@.subrange(0, v@.len() as int) =~= v@);
    s
}

/// End of `v[lo..hi]` with trailing whitespace removed.
pub fn trim_end_at(v: &[char], lo: usize, hi: usize) -> (k: usize)
    requires
        lo <= hi <= v@.len(),
    ensures
        lo <= k <= hi,
        v@.subrange(lo as int, k as int) == trim_end(v@.subrange(lo as int, hi as int)),
{
    let mut k = hi;
    while k > lo && char_is_ws(v[k - 1])
        invariant
            lo <= k <= hi <= v@.len(),
            trim_end(v@.subrange(lo as int, k as int)) == trim_end(
                v@.subrange(lo as int, hi as int),
            ),
        decreases k,
    {
        assert(v@.subrange(lo as int, k as int).drop_last() =~= v@.subrange(lo as int, k - 1));
        k = k - 1;
    }
    k
}

/// Start of `v[lo..hi]` with leading whitespace removed.
pub fn trim_start_at(v: &[char], lo: usize, hi: usize) -> (k: usize)
    requires
        lo <= hi <= v@.len(),
    ensures
        lo <= k <= hi,
        v@.subrange(k as int, hi as int) == trim_start(v@.subrange(lo as int, hi as int)),
{
    let mut k = lo;
    while k < hi && char_is_ws(v[k])
        invariant
            lo <= k <= hi <= v@.len(),
            trim_start(v@.subrange(k as int, hi as int)) == trim_start(
                v@.subrange(lo as int, hi as int),
            ),
        decreases hi - k,
    {
        assert(v@.subrange(k as int, hi as int).drop_first() =~= v@.subrange(k + 1, hi as int));
        k = k + 1;
    }
    k
}

/// Bounds of `v[lo..hi].trim()`.
pub fn trim_at(v: &[char], lo: usize, hi: usize) -> (r: (usize, usize))
    requires
        lo <= hi <= v@.len(),
    ensures
        lo <= r.0 <= r.1 <= hi,
        v@.subrange(r.0 as int, r.1 as int) == trim(v@.subrange(lo as int, hi as int)),
{
    let e = trim_end_at(v, lo, hi);
    let b = trim_start_at(v, lo, e);
    (b, e)
}

/// First index of `c` in `v[lo..hi]` (relative to `v`), or `hi` when absent.
pub fn find_from(v: &[char], lo: usize, hi: usize, c: char) -> (i: usize)
    requires
        lo <= hi <= v@.len(),
    ensures
        lo <= i <= hi,
        i < hi ==> v@[i as int] == c,
        forall|j: int| lo <= j < i ==> v@[j] != c,
        first_index(v@.subrange(lo as int, hi as int), c) == if i < hi {
            i - lo
        } else {
            -1
        },
{
    let mut i = lo;
    while i < hi && v[i] != c
        invariant
            lo <= i <= hi <= v@.len(),
            forall|j: int| lo <= j < i ==> v@[j] != c,
        decreases hi - i,
    {
        i = i + 1;
    }
    let ghost sub = v@.subrange(lo as int, hi as int);
    proof {
        lemma_first_index_is(sub, c, if i < hi { i - lo } else { -1 });
    }
    i
}


/// Bounds of the lines of `v` (see [`lines`]).
pub fn line_bounds(v: &[char]) -> (r: Vec<(usize, usize)>)
    ensures
        ranges_within(v@, r@),
        pieces(v@, r@) == lines(v@),
{
    let n = v.len();
    let mut r: Vec<(usize, usize)> = Vec::new();
    let mut pos: usize = 0;
    assert(v@.skip(0) =~= v@);
    assert(pieces(v@, r@) =~= Seq::<Seq<char>>::empty());
    while pos < n
        invariant
            n == v@.len(),
            pos <= n,
            ranges_within(v@, r@),
            lines(v@) == pieces(v@, r@) + lines(v@.skip(pos as int)),
        decreases n - pos,
    {
        let j = find_from(v, pos, n, '\n');
        let ghost rest = v@.skip(pos as int);
        assert(rest =~= v@.subrange(pos as int, n as int));
        let ghost old_r = r@;
        if j == n {
            r.push((pos, n));
            assert(lines(rest) == seq![rest]);
            assert(pieces(v@, r@) =~= pieces(v@, old_r) + seq![rest]);
            assert(v@.skip(n as int) =~= Seq::<char>::empty());
            assert(lines(v@.skip(n as int)) =~= Seq::<Seq<char>>::empty());
            assert(lines(v@) =~= pieces(v@, r@) + lines(v@.skip(n as int)));
            pos = n;
        } else {
            let e = if j > pos && v[j - 1] == '\r' {
                j - 1
            } else {
                j
            };
            r.push((pos, e));
            let ghost i = (j - pos) as int;
            assert(rest.take(i) =~= v@.subrange(pos as int, j as int));
            assert(strip_cr(rest.take(i)) =~= v@.subrange(pos as int, e as int));
            assert(rest.skip(i + 1) =~= v@.skip(j + 1));
            assert(lines(rest) == seq![strip_cr(rest.take(i))] + lines(rest.skip(i + 1)));
            assert(pieces(v@, r@) =~= pieces(v@, old_r) + seq![v@.subrange(pos as int, e as int)]);
            assert(lines(v@) =~= pieces(v@, r@) + lines(v@.skip(j + 1)));
            pos = j + 1;
        }
    }
    assert(v@.skip(pos as int) =~= Seq::<char>::empty());
    assert(lines(v@.skip(pos as int)) =~= Seq::<Seq<char>>::empty());
    assert(lines(v@) =~= pieces(v@, r@));
    r
}

/// Every character of `v[lo..hi]` is whitespace.
pub fn is_blank_at(v: &[char], lo: usize, hi: usize) -> (b: bool)
    requires
        lo <= hi <= v@.len(),
    ensures
        b == is_blank(v@.subrange(lo as int, hi as int)),
{
    let mut i = lo;
    while i < hi
        invariant
            lo <= i <= hi <= v@.len(),
            forall|j: int| lo <= j < i ==> is_ws(v@[j]),
        decreases hi - i,
    {
        if !char_is_ws(v[i]) {
            assert(!is_ws(v@.subrange(lo as int, hi as int)[i - lo]));
            return false;
        }
        i = i + 1;
    }
    assert forall|j: int| 0 <= j < hi - lo implies is_ws(#[trigger] v@.subrange(lo as int, hi as int)[j]) by {
        assert(is_ws(v@[lo + j]));
    }
    true
}

/// Equality of two string slices by content.
pub fn str_eq(a: &str, b: &str) -> (r: bool)
    ensures
        r == (a@ == b@),
{
    let x = chars_of(a);
    let y = chars_of(b);
    if x.len() != y.len() {
        assert(a@.len() != b@.len());
        return false;
    }
    let mut i: usize = 0;
    while i < x.len()
        invariant
            x@ == a@,
            y@ == b@,
            x@.len() == y@.len(),
            i <= x@.len(),
            forall|j: int| 0 <= j < i ==> x@[j] == y@[j],
        decreases x.len() - i,
    {
        if x[i] != y[i] {
            assert(a@[i as int] != b@[i as int]);
            return false;
        }
        i = i + 1;
    }
    assert(x@ =~= y@);
    true
}

/// `v[lo..hi]` begins with `p`.
pub fn starts_with_at(v: &[char], lo: usize, hi: usize, p: &[char]) -> (b: bool)
    requires
        lo <= hi <= v@.len(),
    ensures
        b == starts_with(v@.subrange(lo as int, hi as int), p@),
{
    let ghost sub = v@.subrange(lo as int, hi as int);
    if p.len() > hi - lo {
        return false;
    }
    let mut i: usize = 0;
    while i < p.len()
        invariant
            p@.len() <= hi - lo,
            lo <= hi <= v@.len(),
            i <= p@.len(),
            sub == v@.subrange(lo as int, hi as int),
            forall|j: int| 0 <= j < i ==> v@[lo + j] == p@[j],
        decreases p.len() - i,
    {
        assert(lo + i < hi);
        if v[lo + i] != p[i] {
            assert(sub.take(p@.len() as int)[i as int] != p@[i as int]);
            return false;
        }
        i = i + 1;
    }
    assert(sub.take(p@.len() as int) =~= p@);
    true
}

/// `t` occurs in `v` at `at`.
pub fn occurs_at_exec(v: &[char], t: &[char], at: usize) -> (b: bool)
    ensures
        b == occurs_at(v@, t@, at as int),
{
    if at > v.len() || t.len() > v.len() - at {
        return false;
    }
    let n = v.len();
    let mut i: usize = 0;
    while i < t.len()
        invariant
            n == v@.len(),
            at + t@.len() <= v@.len(),
            i <= t@.len(),
            forall|j: int| 0 <= j < i ==> v@[at + j] == t@[j],
        decreases t.len() - i,
    {
        assert(at + i < at + t@.len());
        if v[at + i] != t[i] {
            assert(v@.subrange(at as int, at + t@.len())[i as int] != t@[i as int]);
            return false;
        }
        i = i + 1;
    }
    assert(v@.subrange(at as int, at + t@.len()) =~= t@);
    true
}

/// `str::contains`.
pub fn contains_exec(v: &[char], t: &[char]) -> (b: bool)
    ensures
        b == contains(v@, t@),
{
    if t.len() > v.len() {
        assert forall|i: int| !occurs_at(v@, t@, i) by {}
        return false;
    }
    let n = v.len() - t.len();
    let mut i: usize = 0;
    loop
        invariant
            t@.len() <= v@.len(),
            n == v@.len() - t@.len(),
            i <= n,
            forall|j: int| 0 <= j < i ==> !occurs_at(v@, t@, j),
        ensures
            i == n,
            forall|j: int| 0 <= j <= i ==> !occurs_at(v@, t@, j),
        decreases n - i,
    {
        if occurs_at_exec(v, t, i) {
            return true;
        }
        if i == n {
            break;
        }
        i = i + 1;
    }
    assert forall|j: int| !occurs_at(v@, t@, j) by {
        if 0 <= j && j + t@.len() <= v@.len() {
            assert(j <= i);
        }
    }
    false
}

/// `str::contains` on string slices.
pub fn str_contains(s: &str, t: &str) -> (b: bool)
    ensures
        b == contains(s@, t@),
{
    let v = chars_of(s);
    let w = chars_of(t);
    contains_exec(v.as_slice(), w.as_slice())
}

/// The decimal digit character for `d`.
pub fn digit_char_exec(d: u64) -> (c: char)
    requires
        d < 10,
    ensures
        c == digit_char(d as nat),
{
    if d == 0 {
        '0'
    } else if d == 1 {
        '1'
    } else if d == 2 {
        '2'
    } else if d == 3 {
        '3'
    } else if d == 4 {
        '4'
    } else if d == 5 {
        '5'
    } else if d == 6 {
        '6'
    } else if d == 7 {
        '7'
    } else if d == 8 {
        '8'
    } else {
        '9'
    }
}

/// Appends the decimal rendering of `n`.
pub fn push_decimal(out: &mut String, n: u64)
    ensures
        final(out)@ == old(out)@ + dec(n as nat),
    decreases n,
{
    if n < 10 {
        push_char(out, digit_char_exec(n));
        assert(dec(n as nat) =~= seq![digit_char(n as nat)]);
    } else {
        let ghost start = out@;
        push_decimal(out, n / 10);
        push_char(out, digit_char_exec(n % 10));
        assert(out@ =~= start + dec(n as nat));
    }
}

/// Decimal rendering of a signed number, with a leading `-` when negative.
pub open spec fn sdec(n: int) -> Seq<char> {
    if n < 0 {
        seq!['-'] + dec((-n) as nat)
    } else {
        dec(n as nat)
    }
}

/// Appends the decimal rendering of a signed number.
pub fn push_signed_decimal(out: &mut String, n: i32)
    ensures
        final(out)@ == old(out)@ + sdec(n as int),
{
    if n < 0 {
        push_char(out, '-');
        let m: i64 = -(n as i64);
        push_decimal(out, m as u64);
        assert(out@ =~= old(out)@ + sdec(n as int));
    } else {
        push_decimal(out, n as u64);
    }
}

/// Parses `v[lo..hi]` as an unsigned number no larger than `max`.
pub fn parse_unsigned_at(v: &[char], lo: usize, hi: usize, max: u64) -> (r: Option<u64>)
    requires
        lo <= hi <= v@.len(),
        max < 0x1_0000_0000,
    ensures
        r matches Some(x) ==> parse_unsigned(v@.subrange(lo as int, hi as int), max as nat)
            == Some(x as nat),
        r is None ==> parse_unsigned(v@.subrange(lo as int, hi as int), max as nat) is None,
{
    let ghost s = v@.subrange(lo as int, hi as int);
    let start = if hi - lo > 1 && v[lo] == '+' {
        lo + 1
    } else {
        lo
    };
    let ghost d = v@.subrange(start as int, hi as int);
    assert(d =~= (if s.len() > 1 && s[0] == '+' {
        s.drop_first()
    } else {
        s
    }));
    if start == hi {
        return None;
    }
    let mut acc: u64 = 0;
    let mut i = start;
    while i < hi
        invariant
            lo <= start <= i <= hi <= v@.len(),
            start < hi,
            s == v@.subrange(lo as int, hi as int),
            d == (if s.len() > 1 && s[0] == '+' {
                s.drop_first()
            } else {
                s
            }),
            d == v@.subrange(start as int, hi as int),
            max < 0x1_0000_0000,
            acc <= max,
            all_digits(v@.subrange(start as int, i as int)),
            acc == digits_value(v@.subrange(start as int, i as int)),
        decreases hi - i,
    {
        let c = v[i];
        if !('0' <= c && c <= '9') {
            assert(d[i - start] == c);
            assert(!is_digit(d[i - start]));
            assert(!all_digits(d));
            return None;
        }
        let digit = (c as u32 - 48) as u64;
        assert(v@.subrange(start as int, i + 1).drop_last() =~= v@.subrange(
            start as int,
            i as int,
        ));
        assert(all_digits(v@.subrange(start as int, i + 1)));
        assert(digits_value(v@.subrange(start as int, i + 1)) == acc * 10 + digit);
        let next = acc * 10 + digit;
        if next > max {
            proof {
                if all_digits(d) {
                    assert(v@.subrange(start as int, i + 1) =~= d.take(i + 1 - start));
                    lemma_digits_value_prefix(d, i + 1 - start);
                }
            }
            return None;
        }
        acc = next;
        i = i + 1;
    }
    Some(acc)
}

} // verus!
