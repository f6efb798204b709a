//! Cloning a service's repository: the URL with its token, the URL as
//! logged, and what git's progress output says.

use vstd::prelude::*;
use crate::deploy::failure::views;
use crate::text::{
    chars_of, contains, contains_exec, digits_value, first_index, is_digit, is_ws,
    parse_unsigned, parse_unsigned_at, push_decimal, push_range, push_signed_decimal, push_str,
    starts_with, starts_with_at, string_of_range, trim, trim_at, find_from, sdec,
};

verus! {

/// The text after `https://`, when `url` starts with it.
pub open spec fn after_https(url: Seq<char>) -> Option<Seq<char>> {
    if starts_with(url, "https://"@) {
        Some(url.skip(8))
    } else {
        None
    }
}

/// The part after the first `c`, or all of `s` when it has none.
pub open spec fn after_first(s: Seq<char>, c: char) -> Seq<char> {
    let i = first_index(s, c);
    if i < 0 {
        s
    } else {
        s.skip(i + 1)
    }
}

/// The part before the first `c`, or all of `s` when it has none.
pub open spec fn before_first(s: Seq<char>, c: char) -> Seq<char> {
    let i = first_index(s, c);
    if i < 0 {
        s
    } else {
        s.take(i)
    }
}

/// An HTTPS URL with a personal-access token as its credentials (replacing
/// any already there); other URLs, or no token, leave it unchanged.
pub open spec fn with_token(url: Seq<char>, token: Option<Seq<char>>) -> Seq<char> {
    match token {
        None => url,
        Some(t) => match after_https(url) {
            Some(rest) => "https://x-token-auth:"@ + t + "@"@ + after_first(rest, '@'),
            None => url,
        },
    }
}

/// An HTTPS URL with its password shown as `***` (the user is kept).
pub open spec fn redacted(url: Seq<char>) -> Seq<char> {
    match after_https(url) {
        Some(rest) => if first_index(rest, '@') >= 0 {
            let creds = rest.take(first_index(rest, '@'));
            "https://"@ + before_first(creds, ':') + ":***@"@ + after_first(rest, '@')
        } else {
            url
        },
        None => url,
    }
}

/// Index of the last character that is neither a digit nor a space, or -1.
pub open spec fn last_non_digit(s: Seq<char>) -> int
    decreases s.len(),
{
    if s.len() == 0 {
        -1
    } else if !is_digit(s.last()) && s.last() != ' ' {
        s.len() - 1
    } else {
        last_non_digit(s.drop_last())
    }
}

/// The percentage of a git progress line: the number just before the first
/// `%` (`Receiving objects:  47% (23/49)` gives 47); 0 when there is none.
pub open spec fn percent_of(line: Seq<char>) -> nat {
    let p = first_index(line, '%');
    if p < 0 {
        0
    } else {
        let b = line.take(p);
        match parse_unsigned(trim(b.skip(last_non_digit(b) + 1)), 255) {
            Some(n) => n,
            None => 0,
        }
    }
}

/// Finding the number does not cut a character in two: the character just
/// before it, if any, is ASCII (the number is cut out by byte position).
pub open spec fn percent_ok(line: Seq<char>) -> bool {
    let p = first_index(line, '%');
    p < 0 || last_non_digit(line.take(p)) < 0 || (line.take(p)[last_non_digit(line.take(p))] as u32)
        < 0x80
}

/// The phase a git progress line reports.
pub open spec fn phase_of(line: Seq<char>) -> Seq<char> {
    if contains(line, "Counting"@) {
        "Counting objects"@
    } else if contains(line, "Compressing"@) {
        "Compressing objects"@
    } else if contains(line, "Receiving"@) {
        "Receiving objects"@
    } else if contains(line, "Resolving"@) {
        "Resolving deltas"@
    } else {
        "Cloning"@
    }
}

/// A URL with a token embedded is logged with `***` in place of the token
/// (for a token without `@`): the token never reaches the build log.
pub proof fn lemma_logged_url_hides_token(url: Seq<char>, t: Seq<char>)
    requires
        starts_with(url, "https://"@),
        first_index(t, '@') < 0,
    ensures
        redacted(with_token(url, Some(t))) == "https://x-token-auth:***@"@ + after_first(
            url.skip(8),
            '@',
        ),
{
    reveal_strlit("https://");
    reveal_strlit("x-token-auth:");
    reveal_strlit("x-token-auth");
    reveal_strlit("https://x-token-auth:");
    reveal_strlit("@");
    reveal_strlit(":***@");
    reveal_strlit("https://x-token-auth:***@");
    let hp = after_first(url.skip(8), '@');
    let pre: Seq<char> = "https://x-token-auth:"@;
    let w = pre + t + "@"@ + hp;
    assert(with_token(url, Some(t)) == w);
    assert(w.take(8) =~= "https://"@);
    let r2 = w.skip(8);
    let user: Seq<char> = "x-token-auth:"@;
    assert(r2 =~= user + t + "@"@ + hp);
    crate::text::lemma_first_index(t, '@');
    let at: int = 13 + t.len() as int;
    assert(r2[at] == '@');
    assert forall|j: int| 0 <= j < r2.len() && j < at implies r2[j] != '@' by {
        if j >= 13 {
            assert(r2[j] == t[j - 13]);
        }
    }
    crate::text::lemma_first_index_is(r2, '@', at);
    let creds = r2.take(at);
    assert(creds =~= user + t);
    assert forall|j: int| 0 <= j < creds.len() && j < 12 implies creds[j] != ':' by {}
    assert(creds[12] == ':');
    crate::text::lemma_first_index_is(creds, ':', 12);
    assert(creds.take(12) =~= "x-token-auth"@);
    assert(before_first(creds, ':') =~= "x-token-auth"@);
    assert(after_first(r2, '@') =~= hp);
    assert(redacted(w) =~= "https://"@ + "x-token-auth"@ + ":***@"@ + hp);
}

/// What to clone, where to, and with which token (HTTPS only; SSH URLs
/// ignore it).
pub struct CloneOptions<'a> {
    pub url: &'a str,
    pub branch: &'a str,
    pub token: Option<&'a str>,
    /// The directory the repository is cloned into, as a path.
    pub dir: &'a str,
}

/// Progress of a clone, from one line of git's output.
pub struct CloneProgress {
    pub phase: String,
    pub percent: u8,
    pub description: String,
}

fn text(t: &str) -> (r: String)
    ensures
        r@ == t@,
{
    let mut s = String::new();
    push_str(&mut s, t);
    s
}

/// The URL git clones from: with the token embedded when given (see
/// [`with_token`]).
pub fn inject_token(url: &str, token: Option<&str>) -> (r: String)
    ensures
        r@ == with_token(
            url@,
            match token {
                Some(t) => Some(t@),
                None => None,
            },
        ),
{
    let tok = match token {
        None => {
            return text(url);
        },
        Some(t) => t,
    };
    let v = chars_of(url);
    let p = chars_of("https://");
    let n = v.len();
    assert(v@.subrange(0, n as int) =~= v@);
    proof {
        reveal_strlit("https://");
    }
    if !starts_with_at(v.as_slice(), 0, n, p.as_slice()) {
        return text(url);
    }
    let at = find_from(v.as_slice(), 8, n, '@');
    let start = if at < n { at + 1 } else { 8 };
    let ghost rest = v@.skip(8);
    assert(rest =~= v@.subrange(8, n as int));
    assert(v@.subrange(start as int, n as int) =~= after_first(rest, '@'));
    let mut s = text("https://x-token-auth:");
    push_str(&mut s, tok);
    push_str(&mut s, "@");
    push_range(&mut s, v.as_slice(), start, n);
    s
}

/// The URL as it is logged (see [`redacted`]).
pub fn redact_url(url: &str) -> (r: String)
    ensures
        r@ == redacted(url@),
{
    let v = chars_of(url);
    let p = chars_of("https://");
    let n = v.len();
    assert(v@.subrange(0, n as int) =~= v@);
    proof {
        reveal_strlit("https://");
    }
    if !starts_with_at(v.as_slice(), 0, n, p.as_slice()) {
        return text(url);
    }
    let ghost rest = v@.skip(8);
    assert(rest =~= v@.subrange(8, n as int));
    let at = find_from(v.as_slice(), 8, n, '@');
    if at == n {
        return text(url);
    }
    let colon = find_from(v.as_slice(), 8, at, ':');
    let ghost creds = rest.take(at - 8);
    assert(creds =~= v@.subrange(8, at as int));
    assert(v@.subrange(8, colon as int) =~= before_first(creds, ':'));
    assert(v@.subrange(at + 1, n as int) =~= after_first(rest, '@'));
    let mut s = text("https://");
    push_range(&mut s, v.as_slice(), 8, colon);
    push_str(&mut s, ":***@");
    push_range(&mut s, v.as_slice(), at + 1, n);
    s
}

proof fn lemma_last_non_digit(s: Seq<char>, k: int)
    requires
        -1 <= k < s.len(),
        k >= 0 ==> !is_digit(s[k]) && s[k] != ' ',
        forall|j: int| k < j < s.len() ==> is_digit(#[trigger] s[j]) || s[j] == ' ',
    ensures
        last_non_digit(s) == k,
    decreases s.len(),
{
    if s.len() > 0 && k < s.len() - 1 {
        assert(is_digit(s[s.len() - 1]) || s[s.len() - 1] == ' ');
        lemma_last_non_digit(s.drop_last(), k);
    }
}

/// The percentage of a git progress line (see [`percent_of`]).
pub fn extract_percent(line: &str) -> (r: u8)
    requires
        percent_ok(line@),
    ensures
        r == percent_of(line@),
{
    let v = chars_of(line);
    let n = v.len();
    let p = find_from(v.as_slice(), 0, n, '%');
    assert(v@.subrange(0, n as int) =~= v@);
    if p == n {
        return 0;
    }
    let ghost b = v@.take(p as int);
    let mut k = p;
    while k > 0 && (('0' <= v[k - 1] && v[k - 1] <= '9') || v[k - 1] == ' ')
        invariant
            k <= p < n,
            n == v@.len(),
            b == v@.take(p as int),
            forall|j: int| k <= j < p ==> is_digit(#[trigger] b[j]) || b[j] == ' ',
        decreases k,
    {
        k = k - 1;
    }
    proof {
        lemma_last_non_digit(b, k - 1);
    }
    let (x, y) = trim_at(v.as_slice(), k, p);
    assert(v@.subrange(k as int, p as int) =~= b.skip(k as int));
    match parse_unsigned_at(v.as_slice(), x, y, 255) {
        Some(d) => d as u8,
        None => 0,
    }
}

/// Progress of a clone from one line of git's output.
pub fn parse_progress(line: &str) -> (r: CloneProgress)
    requires
        percent_ok(line@),
    ensures
        r.percent == percent_of(line@),
        r.phase@ == phase_of(line@),
        r.description@ == line@,
{
    let percent = extract_percent(line);
    let phase = if crate::text::str_contains(line, "Counting") {
        text("Counting objects")
    } else if crate::text::str_contains(line, "Compressing") {
        text("Compressing objects")
    } else if crate::text::str_contains(line, "Receiving") {
        text("Receiving objects")
    } else if crate::text::str_contains(line, "Resolving") {
        text("Resolving deltas")
    } else {
        text("Cloning")
    };
    CloneProgress { phase, percent, description: text(line) }
}

/// Keeps the last ten lines of git's output, for the error message.
pub fn push_tail(tail: &mut Vec<String>, line: String)
    ensures
        old(tail)@.len() <= 10 ==> final(tail)@.len() <= 10,
        views(final(tail)@) == if old(tail)@.len() >= 10 {
            views(old(tail)@).drop_first().push(line@)
        } else {
            views(old(tail)@).push(line@)
        },
{
    let ghost before = views(tail@);
    if tail.len() >= 10 {
        let _ = tail.remove(0);
        assert(views(tail@) =~= before.drop_first());
    }
    let ghost mid = views(tail@);
    tail.push(line);
    assert(views(tail@) =~= mid.push(line@));
}

/// `a | b | …`.
pub open spec fn joined(parts: Seq<Seq<char>>) -> Seq<char>
    decreases parts.len(),
{
    if parts.len() == 0 {
        Seq::empty()
    } else if parts.len() == 1 {
        parts[0]
    } else {
        joined(parts.drop_last()) + " | "@ + parts.last()
    }
}

/// The error of a failed clone: the exit code (-1 without one) and the last
/// lines git printed.
pub fn clone_failed_msg(code: Option<i32>, tail: &Vec<String>) -> (r: String)
    ensures
        r@ == "git clone falhou (exit "@ + sdec(
            match code {
                Some(c) => c as int,
                None => -1,
            },
        ) + "): "@ + joined(views(tail@)),
{
    let mut s = text("git clone falhou (exit ");
    let c: i32 = match code {
        Some(c) => c,
        None => -1,
    };
    push_signed_decimal(&mut s, c);
    push_str(&mut s, "): ");
    let ghost head = s@;
    let mut i: usize = 0;
    assert(views(tail@).take(0) =~= Seq::<Seq<char>>::empty());
    while i < tail.len()
        invariant
            i <= tail@.len(),
            s@ == head + joined(views(tail@).take(i as int)),
        decreases tail.len() - i,
    {
        let ghost t = views(tail@).take(i + 1);
        assert(t.drop_last() =~= views(tail@).take(i as int));
        assert(t.last() == tail@[i as int]@);
        if i > 0 {
            push_str(&mut s, " | ");
        } else {
            assert(t =~= seq![tail@[0]@]);
        }
        push_str(&mut s, tail[i].as_str());
        i = i + 1;
    }
    assert(views(tail@).take(tail@.len() as int) =~= views(tail@));
    s
}

/// Arguments of `git` that clone `branch` of `url` into the current
/// directory, reporting progress.
pub fn clone_args(branch: &str, url: &str) -> (r: Vec<String>)
    ensures
        views(r@) == seq!["clone"@, "--branch"@, branch@, "--progress"@, "--"@, url@, "."@],
{
    let mut r: Vec<String> = Vec::new();
    r.push(text("clone"));
    r.push(text("--branch"));
    r.push(text(branch));
    r.push(text("--progress"));
    r.push(text("--"));
    r.push(text(url));
    r.push(text("."));
    assert(views(r@) =~= seq!["clone"@, "--branch"@, branch@, "--progress"@, "--"@, url@, "."@]);
    r
}

/// A line break of git's output: progress lines end in `\r`, others in `\n`.
pub open spec fn is_break(c: char) -> bool {
    c == '\r' || c == '\n'
}

/// Index of the first line break in `s`, or -1.
pub open spec fn first_break(s: Seq<char>) -> int
    decreases s.len(),
{
    if s.len() == 0 {
        -1
    } else if is_break(s[0]) {
        0
    } else {
        let r = first_break(s.drop_first());
        if r < 0 {
            -1
        } else {
            r + 1
        }
    }
}

/// `t` as a one-element list, or nothing when it is empty.
pub open spec fn kept(t: Seq<char>) -> Seq<Seq<char>> {
    if t.len() > 0 {
        seq![t]
    } else {
        Seq::empty()
    }
}

/// The lines of a chunk of git's output: split at every `\r` and `\n`,
/// trimmed, blank ones dropped.
pub open spec fn progress_lines(s: Seq<char>) -> Seq<Seq<char>>
    decreases s.len(),
{
    let i = first_break(s);
    if i < 0 {
        kept(trim(s))
    } else {
        proof {
            lemma_first_break(s);
        }
        kept(trim(s.take(i))) + progress_lines(s.skip(i + 1))
    }
}

/// `first_break` is the first line break, or -1 when there is none.
pub proof fn lemma_first_break(s: Seq<char>)
    ensures
        -1 <= first_break(s) < s.len(),
        first_break(s) >= 0 ==> is_break(s[first_break(s)]),
        forall|j: int| 0 <= j < s.len() && (first_break(s) < 0 || j < first_break(s)) ==> !is_break(s[j]),
    decreases s.len(),
{
    if s.len() > 0 && !is_break(s[0]) {
        lemma_first_break(s.drop_first());
        assert forall|j: int| 0 < j < s.len() implies #[trigger] s[j] == s.drop_first()[j - 1] by {}
    }
}

proof fn lemma_first_break_is(s: Seq<char>, i: int)
    requires
        -1 <= i < s.len(),
        i >= 0 ==> is_break(s[i]),
        forall|j: int| 0 <= j < s.len() && (i < 0 || j < i) ==> !is_break(s[j]),
    ensures
        first_break(s) == i,
{
    lemma_first_break(s);
    let r = first_break(s);
    if r >= 0 && i >= 0 {
        if r < i {
            assert(!is_break(s[r]));
        } else if i < r {
            assert(!is_break(s[i]));
        }
    } else if r >= 0 && i < 0 {
        assert(!is_break(s[r]));
    } else if r < 0 && i >= 0 {
        assert(!is_break(s[i]));
    }
}

/// The lines of a chunk of git's output (see [`progress_lines`]), each of
/// which is reported as progress and kept for the error message.
pub fn output_lines(chunk: &str) -> (r: Vec<String>)
    ensures
        views(r@) == progress_lines(chunk@),
{
    let v = chars_of(chunk);
    let n = v.len();
    let mut out: Vec<String> = Vec::new();
    let mut start: usize = 0;
    assert(v@.skip(0) =~= v@);
    loop
        invariant
            start <= n,
            n == v@.len(),
            v@ == chunk@,
            views(out@) + progress_lines(v@.skip(start as int)) == progress_lines(v@),
        decreases n - start,
    {
        let ghost rest = v@.skip(start as int);
        let mut i = start;
        while i < n && v[i] != '\r' && v[i] != '\n'
            invariant
                start <= i <= n,
                n == v@.len(),
                forall|j: int| start <= j < i ==> !is_break(v@[j]),
            decreases n - i,
        {
            i = i + 1;
        }
        let (a, b) = trim_at(v.as_slice(), start, i);
        let ghost piece = v@.subrange(start as int, i as int);
        let ghost before = views(out@);
        if a < b {
            out.push(string_of_range(v.as_slice(), a, b));
            assert(views(out@) =~= before + kept(trim(piece)));
        } else {
            assert(views(out@) =~= before + kept(trim(piece)));
        }
        if i == n {
            proof {
                lemma_first_break_is(rest, -1);
                assert(rest =~= piece);
                assert(progress_lines(rest) == kept(trim(piece)));
                assert(v@.skip(n as int) =~= Seq::<char>::empty());
            }
            assert(views(out@) == progress_lines(v@));
            return out;
        }
        proof {
            lemma_first_break_is(rest, i - start);
            assert(rest.take(i - start) =~= piece);
            assert(rest.skip(i - start + 1) =~= v@.skip(i + 1));
            assert(progress_lines(rest) == kept(trim(piece)) + progress_lines(v@.skip(i + 1)));
            assert(views(out@) + progress_lines(v@.skip(i + 1)) =~= before + progress_lines(rest));
        }
        start = i + 1;
    }
}

/// The arguments of the `git` command that clones what `opts` names: the
/// URL with the token embedded (see [`clone_args`], [`with_token`]).
pub fn clone_command(opts: &CloneOptions) -> (r: Vec<String>)
    ensures
        views(r@) == seq![
            "clone"@,
            "--branch"@,
            opts.branch@,
            "--progress"@,
            "--"@,
            with_token(
                opts.url@,
                match opts.token {
                    Some(t) => Some(t@),
                    None => None,
                },
            ),
            "."@,
        ],
{
    let url = inject_token(opts.url, opts.token);
    clone_args(opts.branch, url.as_str())
}


/// The last `n` entries of `s` (all of them when there are fewer).
pub open spec fn last_lines(s: Seq<Seq<char>>, n: nat) -> Seq<Seq<char>> {
    if s.len() <= n {
        s
    } else {
        s.skip(s.len() - n)
    }
}

/// The exit code a failed clone reports: git's, or -1 when it was killed
/// by a signal.
pub open spec fn exit_code_of(code: Option<i32>) -> int {
    match code {
        Some(c) => c as int,
        None => -1,
    }
}

/// What a clone comes to, from everything git wrote to its error output
/// and how it exited: one progress report per line of the output (see
/// [`progress_lines`], [`parse_progress`]), and success exactly when git
/// succeeded, else an error with the exit code and the last ten lines.
pub fn clone_outcome(stderr: &str, success: bool, code: Option<i32>) -> (r: (
    Vec<CloneProgress>,
    Result<(), String>,
))
    requires
        forall|i: int|
            0 <= i < progress_lines(stderr@).len() ==> percent_ok(
                #[trigger] progress_lines(stderr@)[i],
            ),
    ensures
        r.0@.len() == progress_lines(stderr@).len(),
        forall|i: int|
            0 <= i < r.0@.len() ==> (#[trigger] r.0@[i]).percent == percent_of(
                progress_lines(stderr@)[i],
            ) && r.0@[i].phase@ == phase_of(progress_lines(stderr@)[i]) && r.0@[i].description@
                == progress_lines(stderr@)[i],
        r.1 is Ok <==> success,
        r.1 matches Err(e) ==> e@ == "git clone falhou (exit "@ + sdec(exit_code_of(code))
            + "): "@ + joined(last_lines(progress_lines(stderr@), 10)),
{
    let lines = output_lines(stderr);
    let ghost l = progress_lines(stderr@);
    let mut progress: Vec<CloneProgress> = Vec::new();
    let mut tail: Vec<String> = Vec::new();
    let mut i: usize = 0;
    while i < lines.len()
        invariant
            i <= lines@.len(),
            views(lines@) == l,
            l == progress_lines(stderr@),
            forall|k: int| 0 <= k < l.len() ==> percent_ok(#[trigger] l[k]),
            progress@.len() == i,
            forall|k: int|
                0 <= k < i ==> (#[trigger] progress@[k]).percent == percent_of(l[k])
                    && progress@[k].phase@ == phase_of(l[k]) && progress@[k].description@ == l[k],
            tail@.len() <= 10,
            views(tail@) == last_lines(l.take(i as int), 10),
        decreases lines.len() - i,
    {
        assert(l[i as int] == lines@[i as int]@);
        let p = parse_progress(lines[i].as_str());
        progress.push(p);
        let ghost before = views(tail@);
        push_tail(&mut tail, text(lines[i].as_str()));
        proof {
            let t = l.take(i + 1);
            assert(t.drop_last() =~= l.take(i as int));
            if i >= 10 {
                assert(last_lines(t, 10) =~= before.drop_first().push(l[i as int]));
            } else {
                assert(last_lines(t, 10) =~= before.push(l[i as int]));
            }
        }
        i = i + 1;
    }
    assert(l.take(lines@.len() as int) =~= l);
    if success {
        (progress, Ok(()))
    } else {
        (progress, Err(clone_failed_msg(code, &tail)))
    }
}

} // verus!
