//! How values are stored in and read back from the database rows, and the
//! webhook tokens.

use vstd::prelude::*;
use crate::text::{push_str, str_eq};

verus! {

/// The lowercase hexadecimal digit of `n < 16`.
pub open spec fn hex_digit(n: nat) -> char {
    if n < 10 {
        ((48 + n) as u32) as char
    } else {
        ((87 + n) as u32) as char
    }
}

/// Lowercase hexadecimal text of bytes: two digits per byte, high nibble
/// first.
pub open spec fn hex_of(b: Seq<u8>) -> Seq<char>
    decreases b.len(),
{
    if b.len() == 0 {
        Seq::empty()
    } else {
        hex_of(b.drop_last()) + seq![hex_digit((b.last() / 16) as nat), hex_digit((b.last() % 16) as nat)]
    }
}

/// `hex::encode`: lowercase hexadecimal, two digits per byte, high nibble
/// first.
#[verifier::external_body]
fn hex_encode(bytes: &[u8]) -> (r: String)
    ensures
        r@ == hex_of(bytes@),
{
    hex::encode(bytes)
}

/// A webhook token from 24 random bytes: 48 hexadecimal digits.
pub fn token_from_bytes(bytes: &[u8; 24]) -> (r: String)
    ensures
        r@ == hex_of(bytes@),
{
    hex_encode(bytes)
}

/// The column value of a job's trigger service: empty for none (the column
/// is NOT NULL).
pub fn trigger_column(t: Option<&str>) -> (r: String)
    ensures
        r@ == match t {
            Some(s) => s@,
            None => Seq::empty(),
        },
{
    let mut s = String::new();
    if let Some(x) = t {
        push_str(&mut s, x);
    }
    s
}

/// A job's trigger service from its column: empty means none.
pub fn trigger_from_column(s: String) -> (r: Option<String>)
    ensures
        s@.len() == 0 ==> r is None,
        s@.len() > 0 ==> r == Some(s),
{
    let v = crate::text::chars_of(s.as_str());
    if v.len() == 0 {
        None
    } else {
        Some(s)
    }
}

/// A job run succeeded when its exit code is 0.
pub fn run_success(exit_code: i32) -> (b: bool)
    ensures
        b == (exit_code == 0),
{
    exit_code == 0
}

/// The stream a job's log line came from.
#[derive(Clone, Copy, Debug, PartialEq, Eq, Structural)]
pub enum LogStream {
    Stdout,
    Stderr,
}

/// The stored name of a stream.
pub open spec fn stream_name(s: LogStream) -> Seq<char> {
    match s {
        LogStream::Stdout => "Stdout"@,
        LogStream::Stderr => "Stderr"@,
    }
}

/// The stored name of a stream.
pub fn stream_to_str(s: &LogStream) -> (r: &'static str)
    ensures
        r@ == stream_name(*s),
{
    match s {
        LogStream::Stdout => "Stdout",
        LogStream::Stderr => "Stderr",
    }
}

/// The stream of a stored name; anything but `Stderr` reads as stdout.
pub fn str_to_stream(s: &str) -> (r: LogStream)
    ensures
        r == (if s@ == "Stderr"@ {
            LogStream::Stderr
        } else {
            LogStream::Stdout
        }),
{
    if str_eq(s, "Stderr") {
        LogStream::Stderr
    } else {
        LogStream::Stdout
    }
}

/// A stream reads back as itself from its stored name.
pub proof fn lemma_stream_round_trip(s: LogStream)
    ensures
        (if stream_name(s) == "Stderr"@ {
            LogStream::Stderr
        } else {
            LogStream::Stdout
        }) == s,
{
    reveal_strlit("Stdout");
    reveal_strlit("Stderr");
    assert("Stdout"@[4] != "Stderr"@[4]);
}

/// A job's trigger service survives being stored: a service id reads back
/// as itself, and no service as none; an empty id cannot be told apart from
/// none.
pub proof fn lemma_trigger_round_trip(t: Option<Seq<char>>)
    ensures
        ({
            let col = match t {
                Some(s) => s,
                None => Seq::<char>::empty(),
            };
            let back = if col.len() == 0 {
                None
            } else {
                Some(col)
            };
            (t is None || t.unwrap().len() > 0) ==> back == t
        }),
{
}

} // verus!
