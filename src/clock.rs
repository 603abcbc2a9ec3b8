//! Formatting of elapsed seconds as `HH:MM:SS`.
use vstd::prelude::*;
use crate::text::{decimal, push_decimal, string_of};

verus! {

/// `n` in decimal, padded on the left with zeros to at least two digits.
pub open spec fn two_digits(n: nat) -> Seq<char> {
    if n < 10 {
        seq!['0'] + decimal(n)
    } else {
        decimal(n)
    }
}

/// Hours, minutes and seconds of `secs`, each at least two digits, separated
/// by colons. Hours are not wrapped at a day.
pub open spec fn elapsed_text(secs: nat) -> Seq<char> {
    two_digits(secs / 3600) + seq![':'] + two_digits((secs / 60) % 60) + seq![':'] + two_digits(
        secs % 60,
    )
}

fn push_two_digits(out: &mut Vec<char>, n: u64)
    ensures
        final(out)@ == old(out)@ + two_digits(n as nat),
{
    if n < 10 {
        out.push('0');
    }
    push_decimal(out, n);
}

/// Appends the `HH:MM:SS` form of `secs` to `out`.
pub fn push_elapsed(out: &mut Vec<char>, secs: u64)
    ensures
        final(out)@ == old(out)@ + elapsed_text(secs as nat),
{
    push_two_digits(out, secs / 3600);
    out.push(':');
    push_two_digits(out, (secs / 60) % 60);
    out.push(':');
    push_two_digits(out, secs % 60);
    assert(out@ =~= old(out)@ + elapsed_text(secs as nat));
}

/// The `HH:MM:SS` form of `secs`, zero-padded, with unbounded hours.
pub fn format_elapsed(secs: u64) -> (r: String)
    ensures
        r@ == elapsed_text(secs as nat),
{
    let mut v: Vec<char> = Vec::new();
    push_elapsed(&mut v, secs);
    assert(v@ =~= elapsed_text(secs as nat));
    string_of(&v)
}

} // verus!
