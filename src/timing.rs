use vstd::prelude::*;

use std::time::{Duration, Instant};

verus! {

#[verifier::external_type_specification]
#[verifier::external_body]
pub struct ExInstant(Instant);

/// Relies on `Instant::elapsed`: the time passed since the instant. It
/// depends on the clock, so nothing is stated of it.
pub assume_specification[ Instant::elapsed ](i: &Instant) -> Duration;

/// Relies on `Duration::as_secs`: the whole seconds of the duration.
pub assume_specification[ Duration::as_secs ](d: &Duration) -> u64;

/// Relies on `Duration::subsec_nanos`: the fractional part of the duration
/// in nanoseconds, which the documentation says is below one billion.
pub assume_specification[ Duration::subsec_nanos ](d: &Duration) -> (r: u32)
    ensures
        r < 1_000_000_000,
;

/// The decimal digit `d` as a character.
pub open spec fn digit_char(d: nat) -> char {
    if d == 0 {
        '0'
    } else if d == 1 {
        '1'
    } else if d == 2 {
        '2'
    } else if d == 3 {
        '3'
    } else if d == 4 {
        '4'
    } else if d == 5 {
        '5'
    } else if d == 6 {
        '6'
    } else if d == 7 {
        '7'
    } else if d == 8 {
        '8'
    } else {
        '9'
    }
}

/// `n` written in decimal, without leading zeros.
pub open spec fn decimal(n: nat) -> Seq<char>
    decreases n,
{
    if n < 10 {
        seq![digit_char(n)]
    } else {
        decimal(n / 10) + seq![digit_char(n % 10)]
    }
}

/// An elapsed time written as `<secs>s <millis>ms <micros>µs <nanos>ns`,
/// the last three being the parts of the fraction of a second.
pub open spec fn elapsed_text_spec(secs: nat, subsec_nanos: nat) -> Seq<char> {
    decimal(secs) + "s "@ + decimal(subsec_nanos / 1_000_000) + "ms "@ + decimal(
        (subsec_nanos / 1000) % 1000,
    ) + "\u{3bc}s "@ + decimal(subsec_nanos % 1000) + "ns"@
}

fn digit_str(d: u64) -> (r: &'static str)
    requires
        d < 10,
    ensures
        r@ == seq![digit_char(d as nat)],
{
    proof {
        reveal_strlit("0");
        reveal_strlit("1");
        reveal_strlit("2");
        reveal_strlit("3");
        reveal_strlit("4");
        reveal_strlit("5");
        reveal_strlit("6");
        reveal_strlit("7");
        reveal_strlit("8");
        reveal_strlit("9");
    }
    let r = if d == 0 {
        "0"
    } else if d == 1 {
        "1"
    } else if d == 2 {
        "2"
    } else if d == 3 {
        "3"
    } else if d == 4 {
        "4"
    } else if d == 5 {
        "5"
    } else if d == 6 {
        "6"
    } else if d == 7 {
        "7"
    } else if d == 8 {
        "8"
    } else {
        "9"
    };
    assert(r@ =~= seq![digit_char(d as nat)]);
    r
}

/// Appends `n` in decimal to `s`.
fn push_decimal(s: &mut String, n: u64)
    ensures
        final(s)@ == old(s)@ + decimal(n as nat),
    decreases n,
{
    if n >= 10 {
        push_decimal(s, n / 10);
    }
    s.append(digit_str(n % 10));
    assert(final(s)@ =~= old(s)@ + decimal(n as nat));
}

/// Writes an elapsed time of `secs` seconds and `subsec_nanos` nanoseconds.
pub fn elapsed_text(secs: u64, subsec_nanos: u32) -> (r: String)
    ensures
        r@ == elapsed_text_spec(secs as nat, subsec_nanos as nat),
{
    let mut s = String::new();
    push_decimal(&mut s, secs);
    s.append("s ");
    push_decimal(&mut s, (subsec_nanos / 1_000_000) as u64);
    s.append("ms ");
    push_decimal(&mut s, ((subsec_nanos / 1000) % 1000) as u64);
    s.append("\u{3bc}s ");
    push_decimal(&mut s, (subsec_nanos % 1000) as u64);
    s.append("ns");
    assert(s@ =~= elapsed_text_spec(secs as nat, subsec_nanos as nat));
    s
}

/// The time passed since `start_time`, written by `elapsed_text`.
pub fn current_time(start_time: &Instant) -> (r: String)
    ensures
        exists|secs: u64, nanos: u32|
            nanos < 1_000_000_000 && r@ == elapsed_text_spec(secs as nat, nanos as nat),
{
    let diff = start_time.elapsed();
    let secs = diff.as_secs();
    let nanos = diff.subsec_nanos();
    elapsed_text(secs, nanos)
}

} // verus!
