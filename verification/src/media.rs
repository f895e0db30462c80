//! Labels of the media bar.
use vstd::prelude::*;
use crate::text::{decimal, decimal_string, concat_str, digit_char};

verus! {

/// `n` (below 100) in two digits, zero-padded (`{:02}`).
pub open spec fn two_digits(n: nat) -> Seq<char> {
    if n < 10 {
        seq!['0', digit_char(n)]
    } else {
        decimal(n)
    }
}

/// A play time of `secs` whole seconds as minutes and zero-padded seconds:
/// `m:ss`.
pub open spec fn duration_label(secs: nat) -> Seq<char> {
    decimal(secs / 60) + seq![':'] + two_digits(secs % 60)
}

/// `secs` whole seconds written `m:ss` (a play time is shown by its whole
/// seconds).
pub fn fmt_dur(secs: u64) -> (s: String)
    ensures
        s@ == duration_label(secs as nat),
{
    let minutes = decimal_string(secs / 60);
    let rest = secs % 60;
    let with_colon = concat_str(minutes.as_str(), ":");
    proof {
        reveal_strlit(":");
    }
    let tail = if rest < 10 {
        let d = decimal_string(rest);
        proof {
            assert(decimal(rest as nat) == seq![digit_char(rest as nat)]);
            reveal_strlit("0");
        }
        concat_str("0", d.as_str())
    } else {
        decimal_string(rest)
    };
    let s = concat_str(with_colon.as_str(), tail.as_str());
    proof {
        assert(tail@ =~= two_digits(rest as nat));
        assert(s@ =~= duration_label(secs as nat));
    }
    s
}

/// The pitch shift label: `0 st`, `+n st` for a shift up, `-n st` for a
/// shift down.
pub open spec fn pitch_label_text(semitones: int) -> Seq<char> {
    if semitones == 0 {
        seq!['0', ' ', 's', 't']
    } else if semitones > 0 {
        seq!['+'] + decimal(semitones as nat) + seq![' ', 's', 't']
    } else {
        seq!['-'] + decimal((-semitones) as nat) + seq![' ', 's', 't']
    }
}

/// The label shown for a pitch shift of `semitones` half steps.
pub fn pitch_label(semitones: i32) -> (s: String)
    ensures
        s@ == pitch_label_text(semitones as int),
{
    proof {
        reveal_strlit("0 st");
        reveal_strlit(" st");
        reveal_strlit("+");
        reveal_strlit("-");
    }
    if semitones == 0 {
        let s = String::from_str("0 st");
        assert(s@ =~= pitch_label_text(0));
        s
    } else if semitones > 0 {
        let digits = decimal_string(semitones as u64);
        let a = concat_str("+", digits.as_str());
        let s = concat_str(a.as_str(), " st");
        assert(s@ =~= pitch_label_text(semitones as int));
        s
    } else {
        let magnitude = (-(semitones as i64)) as u64;
        let digits = decimal_string(magnitude);
        let a = concat_str("-", digits.as_str());
        let s = concat_str(a.as_str(), " st");
        assert(s@ =~= pitch_label_text(semitones as int));
        s
    }
}

} // verus!
