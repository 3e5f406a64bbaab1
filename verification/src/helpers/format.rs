use vstd::prelude::*;
use crate::helpers::text::{decimal, padded, push_char, push_decimal, push_padded};

verus! {

/// Nanoseconds in a second, minute and hour.
pub const NS_PER_SECOND: u64 = 1_000_000_000;
pub const NS_PER_MILLISECOND: u64 = 1_000_000;

/// The text shown for a time of `time` nanoseconds.
///
/// A media clock writes a time as `H:MM:SS.nnnnnnnnn`; the text shown keeps
/// three decimals and leaves the hours out when they are zero, giving
/// `MM:SS.mmm` or `H:MM:SS.mmm`. `u64::MAX` marks an unset time and is shown
/// as the empty text.
pub open spec fn clock_text(time: u64) -> Seq<char> {
    if time == u64::MAX {
        Seq::empty()
    } else {
        let secs = time / 1_000_000_000;
        let ns = time % 1_000_000_000;
        let h = secs / 3600;
        let m = (secs / 60) % 60;
        let s = secs % 60;
        let head = if h == 0 {
            Seq::<char>::empty()
        } else {
            decimal(h as nat) + seq![':']
        };
        head + padded(m as nat, 2) + seq![':'] + padded(s as nat, 2) + seq!['.'] + padded(
            (ns / 1_000_000) as nat,
            3,
        )
    }
}

/// Formats a time in nanoseconds as `MM:SS.mmm` (or `H:MM:SS.mmm` from one
/// hour on); an unset time (`u64::MAX`) gives the empty string.
pub fn format_clock(time: u64) -> (r: String)
    ensures
        r@ == clock_text(time),
{
    let mut ret = String::new();
    if time == u64::MAX {
        return ret;
    }
    let secs = time / NS_PER_SECOND;
    let ns = time % NS_PER_SECOND;
    let h = secs / 3600;
    let m = (secs / 60) % 60;
    let s = secs % 60;
    if h != 0 {
        push_decimal(&mut ret, h);
        push_char(&mut ret, ':');
    }
    push_padded(&mut ret, m, 2);
    push_char(&mut ret, ':');
    push_padded(&mut ret, s, 2);
    push_char(&mut ret, '.');
    push_padded(&mut ret, ns / NS_PER_MILLISECOND, 3);
    proof {
        let head = if h == 0 {
            Seq::<char>::empty()
        } else {
            decimal(h as nat) + seq![':']
        };
        assert(ret@ =~= head + padded(m as nat, 2) + seq![':'] + padded(s as nat, 2) + seq!['.']
            + padded((ns / 1_000_000) as nat, 3));
    }
    ret
}

} // verus!
