//! Calendar dates and their text. Reading the clock is the caller's part.
use crate::text::{append, dec, dec_string, push_char, string_of};
use vstd::prelude::*;

verus! {

/// A calendar date (proleptic Gregorian).
#[derive(Debug, Clone, Copy, PartialEq, Eq, Structural)]
pub struct Date {
    pub year: i32,
    pub month: u32,
    pub day: u32,
}

/// `n` in decimal, padded with zeros on the left to `w` digits.
pub open spec fn padded(n: nat, w: nat) -> Seq<char>
    decreases w,
{
    if dec(n).len() >= w || w == 0 {
        dec(n)
    } else {
        seq!['0'] + padded(n, (w - 1) as nat)
    }
}

/// A date as `NaiveDate`'s `Display` writes it: `YYYY-MM-DD`, the year with four digits when
/// it lies in 0..=9999 and with a sign otherwise.
pub open spec fn date_text(d: Date) -> Seq<char> {
    let y = d.year as int;
    let year = if 0 <= y <= 9999 {
        padded(y as nat, 4)
    } else if y < 0 {
        seq!['-'] + padded((-y) as nat, 4)
    } else {
        seq!['+'] + padded(y as nat, 4)
    };
    year + seq!['-'] + padded(d.month as nat, 2) + seq!['-'] + padded(d.day as nat, 2)
}

fn padded_string(n: u64, w: usize) -> (r: String)
    ensures
        r@ == padded(n as nat, w as nat),
    decreases w,
{
    let s = dec_string(n);
    if s.as_str().unicode_len() >= w || w == 0 {
        s
    } else {
        let rest = padded_string(n, w - 1);
        let mut out = string_of("0");
        proof {
            reveal_strlit("0");
        }
        append(&mut out, rest.as_str());
        assert(out@ =~= seq!['0'] + padded(n as nat, (w - 1) as nat));
        out
    }
}

/// A date as `YYYY-MM-DD`.
pub fn format_date(d: Date) -> (r: String)
    ensures
        r@ == date_text(d),
{
    let y = d.year;
    let mut out = if 0 <= y && y <= 9999 {
        padded_string(y as u64, 4)
    } else if y < 0 {
        let mut s = String::new();
        push_char(&mut s, '-');
        let ay: u64 = (0i64 - y as i64) as u64;
        let p = padded_string(ay, 4);
        append(&mut s, p.as_str());
        s
    } else {
        let mut s = String::new();
        push_char(&mut s, '+');
        let p = padded_string(y as u64, 4);
        append(&mut s, p.as_str());
        s
    };
    push_char(&mut out, '-');
    let m = padded_string(d.month as u64, 2);
    append(&mut out, m.as_str());
    push_char(&mut out, '-');
    let dd = padded_string(d.day as u64, 2);
    append(&mut out, dd.as_str());
    assert(out@ =~= date_text(d));
    out
}

} // verus!
