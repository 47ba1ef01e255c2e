//! Mouse events in the SGR extended encoding (`ESC[<b;x;yM`): the body of
//! a report is decoded into a `MouseEvent`; what a click means is up to the
//! caller's layout.
use vstd::prelude::*;
use crate::text::{chars_of, sub_chars, first_index, find_char};

verus! {

/// Mouse button.
#[derive(Debug, Clone, Copy, PartialEq, Eq, Structural)]
pub enum Button {
    Left,
    Middle,
    Right,
    /// One notch of the wheel up.
    WheelUp,
    /// One notch of the wheel down.
    WheelDown,
    /// Anything else (back/forward, release without a button).
    Other,
}

/// One mouse event.
#[derive(Debug, Clone, Copy, PartialEq, Eq, Structural)]
pub struct MouseEvent {
    pub button: Button,
    /// Pressed (false: released). Wheel notches are always pressed.
    pub pressed: bool,
    /// Column, 1-based as the terminal reports it.
    pub x: usize,
    /// Row, 1-based.
    pub y: usize,
    /// Shift, alt or ctrl held.
    pub modified: bool,
}

// ── decimal fields ───────────────────────────────────────────────────

pub open spec fn is_digit(c: char) -> bool {
    '0' <= c && c <= '9'
}

pub open spec fn all_digits(d: Seq<char>) -> bool {
    forall|j: int| 0 <= j < d.len() ==> is_digit(#[trigger] d[j])
}

/// The value of a string of decimal digits.
pub open spec fn digits_val(d: Seq<char>) -> int
    decreases d.len(),
{
    if d.len() == 0 {
        0
    } else {
        digits_val(d.drop_last()) * 10 + (d.last() as int - '0' as int)
    }
}

/// An unsigned integer in decimal, as `str::parse` reads it: an optional
/// `+`, at least one digit, nothing else, and a value up to `max`.
pub open spec fn parse_num(s: Seq<char>, max: int) -> Option<int> {
    let d = if s.len() > 0 && s[0] == '+' {
        s.drop_first()
    } else {
        s
    };
    if d.len() > 0 && all_digits(d) && digits_val(d) <= max {
        Some(digits_val(d))
    } else {
        None
    }
}

proof fn lemma_digits_nonneg(d: Seq<char>)
    requires
        all_digits(d),
    ensures
        digits_val(d) >= 0,
    decreases d.len(),
{
    if d.len() > 0 {
        assert(all_digits(d.drop_last()));
        lemma_digits_nonneg(d.drop_last());
        assert(is_digit(d[d.len() - 1]));
    }
}

/// A prefix of a digit string is worth no more than the whole.
proof fn lemma_digits_mono(d: Seq<char>, i: int)
    requires
        all_digits(d),
        0 <= i <= d.len(),
    ensures
        digits_val(d.take(i)) <= digits_val(d),
    decreases d.len(),
{
    if i < d.len() {
        let p = d.drop_last();
        assert(all_digits(p));
        assert(d.take(i) =~= p.take(i));
        lemma_digits_mono(p, i);
        lemma_digits_nonneg(p);
        assert(is_digit(d[d.len() - 1]));
    } else {
        assert(d.take(i) =~= d);
    }
}

/// `parse_num` computed.
pub fn parse_uint(s: &[char], max: usize) -> (r: Option<usize>)
    ensures
        match r {
            Some(v) => parse_num(s@, max as int) == Some(v as int),
            None => parse_num(s@, max as int) is None,
        },
{
    let n = s.len();
    let start: usize = if n > 0 && s[0] == '+' {
        1
    } else {
        0
    };
    let ghost d = if s@.len() > 0 && s@[0] == '+' {
        s@.drop_first()
    } else {
        s@
    };
    assert(d =~= s@.subrange(start as int, n as int));
    if start == n {
        return None;
    }
    let mut val: u128 = 0;
    let mut big = false;
    let mut i: usize = start;
    while i < n
        invariant
            start <= i <= n,
            n == s@.len(),
            d == s@.subrange(start as int, n as int),
            d == (if s@.len() > 0 && s@[0] == '+' {
                s@.drop_first()
            } else {
                s@
            }),
            all_digits(d.take(i - start)),
            !big ==> val == digits_val(d.take(i - start)) && val <= max,
            big ==> digits_val(d.take(i - start)) > max,
        decreases n - i,
    {
        let c = s[i];
        if !('0' <= c && c <= '9') {
            assert(d[i - start] == c);
            assert(!is_digit(d[i - start]));
            assert(!all_digits(d));
            return None;
        }
        let ghost k = i - start;
        assert(d.take(k + 1).drop_last() =~= d.take(k));
        assert(d.take(k + 1).last() == c);
        assert(all_digits(d.take(k + 1))) by {
            assert forall|j: int| 0 <= j < k + 1 implies is_digit(#[trigger] d.take(k + 1)[j]) by {
                if j < k {
                    assert(d.take(k + 1)[j] == d.take(k)[j]);
                }
            }
        }
        let dig = (c as u32 - '0' as u32) as u128;
        if !big {
            let nv = val * 10 + dig;
            if nv > max as u128 {
                big = true;
            } else {
                val = nv;
            }
        } else {
            proof {
                lemma_digits_nonneg(d.take(k));
            }
        }
        i = i + 1;
    }
    assert(d.take(n - start) =~= d);
    if big {
        None
    } else {
        Some(val as usize)
    }
}

// ── fields ───────────────────────────────────────────────────────────

/// The three `;`-separated fields of a report payload, if it has exactly
/// three (what `split(';')` yields).
pub open spec fn sgr_fields(p: Seq<char>) -> Option<(Seq<char>, Seq<char>, Seq<char>)> {
    match first_index(p, ';') {
        None => None,
        Some(i) => {
            let rest = p.subrange(i + 1, p.len() as int);
            match first_index(rest, ';') {
                None => None,
                Some(j) => {
                    let tail = rest.subrange(j + 1, rest.len() as int);
                    if first_index(tail, ';') is Some {
                        None
                    } else {
                        Some((p.subrange(0, i), rest.subrange(0, j), tail))
                    }
                },
            }
        },
    }
}

/// The event for a button code (xterm convention: the low two bits pick
/// the button, 4/8/16 are shift/alt/ctrl, 64 marks the wheel).
pub open spec fn event_of(code: u32, pressed: bool, x: usize, y: usize) -> MouseEvent {
    let bits = code & 3u32;
    let button = if code & 64u32 != 0 {
        if bits == 0 {
            Button::WheelUp
        } else {
            Button::WheelDown
        }
    } else if bits == 0 {
        Button::Left
    } else if bits == 1 {
        Button::Middle
    } else if bits == 2 {
        Button::Right
    } else {
        Button::Other
    };
    MouseEvent { button, pressed, x, y, modified: code & 28u32 != 0 }
}

/// What a report body decodes to: it ends in `M` (press) or `m`
/// (release), the rest is three decimal fields `code;x;y` with 1-based
/// coordinates; anything else is no event.
pub open spec fn sgr_of(body: Seq<char>) -> Option<MouseEvent> {
    if body.len() == 0 || (body.last() != 'M' && body.last() != 'm') {
        None
    } else {
        match sgr_fields(body.drop_last()) {
            None => None,
            Some((a, b, c)) => match (
                parse_num(a, u32::MAX as int),
                parse_num(b, usize::MAX as int),
                parse_num(c, usize::MAX as int),
            ) {
                (Some(code), Some(x), Some(y)) => if x == 0 || y == 0 {
                    None
                } else {
                    Some(event_of(code as u32, body.last() == 'M', x as usize, y as usize))
                },
                _ => None,
            },
        }
    }
}

/// Decode the body of an SGR mouse report (the caller has stripped `ESC[<`).
/// `None` for anything that is not a well-formed report; the caller ignores
/// it.
pub fn parse_sgr(body: &str) -> (r: Option<MouseEvent>)
    ensures
        r == sgr_of(body@),
{
    let v = chars_of(body);
    let n = v.len();
    if n == 0 {
        return None;
    }
    let last = v[n - 1];
    let pressed = if last == 'M' {
        true
    } else if last == 'm' {
        false
    } else {
        return None;
    };
    let p = sub_chars(v.as_slice(), 0, n - 1);
    assert(p@ =~= body@.drop_last());
    let i = match find_char(p.as_slice(), ';') {
        Some(i) => i,
        None => return None,
    };
    let rest = sub_chars(p.as_slice(), i + 1, p.len());
    let j = match find_char(rest.as_slice(), ';') {
        Some(j) => j,
        None => return None,
    };
    let tail = sub_chars(rest.as_slice(), j + 1, rest.len());
    if find_char(tail.as_slice(), ';').is_some() {
        return None;
    }
    let a = sub_chars(p.as_slice(), 0, i);
    let b = sub_chars(rest.as_slice(), 0, j);
    let code = match parse_uint(a.as_slice(), 0xffff_ffff) {
        Some(c) => c as u32,
        None => return None,
    };
    let x = match parse_uint(b.as_slice(), usize::MAX) {
        Some(x) => x,
        None => return None,
    };
    let y = match parse_uint(tail.as_slice(), usize::MAX) {
        Some(y) => y,
        None => return None,
    };
    if x == 0 || y == 0 {
        return None;
    }
    let bits = code & 3;
    let button = if code & 64 != 0 {
        if bits == 0 {
            Button::WheelUp
        } else {
            Button::WheelDown
        }
    } else if bits == 0 {
        Button::Left
    } else if bits == 1 {
        Button::Middle
    } else if bits == 2 {
        Button::Right
    } else {
        Button::Other
    };
    Some(MouseEvent { button, pressed, x, y, modified: code & 28 != 0 })
}

} // verus!
