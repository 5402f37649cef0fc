//! Decimal rendering of counters and fixed-width right justification, the
//! output shapes shared by the counting, numbering and deduplicating
//! utilities.

use vstd::prelude::*;
use crate::chars::chars_to_string;
use crate::chars::str_chars;

verus! {

/// The character for the decimal digit `d`.
pub open spec fn digit_char(d: nat) -> char {
    ((d + 0x30) as u8) as char
}

/// The decimal representation of `n`, most significant digit first, with no
/// leading zeros (a single `'0'` for zero).
pub open spec fn spec_decimal(n: nat) -> Seq<char>
    decreases n,
{
    if n < 10 {
        seq![digit_char(n)]
    } else {
        spec_decimal(n / 10).push(digit_char(n % 10))
    }
}

/// Appends the decimal representation of `n` to `out`.
fn push_decimal(n: usize, out: &mut Vec<char>)
    ensures
        final(out)@ == old(out)@ + spec_decimal(n as nat),
    decreases n,
{
    if n < 10 {
        let d: u8 = (n as u8) + 0x30;
        out.push(d as char);
        proof {
            assert(out@ =~= old(out)@ + spec_decimal(n as nat));
        }
    } else {
        proof {
            assert(n / 10 < n && n / 10 >= 1) by (nonlinear_arith)
                requires
                    n >= 10,
            ;
        }
        push_decimal(n / 10, out);
        let d: u8 = ((n % 10) as u8) + 0x30;
        out.push(d as char);
        proof {
            assert(out@ =~= old(out)@ + spec_decimal(n as nat));
        }
    }
}

/// The decimal representation of `n` as a string.
pub fn usize_to_string(n: usize) -> (s: String)
    ensures
        s@ == spec_decimal(n as nat),
{
    let mut out: Vec<char> = Vec::new();
    push_decimal(n, &mut out);
    chars_to_string(&out)
}

/// `n` space characters.
pub open spec fn spaces(n: nat) -> Seq<char> {
    Seq::new(n, |i: int| ' ')
}

/// `s` right-justified in a field of `width` characters; a value that is
/// already at least `width` characters long is returned unchanged.
pub open spec fn spec_pad_left(s: Seq<char>, width: nat) -> Seq<char> {
    if s.len() >= width {
        s
    } else {
        spaces((width - s.len()) as nat) + s
    }
}

/// Right-justifies `value` in a field of `width` characters.
pub fn pad_left(value: &str, width: usize) -> (r: String)
    ensures
        r@ == spec_pad_left(value@, width as nat),
{
    let chars = str_chars(value);
    let len = chars.len();
    let mut out: Vec<char> = Vec::new();
    if len < width {
        let pad = width - len;
        let mut i: usize = 0;
        while i < pad
            invariant
                i <= pad,
                out@ =~= spaces(i as nat),
            decreases pad - i,
        {
            out.push(' ');
            i += 1;
            proof {
                assert(out@ =~= spaces(i as nat));
            }
        }
    }
    let mut j: usize = 0;
    let ghost prefix = out@;
    while j < chars.len()
        invariant
            j <= chars@.len(),
            out@ =~= prefix + chars@.take(j as int),
        decreases chars@.len() - j,
    {
        out.push(chars[j]);
        j += 1;
        proof {
            assert(out@ =~= prefix + chars@.take(j as int));
        }
    }
    proof {
        assert(chars@.take(chars@.len() as int) =~= chars@);
        assert(out@ =~= spec_pad_left(value@, width as nat));
    }
    chars_to_string(&out)
}

/// A displayed counter field: the value right-justified in an eight-column
/// field when `show` holds, and the empty string otherwise.
pub fn format_field(value: &str, show: bool) -> (r: String)
    ensures
        show ==> r@ == spec_pad_left(value@, 8),
        !show ==> r@ == Seq::<char>::empty(),
{
    if show {
        pad_left(value, 8)
    } else {
        String::new()
    }
}

} // verus!
