//! The head utility's core: a verified parser for its positive numeric
//! options, and the line and byte prefixes it prints.

use vstd::prelude::*;
use crate::chars::str_chars;
use crate::chars::chars_to_string;
use crate::wc::line_count;
use crate::wc::newline_count;

verus! {

/// Whether `c` is a decimal digit.
pub open spec fn is_digit(c: char) -> bool {
    0x30 <= c as u32 && c as u32 <= 0x39
}

/// The value of the decimal digit `c`.
pub open spec fn digit_val(c: char) -> nat {
    ((c as u32) - 0x30) as nat
}

/// The value of a sequence of decimal digits, most significant first.
pub open spec fn digits_val(s: Seq<char>) -> nat
    decreases s.len(),
{
    if s.len() == 0 {
        0
    } else {
        digits_val(s.drop_last()) * 10 + digit_val(s.last())
    }
}

/// Whether every character of `s` is a decimal digit.
pub open spec fn all_digits(s: Seq<char>) -> bool {
    forall|i: int| 0 <= i < s.len() ==> is_digit(#[trigger] s[i])
}

/// `s` without its optional leading plus sign.
pub open spec fn stripped(s: Seq<char>) -> Seq<char> {
    if s.len() > 0 && s[0] == '+' {
        s.drop_first()
    } else {
        s
    }
}

/// Whether `s` is a decimal numeral a machine word can hold: an optional
/// plus sign, then at least one digit, with a value of at most `usize::MAX`.
pub open spec fn is_uint_str(s: Seq<char>) -> bool {
    &&& stripped(s).len() > 0
    &&& all_digits(stripped(s))
    &&& digits_val(stripped(s)) <= usize::MAX
}

proof fn lemma_digits_val_prefix_le(s: Seq<char>, j: int)
    requires
        0 <= j <= s.len(),
    ensures
        digits_val(s.take(j)) <= digits_val(s),
    decreases s.len() - j,
{
    if j < s.len() {
        assert(s.take(j + 1).drop_last() =~= s.take(j));
        assert(digits_val(s.take(j + 1)) == digits_val(s.take(j)) * 10 + digit_val(s[j]));
        lemma_digits_val_prefix_le(s, j + 1);
    } else {
        assert(s.take(j) =~= s);
    }
}

/// Parses a strictly positive machine-word numeral: an optional plus sign
/// and decimal digits.  Any other input — empty, non-digit characters,
/// zero, or a value above `usize::MAX` — is rejected with the input itself
/// as the error.
pub fn parse_positive_int(val: &str) -> (r: Result<usize, String>)
    ensures
        match r {
            Ok(n) => is_uint_str(val@) && n == digits_val(stripped(val@)) && n > 0,
            Err(e) => e@ == val@ && !(is_uint_str(val@) && digits_val(stripped(val@)) > 0),
        },
{
    let chars = str_chars(val);
    let ghost s = val@;
    let start: usize = if chars.len() > 0 && chars[0] == '+' {
        1
    } else {
        0
    };
    let ghost d = stripped(s);
    proof {
        assert(d =~= s.skip(start as int));
    }
    if start == chars.len() {
        return Err(val.to_owned());
    }
    let mut acc: usize = 0;
    let mut i: usize = start;
    proof {
        assert(d.take(0) =~= Seq::<char>::empty());
    }
    while i < chars.len()
        invariant
            s == val@,
            chars@ == s,
            d == stripped(s),
            d == s.skip(start as int),
            start <= i <= chars@.len(),
            all_digits(d.take(i - start)),
            acc as nat == digits_val(d.take(i - start)),
        decreases chars@.len() - i,
    {
        let c = chars[i];
        let u = c as u32;
        let ghost m = i - start;
        proof {
            assert(d[m as int] == s[i as int]);
            assert(d.take(m + 1).drop_last() =~= d.take(m as int));
            assert(d.take(m + 1).last() == d[m as int]);
        }
        if !(0x30 <= u && u <= 0x39) {
            proof {
                assert(!is_digit(d[m as int]));
                assert(!all_digits(d));
                assert(!is_uint_str(s));
            }
            return Err(val.to_owned());
        }
        let dg = (u - 0x30) as usize;
        let next = match acc.checked_mul(10) {
            Some(t) => t.checked_add(dg),
            None => None,
        };
        match next {
            Some(x) => {
                acc = x;
            },
            None => {
                proof {
                    assert(digits_val(d.take(m + 1)) == acc * 10 + digit_val(d[m as int]));
                    assert(digits_val(d.take(m + 1)) > usize::MAX);
                    lemma_digits_val_prefix_le(d, m + 1);
                    assert(digits_val(d) > usize::MAX);
                    assert(!is_uint_str(s));
                }
                return Err(val.to_owned());
            },
        }
        i += 1;
    }
    proof {
        assert(d.take(d.len() as int) =~= d);
    }
    if acc == 0 {
        Err(val.to_owned())
    } else {
        Ok(acc)
    }
}

/// The prefix of `s` running through its `n`-th line terminator, or all of
/// `s` when it has fewer terminators.
pub open spec fn take_lines(s: Seq<char>, n: nat) -> Seq<char>
    decreases s.len(),
{
    if n == 0 || s.len() == 0 {
        Seq::empty()
    } else if s[0] == '\n' {
        seq!['\n'] + take_lines(s.drop_first(), (n - 1) as nat)
    } else {
        seq![s[0]] + take_lines(s.drop_first(), n)
    }
}

/// A head of at least as many lines as the source holds returns the entire
/// source unmodified.
pub proof fn lemma_take_lines_all(s: Seq<char>, n: nat)
    requires
        n >= line_count(s),
    ensures
        take_lines(s, n) == s,
    decreases s.len(),
{
    if s.len() == 0 {
        assert(take_lines(s, n) =~= s);
    } else {
        let t = s.drop_first();
        assert(s =~= seq![s[0]] + t);
        crate::wc::lemma_newline_count_concat(seq![s[0]], t);
        assert(seq![s[0]].drop_last() =~= Seq::<char>::empty());
        assert(seq![s[0]].last() == s[0]);
        assert(newline_count(seq![s[0]]) == newline_count(Seq::<char>::empty()) + (if s[0] == '\n' {
            1nat
        } else {
            0nat
        }));
        if s[0] == '\n' {
            assert(newline_count(seq![s[0]]) == 1);
            if t.len() == 0 {
                assert(line_count(s) == 1);
            } else {
                assert(s.last() == t.last());
                assert(line_count(s) == 1 + line_count(t));
            }
            lemma_take_lines_all(t, (n - 1) as nat);
            assert(take_lines(s, n) == seq!['\n'] + take_lines(t, (n - 1) as nat));
            assert(seq!['\n'] + t =~= s);
        } else {
            assert(newline_count(seq![s[0]]) == 0);
            if t.len() == 0 {
                assert(line_count(s) == 1);
            } else {
                assert(s.last() == t.last());
                assert(line_count(s) == line_count(t));
            }
            lemma_take_lines_all(t, n);
            assert(take_lines(s, n) == seq![s[0]] + take_lines(t, n));
            assert(seq![s[0]] + t =~= s);
        }
    }
}

/// The first `n` lines of `text` (counting by terminators), exactly as they
/// stand in the source; a source of fewer lines is returned whole.
pub fn head_lines(text: &str, n: usize) -> (r: String)
    ensures
        r@ == take_lines(text@, n as nat),
        line_count(text@) <= n ==> r@ == text@,
{
    let chars = str_chars(text);
    let mut out: Vec<char> = Vec::new();
    let mut i: usize = 0;
    let mut rem = n;
    proof {
        assert(text@.skip(0) =~= text@);
    }
    while i < chars.len() && rem > 0
        invariant
            chars@ == text@,
            i <= chars@.len(),
            rem <= n,
            out@ + take_lines(text@.skip(i as int), rem as nat) == take_lines(text@, n as nat),
        decreases chars@.len() - i,
    {
        let c = chars[i];
        proof {
            let sk = text@.skip(i as int);
            assert(sk[0] == text@[i as int]);
            assert(sk.drop_first() =~= text@.skip(i as int + 1));
        }
        out.push(c);
        if c == '\n' {
            rem -= 1;
        }
        i += 1;
        proof {
            assert(out@ + take_lines(text@.skip(i as int), rem as nat) =~= take_lines(
                text@,
                n as nat,
            ));
        }
    }
    proof {
        if rem > 0 {
            assert(text@.skip(i as int).len() == 0);
        }
        assert(take_lines(text@.skip(i as int), rem as nat) =~= Seq::<char>::empty());
        assert(out@ =~= take_lines(text@, n as nat));
        if line_count(text@) <= n {
            lemma_take_lines_all(text@, n as nat);
        }
    }
    chars_to_string(&out)
}

/// The first `n` bytes of `data`, or all of it when it is shorter.
pub fn head_bytes(data: &Vec<u8>, n: usize) -> (r: Vec<u8>)
    ensures
        r@ == data@.take(if n <= data@.len() {
            n as int
        } else {
            data@.len() as int
        }),
        n >= data@.len() ==> r@ == data@,
{
    let m = if n < data.len() {
        n
    } else {
        data.len()
    };
    let mut out: Vec<u8> = Vec::new();
    let mut i: usize = 0;
    while i < m
        invariant
            m <= data@.len(),
            i <= m,
            out@ =~= data@.take(i as int),
        decreases m - i,
    {
        out.push(data[i]);
        i += 1;
        proof {
            assert(out@ =~= data@.take(i as int));
        }
    }
    proof {
        if n >= data@.len() {
            assert(data@.take(data@.len() as int) =~= data@);
        }
    }
    out
}

} // verus!
