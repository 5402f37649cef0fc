//! Splitting a text into its lines, each kept exactly as it stands in the
//! source, terminator included: the shape in which the deduplicator and the
//! drivers consume a stream.

use vstd::prelude::*;
use crate::chars::str_chars;
use crate::chars::chars_to_string;
use crate::head::take_lines;

verus! {

/// The lines of `s`, each including its terminator; the final line may lack
/// one.  An empty text has no lines.
pub open spec fn spec_split_keep_ends(s: Seq<char>) -> Seq<Seq<char>>
    decreases s.len(),
    via spec_split_keep_ends_decreases
{
    if s.len() == 0 {
        Seq::empty()
    } else {
        let first = take_lines(s, 1);
        seq![first] + spec_split_keep_ends(s.skip(first.len() as int))
    }
}

#[via_fn]
proof fn spec_split_keep_ends_decreases(s: Seq<char>) {
    if s.len() > 0 {
        lemma_take_one_line_bounds(s);
    }
}

/// The concatenation of a sequence of lines.
pub open spec fn concat_all(ls: Seq<Seq<char>>) -> Seq<char>
    decreases ls.len(),
{
    if ls.len() == 0 {
        Seq::empty()
    } else {
        ls[0] + concat_all(ls.drop_first())
    }
}

proof fn lemma_take_one_line_bounds(s: Seq<char>)
    requires
        s.len() > 0,
    ensures
        1 <= take_lines(s, 1).len() <= s.len(),
        take_lines(s, 1) == s.take(take_lines(s, 1).len() as int),
    decreases s.len(),
{
    if s[0] == '\n' {
        assert(take_lines(s, 1) == seq!['\n'] + take_lines(s.drop_first(), 0));
        assert(take_lines(s, 1) =~= s.take(1));
    } else {
        let t = s.drop_first();
        if t.len() == 0 {
            assert(take_lines(t, 1) =~= Seq::<char>::empty());
            assert(take_lines(s, 1) =~= s.take(1));
        } else {
            lemma_take_one_line_bounds(t);
            let l = take_lines(t, 1).len() as int;
            assert(take_lines(s, 1) == seq![s[0]] + take_lines(t, 1));
            assert(seq![s[0]] + t.take(l) =~= s.take(l + 1));
        }
    }
}

proof fn lemma_take_one_line_char(s: Seq<char>, k: int)
    requires
        1 <= k <= s.len(),
        forall|m: int| 0 <= m < k - 1 ==> s[m] != '\n',
        s[k - 1] == '\n' || k == s.len(),
    ensures
        take_lines(s, 1) == s.take(k),
    decreases k,
{
    if s[0] == '\n' {
        assert(k == 1);
        assert(take_lines(s, 1) == seq!['\n'] + take_lines(s.drop_first(), 0));
        assert(take_lines(s, 1) =~= s.take(1));
    } else {
        let t = s.drop_first();
        assert(k >= 2 || k == s.len());
        if s.len() == 1 {
            assert(take_lines(t, 1) =~= Seq::<char>::empty());
            assert(take_lines(s, 1) =~= s.take(1));
        } else {
            assert forall|m: int| 0 <= m < k - 2 implies t[m] != '\n' by {
                assert(t[m] == s[m + 1]);
            }
            assert(t[k - 2] == s[k - 1]);
            lemma_take_one_line_char(t, k - 1);
            assert(take_lines(s, 1) == seq![s[0]] + take_lines(t, 1));
            assert(seq![s[0]] + t.take(k - 1) =~= s.take(k));
        }
    }
}

/// Splitting and rejoining are inverse: the lines of `s`, concatenated,
/// are `s` again.
pub proof fn lemma_split_concat(s: Seq<char>)
    ensures
        concat_all(spec_split_keep_ends(s)) == s,
    decreases s.len(),
{
    if s.len() == 0 {
        assert(concat_all(spec_split_keep_ends(s)) =~= s);
    } else {
        lemma_take_one_line_bounds(s);
        let first = take_lines(s, 1);
        let rest = s.skip(first.len() as int);
        lemma_split_concat(rest);
        assert((seq![first] + spec_split_keep_ends(rest)).drop_first() =~= spec_split_keep_ends(
            rest,
        ));
        assert(s.take(first.len() as int) + s.skip(first.len() as int) =~= s);
        assert(concat_all(spec_split_keep_ends(s)) =~= s);
    }
}

/// Splits `text` into its lines, keeping each line's terminator.
pub fn split_keep_ends(text: &str) -> (r: Vec<String>)
    ensures
        r.deep_view() == spec_split_keep_ends(text@),
        concat_all(r.deep_view()) == text@,
{
    let chars = str_chars(text);
    let n = chars.len();
    let mut out: Vec<String> = Vec::new();
    let mut i: usize = 0;
    proof {
        assert(text@.skip(0) =~= text@);
        assert(out.deep_view() + spec_split_keep_ends(text@) =~= spec_split_keep_ends(text@));
    }
    while i < n
        invariant
            chars@ == text@,
            n == chars@.len(),
            i <= n,
            spec_split_keep_ends(text@) == out.deep_view() + spec_split_keep_ends(
                text@.skip(i as int),
            ),
        decreases n - i,
    {
        let ghost sub = text@.skip(i as int);
        let mut j = i;
        let mut line: Vec<char> = Vec::new();
        while j < n && (j == i || !(chars[j - 1] == '\n'))
            invariant
                chars@ == text@,
                n == chars@.len(),
                i <= j <= n,
                line@ =~= text@.subrange(i as int, j as int),
                forall|m: int| i <= m < j - 1 ==> text@[m] != '\n',
            decreases n - j,
        {
            line.push(chars[j]);
            j += 1;
            proof {
                assert(line@ =~= text@.subrange(i as int, j as int));
            }
        }
        proof {
            assert(j > i);
            assert forall|m: int| 0 <= m < (j - i) - 1 implies sub[m] != '\n' by {
                assert(sub[m] == text@[m + i]);
            }
            if text@[j - 1] == '\n' {
                assert(sub[(j - i) - 1] == text@[j - 1]);
            } else {
                assert(j == n);
            }
            lemma_take_one_line_char(sub, j - i);
            assert(sub.take(j - i) =~= text@.subrange(i as int, j as int));
            assert(sub.skip(j - i) =~= text@.skip(j as int));
        }
        let piece = chars_to_string(&line);
        out.push(piece);
        proof {
            assert(out.deep_view() =~= out.deep_view().drop_last().push(
                text@.subrange(i as int, j as int),
            ));
            assert(spec_split_keep_ends(sub) == seq![take_lines(sub, 1)] + spec_split_keep_ends(
                sub.skip(take_lines(sub, 1).len() as int),
            ));
            assert(spec_split_keep_ends(text@) =~= out.deep_view() + spec_split_keep_ends(
                text@.skip(j as int),
            ));
        }
        i = j;
    }
    proof {
        assert(text@.skip(i as int).len() == 0);
        assert(spec_split_keep_ends(text@.skip(i as int)) =~= Seq::<Seq<char>>::empty());
        assert(out.deep_view() =~= spec_split_keep_ends(text@));
        lemma_split_concat(text@);
    }
    out
}

/// A line with its terminator removed: a trailing `"\n"` or `"\r\n"` is
/// dropped; a line without a final `'\n'` keeps any `'\r'` it has.
pub open spec fn strip_line_end(l: Seq<char>) -> Seq<char> {
    if l.len() > 0 && l.last() == '\n' {
        let t = l.drop_last();
        if t.len() > 0 && t.last() == '\r' {
            t.drop_last()
        } else {
            t
        }
    } else {
        l
    }
}

/// The lines of `s` with their terminators removed.
pub open spec fn spec_split_stripped(s: Seq<char>) -> Seq<Seq<char>> {
    spec_split_keep_ends(s).map_values(|l: Seq<char>| strip_line_end(l))
}

/// Removes the terminator of one line.
fn strip_one(line: &str) -> (r: String)
    ensures
        r@ == strip_line_end(line@),
{
    let chars = str_chars(line);
    let mut end = chars.len();
    if end > 0 && chars[end - 1] == '\n' {
        end -= 1;
        if end > 0 && chars[end - 1] == '\r' {
            end -= 1;
        }
    }
    let mut kept: Vec<char> = Vec::new();
    let mut i: usize = 0;
    while i < end
        invariant
            end <= chars@.len(),
            i <= end,
            chars@ == line@,
            kept@ =~= line@.take(i as int),
        decreases end - i,
    {
        kept.push(chars[i]);
        i += 1;
        proof {
            assert(kept@ =~= line@.take(i as int));
        }
    }
    proof {
        assert(line@.take(end as int) =~= strip_line_end(line@));
    }
    chars_to_string(&kept)
}

/// Splits `text` into its lines, stripping each line's terminator.
pub fn split_stripped(text: &str) -> (r: Vec<String>)
    ensures
        r.deep_view() == spec_split_stripped(text@),
{
    let with_ends = split_keep_ends(text);
    let mut out: Vec<String> = Vec::new();
    let mut i: usize = 0;
    while i < with_ends.len()
        invariant
            with_ends.deep_view() == spec_split_keep_ends(text@),
            with_ends@.len() == spec_split_keep_ends(text@).len(),
            i <= with_ends@.len(),
            out@.len() == i,
            forall|m: int| 0 <= m < i ==> (#[trigger] out@[m])@ == spec_split_stripped(text@)[m],
        decreases with_ends@.len() - i,
    {
        let stripped = strip_one(with_ends[i].as_str());
        proof {
            assert(with_ends.deep_view()[i as int] == with_ends@[i as int]@);
        }
        out.push(stripped);
        i += 1;
    }
    proof {
        assert(out.deep_view() =~= spec_split_stripped(text@));
    }
    out
}

} // verus!
