//! The line printer's core: pass lines through unchanged, or number every
//! line, or number only the non-blank lines.

use vstd::prelude::*;
use vstd::string::StringExecFns;
use crate::fmt::spec_pad_left;
use crate::fmt::spec_decimal;
use crate::fmt::pad_left;
use crate::fmt::usize_to_string;

verus! {

/// A numbered output line: the line number right-justified in six columns,
/// a tab, then the line text.
pub open spec fn numbered_line(n: nat, line: Seq<char>) -> Seq<char> {
    spec_pad_left(spec_decimal(n), 6) + seq!['\t'] + line
}

/// The rendered output of the lines, with `next` the number the first
/// numbered line receives.  Numbering every line takes precedence over
/// numbering only non-blank lines; a blank line under non-blank numbering
/// passes through unchanged and does not advance the counter.
pub open spec fn render_from(
    lines: Seq<Seq<char>>,
    number_all: bool,
    number_nonblank: bool,
    next: nat,
) -> Seq<Seq<char>>
    decreases lines.len(),
{
    if lines.len() == 0 {
        Seq::empty()
    } else {
        let l = lines[0];
        let rest = lines.drop_first();
        if number_all {
            seq![numbered_line(next, l)] + render_from(rest, number_all, number_nonblank, next + 1)
        } else if number_nonblank {
            if l.len() == 0 {
                seq![l] + render_from(rest, number_all, number_nonblank, next)
            } else {
                seq![numbered_line(next, l)] + render_from(
                    rest,
                    number_all,
                    number_nonblank,
                    next + 1,
                )
            }
        } else {
            seq![l] + render_from(rest, number_all, number_nonblank, next)
        }
    }
}

/// The rendered output of the lines, numbering from one.
pub open spec fn render_spec(
    lines: Seq<Seq<char>>,
    number_all: bool,
    number_nonblank: bool,
) -> Seq<Seq<char>> {
    render_from(lines, number_all, number_nonblank, 1)
}

/// Builds one numbered output line.
fn number_line(n: usize, line: &str) -> (r: String)
    ensures
        r@ == numbered_line(n as nat, line@),
{
    let mut out = pad_left(usize_to_string(n).as_str(), 6);
    out.append("\t");
    out.append(line);
    proof {
        reveal_strlit("\t");
        assert(("\t")@ =~= seq!['\t']);
        assert(out@ =~= numbered_line(n as nat, line@));
    }
    out
}

/// Renders the lines of one source for printing: unchanged, numbered, or
/// numbered on non-blank lines only.
pub fn render_lines(lines: &Vec<String>, number_all: bool, number_nonblank: bool) -> (r: Vec<
    String,
>)
    requires
        lines@.len() < usize::MAX,
    ensures
        r.deep_view() == render_spec(lines.deep_view(), number_all, number_nonblank),
{
    let ghost all = lines.deep_view();
    let mut out: Vec<String> = Vec::new();
    let mut num: usize = 1;
    let mut i: usize = 0;
    proof {
        assert(all.skip(0) =~= all);
        assert(out.deep_view() + render_from(all, number_all, number_nonblank, 1) =~= render_spec(
            all,
            number_all,
            number_nonblank,
        ));
    }
    while i < lines.len()
        invariant
            all == lines.deep_view(),
            all.len() == lines@.len(),
            lines@.len() < usize::MAX,
            i <= all.len(),
            1 <= num <= i + 1,
            render_spec(all, number_all, number_nonblank) == out.deep_view() + render_from(
                all.skip(i as int),
                number_all,
                number_nonblank,
                num as nat,
            ),
        decreases all.len() - i,
    {
        let ghost sk = all.skip(i as int);
        proof {
            assert(sk[0] == all[i as int]);
            assert(sk.drop_first() =~= all.skip(i as int + 1));
        }
        let line = &lines[i];
        if number_all {
            let rendered = number_line(num, line.as_str());
            out.push(rendered);
            num += 1;
        } else if number_nonblank {
            if line.as_str().unicode_len() == 0 {
                out.push(line.clone());
            } else {
                let rendered = number_line(num, line.as_str());
                out.push(rendered);
                num += 1;
            }
        } else {
            out.push(line.clone());
        }
        i += 1;
        proof {
            assert(out.deep_view() =~= out.deep_view().drop_last().push(
                out.deep_view()[out.deep_view().len() - 1],
            ));
            assert(render_spec(all, number_all, number_nonblank) =~= out.deep_view()
                + render_from(all.skip(i as int), number_all, number_nonblank, num as nat));
        }
    }
    proof {
        assert(all.skip(i as int).len() == 0);
        assert(render_from(all.skip(i as int), number_all, number_nonblank, num as nat)
            =~= Seq::<Seq<char>>::empty());
        assert(out.deep_view() =~= render_spec(all, number_all, number_nonblank));
    }
    out
}

} // verus!
