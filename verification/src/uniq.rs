//! The adjacent-duplicate line filter: one pass over the lines of a source,
//! emitting the first line of each maximal run of consecutive lines that are
//! equal after removal of their trailing line terminators, optionally
//! prefixed with the run's length.

use vstd::prelude::*;
use crate::chars::str_chars;
use crate::fmt::spec_pad_left;
use crate::fmt::spec_decimal;
use crate::fmt::pad_left;
use crate::fmt::usize_to_string;

verus! {

/// `s` with trailing line terminators (`'\n'`, `'\r'`) removed: the content
/// on which two lines are compared for deduplication.
pub open spec fn trim_eol(s: Seq<char>) -> Seq<char>
    decreases s.len(),
{
    if s.len() > 0 && (s.last() == '\n' || s.last() == '\r') {
        trim_eol(s.drop_last())
    } else {
        s
    }
}

/// The length of the first maximal run of lines equal under [`trim_eol`].
pub open spec fn first_run_len(lines: Seq<Seq<char>>) -> nat
    decreases lines.len(),
{
    if lines.len() <= 1 {
        lines.len()
    } else if trim_eol(lines[1]) == trim_eol(lines[0]) {
        1 + first_run_len(lines.drop_first())
    } else {
        1
    }
}

proof fn lemma_first_run_len_bounds(lines: Seq<Seq<char>>)
    requires
        lines.len() > 0,
    ensures
        1 <= first_run_len(lines) <= lines.len(),
    decreases lines.len(),
{
    if lines.len() > 1 && trim_eol(lines[1]) == trim_eol(lines[0]) {
        lemma_first_run_len_bounds(lines.drop_first());
    }
}

/// The runs of `lines`: for each maximal run of trim-equal consecutive
/// lines, its first line (untrimmed) and its length.  A final run whose
/// content is blank after trimming is not reported: the end-of-stream
/// marker compares trim-equal to it, so it never triggers a flush.
pub open spec fn dedup_runs(lines: Seq<Seq<char>>) -> Seq<(Seq<char>, nat)>
    decreases lines.len(),
    via dedup_runs_decreases
{
    if lines.len() == 0 {
        Seq::empty()
    } else {
        let k = first_run_len(lines);
        let rest = lines.skip(k as int);
        if rest.len() == 0 && trim_eol(lines[0]).len() == 0 {
            Seq::empty()
        } else {
            seq![(lines[0], k)] + dedup_runs(rest)
        }
    }
}

#[via_fn]
proof fn dedup_runs_decreases(lines: Seq<Seq<char>>) {
    if lines.len() > 0 {
        lemma_first_run_len_bounds(lines);
    }
}

/// The lines emitted by the filter, without run-length prefixes: the first
/// line of each reported run.
pub open spec fn dedup_texts(lines: Seq<Seq<char>>) -> Seq<Seq<char>> {
    dedup_runs(lines).map_values(|r: (Seq<char>, nat)| r.0)
}

/// One emitted line: when `with_count` holds, the run length
/// right-justified in four columns, one space, then the original line.
pub open spec fn spec_run_line(text: Seq<char>, count: nat, with_count: bool) -> Seq<char> {
    if with_count {
        spec_pad_left(spec_decimal(count), 4) + seq![' '] + text
    } else {
        text
    }
}

/// The full output of the filter.
pub open spec fn dedup_output(lines: Seq<Seq<char>>, with_count: bool) -> Seq<Seq<char>> {
    dedup_runs(lines).map_values(|r: (Seq<char>, nat)| spec_run_line(r.0, r.1, with_count))
}

/// One maximal run of trim-equal consecutive lines: its first line and its
/// length.
pub struct Run {
    pub text: String,
    pub count: usize,
}

/// The length of `v` once trailing line terminators are dropped; the
/// trimmed content is the prefix of `v` of that length.
fn trimmed_len_chars(v: &Vec<char>) -> (n: usize)
    ensures
        n == trim_eol(v@).len(),
        trim_eol(v@) == v@.take(n as int),
        n <= v@.len(),
{
    let mut t = v.len();
    proof {
        assert(v@.take(v@.len() as int) =~= v@);
    }
    while t > 0 && (v[t - 1] == '\n' || v[t - 1] == '\r')
        invariant
            t <= v@.len(),
            trim_eol(v@) == trim_eol(v@.take(t as int)),
        decreases t,
    {
        proof {
            assert(v@.take(t as int).drop_last() =~= v@.take(t as int - 1));
            assert(v@.take(t as int).last() == v@[t as int - 1]);
        }
        t -= 1;
    }
    proof {
        if t == 0 {
            assert(v@.take(0) =~= Seq::<char>::empty());
        } else {
            assert(v@.take(t as int).last() == v@[t as int - 1]);
        }
        assert(trim_eol(v@.take(t as int)) == v@.take(t as int));
    }
    t
}

/// Whether two lines are equal after removal of trailing line terminators.
pub fn trim_eq(a: &str, b: &str) -> (r: bool)
    ensures
        r == (trim_eol(a@) == trim_eol(b@)),
{
    let va = str_chars(a);
    let vb = str_chars(b);
    let ta = trimmed_len_chars(&va);
    let tb = trimmed_len_chars(&vb);
    if ta != tb {
        return false;
    }
    let mut i: usize = 0;
    while i < ta
        invariant
            ta == tb,
            ta <= va@.len(),
            tb <= vb@.len(),
            i <= ta,
            va@ == a@,
            vb@ == b@,
            trim_eol(a@) == a@.take(ta as int),
            trim_eol(b@) == b@.take(tb as int),
            forall|m: int| 0 <= m < i ==> a@[m] == b@[m],
        decreases ta - i,
    {
        if va[i] != vb[i] {
            proof {
                assert(trim_eol(a@)[i as int] != trim_eol(b@)[i as int]);
            }
            return false;
        }
        i += 1;
    }
    proof {
        assert(a@.take(ta as int) =~= b@.take(tb as int));
    }
    true
}

/// Whether a line is blank after removal of trailing line terminators.
fn trimmed_empty(s: &str) -> (r: bool)
    ensures
        r == (trim_eol(s@).len() == 0),
{
    let v = str_chars(s);
    trimmed_len_chars(&v) == 0
}

/// The view of a vector of runs.
pub open spec fn runs_view(rs: Seq<Run>) -> Seq<(Seq<char>, nat)> {
    rs.map_values(|r: Run| (r.text@, r.count as nat))
}

proof fn lemma_first_run_len_char(lines: Seq<Seq<char>>, k: int)
    requires
        1 <= k <= lines.len(),
        forall|m: int| 0 < m < k ==> #[trigger] trim_eol(lines[m]) == trim_eol(lines[0]),
        k < lines.len() ==> trim_eol(lines[k]) != trim_eol(lines[0]),
    ensures
        first_run_len(lines) == k,
    decreases k,
{
    if lines.len() == 1 {
    } else if k == 1 {
        assert(trim_eol(lines[1]) != trim_eol(lines[0]));
    } else {
        assert(trim_eol(lines[1]) == trim_eol(lines[0]));
        let d = lines.drop_first();
        assert forall|m: int| 0 < m < k - 1 implies #[trigger] trim_eol(d[m]) == trim_eol(d[0]) by {
            assert(d[m] == lines[m + 1]);
            assert(d[0] == lines[1]);
        }
        if k - 1 < d.len() {
            assert(d[k - 1] == lines[k]);
            assert(d[0] == lines[1]);
        }
        lemma_first_run_len_char(d, k - 1);
    }
}

/// Filters `lines`, reporting each maximal run of trim-equal consecutive
/// lines as its first line together with the run's length.
pub fn dedup_lines(lines: &Vec<String>) -> (r: Vec<Run>)
    ensures
        runs_view(r@) == dedup_runs(lines.deep_view()),
{
    let ghost all = lines.deep_view();
    let mut res: Vec<Run> = Vec::new();
    let mut i: usize = 0;
    proof {
        assert(all.skip(0) =~= all);
        assert(runs_view(res@) + dedup_runs(all.skip(0)) =~= dedup_runs(all));
    }
    while i < lines.len()
        invariant
            all == lines.deep_view(),
            all.len() == lines@.len(),
            i <= lines@.len(),
            dedup_runs(all) == runs_view(res@) + dedup_runs(all.skip(i as int)),
        decreases lines@.len() - i,
    {
        let i0 = i;
        let mut j = i + 1;
        while j < lines.len() && trim_eq(lines[j].as_str(), lines[i0].as_str())
            invariant
                all == lines.deep_view(),
                all.len() == lines@.len(),
                i0 < j <= lines@.len(),
                forall|m: int| i0 < m < j ==> #[trigger] trim_eol(all[m]) == trim_eol(
                    all[i0 as int],
                ),
            decreases lines@.len() - j,
        {
            j += 1;
        }
        let ghost sub = all.skip(i0 as int);
        proof {
            assert forall|m: int| 0 < m < (j - i0) implies #[trigger] trim_eol(sub[m]) == trim_eol(
                sub[0],
            ) by {
                assert(sub[m] == all[m + i0]);
                assert(sub[0] == all[i0 as int]);
            }
            if (j - i0) < sub.len() {
                assert(sub[j - i0] == all[j as int]);
                assert(sub[0] == all[i0 as int]);
            }
            lemma_first_run_len_char(sub, j as int - i0 as int);
            assert(sub.skip(j as int - i0 as int) =~= all.skip(j as int));
        }
        if j == lines.len() && trimmed_empty(lines[i0].as_str()) {
            proof {
                assert(sub.len() == first_run_len(sub));
                assert(all.skip(j as int).len() == 0);
                assert(dedup_runs(sub) =~= Seq::<(Seq<char>, nat)>::empty());
                assert(dedup_runs(all.skip(j as int)) =~= Seq::<(Seq<char>, nat)>::empty());
                assert(runs_view(res@) + dedup_runs(all.skip(j as int)) =~= dedup_runs(all));
            }
        } else {
            let text = lines[i0].clone();
            let count = j - i0;
            res.push(Run { text, count });
            proof {
                assert(dedup_runs(sub) =~= seq![(sub[0], (j - i0) as nat)] + dedup_runs(
                    all.skip(j as int),
                ));
                assert(runs_view(res@) =~= runs_view(res@.drop_last()) + seq![
                    (all[i0 as int], (j - i0) as nat),
                ]);
                assert(runs_view(res@) + dedup_runs(all.skip(j as int)) =~= dedup_runs(all));
            }
        }
        i = j;
    }
    proof {
        assert(all.skip(i as int).len() == 0);
        assert(dedup_runs(all.skip(i as int)) =~= Seq::<(Seq<char>, nat)>::empty());
        assert(runs_view(res@) =~= dedup_runs(all));
    }
    res
}

proof fn lemma_first_run_len_props(lines: Seq<Seq<char>>)
    requires
        lines.len() > 0,
    ensures
        forall|m: int| 0 <= m < first_run_len(lines) ==> #[trigger] trim_eol(lines[m]) == trim_eol(
            lines[0],
        ),
        first_run_len(lines) < lines.len() ==> trim_eol(lines[first_run_len(lines) as int])
            != trim_eol(lines[0]),
    decreases lines.len(),
{
    lemma_first_run_len_bounds(lines);
    if lines.len() == 1 {
    } else if trim_eol(lines[1]) == trim_eol(lines[0]) {
        let d = lines.drop_first();
        lemma_first_run_len_props(d);
        lemma_first_run_len_bounds(d);
        let k = first_run_len(lines) as int;
        assert forall|m: int| 0 <= m < k implies #[trigger] trim_eol(lines[m]) == trim_eol(
            lines[0],
        ) by {
            if m > 0 {
                assert(d[m - 1] == lines[m]);
                assert(trim_eol(d[m - 1]) == trim_eol(d[0]));
                assert(d[0] == lines[1]);
            }
        }
        if k < lines.len() {
            assert(d[k - 1] == lines[k]);
            assert(trim_eol(d[k - 1]) != trim_eol(d[0]));
            assert(d[0] == lines[1]);
        }
    }
}

proof fn lemma_dedup_runs_shape(lines: Seq<Seq<char>>)
    ensures
        ({
            let rs = dedup_runs(lines);
            &&& forall|i: int|
                0 <= i < rs.len() - 1 ==> trim_eol(#[trigger] rs[i].0) != trim_eol(rs[i + 1].0)
            &&& rs.len() > 0 ==> trim_eol(rs[rs.len() - 1].0).len() > 0
        }),
    decreases lines.len(),
{
    if lines.len() > 0 {
        lemma_first_run_len_bounds(lines);
        lemma_first_run_len_props(lines);
        let k = first_run_len(lines) as int;
        let rest = lines.skip(k);
        let rs = dedup_runs(lines);
        if rest.len() == 0 && trim_eol(lines[0]).len() == 0 {
        } else {
            lemma_dedup_runs_shape(rest);
            let rrs = dedup_runs(rest);
            assert(rs == seq![(lines[0], k as nat)] + rrs);
            if rrs.len() > 0 {
                assert(rest.len() > 0);
                assert(rrs[0].0 == rest[0]);
                assert(rest[0] == lines[k]);
                assert(trim_eol(lines[k]) != trim_eol(lines[0]));
                assert forall|i: int|
                    0 <= i < rs.len() - 1 implies trim_eol(#[trigger] rs[i].0) != trim_eol(
                    rs[i + 1].0,
                ) by {
                    if i == 0 {
                        assert(rs[0].0 == lines[0]);
                        assert(rs[1] == rrs[0]);
                    } else {
                        assert(rs[i] == rrs[i - 1]);
                        assert(rs[i + 1] == rrs[i]);
                    }
                }
                assert(rs[rs.len() - 1] == rrs[rrs.len() - 1]);
            } else {
                assert(rs.len() == 1);
                assert(rs[0].0 == lines[0]);
                if rest.len() == 0 {
                    assert(trim_eol(lines[0]).len() > 0);
                } else {
                    assert(trim_eol(rest[0]).len() == 0);
                    assert(rest[0] == lines[k]);
                    assert(trim_eol(lines[k]) != trim_eol(lines[0]));
                    if trim_eol(lines[0]).len() == 0 {
                        assert(trim_eol(lines[0]) =~= trim_eol(lines[k]));
                    }
                }
            }
        }
    }
}

proof fn lemma_dedup_runs_of_clean(texts: Seq<Seq<char>>)
    requires
        forall|i: int|
            0 <= i < texts.len() - 1 ==> trim_eol(#[trigger] texts[i]) != trim_eol(texts[i + 1]),
        texts.len() > 0 ==> trim_eol(texts[texts.len() - 1]).len() > 0,
    ensures
        dedup_runs(texts) == Seq::new(texts.len(), |i: int| (texts[i], 1nat)),
    decreases texts.len(),
{
    if texts.len() == 0 {
        assert(dedup_runs(texts) =~= Seq::new(texts.len(), |i: int| (texts[i], 1nat)));
    } else {
        if texts.len() > 1 {
            assert(trim_eol(texts[1]) != trim_eol(texts[0]));
        }
        assert(first_run_len(texts) == 1);
        let rest = texts.skip(1);
        if texts.len() == 1 {
            assert(rest.len() == 0);
            assert(trim_eol(texts[0]).len() > 0);
            assert(dedup_runs(rest) =~= Seq::<(Seq<char>, nat)>::empty());
            assert(dedup_runs(texts) == seq![(texts[0], 1nat)] + dedup_runs(rest));
            assert(dedup_runs(texts) =~= Seq::new(texts.len(), |i: int| (texts[i], 1nat)));
        } else {
            assert forall|i: int|
                0 <= i < rest.len() - 1 implies trim_eol(#[trigger] rest[i]) != trim_eol(
                rest[i + 1],
            ) by {
                assert(rest[i] == texts[i + 1]);
                assert(rest[i + 1] == texts[i + 2]);
            }
            assert(rest[rest.len() - 1] == texts[texts.len() - 1]);
            lemma_dedup_runs_of_clean(rest);
            let target = Seq::new(texts.len(), |i: int| (texts[i], 1nat));
            assert(dedup_runs(texts) == seq![(texts[0], 1nat)] + dedup_runs(rest));
            assert forall|i: int| 0 <= i < target.len() implies dedup_runs(texts)[i] == target[i] by {
                if i > 0 {
                    assert(dedup_runs(texts)[i] == dedup_runs(rest)[i - 1]);
                    assert(dedup_runs(rest)[i - 1] == (rest[i - 1], 1nat));
                    assert(rest[i - 1] == texts[i]);
                }
            }
            assert(dedup_runs(texts) =~= target);
        }
    }
}

/// Idempotence of the filter: its output has no adjacent trim-equal
/// duplicate lines and no trailing blank run, so filtering that output
/// again leaves every line in place.  This is stated for the emitted line
/// texts, without run-length prefixes.
pub proof fn lemma_dedup_idempotent(lines: Seq<Seq<char>>)
    ensures
        dedup_texts(dedup_texts(lines)) == dedup_texts(lines),
{
    let out = dedup_texts(lines);
    let rs = dedup_runs(lines);
    lemma_dedup_runs_shape(lines);
    assert(out.len() == rs.len());
    assert forall|i: int| 0 <= i < out.len() - 1 implies trim_eol(#[trigger] out[i]) != trim_eol(
        out[i + 1],
    ) by {
        assert(out[i] == rs[i].0);
        assert(out[i + 1] == rs[i + 1].0);
    }
    if out.len() > 0 {
        assert(out[out.len() - 1] == rs[rs.len() - 1].0);
    }
    lemma_dedup_runs_of_clean(out);
    assert(dedup_texts(out) =~~= out);
}

/// Renders one reported run as an output line, with the run-length prefix
/// when `with_count` holds.
pub fn format_run(run: &Run, with_count: bool) -> (r: String)
    ensures
        r@ == spec_run_line(run.text@, run.count as nat, with_count),
{
    if with_count {
        let mut out = pad_left(usize_to_string(run.count).as_str(), 4);
        out.append(" ");
        out.append(run.text.as_str());
        proof {
            reveal_strlit(" ");
            assert((" ")@ =~= seq![' ']);
            assert(out@ =~= spec_run_line(run.text@, run.count as nat, with_count));
        }
        out
    } else {
        run.text.clone()
    }
}

/// The deduplicated output of `lines`: one line per maximal run of
/// trim-equal consecutive lines, prefixed with the run length when
/// `with_count` holds.
pub fn dedup(lines: &Vec<String>, with_count: bool) -> (r: Vec<String>)
    ensures
        r@.len() == dedup_output(lines.deep_view(), with_count).len(),
        forall|i: int| 0 <= i < r@.len() ==> (#[trigger] r@[i])@ == dedup_output(
            lines.deep_view(),
            with_count,
        )[i],
{
    let runs = dedup_lines(lines);
    let mut out: Vec<String> = Vec::new();
    let ghost target = dedup_output(lines.deep_view(), with_count);
    let mut i: usize = 0;
    while i < runs.len()
        invariant
            runs_view(runs@) == dedup_runs(lines.deep_view()),
            target == dedup_output(lines.deep_view(), with_count),
            i <= runs@.len(),
            target.len() == runs@.len(),
            out@.len() == i,
            forall|m: int| 0 <= m < i ==> (#[trigger] out@[m])@ == target[m],
        decreases runs@.len() - i,
    {
        let line = format_run(&runs[i], with_count);
        proof {
            assert(runs_view(runs@)[i as int] == (runs@[i as int].text@, runs@[i as int].count as nat));
        }
        out.push(line);
        i += 1;
    }
    out
}

/// The deduplicated output of a whole source text: the text is split into
/// lines, terminators kept, and the lines filtered as [`dedup`] does.
pub fn dedup_stream(text: &str, with_count: bool) -> (r: Vec<String>)
    ensures
        r@.len() == dedup_output(crate::split::spec_split_keep_ends(text@), with_count).len(),
        forall|i: int| 0 <= i < r@.len() ==> (#[trigger] r@[i])@ == dedup_output(
            crate::split::spec_split_keep_ends(text@),
            with_count,
        )[i],
{
    let lines = crate::split::split_keep_ends(text);
    dedup(&lines, with_count)
}

} // verus!
