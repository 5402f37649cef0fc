//! The argument echoer's core: joining the given words with single spaces,
//! with or without a trailing newline.

use vstd::prelude::*;
use vstd::string::StringExecFns;

verus! {

/// The words joined with a single space between each pair.
pub open spec fn join_spec(ws: Seq<Seq<char>>) -> Seq<char>
    decreases ws.len(),
{
    if ws.len() == 0 {
        Seq::empty()
    } else if ws.len() == 1 {
        ws[0]
    } else {
        ws[0] + seq![' '] + join_spec(ws.drop_first())
    }
}

proof fn lemma_join_push(ws: Seq<Seq<char>>, w: Seq<char>)
    ensures
        join_spec(ws.push(w)) == join_spec(ws) + (if ws.len() > 0 {
            seq![' ']
        } else {
            Seq::<char>::empty()
        }) + w,
    decreases ws.len(),
{
    let p = ws.push(w);
    if ws.len() == 0 {
        assert(p[0] == w);
        assert(join_spec(p) == w);
        assert(join_spec(ws) + Seq::<char>::empty() + w =~= w);
    } else {
        assert(p[0] == ws[0]);
        assert(p.drop_first() =~= ws.drop_first().push(w));
        lemma_join_push(ws.drop_first(), w);
        if ws.len() == 1 {
            assert(ws.drop_first().len() == 0);
            assert(join_spec(p.drop_first()) == w);
            assert(join_spec(p) == ws[0] + seq![' '] + w);
            assert(join_spec(ws) + seq![' '] + w =~= ws[0] + seq![' '] + w);
        } else {
            assert(join_spec(p) == p[0] + seq![' '] + join_spec(p.drop_first()));
            assert(join_spec(ws.push(w)) =~= join_spec(ws) + seq![' '] + w);
        }
    }
}

/// Joins the words with single spaces, ending with a newline unless
/// `omit_newline` holds.
pub fn join_words(words: &Vec<String>, omit_newline: bool) -> (r: String)
    ensures
        r@ == join_spec(words.deep_view()) + (if omit_newline {
            Seq::<char>::empty()
        } else {
            seq!['\n']
        }),
{
    let ghost all = words.deep_view();
    let mut out = String::new();
    let mut i: usize = 0;
    proof {
        assert(all.take(0) =~= Seq::<Seq<char>>::empty());
    }
    while i < words.len()
        invariant
            all == words.deep_view(),
            all.len() == words@.len(),
            i <= all.len(),
            out@ == join_spec(all.take(i as int)),
        decreases all.len() - i,
    {
        if i > 0 {
            out.append(" ");
        }
        out.append(words[i].as_str());
        proof {
            reveal_strlit(" ");
            assert((" ")@ =~= seq![' ']);
            lemma_join_push(all.take(i as int), all[i as int]);
            assert(all.take(i as int).push(all[i as int]) =~= all.take(i as int + 1));
            assert(out@ =~= join_spec(all.take(i as int + 1)));
        }
        i += 1;
    }
    proof {
        assert(all.take(all.len() as int) =~= all);
    }
    if !omit_newline {
        out.append("\n");
        proof {
            reveal_strlit("\n");
            assert(("\n")@ =~= seq!['\n']);
        }
    }
    proof {
        assert(out@ =~= join_spec(all) + (if omit_newline {
            Seq::<char>::empty()
        } else {
            seq!['\n']
        }));
    }
    out
}

} // verus!
