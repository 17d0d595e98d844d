//! Splitting file contents into lines.
//!
//! Both palette cache files and theme files are read line by line.  The
//! split follows the usual text-file convention: lines end at a newline
//! byte, a final line without a terminator still counts, a trailing empty
//! segment does not, and one carriage return is stripped from the end of
//! each line.

use crate::bytes::views_of;
use vstd::prelude::*;

verus! {

/// The segments of `s` delimited by newline bytes, before carriage-return
/// stripping.  A trailing newline does not open an empty final segment.
pub open spec fn raw_lines(s: Seq<u8>) -> Seq<Seq<u8>>
    decreases s.len(),
{
    if s.len() == 0 {
        seq![]
    } else {
        let rest = raw_lines(s.drop_first());
        if s[0] == 10 {
            seq![Seq::<u8>::empty()] + rest
        } else if rest.len() == 0 {
            seq![seq![s[0]]]
        } else {
            seq![seq![s[0]] + rest[0]] + rest.drop_first()
        }
    }
}

/// Removes one carriage return from the end of a line, if present.
pub open spec fn strip_cr(l: Seq<u8>) -> Seq<u8> {
    if l.len() > 0 && l.last() == 13 {
        l.drop_last()
    } else {
        l
    }
}

/// The lines of `s`: newline-delimited segments with one trailing
/// carriage return removed from each.
pub open spec fn lines_spec(s: Seq<u8>) -> Seq<Seq<u8>> {
    raw_lines(s).map_values(|l: Seq<u8>| strip_cr(l))
}

/// A newline-free text is a single line, or no line at all when empty.
pub proof fn lemma_raw_lines_no_nl(l: Seq<u8>)
    requires
        forall|i: int| 0 <= i < l.len() ==> l[i] != 10,
    ensures
        l.len() == 0 ==> raw_lines(l) == Seq::<Seq<u8>>::empty(),
        l.len() > 0 ==> raw_lines(l) == seq![l],
    decreases l.len(),
{
    if l.len() > 0 {
        assert(forall|i: int|
            0 <= i < l.drop_first().len() ==> #[trigger] l.drop_first()[i] == l[i + 1]);
        lemma_raw_lines_no_nl(l.drop_first());
        if l.len() == 1 {
            assert(seq![l[0]] =~= l);
        } else {
            assert(seq![l[0]] + l.drop_first() =~= l);
        }
    }
}

/// Splitting `l ++ [newline] ++ rest` with `l` newline-free yields `l`
/// followed by the segments of `rest`.
pub proof fn lemma_raw_lines_step(l: Seq<u8>, rest: Seq<u8>)
    requires
        forall|i: int| 0 <= i < l.len() ==> l[i] != 10,
    ensures
        raw_lines(l + seq![10u8] + rest) == seq![l] + raw_lines(rest),
    decreases l.len(),
{
    let s = l + seq![10u8] + rest;
    if l.len() == 0 {
        assert(s =~= seq![10u8] + rest);
        assert(s.drop_first() =~= rest);
        assert(l =~= Seq::<u8>::empty());
    } else {
        assert(forall|i: int|
            0 <= i < l.drop_first().len() ==> #[trigger] l.drop_first()[i] == l[i + 1]);
        lemma_raw_lines_step(l.drop_first(), rest);
        assert(s.drop_first() =~= l.drop_first() + seq![10u8] + rest);
        let inner = raw_lines(s.drop_first());
        assert(inner == seq![l.drop_first()] + raw_lines(rest));
        assert(inner.len() > 0);
        assert(inner[0] == l.drop_first());
        assert(seq![s[0]] + l.drop_first() =~= l);
        assert(inner.drop_first() =~= raw_lines(rest));
        assert(raw_lines(s) =~= seq![l] + raw_lines(rest));
    }
}

/// Splits `s` into its lines.
pub fn split_lines(s: &Vec<u8>) -> (r: Vec<Vec<u8>>)
    ensures
        views_of(r@) == lines_spec(s@),
{
    let mut out: Vec<Vec<u8>> = Vec::new();
    let mut cur: Vec<u8> = Vec::new();
    let mut i: usize = 0;
    proof {
        assert(cur@ + s@.skip(0) =~= s@);
        assert(views_of(out@) =~= Seq::<Seq<u8>>::empty());
        assert(views_of(out@) + lines_spec(s@) =~= lines_spec(s@));
    }
    while i < s.len()
        invariant
            i <= s@.len(),
            forall|j: int| 0 <= j < cur@.len() ==> cur@[j] != 10,
            lines_spec(s@) == views_of(out@) + raw_lines(cur@ + s@.skip(i as int)).map_values(
                |l: Seq<u8>| strip_cr(l),
            ),
        decreases s@.len() - i,
    {
        let ghost prev_out = out@;
        let ghost prev_cur = cur@;
        let b = s[i];
        if b == 10 {
            proof {
                assert(prev_cur + s@.skip(i as int) =~= prev_cur + seq![10u8] + s@.skip(
                    i as int + 1,
                ));
                lemma_raw_lines_step(prev_cur, s@.skip(i as int + 1));
            }
            if cur.len() > 0 && cur[cur.len() - 1] == 13 {
                cur.pop();
                assert(cur@ =~= strip_cr(prev_cur));
            }
            assert(cur@ == strip_cr(prev_cur));
            let done = cur;
            cur = Vec::new();
            out.push(done);
            proof {
                let strip = |l: Seq<u8>| strip_cr(l);
                assert((seq![prev_cur] + raw_lines(s@.skip(i as int + 1))).map_values(strip)
                    =~= seq![strip_cr(prev_cur)] + raw_lines(s@.skip(i as int + 1)).map_values(
                    strip,
                ));
                assert(views_of(out@) =~= views_of(prev_out).push(strip_cr(prev_cur)));
                assert(cur@ + s@.skip(i as int + 1) =~= s@.skip(i as int + 1));
                assert(views_of(out@) + raw_lines(s@.skip(i as int + 1)).map_values(strip)
                    =~= views_of(prev_out) + (seq![prev_cur] + raw_lines(
                    s@.skip(i as int + 1),
                )).map_values(strip));
            }
        } else {
            cur.push(b);
            assert(cur@ + s@.skip(i as int + 1) =~= prev_cur + s@.skip(i as int));
        }
        i = i + 1;
    }
    proof {
        assert(cur@ + s@.skip(i as int) =~= cur@);
        lemma_raw_lines_no_nl(cur@);
    }
    let ghost pre_out = out@;
    let ghost pre_cur = cur@;
    if cur.len() > 0 {
        if cur[cur.len() - 1] == 13 {
            cur.pop();
            assert(cur@ =~= strip_cr(pre_cur));
        }
        assert(cur@ == strip_cr(pre_cur));
        out.push(cur);
        proof {
            let strip = |l: Seq<u8>| strip_cr(l);
            assert(seq![pre_cur].map_values(strip) =~= seq![strip_cr(pre_cur)]);
            assert(views_of(out@) =~= views_of(pre_out).push(strip_cr(pre_cur)));
        }
    } else {
        proof {
            let strip = |l: Seq<u8>| strip_cr(l);
            assert(raw_lines(pre_cur).map_values(strip) =~= Seq::<Seq<u8>>::empty());
        }
    }
    assert(views_of(out@) =~= lines_spec(s@));
    out
}

} // verus!
