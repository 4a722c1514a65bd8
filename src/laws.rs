use vstd::prelude::*;

use crate::bins::{lemma_substitute_len, reachable, substitute, BinView};
use crate::classify::{classify_spec, is_masked, DropReason, Verdict};
use crate::distance::{hamming_spec, is_combination, is_substitution, is_upper_base};
use crate::handler::{
    consensus_pair, has_key, held, key_ok, merged_bin, new_bin, proactive_ok, PairHandler,
};
use crate::policy::{Settings, UMICollisionResolutionMethod};
use crate::primer::primer_matches;
use crate::record::RecordView;
use crate::votes::{add_vote, extend_votes, tally_read, VoteModel};

verus! {

/// Every pair handed to a handler is accounted for exactly once: written,
/// written as an unpaired read, dropped for a reason, merged into an
/// existing bin, or held in a bin until the end of the run; once the bins
/// are written out, none is held.
pub proof fn lemma_conservation(h: PairHandler)
    requires
        h.wf(),
    ensures
        h.counts.records_total == h.counts.records_written + h.counts.records_unpaired_forward
            + h.counts.records_unpaired_reverse + h.counts.pair_drop_reason_count.sum()
            + h.counts.records_merged + held(h.settings.method, h.table@.len(), h.flushed),
        h.flushed ==> held(h.settings.method, h.table@.len(), h.flushed) == 0,
{
}

/// With radius zero, two pairs share a bin exactly when their UMIs are
/// equal, whatever bins exist when each of them arrives.
pub proof fn lemma_exact_binning(
    st: Settings,
    bins1: Seq<BinView>,
    bins2: Seq<BinView>,
    u1: Seq<u8>,
    u2: Seq<u8>,
    k1: Seq<u8>,
    k2: Seq<u8>,
)
    requires
        st.radius == 0,
        key_ok(st, bins1, u1, k1),
        key_ok(st, bins2, u2, k2),
    ensures
        (k1 == k2) <==> (u1 == u2),
{
}

/// A pair whose forward read does not hold the forward primer right after
/// the UMI is never kept; unless one of its reads is masked, it is dropped
/// for want of the primer or as a primer in the UMI's place.
pub proof fn lemma_primer_strictness(
    f: RecordView,
    r: RecordView,
    umi_len: nat,
    fp: Option<Seq<u8>>,
    rp: Option<Seq<u8>>,
)
    requires
        fp is Some,
        !primer_matches(fp->0, f.seq.skip(umi_len as int)),
    ensures
        classify_spec(f, r, umi_len, fp, rp) != Verdict::Keep,
        !is_masked(f.seq) && !is_masked(r.seq) ==> (classify_spec(f, r, umi_len, fp, rp)
            == Verdict::Drop(DropReason::NoForwardPrimer) || classify_spec(f, r, umi_len, fp, rp)
            == Verdict::Drop(DropReason::UmiIsForwardPrimer)),
{
}

proof fn lemma_add_vote_commutes(t: VoteModel, b1: u8, q1: int, b2: u8, q2: int)
    ensures
        add_vote(add_vote(t, b1, q1), b2, q2) == add_vote(add_vote(t, b2, q2), b1, q1),
{
}

/// Two reads vote into a run of tallies with the same result in either
/// order.
pub proof fn lemma_tally_order_free(
    v: Seq<VoteModel>,
    s1: Seq<u8>,
    q1: Seq<u8>,
    s2: Seq<u8>,
    q2: Seq<u8>,
    skip: nat,
    off: u8,
)
    requires
        s1.len() >= skip,
        s2.len() >= skip,
        q1.len() == s1.len(),
        q2.len() == s2.len(),
    ensures
        tally_read(tally_read(v, s1, q1, skip, off), s2, q2, skip, off) == tally_read(
            tally_read(v, s2, q2, skip, off),
            s1,
            q1,
            skip,
            off,
        ),
{
    let a = tally_read(tally_read(v, s1, q1, skip, off), s2, q2, skip, off);
    let b = tally_read(tally_read(v, s2, q2, skip, off), s1, q1, skip, off);
    let n1 = (s1.len() - skip) as nat;
    let n2 = (s2.len() - skip) as nat;
    let t1 = tally_read(v, s1, q1, skip, off);
    let t2 = tally_read(v, s2, q2, skip, off);
    let e1 = extend_votes(v, n1);
    let e2 = extend_votes(v, n2);
    let e12 = extend_votes(t1, n2);
    let e21 = extend_votes(t2, n1);
    assert(a.len() == b.len());
    assert forall|i: int| 0 <= i < a.len() implies a[i] == b[i] by {
        let z: VoteModel = (0, 0, 0, 0);
        let base = if i < v.len() {
            v[i]
        } else {
            z
        };
        assert(e1.len() > i ==> e1[i] == base);
        assert(e2.len() > i ==> e2[i] == base);
        if i < n1 && i < n2 {
            lemma_add_vote_commutes(
                base,
                s1[skip + i],
                crate::votes::phred(q1[skip + i], off),
                s2[skip + i],
                crate::votes::phred(q2[skip + i], off),
            );
        }
    }
    assert(a =~= b);
}

/// The tallies of both sides after the pairs `ps` voted into `v`, in turn.
pub open spec fn tally_pairs(
    st: Settings,
    v: (Seq<VoteModel>, Seq<VoteModel>),
    ps: Seq<(RecordView, RecordView)>,
) -> (Seq<VoteModel>, Seq<VoteModel>)
    decreases ps.len(),
{
    if ps.len() == 0 {
        v
    } else {
        tally_pair(st, tally_pairs(st, v, ps.drop_last()), ps.last())
    }
}

/// The tallies of both sides after pair `p` voted into `v`.
pub open spec fn tally_pair(
    st: Settings,
    v: (Seq<VoteModel>, Seq<VoteModel>),
    p: (RecordView, RecordView),
) -> (Seq<VoteModel>, Seq<VoteModel>) {
    (
        tally_read(v.0, p.0.seq, p.0.qual, st.umi_length as nat, st.phred_offset),
        tally_read(v.1, p.1.seq, p.1.qual, 0, st.phred_offset),
    )
}

/// A pair that can vote: a quality for each base, and a forward read that
/// holds the whole UMI.
pub open spec fn votable(st: Settings, p: (RecordView, RecordView)) -> bool {
    &&& p.0.seq.len() >= st.umi_length
    &&& p.0.qual.len() == p.0.seq.len()
    &&& p.1.qual.len() == p.1.seq.len()
}

/// The tallies of a bin under quality voting are those of the pairs that
/// started and joined it, voting in turn into empty tallies.
pub proof fn lemma_bin_votes(
    st: Settings,
    k: Seq<u8>,
    b: BinView,
    ps: Seq<(RecordView, RecordView)>,
    p: (RecordView, RecordView),
)
    requires
        st.method == UMICollisionResolutionMethod::QualityVote,
    ensures
        (new_bin(st, k, p).forward_votes, new_bin(st, k, p).reverse_votes) == tally_pairs(
            st,
            (Seq::empty(), Seq::empty()),
            seq![p],
        ),
        (b.forward_votes, b.reverse_votes) == tally_pairs(st, (Seq::empty(), Seq::empty()), ps) ==> (
        merged_bin(st, b, p).forward_votes,
        merged_bin(st, b, p).reverse_votes,
        ) == tally_pairs(st, (Seq::empty(), Seq::empty()), ps.push(p)),
{
    let e = (Seq::<VoteModel>::empty(), Seq::<VoteModel>::empty());
    assert(seq![p].drop_last() =~= Seq::<(RecordView, RecordView)>::empty());
    assert(tally_pairs(st, e, seq![p].drop_last()) == e);
    assert(ps.push(p).drop_last() =~= ps);
}

proof fn lemma_tally_pair_commutes(
    st: Settings,
    v: (Seq<VoteModel>, Seq<VoteModel>),
    p: (RecordView, RecordView),
    q: (RecordView, RecordView),
)
    requires
        votable(st, p),
        votable(st, q),
    ensures
        tally_pair(st, tally_pair(st, v, p), q) == tally_pair(st, tally_pair(st, v, q), p),
{
    let l = st.umi_length as nat;
    lemma_tally_order_free(v.0, p.0.seq, p.0.qual, q.0.seq, q.0.qual, l, st.phred_offset);
    lemma_tally_order_free(v.1, p.1.seq, p.1.qual, q.1.seq, q.1.qual, 0, st.phred_offset);
}

proof fn lemma_tally_pairs_move(
    st: Settings,
    v: (Seq<VoteModel>, Seq<VoteModel>),
    s: Seq<(RecordView, RecordView)>,
    i: int,
)
    requires
        0 <= i < s.len(),
        forall|j: int| 0 <= j < s.len() ==> votable(st, #[trigger] s[j]),
    ensures
        tally_pairs(st, v, s) == tally_pair(st, tally_pairs(st, v, s.remove(i)), s[i]),
    decreases s.len(),
{
    if i == s.len() - 1 {
        assert(s.remove(i) =~= s.drop_last());
    } else {
        let s1 = s.drop_last();
        let y = s.last();
        assert(s.remove(i).drop_last() =~= s1.remove(i));
        assert(s.remove(i).last() == y);
        assert(s1[i] == s[i]);
        assert forall|j: int| 0 <= j < s1.len() implies votable(st, #[trigger] s1[j]) by {
            assert(s1[j] == s[j]);
        }
        lemma_tally_pairs_move(st, v, s1, i);
        assert(votable(st, s[s.len() - 1]));
        lemma_tally_pair_commutes(st, tally_pairs(st, v, s1.remove(i)), s[i], y);
    }
}

/// Under quality voting, the tallies, and so the consensus pair written
/// for a bin, depend only on the multiset of pairs that voted, not on their
/// order.
pub proof fn lemma_vote_order_free(
    st: Settings,
    v: (Seq<VoteModel>, Seq<VoteModel>),
    s1: Seq<(RecordView, RecordView)>,
    s2: Seq<(RecordView, RecordView)>,
)
    requires
        s1.to_multiset() == s2.to_multiset(),
        forall|j: int| 0 <= j < s1.len() ==> votable(st, #[trigger] s1[j]),
    ensures
        tally_pairs(st, v, s1) == tally_pairs(st, v, s2),
    decreases s2.len(),
{
    broadcast use vstd::seq_lib::group_to_multiset_ensures;

    if s2.len() == 0 {
        s1.to_multiset_ensures();
        s2.to_multiset_ensures();
        assert(s1.len() == 0);
        assert(s1 =~= s2);
    } else {
        let x = s2.last();
        let t2 = s2.drop_last();
        assert(t2.push(x) =~= s2);
        assert(s2.to_multiset().count(x) > 0);
        assert(s1.contains(x));
        let i = choose|i: int| 0 <= i < s1.len() && s1[i] == x;
        lemma_tally_pairs_move(st, v, s1, i);
        assert(s1.remove(i).to_multiset() =~= t2.to_multiset()) by {
            assert(s1.remove(i).to_multiset() =~= s1.to_multiset().remove(x));
            assert(s2.to_multiset() =~= t2.to_multiset().insert(x));
        }
        assert forall|j: int| 0 <= j < s1.remove(i).len() implies votable(st, #[trigger] s1.remove(i)[j]) by {
            if j < i {
                assert(s1.remove(i)[j] == s1[j]);
            } else {
                assert(s1.remove(i)[j] == s1[j + 1]);
            }
        }
        lemma_vote_order_free(st, v, s1.remove(i), t2);
    }
}

/// Under quality voting, two bins under one UMI whose tallies come from
/// the same multiset of pairs, in whatever order, are written out as the
/// same consensus pair.
pub proof fn lemma_vote_output_order_free(
    st: Settings,
    b1: BinView,
    b2: BinView,
    s1: Seq<(RecordView, RecordView)>,
    s2: Seq<(RecordView, RecordView)>,
)
    requires
        b1.umi == b2.umi,
        (b1.forward_votes, b1.reverse_votes) == tally_pairs(st, (Seq::empty(), Seq::empty()), s1),
        (b2.forward_votes, b2.reverse_votes) == tally_pairs(st, (Seq::empty(), Seq::empty()), s2),
        s1.to_multiset() == s2.to_multiset(),
        forall|j: int| 0 <= j < s1.len() ==> votable(st, #[trigger] s1[j]),
    ensures
        consensus_pair(b1) == consensus_pair(b2),
{
    lemma_vote_order_free(st, (Seq::empty(), Seq::empty()), s1, s2);
}

proof fn lemma_hamming_symmetric(a: Seq<u8>, b: Seq<u8>)
    ensures
        hamming_spec(a, b) == hamming_spec(b, a),
    decreases a.len(),
{
    if a.len() > 0 && b.len() > 0 {
        lemma_hamming_symmetric(a.drop_last(), b.drop_last());
    }
}

proof fn lemma_hamming_bounded(a: Seq<u8>, b: Seq<u8>)
    ensures
        hamming_spec(a, b) <= a.len(),
    decreases a.len(),
{
    if a.len() > 0 && b.len() > 0 {
        lemma_hamming_bounded(a.drop_last(), b.drop_last());
    }
}

proof fn lemma_substitute_push(u: Seq<u8>, x: u8, c: Seq<usize>, s: Seq<u8>)
    requires
        forall|i: int| 0 <= i < c.len() ==> c[i] < u.len(),
    ensures
        substitute(u.push(x), c, s) == substitute(u, c, s).push(x),
    decreases c.len(),
{
    if c.len() > 0 && s.len() > 0 {
        lemma_substitute_push(u, x, c.drop_last(), s.drop_last());
        lemma_substitute_len(u, c.drop_last(), s.drop_last());
        assert(substitute(u.push(x), c, s) =~= substitute(u, c, s).push(x));
    }
}

/// A UMI of A, C, G and T within Hamming distance `r` of `u` is among the
/// neighbours that enumeration produces for `u`.
pub proof fn lemma_close_is_reachable(u: Seq<u8>, v: Seq<u8>, r: nat)
    requires
        u.len() == v.len(),
        u.len() <= usize::MAX,
        r <= u.len(),
        hamming_spec(u, v) <= r,
        forall|i: int| 0 <= i < v.len() ==> is_upper_base(v[i]),
    ensures
        reachable(u, v, r),
    decreases u.len(),
{
    if u.len() == 0 {
        let c = Seq::<usize>::empty();
        let s = Seq::<u8>::empty();
        assert(u =~= v);
        assert(is_combination(c, u.len(), r) && is_substitution(s, r) && substitute(u, c, s) == v);
    } else {
        let n = u.len();
        let u1 = u.drop_last();
        let v1 = v.drop_last();
        assert(u1.push(u.last()) =~= u);
        assert(v1.push(v.last()) =~= v);
        if u.last() == v.last() && r < n {
            lemma_close_is_reachable(u1, v1, r);
            let (c, s) = choose|c: Seq<usize>, s: Seq<u8>|
                is_combination(c, u1.len(), r) && is_substitution(s, r) && #[trigger] substitute(u1, c, s)
                    == v1;
            lemma_substitute_push(u1, u.last(), c, s);
            assert(substitute(u, c, s) == v);
            assert(is_combination(c, u.len(), r));
        } else {
            lemma_hamming_bounded(u1, v1);
            lemma_close_is_reachable(u1, v1, (r - 1) as nat);
            let (c1, s1) = choose|c: Seq<usize>, s: Seq<u8>|
                is_combination(c, u1.len(), (r - 1) as nat) && is_substitution(s, (r - 1) as nat)
                    && #[trigger] substitute(u1, c, s) == v1;
            let c = c1.push((n - 1) as usize);
            let s = s1.push(v.last());
            assert(c.drop_last() =~= c1);
            assert(s.drop_last() =~= s1);
            lemma_substitute_push(u1, u.last(), c1, s1);
            lemma_substitute_len(u1, c1, s1);
            assert(c.last() == n - 1);
            assert(substitute(u, c1, s1) == v1.push(u.last()));
            assert(substitute(u, c, s) == substitute(u, c1, s1).update(n - 1, v.last()));
            assert(substitute(u, c, s) =~= v);
            assert forall|i: int, j: int| 0 <= i < j < c.len() implies c[i] < c[j] by {
                if j < c.len() - 1 {
                    assert(c[i] == c1[i] && c[j] == c1[j]);
                } else {
                    assert(c[i] == c1[i]);
                }
            }
            assert(is_combination(c, u.len(), r));
            assert(is_substitution(s, r));
        }
    }
}

/// Under neighbour enumeration, two pairs whose UMIs are made of A, C, G
/// and T and lie within the radius of each other (Hamming distance) join
/// the same bin, whichever arrives first, when no bin already near either
/// of them exists: the first starts a bin under its own UMI, which the
/// second then joins.
pub proof fn lemma_proactive_binning(
    st: Settings,
    bins: Seq<BinView>,
    ua: Seq<u8>,
    ub: Seq<u8>,
    ka: Seq<u8>,
    started: BinView,
    kb: Seq<u8>,
)
    requires
        st.radius > 0,
        st.proactive,
        ua.len() == st.umi_length,
        ub.len() == st.umi_length,
        st.radius <= st.umi_length,
        forall|i: int| 0 <= i < ua.len() ==> is_upper_base(ua[i]),
        forall|i: int| 0 <= i < ub.len() ==> is_upper_base(ub[i]),
        hamming_spec(ua, ub) <= st.radius,
        forall|j: int|
            0 <= j < bins.len() ==> bins[j].umi != ua && bins[j].umi != ub && !reachable(
                ua,
                bins[j].umi,
                st.radius as nat,
            ) && !reachable(ub, bins[j].umi, st.radius as nat),
        key_ok(st, bins, ua, ka),
        started.umi == ka,
        key_ok(st, bins.push(started), ub, kb),
    ensures
        ka == ua,
        kb == ka,
{
    let r = st.radius as nat;
    let largest = st.method == UMICollisionResolutionMethod::KeepAll;
    assert(!has_key(bins, ua));
    assert(proactive_ok(bins, ua, r, largest, ka));
    let bins2 = bins.push(started);
    if ub != ua {
        assert(!has_key(bins2, ub)) by {
            if has_key(bins2, ub) {
                let i = choose|i: int| 0 <= i < bins2.len() && #[trigger] bins2[i].umi == ub;
                assert(i < bins.len());
            }
        }
        lemma_hamming_symmetric(ua, ub);
        lemma_close_is_reachable(ub, ua, r);
        assert(bins2[bins.len() as int].umi == ua);
        assert(proactive_ok(bins2, ub, r, largest, kb));
    } else {
        assert(has_key(bins2, ub)) by {
            assert(bins2[bins.len() as int].umi == ub);
        }
    }
}

} // verus!
