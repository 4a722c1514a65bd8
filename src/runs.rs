use vstd::prelude::*;

use crate::bins::reachable;
use crate::classify::{classify_spec, Verdict};
use crate::distance::distance_spec;
use crate::handler::{
    admitted, has_key, insert_action, key_ok, prefixed, step_ok, umi_of, ActionView, PairError,
    PairHandler,
};
use crate::policy::UMICollisionResolutionMethod;
use crate::record::{opt_bytes_view, record_problem, RecordView};
use crate::votes::all_vote_bases;

verus! {

/// A run over the pairs `ps`: the handler passes through the states `hs`,
/// handling each pair in turn as `step_ok` says and giving the results `rs`.
pub open spec fn run_ok(
    hs: Seq<PairHandler>,
    ps: Seq<(RecordView, RecordView)>,
    rs: Seq<Result<ActionView, PairError>>,
) -> bool {
    &&& hs.len() == ps.len() + 1
    &&& rs.len() == ps.len()
    &&& forall|i: int| 0 <= i < ps.len() ==> #[trigger] step_ok(hs[i], ps[i], rs[i], hs[i + 1])
}

/// Whether a result asks for a pair to be written to the paired outputs.
pub open spec fn writes_pair(r: Result<ActionView, PairError>) -> bool {
    r matches Ok(ActionView::WritePair(_))
}

/// Whether handling `p` under the settings of `h` lets it join a bin.
pub open spec fn admits(h: PairHandler, p: (RecordView, RecordView)) -> bool {
    let st = h.settings;
    let l = st.umi_length as nat;
    &&& record_problem(p.0) is None
    &&& record_problem(p.1) is None
    &&& classify_spec(p.0, p.1, l, opt_bytes_view(st.forward_primer), opt_bytes_view(st.reverse_primer))
        == Verdict::Keep
    &&& st.method == UMICollisionResolutionMethod::QualityVote ==> all_vote_bases(
        p.0.seq.skip(l as int),
    ) && all_vote_bases(p.1.seq)
}

/// The bins of `h2` extend those of `h`: the same keys in the same places,
/// and perhaps more after them.
pub open spec fn grows(h: PairHandler, h2: PairHandler) -> bool {
    &&& h2.settings == h.settings
    &&& h2.table@.len() >= h.table@.len()
    &&& forall|j: int| 0 <= j < h.table@.len() ==> h2.table@[j].umi == h.table@[j].umi
}

/// Whether key `k` is one that UMI `u` can be binned under without being
/// equal to it.
pub open spec fn near_key(h: PairHandler, u: Seq<u8>, k: Seq<u8>) -> bool {
    let st = h.settings;
    ||| k == u
    ||| (st.radius > 0 && !st.proactive && distance_spec(st.metric, k, u) <= st.radius)
    ||| (st.radius > 0 && st.proactive && reachable(u, k, st.radius as nat))
}

/// Some bin of `h` has a key that the UMI of `p` is binned under.
pub open spec fn settled(h: PairHandler, p: (RecordView, RecordView)) -> bool {
    exists|j: int|
        0 <= j < h.table@.len() && near_key(
            h,
            umi_of(p.0, h.settings.umi_length as nat),
            #[trigger] h.table@[j].umi,
        )
}

proof fn lemma_step_grows(
    h: PairHandler,
    p: (RecordView, RecordView),
    r: Result<ActionView, PairError>,
    h2: PairHandler,
)
    requires
        step_ok(h, p, r, h2),
    ensures
        grows(h, h2),
{
    if admits(h, p) {
        let l = h.settings.umi_length as nat;
        let k = choose|k: Seq<u8>|
            #[trigger] key_ok(h.settings, h.table@, umi_of(p.0, l), k) && admitted(h, k, p, r->Ok_0, h2);
        if has_key(h.table@, k) {
            let i = choose|i: int| 0 <= i < h.table@.len() && #[trigger] h.table@[i].umi == k;
            assert(h2.table@ == h.table@.update(i, crate::handler::merged_bin(h.settings, h.table@[i], p)));
        }
    }
}

proof fn lemma_run_grows(
    hs: Seq<PairHandler>,
    ps: Seq<(RecordView, RecordView)>,
    rs: Seq<Result<ActionView, PairError>>,
    a: int,
    b: int,
)
    requires
        run_ok(hs, ps, rs),
        0 <= a <= b <= ps.len(),
    ensures
        grows(hs[a], hs[b]),
    decreases b - a,
{
    if a < b {
        lemma_run_grows(hs, ps, rs, a, b - 1);
        let i = b - 1;
        assert(step_ok(hs[i], ps[i], rs[i], hs[i + 1]));
        lemma_step_grows(hs[i], ps[i], rs[i], hs[i + 1]);
    }
}

proof fn lemma_settled_persists(h: PairHandler, h2: PairHandler, p: (RecordView, RecordView))
    requires
        grows(h, h2),
        settled(h, p),
    ensures
        settled(h2, p),
{
    let u = umi_of(p.0, h.settings.umi_length as nat);
    let j = choose|j: int| 0 <= j < h.table@.len() && near_key(h, u, #[trigger] h.table@[j].umi);
    assert(h2.table@[j].umi == h.table@[j].umi);
}

proof fn lemma_step_settles(
    h: PairHandler,
    p: (RecordView, RecordView),
    r: Result<ActionView, PairError>,
    h2: PairHandler,
)
    requires
        step_ok(h, p, r, h2),
        admits(h, p),
    ensures
        settled(h2, p),
{
    let st = h.settings;
    let l = st.umi_length as nat;
    let u = umi_of(p.0, l);
    let k = choose|k: Seq<u8>| #[trigger] key_ok(st, h.table@, u, k) && admitted(h, k, p, r->Ok_0, h2);
    let bins = h.table@;
    let n = bins.len() as int;
    assert(near_key(h, u, k));
    if has_key(bins, k) {
        let i = choose|i: int| 0 <= i < n && #[trigger] bins[i].umi == k;
        assert(h2.table@ == bins.update(i, crate::handler::merged_bin(st, bins[i], p)));
        assert(h2.table@[i].umi == k);
    } else {
        assert(h2.table@[n].umi == k);
    }
}

proof fn lemma_settled_writes_nothing(
    h: PairHandler,
    p: (RecordView, RecordView),
    r: Result<ActionView, PairError>,
    h2: PairHandler,
)
    requires
        step_ok(h, p, r, h2),
        h.settings.method == UMICollisionResolutionMethod::KeepFirst,
        settled(h, p),
    ensures
        !writes_pair(r),
{
    if admits(h, p) {
        let st = h.settings;
        let l = st.umi_length as nat;
        let u = umi_of(p.0, l);
        let bins = h.table@;
        let k = choose|k: Seq<u8>| #[trigger] key_ok(st, bins, u, k) && admitted(h, k, p, r->Ok_0, h2);
        let j = choose|j: int| 0 <= j < bins.len() && near_key(h, u, #[trigger] bins[j].umi);
        if bins[j].umi == u {
            assert(has_key(bins, u));
        }
        assert(has_key(bins, k));
    }
}

/// Under `KeepFirst`, handling the input twice over writes the same pairs
/// as handling it once: the first half of a run over `xs + xs` is a run
/// over `xs`, and the second half writes no pair.
pub proof fn lemma_keep_first_idempotent(
    hs: Seq<PairHandler>,
    xs: Seq<(RecordView, RecordView)>,
    rs: Seq<Result<ActionView, PairError>>,
)
    requires
        hs.len() > 0,
        hs[0].settings.method == UMICollisionResolutionMethod::KeepFirst,
        run_ok(hs, xs + xs, rs),
    ensures
        run_ok(hs.take(xs.len() + 1 as int), xs, rs.take(xs.len() as int)),
        forall|i: int| xs.len() <= i < rs.len() ==> !writes_pair(#[trigger] rs[i]),
{
    let n = xs.len() as int;
    let ps = xs + xs;
    assert forall|i: int| 0 <= i < n implies #[trigger] step_ok(
        hs.take(n + 1)[i],
        xs[i],
        rs.take(n)[i],
        hs.take(n + 1)[i + 1],
    ) by {
        assert(ps[i] == xs[i]);
        assert(step_ok(hs[i], ps[i], rs[i], hs[i + 1]));
    }
    assert forall|i: int| n <= i < rs.len() implies !writes_pair(#[trigger] rs[i]) by {
        let j = i - n;
        assert(ps[i] == xs[j] && ps[j] == xs[j]);
        assert(step_ok(hs[j], ps[j], rs[j], hs[j + 1]));
        assert(step_ok(hs[i], ps[i], rs[i], hs[i + 1]));
        lemma_run_grows(hs, ps, rs, 0, j);
        lemma_run_grows(hs, ps, rs, 0, i);
        lemma_run_grows(hs, ps, rs, j + 1, i);
        if admits(hs[i], ps[i]) {
            assert(admits(hs[j], ps[j]));
            lemma_step_settles(hs[j], ps[j], rs[j], hs[j + 1]);
            lemma_settled_persists(hs[j + 1], hs[i], ps[i]);
            lemma_settled_writes_nothing(hs[i], ps[i], rs[i], hs[i + 1]);
        }
    }
}

/// The pair that a step of a `KeepFirst` or `KeepAll` run writes: the pair
/// just handled, under `KeepAll` with its names prefixed by its bin's key.
pub open spec fn written_from(
    m: UMICollisionResolutionMethod,
    w: (RecordView, RecordView),
    p: (RecordView, RecordView),
) -> bool {
    if m == UMICollisionResolutionMethod::KeepAll {
        exists|k: Seq<u8>| w == (#[trigger] prefixed(p.0, k), prefixed(p.1, k))
    } else {
        w == p
    }
}

proof fn lemma_step_writes_input(
    h: PairHandler,
    p: (RecordView, RecordView),
    r: Result<ActionView, PairError>,
    h2: PairHandler,
)
    requires
        step_ok(h, p, r, h2),
        h.settings.method == UMICollisionResolutionMethod::KeepFirst || h.settings.method
            == UMICollisionResolutionMethod::KeepAll,
    ensures
        r matches Ok(ActionView::WritePair(w)) ==> written_from(h.settings.method, w, p),
{
    if admits(h, p) {
        let st = h.settings;
        let l = st.umi_length as nat;
        let k = choose|k: Seq<u8>|
            #[trigger] key_ok(st, h.table@, umi_of(p.0, l), k) && admitted(h, k, p, r->Ok_0, h2);
        if st.method == UMICollisionResolutionMethod::KeepAll {
            assert(r->Ok_0 == ActionView::WritePair((prefixed(p.0, k), prefixed(p.1, k))));
        }
    }
}

/// Under `KeepFirst` and `KeepAll`, the pairs written during a run are
/// input pairs (under `KeepAll` with the bin's key put in front of their
/// names), each written at the step that handles it, so they come out in
/// input order; nothing more is written at the end.
pub proof fn lemma_order_preserved(
    hs: Seq<PairHandler>,
    ps: Seq<(RecordView, RecordView)>,
    rs: Seq<Result<ActionView, PairError>>,
)
    requires
        hs.len() > 0,
        hs[0].settings.method == UMICollisionResolutionMethod::KeepFirst || hs[0].settings.method
            == UMICollisionResolutionMethod::KeepAll,
        run_ok(hs, ps, rs),
    ensures
        forall|i: int|
            0 <= i < rs.len() ==> (#[trigger] rs[i] matches Ok(ActionView::WritePair(w)) ==> written_from(
                hs[0].settings.method,
                w,
                ps[i],
            )),
        crate::handler::flush_spec(hs.last().settings.method, hs.last().table@).len() == 0,
{
    lemma_run_grows(hs, ps, rs, 0, ps.len() as int);
    assert forall|i: int|
        0 <= i < rs.len() implies (#[trigger] rs[i] matches Ok(ActionView::WritePair(w)) ==> written_from(
        hs[0].settings.method,
        w,
        ps[i],
    )) by {
        assert(step_ok(hs[i], ps[i], rs[i], hs[i + 1]));
        lemma_run_grows(hs, ps, rs, 0, i);
        lemma_step_writes_input(hs[i], ps[i], rs[i], hs[i + 1]);
    }
}

} // verus!
