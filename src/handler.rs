use vstd::prelude::*;
use vstd::string::{StrSliceExecFns, StringSliceAdditionalSpecFns};

use crate::bins::{reachable, Bin, BinTable, BinView};
use crate::classify::{classify_pair, classify_spec, primers_valid, DropReason, Side, Verdict};
use crate::distance::distance_spec;
use crate::policy::{
    holds_pair, is_keep_longest, reduce_spec, writes_at_end, Settings, UMICollisionResolutionMethod,
};
use crate::record::{copy_bytes, opt_bytes_view, record_problem, ReadPair, Record, RecordError, RecordView};
use crate::votes::{
    all_vote_bases, check_vote_bases, consensus, consensus_spec, filler_quality, tally_read,
    update_vote_vec, votes_bounded, votes_view, VoteModel,
};

verus! {

/// The most pairs a handler takes: every tally of summed qualities then
/// fits in 64 bits.
pub const MAX_PAIRS: u64 = 0xFF_FFFF_FFFF_FFFF;

/// The description of the records that quality voting builds.
pub const VOTE_DESCRIPTION: &'static str = "constructed by grebe from quality voting";

/// How many pairs were dropped, by reason.
#[derive(Debug, Clone, Copy, PartialEq, Eq, Structural)]
pub struct PairDropReasonCount {
    pub both_masked: u64,
    pub no_forward_primer: u64,
    pub umi_is_forward_primer: u64,
    pub no_reverse_primer: u64,
    pub short_for_umi: u64,
}

impl PairDropReasonCount {
    pub open spec fn sum(&self) -> int {
        self.both_masked + self.no_forward_primer + self.umi_is_forward_primer + self.no_reverse_primer
            + self.short_for_umi
    }

    /// The counts with one more pair dropped for `reason`.
    pub open spec fn bumped(self, reason: DropReason) -> PairDropReasonCount {
        match reason {
            DropReason::BothMasked => PairDropReasonCount {
                both_masked: (self.both_masked + 1) as u64,
                ..self
            },
            DropReason::NoForwardPrimer => PairDropReasonCount {
                no_forward_primer: (self.no_forward_primer + 1) as u64,
                ..self
            },
            DropReason::UmiIsForwardPrimer => PairDropReasonCount {
                umi_is_forward_primer: (self.umi_is_forward_primer + 1) as u64,
                ..self
            },
            DropReason::NoReversePrimer => PairDropReasonCount {
                no_reverse_primer: (self.no_reverse_primer + 1) as u64,
                ..self
            },
            DropReason::ShortForUmi => PairDropReasonCount {
                short_for_umi: (self.short_for_umi + 1) as u64,
                ..self
            },
        }
    }

    pub fn new() -> (c: PairDropReasonCount)
        ensures
            c.sum() == 0,
            c == (PairDropReasonCount {
                both_masked: 0,
                no_forward_primer: 0,
                umi_is_forward_primer: 0,
                no_reverse_primer: 0,
                short_for_umi: 0,
            }),
    {
        PairDropReasonCount {
            both_masked: 0,
            no_forward_primer: 0,
            umi_is_forward_primer: 0,
            no_reverse_primer: 0,
            short_for_umi: 0,
        }
    }

    /// The number of dropped pairs, whatever the reason.
    pub fn total(&self) -> (t: u64)
        requires
            self.sum() <= u64::MAX,
        ensures
            t == self.sum(),
    {
        self.both_masked + self.no_forward_primer + self.umi_is_forward_primer + self.no_reverse_primer
            + self.short_for_umi
    }

    fn bump(&mut self, reason: DropReason)
        requires
            old(self).sum() < u64::MAX,
        ensures
            *final(self) == old(self).bumped(reason),
            final(self).sum() == old(self).sum() + 1,
    {
        match reason {
            DropReason::BothMasked => self.both_masked = self.both_masked + 1,
            DropReason::NoForwardPrimer => self.no_forward_primer = self.no_forward_primer + 1,
            DropReason::UmiIsForwardPrimer => self.umi_is_forward_primer = self.umi_is_forward_primer
                + 1,
            DropReason::NoReversePrimer => self.no_reverse_primer = self.no_reverse_primer + 1,
            DropReason::ShortForUmi => self.short_for_umi = self.short_for_umi + 1,
        }
    }
}

/// The counters of a run.
#[derive(Debug, Clone, Copy, PartialEq, Eq, Structural)]
pub struct PairCounts {
    /// Pairs handed in.
    pub records_total: u64,
    /// Pairs that started a bin, or, under `KeepAll`, were kept, or, under
    /// `QualityVote`, voted.
    pub records_good: u64,
    /// Pairs written to the paired outputs.
    pub records_written: u64,
    /// Forward reads written on their own.
    pub records_unpaired_forward: u64,
    /// Reverse reads written on their own.
    pub records_unpaired_reverse: u64,
    /// Pairs that joined an existing bin and are not written themselves.
    pub records_merged: u64,
    pub pair_drop_reason_count: PairDropReasonCount,
}

/// What the caller is to write for a pair.
#[derive(Debug)]
pub enum Action {
    Nothing,
    WritePair(ReadPair),
    WriteUnpaired(Side, Record),
}

pub enum ActionView {
    Nothing,
    WritePair((RecordView, RecordView)),
    WriteUnpaired(Side, RecordView),
}

impl View for Action {
    type V = ActionView;

    open spec fn view(&self) -> ActionView {
        match self {
            Action::Nothing => ActionView::Nothing,
            Action::WritePair(p) => ActionView::WritePair(p@),
            Action::WriteUnpaired(s, r) => ActionView::WriteUnpaired(*s, r@),
        }
    }
}

/// A pair that stops the run.
#[derive(Debug, Clone, Copy, PartialEq, Eq, Structural)]
pub enum PairError {
    /// A read is not a well-formed FASTQ record.
    InvalidRecord(Side, RecordError),
    /// Under quality voting, a read holds a base other than A, C, G, T or N.
    InvalidBase(Side),
}

pub open spec fn result_view(r: Result<Action, PairError>) -> Result<ActionView, PairError> {
    match r {
        Ok(a) => Ok(a@),
        Err(e) => Err(e),
    }
}

/// The UMI of a pair: the first `l` bases of its forward read.
pub open spec fn umi_of(f: RecordView, l: nat) -> Seq<u8> {
    f.seq.take(l as int)
}

pub open spec fn has_key(bins: Seq<BinView>, u: Seq<u8>) -> bool {
    exists|i: int| 0 <= i < bins.len() && #[trigger] bins[i].umi == u
}

/// The key that a linear scan gives: the first bin, in order of creation,
/// within `r` of `u`, or `u` itself.
pub open spec fn linear_ok(
    bins: Seq<BinView>,
    u: Seq<u8>,
    r: nat,
    metric: crate::distance::Metric,
    k: Seq<u8>,
) -> bool {
    ||| (k == u && forall|j: int| 0 <= j < bins.len() ==> distance_spec(metric, bins[j].umi, u) > r)
    ||| exists|i: int|
        0 <= i < bins.len() && #[trigger] bins[i].umi == k && distance_spec(metric, k, u) <= r && forall|
            j: int,
        | 0 <= j < i ==> distance_spec(metric, bins[j].umi, u) > r
}

/// The key that neighbour enumeration gives: an existing bin among the
/// neighbours of `u` (with `largest`, one at least as large as every other
/// such bin), or `u` itself when there is none.
pub open spec fn proactive_ok(bins: Seq<BinView>, u: Seq<u8>, r: nat, largest: bool, k: Seq<u8>) -> bool {
    ||| (k == u && forall|j: int| 0 <= j < bins.len() ==> !reachable(u, bins[j].umi, r))
    ||| exists|i: int|
        0 <= i < bins.len() && #[trigger] bins[i].umi == k && reachable(u, k, r) && (largest ==> forall|
            j: int,
        | 0 <= j < bins.len() && reachable(u, bins[j].umi, r) ==> bins[j].size <= bins[i].size)
}

/// The bin key that a pair with UMI `u` may join.
pub open spec fn key_ok(st: Settings, bins: Seq<BinView>, u: Seq<u8>, k: Seq<u8>) -> bool {
    if st.radius == 0 || has_key(bins, u) {
        k == u
    } else if !st.proactive {
        linear_ok(bins, u, st.radius as nat, st.metric, k)
    } else {
        proactive_ok(bins, u, st.radius as nat, st.method == UMICollisionResolutionMethod::KeepAll, k)
    }
}

/// A record whose name has `k` and a space put in front of it, unless `k`
/// is empty.
pub open spec fn prefixed(r: RecordView, k: Seq<u8>) -> RecordView {
    if k.len() == 0 {
        r
    } else {
        RecordView { name: k + seq![32u8] + r.name, ..r }
    }
}

/// The bin that a pair starts under key `k`.
pub open spec fn new_bin(st: Settings, k: Seq<u8>, p: (RecordView, RecordView)) -> BinView {
    let vote = st.method == UMICollisionResolutionMethod::QualityVote;
    BinView {
        umi: k,
        size: 1,
        kept: if holds_pair(st.method) {
            Some(p)
        } else {
            None
        },
        forward_votes: if vote {
            tally_read(Seq::empty(), p.0.seq, p.0.qual, st.umi_length as nat, st.phred_offset)
        } else {
            Seq::empty()
        },
        reverse_votes: if vote {
            tally_read(Seq::empty(), p.1.seq, p.1.qual, 0, st.phred_offset)
        } else {
            Seq::empty()
        },
    }
}

/// The bin after pair `p` joins it.
pub open spec fn merged_bin(st: Settings, b: BinView, p: (RecordView, RecordView)) -> BinView {
    let m = st.method;
    let vote = m == UMICollisionResolutionMethod::QualityVote;
    let kp = b.kept->0;
    BinView {
        size: b.size + 1,
        kept: if m == UMICollisionResolutionMethod::KeepLast {
            Some(p)
        } else if is_keep_longest(m) {
            Some((reduce_spec(m, kp.0, p.0), reduce_spec(m, kp.1, p.1)))
        } else {
            b.kept
        },
        forward_votes: if vote {
            tally_read(b.forward_votes, p.0.seq, p.0.qual, st.umi_length as nat, st.phred_offset)
        } else {
            b.forward_votes
        },
        reverse_votes: if vote {
            tally_read(b.reverse_votes, p.1.seq, p.1.qual, 0, st.phred_offset)
        } else {
            b.reverse_votes
        },
        ..b
    }
}

/// What is written at once when a pair joins bin `k`.
pub open spec fn insert_action(
    m: UMICollisionResolutionMethod,
    is_new: bool,
    k: Seq<u8>,
    p: (RecordView, RecordView),
) -> ActionView {
    if m == UMICollisionResolutionMethod::KeepAll {
        ActionView::WritePair((prefixed(p.0, k), prefixed(p.1, k)))
    } else if m == UMICollisionResolutionMethod::KeepFirst && is_new {
        ActionView::WritePair(p)
    } else {
        ActionView::Nothing
    }
}

/// How many pairs wait in the bins to be written at the end.
pub open spec fn held(m: UMICollisionResolutionMethod, n_bins: nat, flushed: bool) -> nat {
    if !flushed && writes_at_end(m) {
        n_bins
    } else {
        0
    }
}

/// Pair `p` joins bin `k` of `h`, giving `h2` and the action `a`.
pub open spec fn admitted(
    h: PairHandler,
    k: Seq<u8>,
    p: (RecordView, RecordView),
    a: ActionView,
    h2: PairHandler,
) -> bool {
    let st = h.settings;
    let m = st.method;
    let bins = h.table@;
    let is_new = !has_key(bins, k);
    let c = h.counts;
    let writes = m == UMICollisionResolutionMethod::KeepAll || (m
        == UMICollisionResolutionMethod::KeepFirst && is_new);
    &&& is_new ==> h2.table@ == bins.push(new_bin(st, k, p))
    &&& forall|i: int|
        0 <= i < bins.len() && #[trigger] bins[i].umi == k ==> h2.table@ == bins.update(
            i,
            merged_bin(st, bins[i], p),
        )
    &&& a == insert_action(m, is_new, k, p)
    &&& h2.counts == PairCounts {
        records_total: (c.records_total + 1) as u64,
        records_good: if m == UMICollisionResolutionMethod::KeepAll || m
            == UMICollisionResolutionMethod::QualityVote || is_new {
            (c.records_good + 1) as u64
        } else {
            c.records_good
        },
        records_written: if writes {
            (c.records_written + 1) as u64
        } else {
            c.records_written
        },
        records_merged: if !writes && !is_new {
            (c.records_merged + 1) as u64
        } else {
            c.records_merged
        },
        ..c
    }
}

/// The table and counters of `h2` are those of `h`.
pub open spec fn unchanged(h: PairHandler, h2: PairHandler) -> bool {
    h2.table@ == h.table@ && h2.counts == h.counts
}

/// What handling pair `p` does: `h` becomes `h2` and `r` is returned.
pub open spec fn step_ok(
    h: PairHandler,
    p: (RecordView, RecordView),
    r: Result<ActionView, PairError>,
    h2: PairHandler,
) -> bool {
    let st = h.settings;
    let c = h.counts;
    let l = st.umi_length as nat;
    let vote = st.method == UMICollisionResolutionMethod::QualityVote;
    &&& h2.settings == h.settings
    &&& h2.flushed == h.flushed
    &&& if record_problem(p.0) is Some {
        r == Err::<ActionView, PairError>(PairError::InvalidRecord(Side::Forward, record_problem(p.0)->0))
            && unchanged(h, h2)
    } else if record_problem(p.1) is Some {
        r == Err::<ActionView, PairError>(PairError::InvalidRecord(Side::Reverse, record_problem(p.1)->0))
            && unchanged(h, h2)
    } else {
        match classify_spec(
            p.0,
            p.1,
            l,
            opt_bytes_view(st.forward_primer),
            opt_bytes_view(st.reverse_primer),
        ) {
            Verdict::Drop(reason) => {
                &&& r == Ok::<ActionView, PairError>(ActionView::Nothing)
                &&& h2.table@ == h.table@
                &&& h2.counts == PairCounts {
                    records_total: (c.records_total + 1) as u64,
                    pair_drop_reason_count: c.pair_drop_reason_count.bumped(reason),
                    ..c
                }
            },
            Verdict::Unpaired(Side::Forward) => {
                &&& r == Ok::<ActionView, PairError>(ActionView::WriteUnpaired(Side::Forward, p.0))
                &&& h2.table@ == h.table@
                &&& h2.counts == PairCounts {
                    records_total: (c.records_total + 1) as u64,
                    records_unpaired_forward: (c.records_unpaired_forward + 1) as u64,
                    ..c
                }
            },
            Verdict::Unpaired(Side::Reverse) => {
                &&& r == Ok::<ActionView, PairError>(ActionView::WriteUnpaired(Side::Reverse, p.1))
                &&& h2.table@ == h.table@
                &&& h2.counts == PairCounts {
                    records_total: (c.records_total + 1) as u64,
                    records_unpaired_reverse: (c.records_unpaired_reverse + 1) as u64,
                    ..c
                }
            },
            Verdict::Keep => {
                if vote && !all_vote_bases(p.0.seq.skip(l as int)) {
                    r == Err::<ActionView, PairError>(PairError::InvalidBase(Side::Forward))
                        && unchanged(h, h2)
                } else if vote && !all_vote_bases(p.1.seq) {
                    r == Err::<ActionView, PairError>(PairError::InvalidBase(Side::Reverse))
                        && unchanged(h, h2)
                } else {
                    r is Ok && exists|k: Seq<u8>|
                        #[trigger] key_ok(st, h.table@, umi_of(p.0, l), k) && admitted(h, k, p, r->Ok_0, h2)
                }
            },
        }
    }
}

/// The pair that quality voting builds for a bin: both reads are named by
/// the UMI, carry the fixed description, hold the winning bases and a
/// quality of `~` at each of them.
pub open spec fn consensus_pair(b: BinView) -> (RecordView, RecordView) {
    let f = consensus_spec(b.forward_votes);
    let r = consensus_spec(b.reverse_votes);
    (
        RecordView {
            name: b.umi,
            desc: Some(VOTE_DESCRIPTION.spec_bytes()),
            seq: f,
            qual: Seq::new(f.len(), |i: int| 126u8),
        },
        RecordView {
            name: b.umi,
            desc: Some(VOTE_DESCRIPTION.spec_bytes()),
            seq: r,
            qual: Seq::new(r.len(), |i: int| 126u8),
        },
    )
}

/// The pairs written at the end of a run, one per bin in order of creation
/// for the policies that write then.
pub open spec fn flush_spec(m: UMICollisionResolutionMethod, bins: Seq<BinView>) -> Seq<
    (RecordView, RecordView),
> {
    if holds_pair(m) {
        Seq::new(bins.len(), |i: int| bins[i].kept->0)
    } else if m == UMICollisionResolutionMethod::QualityVote {
        Seq::new(bins.len(), |i: int| consensus_pair(bins[i]))
    } else {
        Seq::empty()
    }
}

pub open spec fn pairs_view(s: Seq<ReadPair>) -> Seq<(RecordView, RecordView)> {
    s.map_values(|p: ReadPair| p@)
}

/// The state of a run: the settings, the UMI bins and the counters.
#[derive(Debug)]
pub struct PairHandler {
    pub settings: Settings,
    pub table: BinTable,
    pub counts: PairCounts,
    /// Whether the bins have been written out at the end of the run.
    pub flushed: bool,
}

fn take_prefix(s: &Vec<u8>, n: usize) -> (r: Vec<u8>)
    requires
        n <= s@.len(),
    ensures
        r@ == s@.take(n as int),
{
    let mut r: Vec<u8> = Vec::new();
    let mut i: usize = 0;
    while i < n
        invariant
            i <= n <= s@.len(),
            r@ == s@.take(i as int),
        decreases n - i,
    {
        r.push(s[i]);
        i = i + 1;
        assert(r@ =~= s@.take(i as int));
    }
    r
}

fn append_bytes(dst: &mut Vec<u8>, src: &Vec<u8>)
    ensures
        final(dst)@ == old(dst)@ + src@,
{
    let mut i: usize = 0;
    while i < src.len()
        invariant
            i <= src@.len(),
            dst@ == old(dst)@ + src@.take(i as int),
        decreases src.len() - i,
    {
        dst.push(src[i]);
        i = i + 1;
        assert(dst@ =~= old(dst)@ + src@.take(i as int));
    }
    assert(src@.take(i as int) =~= src@);
}

/// A copy of `r` with `k` and a space put in front of its name, unless `k`
/// is empty.
fn prefixed_record(r: &Record, k: &Vec<u8>) -> (out: Record)
    ensures
        out@ == prefixed(r@, k@),
{
    let d = r.duplicate();
    if k.len() == 0 {
        return d;
    }
    let mut name = copy_bytes(k);
    name.push(32);
    append_bytes(&mut name, &r.name);
    assert(name@ =~= k@ + seq![32u8] + r.name@);
    let out = Record { name, desc: d.desc, seq: d.seq, qual: d.qual };
    assert(out@ =~= prefixed(r@, k@));
    out
}

/// The consensus pair of a bin under quality voting.
fn vote_pair(b: &Bin) -> (p: ReadPair)
    ensures
        p@ == consensus_pair(b@),
{
    let fseq = consensus(&b.forward_votes);
    let rseq = consensus(&b.reverse_votes);
    let fqual = filler_quality(fseq.len());
    let rqual = filler_quality(rseq.len());
    let forward = Record {
        name: copy_bytes(&b.umi),
        desc: Some(VOTE_DESCRIPTION.as_bytes_vec()),
        seq: fseq,
        qual: fqual,
    };
    let reverse = Record {
        name: copy_bytes(&b.umi),
        desc: Some(VOTE_DESCRIPTION.as_bytes_vec()),
        seq: rseq,
        qual: rqual,
    };
    let p = ReadPair { forward, reverse };
    assert(p@.0 =~= consensus_pair(b@).0);
    assert(p@.1 =~= consensus_pair(b@).1);
    p
}

impl PairHandler {
    pub open spec fn wf(&self) -> bool {
        let st = self.settings;
        let bins = self.table@;
        let c = self.counts;
        &&& self.table.wf()
        &&& primers_valid(opt_bytes_view(st.forward_primer), opt_bytes_view(st.reverse_primer))
        &&& st.radius <= st.umi_length
        &&& c.records_total <= MAX_PAIRS
        &&& c.records_good <= c.records_total
        &&& c.records_total == c.records_written + c.records_unpaired_forward
            + c.records_unpaired_reverse + c.pair_drop_reason_count.sum() + c.records_merged + held(
            st.method,
            bins.len(),
            self.flushed,
        )
        &&& forall|i: int|
            0 <= i < bins.len() ==> (#[trigger] bins[i]).umi.len() == st.umi_length && 1 <= bins[i].size
                <= c.records_total && (holds_pair(st.method) ==> bins[i].kept is Some)
        &&& forall|i: int|
            0 <= i < self.table.bins@.len() ==> votes_bounded(
                (#[trigger] self.table.bins@[i]).forward_votes@,
                (255 * self.table.bins@[i].size) as u64,
            ) && votes_bounded(self.table.bins@[i].reverse_votes@, (255 * self.table.bins@[i].size) as u64)
    }

    /// A handler with no bins and all counters at zero.
    pub fn new(settings: Settings) -> (h: PairHandler)
        requires
            primers_valid(opt_bytes_view(settings.forward_primer), opt_bytes_view(settings.reverse_primer)),
            settings.radius <= settings.umi_length,
        ensures
            h.wf(),
            h.settings == settings,
            h.table@ == Seq::<BinView>::empty(),
            h.counts == (PairCounts {
                records_total: 0,
                records_good: 0,
                records_written: 0,
                records_unpaired_forward: 0,
                records_unpaired_reverse: 0,
                records_merged: 0,
                pair_drop_reason_count: PairDropReasonCount {
                    both_masked: 0,
                    no_forward_primer: 0,
                    umi_is_forward_primer: 0,
                    no_reverse_primer: 0,
                    short_for_umi: 0,
                },
            }),
            !h.flushed,
    {
        PairHandler {
            settings,
            table: BinTable::new(),
            counts: PairCounts {
                records_total: 0,
                records_good: 0,
                records_written: 0,
                records_unpaired_forward: 0,
                records_unpaired_reverse: 0,
                records_merged: 0,
                pair_drop_reason_count: PairDropReasonCount::new(),
            },
            flushed: false,
        }
    }

    /// The key of the bin that a pair with UMI `umi` joins: the UMI itself
    /// when it has a bin or no radius is allowed, else a near bin found by
    /// scanning or by neighbour enumeration, else the UMI itself.
    pub fn assign_bin(&self, umi: &Vec<u8>) -> (k: Vec<u8>)
        requires
            self.wf(),
            umi@.len() == self.settings.umi_length,
        ensures
            key_ok(self.settings, self.table@, umi@, k@),
            k@.len() == self.settings.umi_length,
    {
        if self.settings.radius == 0 {
            return copy_bytes(umi);
        }
        match self.table.find(umi.as_slice()) {
            Some(i) => {
                assert(has_key(self.table@, umi@)) by {
                    assert(self.table@[i as int].umi == umi@);
                }
                copy_bytes(umi)
            },
            None => {
                let found = if !self.settings.proactive {
                    self.table.find_within_radius(
                        umi.as_slice(),
                        self.settings.radius as u64,
                        self.settings.metric,
                    )
                } else {
                    let largest = match self.settings.method {
                        UMICollisionResolutionMethod::KeepAll => true,
                        _ => false,
                    };
                    self.table.proactive_lookup(umi, self.settings.radius, largest)
                };
                match found {
                    Some(i) => {
                        let k = copy_bytes(&self.table.bins[i].umi);
                        assert(self.table@[i as int].umi == k@);
                        k
                    },
                    None => copy_bytes(umi),
                }
            },
        }
    }

    /// Lets a kept pair join bin `k` under the run's policy, and says what
    /// to write at once.
    pub fn insert_pair(&mut self, k: Vec<u8>, pair: ReadPair) -> (a: Action)
        requires
            old(self).wf(),
            !old(self).flushed,
            old(self).counts.records_total < MAX_PAIRS,
            k@.len() == old(self).settings.umi_length,
            record_problem(pair.forward@) is None,
            record_problem(pair.reverse@) is None,
            pair.forward.seq@.len() >= old(self).settings.umi_length,
        ensures
            final(self).wf(),
            final(self).settings == old(self).settings,
            final(self).flushed == old(self).flushed,
            admitted(*old(self), k@, pair@, a@, *final(self)),
    {
        let m = self.settings.method;
        let l = self.settings.umi_length;
        let off = self.settings.phred_offset;
        match self.table.find(k.as_slice()) {
            None => {
                let mut fv: Vec<crate::votes::BaseVotes> = Vec::new();
                let mut rv: Vec<crate::votes::BaseVotes> = Vec::new();
                if let UMICollisionResolutionMethod::QualityVote = m {
                    update_vote_vec(&mut fv, &pair.forward.seq, &pair.forward.qual, l, off, 0);
                    update_vote_vec(&mut rv, &pair.reverse.seq, &pair.reverse.qual, 0, off, 0);
                }
                let (kept, action) = match m {
                    UMICollisionResolutionMethod::KeepAll => (
                        None,
                        Action::WritePair(
                            ReadPair {
                                forward: prefixed_record(&pair.forward, &k),
                                reverse: prefixed_record(&pair.reverse, &k),
                            },
                        ),
                    ),
                    UMICollisionResolutionMethod::KeepFirst => (None, Action::WritePair(pair)),
                    UMICollisionResolutionMethod::QualityVote => (None, Action::Nothing),
                    _ => (Some(pair), Action::Nothing),
                };
                self.counts.records_total = self.counts.records_total + 1;
                self.counts.records_good = self.counts.records_good + 1;
                match m {
                    UMICollisionResolutionMethod::KeepAll | UMICollisionResolutionMethod::KeepFirst => {
                        self.counts.records_written = self.counts.records_written + 1;
                    },
                    _ => {},
                }
                let bin = Bin { umi: k, size: 1, kept, forward_votes: fv, reverse_votes: rv };
                assert(bin@ == new_bin(old(self).settings, k@, pair@)) by {
                    assert(votes_view(Seq::<crate::votes::BaseVotes>::empty()) =~= Seq::<VoteModel>::empty());
                }
                assert(votes_bounded(bin.forward_votes@, 255) && votes_bounded(bin.reverse_votes@, 255));
                self.table.push(bin);
                action
            },
            Some(i) => self.insert_existing(i, k, pair),
        }
    }

    fn insert_existing(&mut self, i: usize, k: Vec<u8>, pair: ReadPair) -> (a: Action)
        requires
            old(self).wf(),
            !old(self).flushed,
            old(self).counts.records_total < MAX_PAIRS,
            i < old(self).table@.len(),
            old(self).table@[i as int].umi == k@,
            record_problem(pair.forward@) is None,
            record_problem(pair.reverse@) is None,
            pair.forward.seq@.len() >= old(self).settings.umi_length,
        ensures
            final(self).wf(),
            final(self).settings == old(self).settings,
            final(self).flushed == old(self).flushed,
            admitted(*old(self), k@, pair@, a@, *final(self)),
    {
        let m = self.settings.method;
        let l = self.settings.umi_length;
        let off = self.settings.phred_offset;
        let ghost st = self.settings;
        let ghost old_view = self.table@[i as int];
        let mut b = Bin {
            umi: Vec::new(),
            size: 0,
            kept: None,
            forward_votes: Vec::new(),
            reverse_votes: Vec::new(),
        };
        std::mem::swap(&mut self.table.bins[i], &mut b);
        let size = b.size;
        assert(255 * size <= u64::MAX - 255) by (nonlinear_arith)
            requires
                size < MAX_PAIRS,
        ;
        b.size = size + 1;
        self.counts.records_total = self.counts.records_total + 1;
        let action = match m {
            UMICollisionResolutionMethod::KeepAll => {
                self.counts.records_good = self.counts.records_good + 1;
                self.counts.records_written = self.counts.records_written + 1;
                Action::WritePair(
                    ReadPair {
                        forward: prefixed_record(&pair.forward, &k),
                        reverse: prefixed_record(&pair.reverse, &k),
                    },
                )
            },
            UMICollisionResolutionMethod::KeepFirst => {
                self.counts.records_merged = self.counts.records_merged + 1;
                Action::Nothing
            },
            UMICollisionResolutionMethod::KeepLast => {
                b.kept = Some(pair);
                self.counts.records_merged = self.counts.records_merged + 1;
                Action::Nothing
            },
            UMICollisionResolutionMethod::QualityVote => {
                update_vote_vec(
                    &mut b.forward_votes,
                    &pair.forward.seq,
                    &pair.forward.qual,
                    l,
                    off,
                    255 * size,
                );
                update_vote_vec(&mut b.reverse_votes, &pair.reverse.seq, &pair.reverse.qual, 0, off, 255 * size);
                self.counts.records_good = self.counts.records_good + 1;
                self.counts.records_merged = self.counts.records_merged + 1;
                Action::Nothing
            },
            _ => {
                let np = match &b.kept {
                    Some(o) => ReadPair {
                        forward: m.compare_for_extension(&o.forward, &pair.forward),
                        reverse: m.compare_for_extension(&o.reverse, &pair.reverse),
                    },
                    None => pair,
                };
                b.kept = Some(np);
                self.counts.records_merged = self.counts.records_merged + 1;
                Action::Nothing
            },
        };
        assert(b@ == merged_bin(st, old_view, pair@));
        self.table.bins.set(i, b);
        assert(self.table@ =~= old(self).table@.update(i as int, merged_bin(st, old_view, pair@)));
        assert forall|j: int|
            0 <= j < old(self).table@.len() && #[trigger] old(self).table@[j].umi == k@ implies j == i by {
        }
        action
    }

    /// Handles one pair: checks both records, classifies the pair, and lets
    /// a kept pair join its bin. Says what to write at once; an error stops
    /// the run and leaves the handler as it was.
    pub fn process_pair(&mut self, pair: ReadPair) -> (r: Result<Action, PairError>)
        requires
            old(self).wf(),
            !old(self).flushed,
            old(self).counts.records_total < MAX_PAIRS,
        ensures
            final(self).wf(),
            step_ok(*old(self), pair@, result_view(r), *final(self)),
    {
        if let Err(e) = pair.forward.check() {
            return Err(PairError::InvalidRecord(Side::Forward, e));
        }
        if let Err(e) = pair.reverse.check() {
            return Err(PairError::InvalidRecord(Side::Reverse, e));
        }
        let l = self.settings.umi_length;
        let verdict = classify_pair(&pair, l, &self.settings.forward_primer, &self.settings.reverse_primer);
        match verdict {
            Verdict::Drop(reason) => {
                self.counts.records_total = self.counts.records_total + 1;
                self.counts.pair_drop_reason_count.bump(reason);
                Ok(Action::Nothing)
            },
            Verdict::Unpaired(Side::Forward) => {
                self.counts.records_total = self.counts.records_total + 1;
                self.counts.records_unpaired_forward = self.counts.records_unpaired_forward + 1;
                Ok(Action::WriteUnpaired(Side::Forward, pair.forward))
            },
            Verdict::Unpaired(Side::Reverse) => {
                self.counts.records_total = self.counts.records_total + 1;
                self.counts.records_unpaired_reverse = self.counts.records_unpaired_reverse + 1;
                Ok(Action::WriteUnpaired(Side::Reverse, pair.reverse))
            },
            Verdict::Keep => {
                if let UMICollisionResolutionMethod::QualityVote = self.settings.method {
                    if !check_vote_bases(&pair.forward.seq, l) {
                        return Err(PairError::InvalidBase(Side::Forward));
                    }
                    assert(pair.reverse.seq@.skip(0) =~= pair.reverse.seq@);
                    if !check_vote_bases(&pair.reverse.seq, 0) {
                        return Err(PairError::InvalidBase(Side::Reverse));
                    }
                }
                let umi = take_prefix(&pair.forward.seq, l);
                let k = self.assign_bin(&umi);
                let ghost kk = k@;
                let ghost pv = pair@;
                let a = self.insert_pair(k, pair);
                assert(key_ok(old(self).settings, old(self).table@, umi_of(pv.0, l as nat), kk));
                Ok(a)
            },
        }
    }

    /// Ends the run: the pairs that the policy held until now, one per bin
    /// in order of creation, are counted as written and returned.
    pub fn save_remaining(&mut self) -> (out: Vec<ReadPair>)
        requires
            old(self).wf(),
            !old(self).flushed,
        ensures
            final(self).wf(),
            final(self).flushed,
            final(self).settings == old(self).settings,
            final(self).table@ == old(self).table@,
            pairs_view(out@) == flush_spec(old(self).settings.method, old(self).table@),
            final(self).counts == (PairCounts {
                records_written: (old(self).counts.records_written + out@.len()) as u64,
                ..old(self).counts
            }),
    {
        let m = self.settings.method;
        let vote = match m {
            UMICollisionResolutionMethod::QualityVote => true,
            _ => false,
        };
        let at_end = match m {
            UMICollisionResolutionMethod::KeepAll | UMICollisionResolutionMethod::KeepFirst => false,
            _ => true,
        };
        let mut out: Vec<ReadPair> = Vec::new();
        if at_end {
            let mut i: usize = 0;
            while i < self.table.bins.len()
                invariant
                    self.wf(),
                    *self == *old(self),
                    m == self.settings.method,
                    vote == (m == UMICollisionResolutionMethod::QualityVote),
                    writes_at_end(m),
                    i <= self.table@.len(),
                    out@.len() == i,
                    forall|j: int| 0 <= j < i ==> (#[trigger] out@[j])@ == flush_spec(m, self.table@)[j],
                decreases self.table.bins.len() - i,
            {
                let b = &self.table.bins[i];
                assert(vote || self.table@[i as int].kept is Some);
                let p = if vote {
                    vote_pair(b)
                } else {
                    match &b.kept {
                        Some(p) => p.duplicate(),
                        None => {
                            assert(false);
                            vote_pair(b)
                        },
                    }
                };
                out.push(p);
                i = i + 1;
            }
        }
        assert(pairs_view(out@) =~= flush_spec(m, self.table@));
        self.counts.records_written = self.counts.records_written + out.len() as u64;
        self.flushed = true;
        out
    }
}

} // verus!
