use vstd::prelude::*;

use crate::primer::{to_upper, upper};

verus! {

/// The summed qualities voting for A, T, C and G at one position.
pub type BaseVotes = (u64, u64, u64, u64);

/// A position's tallies as integers.
pub type VoteModel = (int, int, int, int);

pub open spec fn vote_view(v: BaseVotes) -> VoteModel {
    (v.0 as int, v.1 as int, v.2 as int, v.3 as int)
}

pub open spec fn votes_view(s: Seq<BaseVotes>) -> Seq<VoteModel> {
    s.map_values(|v: BaseVotes| vote_view(v))
}

/// The Phred score that a quality byte encodes with the given offset; a
/// byte below the offset counts as zero.
pub open spec fn phred(q: u8, offset: u8) -> int {
    if q >= offset {
        q - offset
    } else {
        0
    }
}

/// A, T, C, G or N in either case: the bases that can vote or abstain.
pub open spec fn is_vote_base(b: u8) -> bool {
    let u = upper(b);
    u == 65 || u == 84 || u == 67 || u == 71 || u == 78
}

pub open spec fn all_vote_bases(s: Seq<u8>) -> bool {
    forall|i: int| 0 <= i < s.len() ==> is_vote_base(s[i])
}

/// The tallies after a read with `base` of quality `q` votes at a position;
/// N abstains.
pub open spec fn add_vote(v: VoteModel, base: u8, q: int) -> VoteModel {
    let u = upper(base);
    if u == 65 {
        (v.0 + q, v.1, v.2, v.3)
    } else if u == 84 {
        (v.0, v.1 + q, v.2, v.3)
    } else if u == 67 {
        (v.0, v.1, v.2 + q, v.3)
    } else if u == 71 {
        (v.0, v.1, v.2, v.3 + q)
    } else {
        v
    }
}

pub open spec fn zero_votes() -> VoteModel {
    (0, 0, 0, 0)
}

/// The tallies lengthened with empty positions to at least `n` positions.
pub open spec fn extend_votes(v: Seq<VoteModel>, n: nat) -> Seq<VoteModel> {
    if v.len() >= n {
        v
    } else {
        v + Seq::new((n - v.len()) as nat, |i: int| zero_votes())
    }
}

/// The tallies after one read votes with its bases from position `skip` on:
/// the base at `skip + i` votes at position `i`.
pub open spec fn tally_read(
    v: Seq<VoteModel>,
    seq: Seq<u8>,
    qual: Seq<u8>,
    skip: nat,
    offset: u8,
) -> Seq<VoteModel> {
    let n = (seq.len() - skip) as nat;
    let e = extend_votes(v, n);
    Seq::new(
        e.len(),
        |i: int|
            if i < n {
                add_vote(e[i], seq[skip + i], phred(qual[skip + i], offset))
            } else {
                e[i]
            },
    )
}

/// The base that wins a position: the channel with the greatest tally, a
/// tie going to the later channel in the order A, T, C, G.
pub open spec fn winner(t: VoteModel) -> u8 {
    if t.3 >= t.0 && t.3 >= t.1 && t.3 >= t.2 {
        71
    } else if t.2 >= t.0 && t.2 >= t.1 {
        67
    } else if t.1 >= t.0 {
        84
    } else {
        65
    }
}

pub open spec fn consensus_spec(v: Seq<VoteModel>) -> Seq<u8> {
    v.map_values(|t: VoteModel| winner(t))
}

pub open spec fn votes_bounded(v: Seq<BaseVotes>, bound: u64) -> bool {
    forall|i: int|
        0 <= i < v.len() ==> v[i].0 <= bound && v[i].1 <= bound && v[i].2 <= bound && v[i].3
            <= bound
}

/// Whether every base of `s` from position `from` on can vote.
pub fn check_vote_bases(s: &Vec<u8>, from: usize) -> (r: bool)
    requires
        from <= s@.len(),
    ensures
        r == all_vote_bases(s@.skip(from as int)),
{
    let mut i: usize = from;
    while i < s.len()
        invariant
            from <= i <= s.len(),
            forall|j: int| from <= j < i ==> is_vote_base(s@[j]),
        decreases s.len() - i,
    {
        let u = to_upper(s[i]);
        if !(u == 65 || u == 84 || u == 67 || u == 71 || u == 78) {
            assert(!is_vote_base(s@.skip(from as int)[i - from]));
            return false;
        }
        i = i + 1;
    }
    true
}

fn phred_score(q: u8, offset: u8) -> (r: u64)
    ensures
        r == phred(q, offset),
        r <= 255,
{
    if q >= offset {
        (q - offset) as u64
    } else {
        0
    }
}

/// Lets one read vote into `votes`, from base `skip` on, first adding empty
/// positions so that every base has one.
pub fn update_vote_vec(
    votes: &mut Vec<BaseVotes>,
    seq: &Vec<u8>,
    qual: &Vec<u8>,
    skip: usize,
    offset: u8,
    bound: u64,
)
    requires
        seq@.len() == qual@.len(),
        skip <= seq@.len(),
        votes_bounded(old(votes)@, bound),
        bound <= u64::MAX - 255,
    ensures
        votes_view(final(votes)@) == tally_read(votes_view(old(votes)@), seq@, qual@, skip as nat, offset),
        votes_bounded(final(votes)@, (bound + 255) as u64),
{
    let len = seq.len();
    let n = len - skip;
    let ghost v0 = votes_view(old(votes)@);
    let ghost e = extend_votes(v0, n as nat);
    while votes.len() < n
        invariant
            n == seq@.len() - skip,
            votes@.len() <= n || votes@.len() == old(votes)@.len(),
            votes@.len() >= old(votes)@.len(),
            votes_bounded(votes@, bound),
            forall|i: int| 0 <= i < old(votes)@.len() ==> votes@[i] == old(votes)@[i],
            forall|i: int| old(votes)@.len() <= i < votes@.len() ==> votes@[i] == (0u64, 0u64, 0u64, 0u64),
        decreases n - votes.len(),
    {
        votes.push((0, 0, 0, 0));
    }
    assert(votes_view(votes@) =~= e);
    let mut i: usize = 0;
    while i < n
        invariant
            skip + n == seq@.len(),
            len == seq@.len(),
            seq@.len() == qual@.len(),
            skip <= seq@.len(),
            bound <= u64::MAX - 255,
            i <= n,
            e.len() == votes@.len(),
            e.len() >= n,
            forall|j: int| 0 <= j < i ==> #[trigger] vote_view(votes@[j]) == add_vote(
                e[j], seq@[skip + j], phred(qual@[skip + j], offset),
            ),
            forall|j: int| i <= j < votes@.len() ==> #[trigger] vote_view(votes@[j]) == e[j],
            forall|j: int| 0 <= j < i ==> votes@[j].0 <= bound + 255 && votes@[j].1 <= bound + 255
                && votes@[j].2 <= bound + 255 && votes@[j].3 <= bound + 255,
            forall|j: int| i <= j < votes@.len() ==> votes@[j].0 <= bound && votes@[j].1 <= bound
                && votes@[j].2 <= bound && votes@[j].3 <= bound,
        decreases n - i,
    {
        let b = to_upper(seq[skip + i]);
        let q = phred_score(qual[skip + i], offset);
        let t = votes[i];
        let nt = if b == 65 {
            (t.0 + q, t.1, t.2, t.3)
        } else if b == 84 {
            (t.0, t.1 + q, t.2, t.3)
        } else if b == 67 {
            (t.0, t.1, t.2 + q, t.3)
        } else if b == 71 {
            (t.0, t.1, t.2, t.3 + q)
        } else {
            t
        };
        assert(e[i as int] == vote_view(t));
        assert(vote_view(nt) == add_vote(e[i as int], seq@[skip + i], phred(qual@[skip + i], offset)));
        votes.set(i, nt);
        i = i + 1;
    }
    proof {
        let t = tally_read(v0, seq@, qual@, skip as nat, offset);
        assert(votes_view(votes@) =~= t) by {
            assert forall|j: int| 0 <= j < t.len() implies votes_view(votes@)[j] == t[j] by {
                assert(vote_view(votes@[j]) == votes_view(votes@)[j]);
            }
        }
    }
}

/// The consensus sequence of a run of tallies: the winning base at each
/// position.
pub fn consensus(votes: &Vec<BaseVotes>) -> (r: Vec<u8>)
    ensures
        r@ == consensus_spec(votes_view(votes@)),
{
    let mut r: Vec<u8> = Vec::new();
    let mut i: usize = 0;
    while i < votes.len()
        invariant
            i <= votes@.len(),
            r@.len() == i,
            forall|j: int| 0 <= j < i ==> r@[j] == winner(vote_view(votes@[j])),
        decreases votes.len() - i,
    {
        let t = votes[i];
        let b: u8 = if t.3 >= t.0 && t.3 >= t.1 && t.3 >= t.2 {
            71
        } else if t.2 >= t.0 && t.2 >= t.1 {
            67
        } else if t.1 >= t.0 {
            84
        } else {
            65
        };
        r.push(b);
        i = i + 1;
    }
    assert(r@ =~= consensus_spec(votes_view(votes@)));
    r
}

/// A quality line of `n` bytes `~`.
pub fn filler_quality(n: usize) -> (r: Vec<u8>)
    ensures
        r@ == Seq::new(n as nat, |i: int| 126u8),
{
    let mut r: Vec<u8> = Vec::new();
    while r.len() < n
        invariant
            r@.len() <= n,
            forall|j: int| 0 <= j < r@.len() ==> r@[j] == 126u8,
        decreases n - r.len(),
    {
        r.push(126);
    }
    assert(r@ =~= Seq::new(n as nat, |i: int| 126u8));
    r
}

} // verus!
