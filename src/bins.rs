use vstd::prelude::*;

use std::collections::HashMap;

use crate::distance::{
    base_substitutions, distance, distance_spec, is_combination, is_substitution, position_combinations,
    Metric,
};
use crate::record::{ReadPair, RecordView};
use crate::votes::{votes_view, BaseVotes, VoteModel};

verus! {

broadcast use vstd::std_specs::hash::group_hash_axioms;

/// The pairs that share one canonical UMI, and what the collision policy
/// keeps of them.
#[derive(Debug)]
pub struct Bin {
    /// The canonical UMI, the bin's key.
    pub umi: Vec<u8>,
    /// How many pairs joined the bin.
    pub size: u64,
    /// The pair that the policy holds until the end, if it holds one.
    pub kept: Option<ReadPair>,
    /// Quality votes of the forward reads after the UMI.
    pub forward_votes: Vec<BaseVotes>,
    /// Quality votes of the reverse reads.
    pub reverse_votes: Vec<BaseVotes>,
}

pub struct BinView {
    pub umi: Seq<u8>,
    pub size: nat,
    pub kept: Option<(RecordView, RecordView)>,
    pub forward_votes: Seq<VoteModel>,
    pub reverse_votes: Seq<VoteModel>,
}

pub open spec fn pair_opt_view(p: Option<ReadPair>) -> Option<(RecordView, RecordView)> {
    match p {
        Some(p) => Some(p@),
        None => None,
    }
}

impl View for Bin {
    type V = BinView;

    open spec fn view(&self) -> BinView {
        BinView {
            umi: self.umi@,
            size: self.size as nat,
            kept: pair_opt_view(self.kept),
            forward_votes: votes_view(self.forward_votes@),
            reverse_votes: votes_view(self.reverse_votes@),
        }
    }
}

/// The index key of a UMI: its bytes read as a number in base 256, modulo
/// 2^120. Distinct UMIs may share one; lookups compare the bytes.
pub open spec fn umi_hash(s: Seq<u8>) -> u128
    decreases s.len(),
{
    if s.len() == 0 {
        0
    } else {
        ((umi_hash(s.drop_last()) * 256 + s.last()) % 0x1_0000_0000_0000_0000_0000_0000_0000) as u128
    }
}

fn umi_hash_exec(s: &[u8]) -> (h: u128)
    ensures
        h == umi_hash(s@),
{
    let mut h: u128 = 0;
    let mut i: usize = 0;
    while i < s.len()
        invariant
            i <= s@.len(),
            h == umi_hash(s@.take(i as int)),
            h < 0x1_0000_0000_0000_0000_0000_0000_0000,
        decreases s.len() - i,
    {
        assert(s@.take(i + 1).drop_last() =~= s@.take(i as int));
        assert(h * 256 + s@[i as int] < 0x1_0000_0000_0000_0000_0000_0000_0000_00) by (nonlinear_arith)
            requires
                h < 0x1_0000_0000_0000_0000_0000_0000_0000,
                s@[i as int] < 256,
        ;
        h = (h * 256 + s[i] as u128) % 0x1_0000_0000_0000_0000_0000_0000_0000;
        i = i + 1;
    }
    assert(s@.take(i as int) =~= s@);
    h
}

pub fn bytes_equal(a: &[u8], b: &[u8]) -> (r: bool)
    ensures
        r == (a@ == b@),
{
    if a.len() != b.len() {
        return false;
    }
    let mut i: usize = 0;
    while i < a.len()
        invariant
            i <= a@.len() == b@.len(),
            forall|j: int| 0 <= j < i ==> a@[j] == b@[j],
        decreases a.len() - i,
    {
        if a[i] != b[i] {
            return false;
        }
        i = i + 1;
    }
    assert(a@ =~= b@);
    true
}

/// The bins in the order in which they were created, with an index from
/// UMI to position.
#[derive(Debug)]
pub struct BinTable {
    pub bins: Vec<Bin>,
    pub index: HashMap<u128, usize>,
}

impl View for BinTable {
    type V = Seq<BinView>;

    open spec fn view(&self) -> Seq<BinView> {
        self.bins@.map_values(|b: Bin| b@)
    }
}

/// The keys of the bins, in order of creation.
pub open spec fn bin_keys(bins: Seq<BinView>) -> Seq<Seq<u8>> {
    bins.map_values(|b: BinView| b.umi)
}

pub open spec fn keys_unique(bins: Seq<BinView>) -> bool {
    forall|i: int, j: int| 0 <= i < j < bins.len() ==> bins[i].umi != bins[j].umi
}

impl BinTable {
    pub open spec fn wf(&self) -> bool {
        &&& keys_unique(self@)
        &&& forall|i: int|
            0 <= i < self.bins@.len() ==> self.index@.contains_key(
                #[trigger] umi_hash(self.bins@[i].umi@),
            )
        &&& forall|k: u128| #[trigger] self.index@.contains_key(k) ==> self.index@[k] < self.bins@.len()
    }

    pub fn new() -> (t: BinTable)
        ensures
            t.wf(),
            t@ == Seq::<BinView>::empty(),
    {
        let t = BinTable { bins: Vec::new(), index: HashMap::new() };
        assert(t@ =~= Seq::<BinView>::empty());
        t
    }

    pub fn len(&self) -> (n: usize)
        ensures
            n == self@.len(),
    {
        self.bins.len()
    }

    pub fn get(&self, i: usize) -> (b: &Bin)
        requires
            i < self@.len(),
        ensures
            b@ == self@[i as int],
    {
        &self.bins[i]
    }

    /// The position of the bin keyed `umi`, if there is one.
    pub fn find(&self, umi: &[u8]) -> (r: Option<usize>)
        requires
            self.wf(),
        ensures
            r matches Some(i) ==> i < self@.len() && self@[i as int].umi == umi@,
            r is None ==> forall|i: int| 0 <= i < self@.len() ==> self@[i].umi != umi@,
    {
        let h = umi_hash_exec(umi);
        let r = match self.index.get(&h) {
            None => {
                assert forall|i: int| 0 <= i < self@.len() implies self@[i].umi != umi@ by {
                    assert(self.index@.contains_key(umi_hash(self.bins@[i].umi@)));
                }
                None
            },
            Some(i) => {
                let i = *i;
                if bytes_equal(self.bins[i].umi.as_slice(), umi) {
                    Some(i)
                } else {
                    self.scan(umi)
                }
            },
        };
        r
    }

    fn scan(&self, umi: &[u8]) -> (r: Option<usize>)
        ensures
            r matches Some(i) ==> i < self@.len() && self@[i as int].umi == umi@,
            r is None ==> forall|i: int| 0 <= i < self@.len() ==> self@[i].umi != umi@,
    {
        let mut i: usize = 0;
        while i < self.bins.len()
            invariant
                i <= self@.len(),
                forall|j: int| 0 <= j < i ==> self@[j].umi != umi@,
            decreases self.bins.len() - i,
        {
            if bytes_equal(self.bins[i].umi.as_slice(), umi) {
                return Some(i);
            }
            i = i + 1;
        }
        None
    }

    /// Adds a bin under a UMI that has none yet.
    pub fn push(&mut self, bin: Bin)
        requires
            old(self).wf(),
            forall|i: int| 0 <= i < old(self)@.len() ==> old(self)@[i].umi != bin.umi@,
        ensures
            final(self).wf(),
            final(self)@ == old(self)@.push(bin@),
            final(self).bins@ == old(self).bins@.push(bin),
    {
        let h = umi_hash_exec(bin.umi.as_slice());
        let n = self.bins.len();
        self.bins.push(bin);
        self.index.insert(h, n);
        assert(self@ =~= old(self)@.push(bin@));
        assert forall|i: int| 0 <= i < self.bins@.len() implies self.index@.contains_key(
            #[trigger] umi_hash(self.bins@[i].umi@),
        ) by {
            if i < n {
                assert(old(self).index@.contains_key(umi_hash(old(self).bins@[i].umi@)));
            }
        }
    }

    /// The first bin, in order of creation, whose key is within `radius` of
    /// `umi` under `metric`.
    pub fn find_within_radius(&self, umi: &[u8], radius: u64, metric: Metric) -> (r: Option<usize>)
        requires
            forall|i: int| 0 <= i < self@.len() ==> self@[i].umi.len() == umi@.len(),
        ensures
            r matches Some(i) ==> {
                &&& i < self@.len()
                &&& distance_spec(metric, self@[i as int].umi, umi@) <= radius
                &&& forall|j: int|
                    0 <= j < i ==> distance_spec(metric, self@[j].umi, umi@) > radius
            },
            r is None ==> forall|j: int|
                0 <= j < self@.len() ==> distance_spec(metric, self@[j].umi, umi@) > radius,
    {
        let mut i: usize = 0;
        while i < self.bins.len()
            invariant
                i <= self@.len(),
                forall|j: int| 0 <= j < self@.len() ==> self@[j].umi.len() == umi@.len(),
                forall|j: int| 0 <= j < i ==> distance_spec(metric, self@[j].umi, umi@) > radius,
            decreases self.bins.len() - i,
        {
            assert(self.bins@[i as int].umi@ == self@[i as int].umi);
            if distance(metric, self.bins[i].umi.as_slice(), umi) <= radius {
                return Some(i);
            }
            i = i + 1;
        }
        None
    }
}

/// `u` with the bytes at positions `c` replaced by the bytes of `s`, in turn.
pub open spec fn substitute(u: Seq<u8>, c: Seq<usize>, s: Seq<u8>) -> Seq<u8>
    decreases c.len(),
{
    if c.len() == 0 || s.len() == 0 {
        u
    } else {
        substitute(u, c.drop_last(), s.drop_last()).update(c.last() as int, s.last())
    }
}

/// Whether `v` is one of the neighbours of `u` that enumeration produces:
/// `u` with `r` of its positions each set to A, T, C or G.
pub open spec fn reachable(u: Seq<u8>, v: Seq<u8>, r: nat) -> bool {
    exists|c: Seq<usize>, s: Seq<u8>|
        is_combination(c, u.len(), r) && is_substitution(s, r) && #[trigger] substitute(u, c, s) == v
}

/// Substitution keeps the length of the UMI.
pub proof fn lemma_substitute_len(u: Seq<u8>, c: Seq<usize>, s: Seq<u8>)
    requires
        forall|i: int| 0 <= i < c.len() ==> c[i] < u.len(),
    ensures
        substitute(u, c, s).len() == u.len(),
    decreases c.len(),
{
    if c.len() > 0 && s.len() > 0 {
        lemma_substitute_len(u, c.drop_last(), s.drop_last());
    }
}

/// The neighbour built from the `ci`-th choice of positions and the
/// `si`-th choice of bases.
pub open spec fn candidate(
    u: Seq<u8>,
    combos: Seq<Vec<usize>>,
    substs: Seq<Vec<u8>>,
    ci: int,
    si: int,
) -> Seq<u8> {
    substitute(u, combos[ci]@, substs[si]@)
}

fn substituted(u: &Vec<u8>, c: &Vec<usize>, s: &Vec<u8>) -> (v: Vec<u8>)
    requires
        c@.len() == s@.len(),
        forall|i: int| 0 <= i < c@.len() ==> c@[i] < u@.len(),
    ensures
        v@ == substitute(u@, c@, s@),
{
    let mut v = u.clone();
    assert(v@ =~= u@);
    let mut j: usize = 0;
    while j < c.len()
        invariant
            j <= c@.len() == s@.len(),
            forall|i: int| 0 <= i < c@.len() ==> c@[i] < u@.len(),
            v@ == substitute(u@, c@.take(j as int), s@.take(j as int)),
        decreases c.len() - j,
    {
        proof {
            lemma_substitute_len(u@, c@.take(j as int), s@.take(j as int));
            assert(c@.take(j + 1).drop_last() =~= c@.take(j as int));
            assert(s@.take(j + 1).drop_last() =~= s@.take(j as int));
        }
        v.set(c[j], s[j]);
        j = j + 1;
    }
    assert(c@.take(j as int) =~= c@);
    assert(s@.take(j as int) =~= s@);
    v
}

impl BinTable {
    /// Looks for existing bins among the neighbours of `umi`. With
    /// `largest` false, returns the first neighbour found that has a bin;
    /// with `largest` true, one whose bin is at least as large as that of
    /// every other neighbour.
    pub fn proactive_lookup(&self, umi: &Vec<u8>, radius: usize, largest: bool) -> (r: Option<usize>)
        requires
            self.wf(),
            radius >= 1,
        ensures
            r matches Some(i) ==> {
                &&& i < self@.len()
                &&& reachable(umi@, self@[i as int].umi, radius as nat)
                &&& largest ==> forall|j: int|
                    0 <= j < self@.len() && reachable(umi@, self@[j].umi, radius as nat) ==> self@[j].size
                        <= self@[i as int].size
            },
            r is None ==> forall|j: int|
                0 <= j < self@.len() ==> !reachable(umi@, self@[j].umi, radius as nat),
    {
        let combos = position_combinations(umi.len(), radius);
        let substs = base_substitutions(radius);
        let mut best: Option<usize> = None;
        let mut ci: usize = 0;
        while ci < combos.len()
            invariant
                self.wf(),
                radius >= 1,
                ci <= combos@.len(),
                forall|i: int|
                    0 <= i < combos@.len() ==> is_combination(
                        #[trigger] combos@[i]@,
                        umi@.len(),
                        radius as nat,
                    ),
                forall|i: int|
                    0 <= i < substs@.len() ==> is_substitution(#[trigger] substs@[i]@, radius as nat),
                !largest ==> best is None,
                best matches Some(b) ==> b < self@.len() && reachable(
                    umi@,
                    self@[b as int].umi,
                    radius as nat,
                ),
                forall|c2: int, s2: int, j: int|
                    0 <= c2 < ci && 0 <= s2 < substs@.len() && 0 <= j < self@.len()
                        && #[trigger] self@[j].umi == #[trigger] candidate(umi@, combos@, substs@, c2, s2) ==> (best matches Some(b)
                        && self@[j].size <= self@[b as int].size),
            decreases combos.len() - ci,
        {
            let mut si: usize = 0;
            while si < substs.len()
                invariant
                    self.wf(),
                    radius >= 1,
                    ci < combos@.len(),
                    si <= substs@.len(),
                    forall|i: int|
                        0 <= i < combos@.len() ==> is_combination(
                            #[trigger] combos@[i]@,
                            umi@.len(),
                            radius as nat,
                        ),
                    forall|i: int|
                        0 <= i < substs@.len() ==> is_substitution(
                            #[trigger] substs@[i]@,
                            radius as nat,
                        ),
                    !largest ==> best is None,
                    best matches Some(b) ==> b < self@.len() && reachable(
                        umi@,
                        self@[b as int].umi,
                        radius as nat,
                    ),
                    forall|c2: int, s2: int, j: int|
                        0 <= s2 < substs@.len() && 0 <= j < self@.len() && (0 <= c2 < ci || (c2
                            == ci && s2 < si)) && #[trigger] self@[j].umi == #[trigger] candidate(umi@, combos@, substs@, c2, s2) ==> (best matches Some(
                            b,
                        ) && self@[j].size <= self@[b as int].size),
                decreases substs.len() - si,
            {
                let c = &combos[ci];
                let s = &substs[si];
                assert(is_combination(c@, umi@.len(), radius as nat));
                assert(is_substitution(s@, radius as nat));
                let v = substituted(umi, c, s);
                assert(v@ == candidate(umi@, combos@, substs@, ci as int, si as int));
                match self.find(v.as_slice()) {
                    Some(i) => {
                        assert(reachable(umi@, self@[i as int].umi, radius as nat)) by {
                            assert(substitute(umi@, c@, s@) == self@[i as int].umi);
                        }
                        if !largest {
                            return Some(i);
                        }
                        let replace = match best {
                            None => true,
                            Some(b) => self.bins[i].size > self.bins[b].size,
                        };
                        if replace {
                            best = Some(i);
                        }
                        proof {
                            assert forall|c2: int, s2: int, j: int|
                                0 <= s2 < substs@.len() && 0 <= j < self@.len() && (0 <= c2 < ci || (
                                c2 == ci && s2 < si + 1)) && #[trigger] self@[j].umi == #[trigger] candidate(
                                    umi@, combos@, substs@, c2, s2) implies (best matches Some(b) && self@[j].size <= self@[b as int].size) by {
                                if c2 == ci && s2 == si {
                                    assert(j == i as int);
                                }
                            }
                        }
                    },
                    None => {
                    },
                }
                si = si + 1;
            }
            ci = ci + 1;
        }
        proof {
            assert forall|j: int| 0 <= j < self@.len() && reachable(umi@, self@[j].umi, radius as nat) implies (
            best matches Some(b) && self@[j].size <= self@[b as int].size) by {
                let (c, s) = choose|c: Seq<usize>, s: Seq<u8>|
                    is_combination(c, umi@.len(), radius as nat) && is_substitution(s, radius as nat)
                        && #[trigger] substitute(umi@, c, s) == self@[j].umi;
                let c2 = choose|i: int| 0 <= i < combos@.len() && #[trigger] combos@[i]@ == c;
                let s2 = choose|i: int| 0 <= i < substs@.len() && #[trigger] substs@[i]@ == s;
                assert(candidate(umi@, combos@, substs@, c2, s2) == self@[j].umi);
            }
        }
        best
    }
}

} // verus!
