use vstd::prelude::*;

use crate::distance::Metric;
use crate::record::{copy_bytes, Record, RecordView};

verus! {

/// How the pairs that fall into one UMI bin are resolved.
#[derive(Debug, Clone, Copy, PartialEq, Eq, Structural)]
pub enum UMICollisionResolutionMethod {
    /// Keep every pair, with its bin's UMI put in front of its names.
    KeepAll,
    /// Keep the first pair of each bin.
    KeepFirst,
    /// Keep the last pair of each bin.
    KeepLast,
    /// Keep the longest read of each side, the earlier one on a tie.
    KeepLongestLeft,
    /// Keep the longest read of each side, the later one on a tie.
    KeepLongestRight,
    /// Keep a longer read only where it extends the kept one.
    KeepLongestExtend,
    /// Build one consensus pair from quality-weighted votes.
    QualityVote,
}

pub open spec fn is_keep_longest(m: UMICollisionResolutionMethod) -> bool {
    m == UMICollisionResolutionMethod::KeepLongestLeft || m == UMICollisionResolutionMethod::KeepLongestRight
        || m == UMICollisionResolutionMethod::KeepLongestExtend
}

/// The policies that hold a pair in each bin until the end of the run.
pub open spec fn holds_pair(m: UMICollisionResolutionMethod) -> bool {
    m == UMICollisionResolutionMethod::KeepLast || is_keep_longest(m)
}

/// The policies whose output is written when the run ends.
pub open spec fn writes_at_end(m: UMICollisionResolutionMethod) -> bool {
    holds_pair(m) || m == UMICollisionResolutionMethod::QualityVote
}

/// Which of two reads of one side a keep-longest policy keeps: the longer
/// one (for `KeepLongestExtend` only if it starts with the kept read), and
/// on equal lengths the earlier one, or the later one for
/// `KeepLongestRight`.
pub open spec fn reduce_spec(m: UMICollisionResolutionMethod, old: RecordView, new: RecordView) -> RecordView {
    if new.seq.len() > old.seq.len() {
        if m == UMICollisionResolutionMethod::KeepLongestExtend {
            if new.seq.take(old.seq.len() as int) == old.seq {
                new
            } else {
                old
            }
        } else {
            new
        }
    } else if new.seq.len() < old.seq.len() {
        old
    } else if m == UMICollisionResolutionMethod::KeepLongestRight {
        new
    } else {
        old
    }
}

fn starts_with(s: &Vec<u8>, prefix: &Vec<u8>) -> (r: bool)
    ensures
        r == (s@.len() >= prefix@.len() && s@.take(prefix@.len() as int) == prefix@),
{
    if s.len() < prefix.len() {
        return false;
    }
    let mut i: usize = 0;
    while i < prefix.len()
        invariant
            i <= prefix@.len() <= s@.len(),
            forall|j: int| 0 <= j < i ==> s@[j] == prefix@[j],
        decreases prefix.len() - i,
    {
        if s[i] != prefix[i] {
            assert(s@.take(prefix@.len() as int)[i as int] != prefix@[i as int]);
            return false;
        }
        i = i + 1;
    }
    assert(s@.take(prefix@.len() as int) =~= prefix@);
    true
}

impl UMICollisionResolutionMethod {
    /// The read that a keep-longest policy keeps of `old` and `new`.
    pub fn compare_for_extension(&self, old: &Record, new: &Record) -> (r: Record)
        requires
            is_keep_longest(*self),
        ensures
            r@ == reduce_spec(*self, old@, new@),
    {
        let keep_new = if old.seq.len() < new.seq.len() {
            match self {
                UMICollisionResolutionMethod::KeepLongestExtend => starts_with(&new.seq, &old.seq),
                _ => true,
            }
        } else if old.seq.len() > new.seq.len() {
            false
        } else {
            match self {
                UMICollisionResolutionMethod::KeepLongestRight => true,
                _ => false,
            }
        };
        if keep_new {
            new.duplicate()
        } else {
            old.duplicate()
        }
    }
}

/// The settings of a run, after defaults and corrections.
#[derive(Debug)]
pub struct Settings {
    /// How many leading bases of the forward read form the UMI.
    pub umi_length: usize,
    pub method: UMICollisionResolutionMethod,
    /// How far apart two UMIs may be and still share a bin.
    pub radius: usize,
    pub metric: Metric,
    /// Whether near UMIs are found by enumerating neighbours rather than by
    /// scanning the bins.
    pub proactive: bool,
    pub forward_primer: Option<Vec<u8>>,
    pub reverse_primer: Option<Vec<u8>>,
    /// What a quality byte of score zero is: 33, or 64 for the legacy encoding.
    pub phred_offset: u8,
}

/// The largest radius for which neighbour enumeration is the default.
pub open spec fn proactive_limit(metric: Metric) -> nat {
    match metric {
        Metric::Hamming => 3,
        Metric::Levenshtein => 2,
    }
}

fn copy_opt_bytes(v: &Option<Vec<u8>>) -> (r: Option<Vec<u8>>)
    ensures
        crate::record::opt_bytes_view(r) == crate::record::opt_bytes_view(*v),
{
    match v {
        Some(b) => Some(copy_bytes(b)),
        None => None,
    }
}

impl Settings {
    /// Settings from the options of a run: without a UMI the policy is
    /// `None`; the radius is capped at the UMI length; neighbour
    /// enumeration is used where asked, and otherwise by default for a
    /// radius of at most 3 (Hamming) or 2 (Levenshtein) under a policy
    /// other than `None`.
    pub fn new(
        umi_length: usize,
        method: UMICollisionResolutionMethod,
        radius: usize,
        metric: Metric,
        proactive: Option<bool>,
        forward_primer: &Option<Vec<u8>>,
        reverse_primer: &Option<Vec<u8>>,
        phred64: bool,
    ) -> (s: Settings)
        ensures
            s.umi_length == umi_length,
            s.method == if umi_length == 0 {
                UMICollisionResolutionMethod::KeepAll
            } else {
                method
            },
            s.radius == if radius <= umi_length {
                radius
            } else {
                umi_length
            },
            s.metric == metric,
            s.proactive == match proactive {
                Some(p) => p,
                None => s.radius <= proactive_limit(metric) && s.method
                    != UMICollisionResolutionMethod::KeepAll,
            },
            crate::record::opt_bytes_view(s.forward_primer) == crate::record::opt_bytes_view(
                *forward_primer,
            ),
            crate::record::opt_bytes_view(s.reverse_primer) == crate::record::opt_bytes_view(
                *reverse_primer,
            ),
            s.phred_offset == if phred64 {
                64u8
            } else {
                33u8
            },
    {
        let method = if umi_length == 0 {
            UMICollisionResolutionMethod::KeepAll
        } else {
            method
        };
        let radius = if radius <= umi_length {
            radius
        } else {
            umi_length
        };
        let limit: usize = match metric {
            Metric::Hamming => 3,
            Metric::Levenshtein => 2,
        };
        let proactive = match proactive {
            Some(p) => p,
            None => radius <= limit && method != UMICollisionResolutionMethod::KeepAll,
        };
        Settings {
            umi_length,
            method,
            radius,
            metric,
            proactive,
            forward_primer: copy_opt_bytes(forward_primer),
            reverse_primer: copy_opt_bytes(reverse_primer),
            phred_offset: if phred64 {
                64
            } else {
                33
            },
        }
    }
}

} // verus!
