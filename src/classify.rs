use vstd::prelude::*;

use crate::primer::{check_primer, is_iupac_word_spec, primer_matches, PrimerError};
use crate::record::{ReadPair, RecordView};

verus! {

/// One read of a pair.
#[derive(Debug, Clone, Copy, PartialEq, Eq, Structural)]
pub enum Side {
    Forward,
    Reverse,
}

/// Why a pair was not kept.
#[derive(Debug, Clone, Copy, PartialEq, Eq, Structural)]
pub enum DropReason {
    /// Both reads are all `N`.
    BothMasked,
    /// The forward primer is not found right after the UMI.
    NoForwardPrimer,
    /// The forward read starts with the primer itself, where the UMI should be.
    UmiIsForwardPrimer,
    /// The reverse read does not start with the reverse primer.
    NoReversePrimer,
    /// The forward read is shorter than the UMI.
    ShortForUmi,
}

/// What becomes of a pair before binning.
#[derive(Debug, Clone, Copy, PartialEq, Eq, Structural)]
pub enum Verdict {
    Drop(DropReason),
    /// Only the read of this side is usable; it is written on its own.
    Unpaired(Side),
    Keep,
}

/// A read whose bases are all `N` (an empty read counts as one).
pub open spec fn is_masked(s: Seq<u8>) -> bool {
    forall|i: int| 0 <= i < s.len() ==> s[i] == 78
}

pub open spec fn primers_valid(fp: Option<Seq<u8>>, rp: Option<Seq<u8>>) -> bool {
    &&& (fp matches Some(p) ==> is_iupac_word_spec(p))
    &&& (rp matches Some(p) ==> is_iupac_word_spec(p))
}

/// The verdict on a pair, for a UMI of `umi_len` bases and the optional
/// forward and reverse primers; the first rule that applies wins.
pub open spec fn classify_spec(
    f: RecordView,
    r: RecordView,
    umi_len: nat,
    fp: Option<Seq<u8>>,
    rp: Option<Seq<u8>>,
) -> Verdict {
    let fm = is_masked(f.seq);
    let rm = is_masked(r.seq);
    if fm && rm {
        Verdict::Drop(DropReason::BothMasked)
    } else if rm {
        Verdict::Unpaired(Side::Forward)
    } else if fm {
        Verdict::Unpaired(Side::Reverse)
    } else if fp is Some && f.seq.len() < umi_len + fp->0.len() {
        Verdict::Drop(DropReason::NoForwardPrimer)
    } else if fp is Some && !primer_matches(fp->0, f.seq.skip(umi_len as int)) {
        if umi_len > 0 && primer_matches(fp->0, f.seq) {
            Verdict::Drop(DropReason::UmiIsForwardPrimer)
        } else {
            Verdict::Drop(DropReason::NoForwardPrimer)
        }
    } else if rp is Some && !primer_matches(rp->0, r.seq) {
        Verdict::Drop(DropReason::NoReversePrimer)
    } else if f.seq.len() < umi_len {
        Verdict::Drop(DropReason::ShortForUmi)
    } else {
        Verdict::Keep
    }
}

pub fn is_masked_read(s: &Vec<u8>) -> (r: bool)
    ensures
        r == is_masked(s@),
{
    let mut i: usize = 0;
    while i < s.len()
        invariant
            i <= s.len(),
            forall|j: int| 0 <= j < i ==> s@[j] == 78,
        decreases s.len() - i,
    {
        if s[i] != 78 {
            return false;
        }
        i = i + 1;
    }
    true
}

/// Whether the primer's comparison came out as a match: a sequence that
/// could not be compared does not match.
fn primer_found(r: Result<bool, PrimerError>) -> (b: bool)
    ensures
        b == (r == Ok::<bool, PrimerError>(true)),
{
    match r {
        Ok(b) => b,
        Err(_) => false,
    }
}

/// Decides whether a pair is kept, dropped, or split into one unpaired read:
/// masking first, then the forward primer after the UMI, then the reverse
/// primer, then whether the forward read holds a whole UMI.
pub fn classify_pair(
    pair: &ReadPair,
    umi_length: usize,
    forward_primer: &Option<Vec<u8>>,
    reverse_primer: &Option<Vec<u8>>,
) -> (v: Verdict)
    requires
        primers_valid(
            crate::record::opt_bytes_view(*forward_primer),
            crate::record::opt_bytes_view(*reverse_primer),
        ),
    ensures
        v == classify_spec(
            pair.forward@,
            pair.reverse@,
            umi_length as nat,
            crate::record::opt_bytes_view(*forward_primer),
            crate::record::opt_bytes_view(*reverse_primer),
        ),
{
    let fseq = &pair.forward.seq;
    let rseq = &pair.reverse.seq;
    let fm = is_masked_read(fseq);
    let rm = is_masked_read(rseq);
    if fm && rm {
        return Verdict::Drop(DropReason::BothMasked);
    } else if rm {
        return Verdict::Unpaired(Side::Forward);
    } else if fm {
        return Verdict::Unpaired(Side::Reverse);
    }
    if let Some(p) = forward_primer {
        if fseq.len() < umi_length || fseq.len() - umi_length < p.len() {
            return Verdict::Drop(DropReason::NoForwardPrimer);
        }
        let starts_with_primer = primer_found(check_primer(p.as_slice(), fseq.as_slice()));
        let after_umi = &fseq.as_slice()[umi_length..fseq.len()];
        assert(after_umi@ =~= fseq@.skip(umi_length as int));
        let starts_with_umi_then_primer = primer_found(check_primer(p.as_slice(), after_umi));
        if umi_length > 0 && starts_with_primer && !starts_with_umi_then_primer {
            return Verdict::Drop(DropReason::UmiIsForwardPrimer);
        } else if !starts_with_umi_then_primer {
            return Verdict::Drop(DropReason::NoForwardPrimer);
        }
    }
    if let Some(p) = reverse_primer {
        if !primer_found(check_primer(p.as_slice(), rseq.as_slice())) {
            return Verdict::Drop(DropReason::NoReversePrimer);
        }
    }
    if fseq.len() < umi_length {
        return Verdict::Drop(DropReason::ShortForUmi);
    }
    Verdict::Keep
}

} // verus!
