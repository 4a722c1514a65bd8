use vstd::prelude::*;

verus! {

/// The byte with ASCII lowercase letters turned to uppercase.
pub open spec fn upper(b: u8) -> u8 {
    if 97 <= b <= 122 {
        (b - 32) as u8
    } else {
        b
    }
}

pub fn to_upper(b: u8) -> (r: u8)
    ensures
        r == upper(b),
{
    if 97 <= b && b <= 122 {
        b - 32
    } else {
        b
    }
}

/// A, C, G or T in either case.
pub open spec fn is_dna_base(b: u8) -> bool {
    b == 65 || b == 67 || b == 71 || b == 84 || b == 97 || b == 99 || b == 103 || b == 116
}

pub open spec fn is_dna_word_spec(s: Seq<u8>) -> bool {
    forall|i: int| 0 <= i < s.len() ==> is_dna_base(s[i])
}

/// A letter of the IUPAC nucleotide code in either case: the four bases,
/// the two-base codes W M R Y K S, the three-base codes B V D H, N for any
/// base and Z for none.
pub open spec fn is_iupac_code(b: u8) -> bool {
    let u = upper(b);
    u == 65 || u == 67 || u == 71 || u == 84 || u == 82 || u == 89 || u == 83 || u == 87
        || u == 75 || u == 77 || u == 66 || u == 68 || u == 72 || u == 86 || u == 78 || u == 90
}

pub open spec fn is_iupac_word_spec(s: Seq<u8>) -> bool {
    forall|i: int| 0 <= i < s.len() ==> is_iupac_code(s[i])
}

/// Whether the base `s` is one of those that the IUPAC code `p` stands for,
/// both compared without regard to case.
pub open spec fn iupac_matches(p: u8, s: u8) -> bool {
    let pu = upper(p);
    let su = upper(s);
    if pu == 65 || pu == 67 || pu == 71 || pu == 84 {
        pu == su
    } else if pu == 87 {
        su == 65 || su == 84
    } else if pu == 77 {
        su == 65 || su == 67
    } else if pu == 82 {
        su == 65 || su == 71
    } else if pu == 89 {
        su == 84 || su == 67
    } else if pu == 75 {
        su == 84 || su == 71
    } else if pu == 83 {
        su == 67 || su == 71
    } else if pu == 66 {
        su != 65
    } else if pu == 86 {
        su != 84
    } else if pu == 68 {
        su != 67
    } else if pu == 72 {
        su != 71
    } else {
        pu == 78
    }
}

/// Whether `seq` starts with bases that `primer` describes: `seq` is at
/// least as long as `primer`, its first `|primer|` bytes are A, C, G or T,
/// and each of them matches the primer's code at its position.
pub open spec fn primer_matches(primer: Seq<u8>, seq: Seq<u8>) -> bool {
    &&& seq.len() >= primer.len()
    &&& is_dna_word_spec(seq.take(primer.len() as int))
    &&& forall|i: int| 0 <= i < primer.len() ==> iupac_matches(#[trigger] primer[i], seq[i])
}

/// Why a sequence could not be compared with a primer.
#[derive(Debug, Clone, Copy, PartialEq, Eq, Structural)]
pub enum PrimerError {
    /// The bases under the primer are not all A, C, G or T.
    InvalidSequence,
}

/// Relies on `bio::alphabets::dna::alphabet` and `Alphabet::is_word`: the
/// alphabet holds exactly `ACGTacgt`, and a text is a word over it when
/// each of its bytes is in it.
#[verifier::external_body]
fn is_dna_word(text: &[u8]) -> (r: bool)
    ensures
        r == is_dna_word_spec(text@),
{
    bio::alphabets::dna::alphabet().is_word(text)
}

/// Relies on `bio::alphabets::dna::iupac_alphabet` and `Alphabet::is_word`:
/// the alphabet holds exactly `ACGTRYSWKMBDHVNZ` and the same in lowercase.
#[verifier::external_body]
fn is_iupac_word(text: &[u8]) -> (r: bool)
    ensures
        r == is_iupac_word_spec(text@),
{
    bio::alphabets::dna::iupac_alphabet().is_word(text)
}

/// Whether `primer` may be used as a primer: every byte is an IUPAC code.
pub fn validate_primer(primer: &[u8]) -> (r: bool)
    ensures
        r == is_iupac_word_spec(primer@),
{
    is_iupac_word(primer)
}

/// Whether the base `bases.1` is one that the primer code `bases.0` stands for.
pub fn check_primer_base(bases: (&u8, &u8)) -> (r: bool)
    requires
        is_iupac_code(*bases.0),
    ensures
        r == iupac_matches(*bases.0, *bases.1),
{
    let (primer_base, seq_base) = bases;
    let p = to_upper(*primer_base);
    let s = to_upper(*seq_base);
    if p == 65 || p == 84 || p == 67 || p == 71 {
        p == s
    } else if p == 87 {
        s == 65 || s == 84
    } else if p == 77 {
        s == 65 || s == 67
    } else if p == 82 {
        s == 65 || s == 71
    } else if p == 89 {
        s == 84 || s == 67
    } else if p == 75 {
        s == 84 || s == 71
    } else if p == 83 {
        s == 67 || s == 71
    } else if p == 66 {
        s != 65
    } else if p == 86 {
        s != 84
    } else if p == 68 {
        s != 67
    } else if p == 72 {
        s != 71
    } else {
        p == 78
    }
}

/// Compares the start of `seq` with `primer`: `Ok(false)` when `seq` is
/// shorter than the primer, an error when the bases under the primer are
/// not all A, C, G or T, and otherwise whether each base matches its code.
pub fn check_primer(primer: &[u8], seq: &[u8]) -> (r: Result<bool, PrimerError>)
    requires
        is_iupac_word_spec(primer@),
    ensures
        seq@.len() < primer@.len() ==> r == Ok::<bool, PrimerError>(false),
        seq@.len() >= primer@.len() ==> (r is Err <==> !is_dna_word_spec(
            seq@.take(primer@.len() as int),
        )),
        r == Ok::<bool, PrimerError>(true) <==> primer_matches(primer@, seq@),
{
    if seq.len() < primer.len() {
        return Ok(false);
    }
    if !is_dna_word(&seq[0..primer.len()]) {
        proof {
            assert(seq@.subrange(0, primer@.len() as int) =~= seq@.take(primer@.len() as int));
        }
        return Err(PrimerError::InvalidSequence);
    }
    assert(seq@.subrange(0, primer@.len() as int) =~= seq@.take(primer@.len() as int));
    let mut i: usize = 0;
    while i < primer.len()
        invariant
            i <= primer@.len() <= seq@.len(),
            is_iupac_word_spec(primer@),
            is_dna_word_spec(seq@.take(primer@.len() as int)),
            forall|j: int| 0 <= j < i ==> iupac_matches(#[trigger] primer@[j], seq@[j]),
        decreases primer.len() - i,
    {
        if !check_primer_base((&primer[i], &seq[i])) {
            return Ok(false);
        }
        i = i + 1;
    }
    Ok(true)
}

} // verus!
