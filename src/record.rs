use vstd::prelude::*;

verus! {

/// What a FASTQ record holds, as byte sequences.
pub struct RecordView {
    pub name: Seq<u8>,
    pub desc: Option<Seq<u8>>,
    pub seq: Seq<u8>,
    pub qual: Seq<u8>,
}

/// One FASTQ record: a name, an optional description, the bases and their
/// Phred-encoded qualities.
#[derive(Debug)]
pub struct Record {
    pub name: Vec<u8>,
    pub desc: Option<Vec<u8>>,
    pub seq: Vec<u8>,
    pub qual: Vec<u8>,
}

pub open spec fn opt_bytes_view(d: Option<Vec<u8>>) -> Option<Seq<u8>> {
    match d {
        Some(v) => Some(v@),
        None => None,
    }
}

impl View for Record {
    type V = RecordView;

    open spec fn view(&self) -> RecordView {
        RecordView {
            name: self.name@,
            desc: opt_bytes_view(self.desc),
            seq: self.seq@,
            qual: self.qual@,
        }
    }
}

/// Why a record is not a well-formed FASTQ record.
#[derive(Debug, Clone, Copy, PartialEq, Eq, Structural)]
pub enum RecordError {
    EmptyName,
    NonAsciiSequence,
    NonAsciiQuality,
    LengthMismatch,
}

pub open spec fn is_ascii_bytes(s: Seq<u8>) -> bool {
    forall|i: int| 0 <= i < s.len() ==> s[i] < 128
}

/// The first problem found in a record, in the order name, sequence,
/// qualities, lengths; `None` for a well-formed record.
pub open spec fn record_problem(r: RecordView) -> Option<RecordError> {
    if r.name.len() == 0 {
        Some(RecordError::EmptyName)
    } else if !is_ascii_bytes(r.seq) {
        Some(RecordError::NonAsciiSequence)
    } else if !is_ascii_bytes(r.qual) {
        Some(RecordError::NonAsciiQuality)
    } else if r.seq.len() != r.qual.len() {
        Some(RecordError::LengthMismatch)
    } else {
        None
    }
}

pub open spec fn well_formed_record(r: RecordView) -> bool {
    record_problem(r).is_none()
}

pub fn copy_bytes(v: &Vec<u8>) -> (r: Vec<u8>)
    ensures
        r@ == v@,
{
    let r = v.clone();
    assert(r@ =~= v@);
    r
}

fn all_ascii(s: &Vec<u8>) -> (r: bool)
    ensures
        r == is_ascii_bytes(s@),
{
    let mut i: usize = 0;
    while i < s.len()
        invariant
            i <= s.len(),
            forall|j: int| 0 <= j < i ==> s@[j] < 128,
        decreases s.len() - i,
    {
        if s[i] >= 128 {
            return false;
        }
        i = i + 1;
    }
    true
}

impl Record {
    pub fn new(name: Vec<u8>, desc: Option<Vec<u8>>, seq: Vec<u8>, qual: Vec<u8>) -> (r: Record)
        ensures
            r.name@ == name@,
            opt_bytes_view(r.desc) == opt_bytes_view(desc),
            r.seq@ == seq@,
            r.qual@ == qual@,
    {
        Record { name, desc, seq, qual }
    }

    /// A record with the same contents.
    pub fn duplicate(&self) -> (r: Record)
        ensures
            r@ == self@,
    {
        let desc = match &self.desc {
            Some(d) => Some(copy_bytes(d)),
            None => None,
        };
        Record { name: copy_bytes(&self.name), desc, seq: copy_bytes(&self.seq), qual: copy_bytes(&self.qual) }
    }

    /// Checks that the record has a name, ASCII bases and qualities, and as
    /// many qualities as bases.
    pub fn check(&self) -> (r: Result<(), RecordError>)
        ensures
            r is Ok <==> record_problem(self@).is_none(),
            r matches Err(e) ==> record_problem(self@) == Some(e),
    {
        if self.name.len() == 0 {
            Err(RecordError::EmptyName)
        } else if !all_ascii(&self.seq) {
            Err(RecordError::NonAsciiSequence)
        } else if !all_ascii(&self.qual) {
            Err(RecordError::NonAsciiQuality)
        } else if self.seq.len() != self.qual.len() {
            Err(RecordError::LengthMismatch)
        } else {
            Ok(())
        }
    }
}

/// A forward read and the reverse read sequenced with it.
#[derive(Debug)]
pub struct ReadPair {
    pub forward: Record,
    pub reverse: Record,
}

impl View for ReadPair {
    type V = (RecordView, RecordView);

    open spec fn view(&self) -> (RecordView, RecordView) {
        (self.forward@, self.reverse@)
    }
}

impl ReadPair {
    pub fn new(forward: Record, reverse: Record) -> (r: ReadPair)
        ensures
            r@ == (forward@, reverse@),
    {
        ReadPair { forward, reverse }
    }

    pub fn duplicate(&self) -> (r: ReadPair)
        ensures
            r@ == self@,
    {
        ReadPair { forward: self.forward.duplicate(), reverse: self.reverse.duplicate() }
    }
}

} // verus!
