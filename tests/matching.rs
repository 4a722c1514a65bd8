use grebe::bins::BinTable;
use grebe::classify::{classify_pair, DropReason, Side, Verdict};
use grebe::distance::{distance, Metric};
use grebe::primer::{check_primer, check_primer_base, validate_primer, PrimerError};
use grebe::record::{ReadPair, Record};

fn rec(seq: &str) -> Record {
    Record::new(b"r".to_vec(), None, seq.as_bytes().to_vec(), "I".repeat(seq.len()).into_bytes())
}

#[test]
fn primer_base_codes() {
    assert!(check_primer_base((&b'A', &b'a')));
    assert!(!check_primer_base((&b'A', &b'C')));
    assert!(check_primer_base((&b'w', &b'T')));
    assert!(!check_primer_base((&b'W', &b'G')));
    assert!(check_primer_base((&b'M', &b'C')));
    assert!(check_primer_base((&b'R', &b'G')));
    assert!(check_primer_base((&b'Y', &b'c')));
    assert!(check_primer_base((&b'K', &b'T')));
    assert!(check_primer_base((&b'S', &b'G')));
    assert!(!check_primer_base((&b'S', &b'A')));
    assert!(!check_primer_base((&b'B', &b'A')));
    assert!(check_primer_base((&b'B', &b'C')));
    assert!(!check_primer_base((&b'V', &b'T')));
    assert!(!check_primer_base((&b'D', &b'C')));
    assert!(!check_primer_base((&b'H', &b'g')));
    assert!(check_primer_base((&b'N', &b'T')));
    assert!(!check_primer_base((&b'Z', &b'A')));
}

#[test]
fn primer_matching() {
    assert_eq!(check_primer(b"ACGN", b"ACGTTT"), Ok(true));
    assert_eq!(check_primer(b"ACGT", b"ACCTTT"), Ok(false));
    assert_eq!(check_primer(b"ACGT", b"ACG"), Ok(false));
    assert_eq!(check_primer(b"ACGT", b"ACNT"), Err(PrimerError::InvalidSequence));
    assert_eq!(check_primer(b"", b""), Ok(true));
}

#[test]
fn primer_validation() {
    assert!(validate_primer(b"ACGTRYSWKMBDHVNZacgtn"));
    assert!(!validate_primer(b"ACGU"));
    assert!(!validate_primer(b"AC GT"));
}

#[test]
fn distances() {
    assert_eq!(distance(Metric::Hamming, b"GTCTGCATGCG", b"TTTAGCTAGCG"), 5);
    assert_eq!(distance(Metric::Hamming, b"", b""), 0);
    assert_eq!(distance(Metric::Levenshtein, b"ACGT", b"CGTA"), 2);
    assert_eq!(distance(Metric::Levenshtein, b"ACGT", b"ACGT"), 0);
}

#[test]
fn classification_order() {
    let fp = Some(b"GG".to_vec());
    let rp = Some(b"TT".to_vec());
    let v = |f: &str, r: &str| classify_pair(&ReadPair::new(rec(f), rec(r)), 2, &fp, &rp);
    assert_eq!(v("NN", "NN"), Verdict::Drop(DropReason::BothMasked));
    assert_eq!(v("NN", "AC"), Verdict::Unpaired(Side::Reverse));
    assert_eq!(v("ACGG", ""), Verdict::Unpaired(Side::Forward));
    assert_eq!(v("ACG", "TT"), Verdict::Drop(DropReason::NoForwardPrimer));
    assert_eq!(v("GGAC", "TT"), Verdict::Drop(DropReason::UmiIsForwardPrimer));
    assert_eq!(v("ACGG", "AT"), Verdict::Drop(DropReason::NoReversePrimer));
    assert_eq!(v("ACGG", "TTA"), Verdict::Keep);
    let none: Option<Vec<u8>> = None;
    let short = classify_pair(&ReadPair::new(rec("A"), rec("T")), 2, &none, &none);
    assert_eq!(short, Verdict::Drop(DropReason::ShortForUmi));
}

#[test]
fn empty_table_finds_nothing() {
    let t = BinTable::new();
    assert_eq!(t.len(), 0);
    assert_eq!(t.find(b"ACGT"), None);
    assert_eq!(t.find_within_radius(b"ACGT", 2, Metric::Hamming), None);
    assert_eq!(t.proactive_lookup(&b"ACGT".to_vec(), 1, false), None);
}
