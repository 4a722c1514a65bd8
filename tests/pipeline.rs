use grebe::classify::{DropReason, Side};
use grebe::distance::Metric;
use grebe::handler::{Action, PairError, PairHandler};
use grebe::policy::{Settings, UMICollisionResolutionMethod};
use grebe::record::{ReadPair, Record, RecordError};

fn rec(name: &str, seq: &str, qual: &str) -> Record {
    Record::new(name.as_bytes().to_vec(), None, seq.as_bytes().to_vec(), qual.as_bytes().to_vec())
}

fn rec_desc(name: &str, desc: &str, seq: &str, qual: &str) -> Record {
    Record::new(
        name.as_bytes().to_vec(),
        Some(desc.as_bytes().to_vec()),
        seq.as_bytes().to_vec(),
        qual.as_bytes().to_vec(),
    )
}

fn q(seq: &str) -> String {
    "I".repeat(seq.len())
}

fn pair(name: &str, fwd: &str, rev: &str) -> ReadPair {
    ReadPair::new(rec(name, fwd, &q(fwd)), rec(name, rev, &q(rev)))
}

fn settings(
    umi: usize,
    method: UMICollisionResolutionMethod,
    radius: usize,
    metric: Metric,
    proactive: Option<bool>,
    fp: Option<&str>,
    rp: Option<&str>,
) -> Settings {
    let fp = fp.map(|p| p.as_bytes().to_vec());
    let rp = rp.map(|p| p.as_bytes().to_vec());
    Settings::new(umi, method, radius, metric, proactive, &fp, &rp, false)
}

fn plain(umi: usize, method: UMICollisionResolutionMethod) -> PairHandler {
    PairHandler::new(settings(umi, method, 0, Metric::Hamming, None, None, None))
}

fn run(h: &mut PairHandler, pairs: Vec<ReadPair>) -> Vec<Action> {
    let mut out = Vec::new();
    for p in pairs {
        out.push(h.process_pair(p).expect("pair should be accepted"));
    }
    out
}

fn written(actions: &[Action]) -> Vec<(String, String)> {
    actions
        .iter()
        .filter_map(|a| match a {
            Action::WritePair(p) => Some((
                String::from_utf8(p.forward.name.clone()).unwrap(),
                String::from_utf8(p.forward.seq.clone()).unwrap(),
            )),
            _ => None,
        })
        .collect()
}

fn conserved(h: &PairHandler) -> bool {
    let c = &h.counts;
    let held = if h.flushed {
        0
    } else {
        match h.settings.method {
            UMICollisionResolutionMethod::KeepAll | UMICollisionResolutionMethod::KeepFirst => 0,
            _ => h.table.len() as u64,
        }
    };
    c.records_total
        == c.records_written
            + c.records_unpaired_forward
            + c.records_unpaired_reverse
            + c.pair_drop_reason_count.total()
            + c.records_merged
            + held
}

#[test]
fn exact_dedup_keeps_first() {
    let mut h = plain(4, UMICollisionResolutionMethod::KeepFirst);
    let out = run(&mut h, vec![pair("a", "ACGTAAAA", "TTTT"), pair("b", "ACGTCCCC", "GGGG")]);
    assert_eq!(written(&out), vec![("a".to_string(), "ACGTAAAA".to_string())]);
    assert!(matches!(out[1], Action::Nothing));
    assert_eq!(h.counts.records_written, 1);
    assert_eq!(h.counts.records_merged, 1);
    assert_eq!(h.counts.records_good, 1);
    assert!(h.save_remaining().is_empty());
    assert_eq!(h.counts.records_written, 1);
}

#[test]
fn no_umi_writes_every_pair_unprefixed() {
    let mut h = plain(0, UMICollisionResolutionMethod::KeepFirst);
    assert_eq!(h.settings.method, UMICollisionResolutionMethod::KeepAll);
    let out = run(
        &mut h,
        vec![pair("a", "ACGTAAAA", "TTTT"), pair("b", "ACGTAAAA", "TTTT"), pair("c", "GGGG", "CCCC")],
    );
    assert_eq!(
        written(&out),
        vec![
            ("a".to_string(), "ACGTAAAA".to_string()),
            ("b".to_string(), "ACGTAAAA".to_string()),
            ("c".to_string(), "GGGG".to_string()),
        ]
    );
    assert_eq!(h.counts.records_written, 3);
}

#[test]
fn masked_forward_splits_pair() {
    let mut h = plain(4, UMICollisionResolutionMethod::KeepFirst);
    let out = run(&mut h, vec![pair("a", "NNNNNNNN", "ACGTACGT")]);
    match &out[0] {
        Action::WriteUnpaired(Side::Reverse, r) => assert_eq!(r.seq, b"ACGTACGT".to_vec()),
        other => panic!("unexpected {:?}", other),
    }
    assert_eq!(h.counts.records_unpaired_reverse, 1);
    assert_eq!(h.counts.records_unpaired_forward, 0);
}

#[test]
fn masked_reverse_splits_pair() {
    let mut h = plain(4, UMICollisionResolutionMethod::KeepFirst);
    let out = run(&mut h, vec![pair("a", "ACGTACGT", "NNNN")]);
    match &out[0] {
        Action::WriteUnpaired(Side::Forward, r) => assert_eq!(r.seq, b"ACGTACGT".to_vec()),
        other => panic!("unexpected {:?}", other),
    }
    assert_eq!(h.counts.records_unpaired_forward, 1);
}

#[test]
fn both_masked_is_dropped() {
    let mut h = plain(4, UMICollisionResolutionMethod::KeepFirst);
    let out = run(&mut h, vec![pair("a", "NNNN", "NN")]);
    assert!(matches!(out[0], Action::Nothing));
    assert_eq!(h.counts.pair_drop_reason_count.both_masked, 1);
    assert_eq!(h.counts.pair_drop_reason_count.total(), 1);
}

#[test]
fn hamming_bin_keeps_last() {
    let s = settings(6, UMICollisionResolutionMethod::KeepLast, 1, Metric::Hamming, None, None, None);
    assert!(s.proactive);
    let mut h = PairHandler::new(s);
    let out = run(&mut h, vec![pair("a", "AAAAAAGG", "TT"), pair("b", "AAAAATCC", "GG")]);
    assert!(written(&out).is_empty());
    assert_eq!(h.table.len(), 1);
    let flushed = h.save_remaining();
    assert_eq!(flushed.len(), 1);
    assert_eq!(flushed[0].forward.name, b"b".to_vec());
    assert_eq!(flushed[0].forward.seq, b"AAAAATCC".to_vec());
    assert_eq!(h.counts.records_written, 1);
}

#[test]
fn hamming_bin_by_linear_scan() {
    let s = settings(6, UMICollisionResolutionMethod::KeepLast, 1, Metric::Hamming, Some(false), None, None);
    let mut h = PairHandler::new(s);
    run(&mut h, vec![pair("a", "AAAAAAGG", "TT"), pair("b", "AAAAATCC", "GG"), pair("c", "CCCCCCAA", "TT")]);
    assert_eq!(h.table.len(), 2);
    let flushed = h.save_remaining();
    assert_eq!(flushed[0].forward.name, b"b".to_vec());
    assert_eq!(flushed[1].forward.name, b"c".to_vec());
}

#[test]
fn levenshtein_bin_by_linear_scan() {
    let s = settings(4, UMICollisionResolutionMethod::KeepFirst, 1, Metric::Levenshtein, Some(false), None, None);
    let mut h = PairHandler::new(s);
    // ACGT and AGTT differ at two positions, but one deletion and one
    // insertion apart is still two edits; ACGA is one substitution away.
    let out = run(&mut h, vec![pair("a", "ACGTGG", "TT"), pair("b", "ACGAGG", "TT"), pair("c", "TTTTGG", "TT")]);
    assert_eq!(
        written(&out),
        vec![("a".to_string(), "ACGTGG".to_string()), ("c".to_string(), "TTTTGG".to_string())]
    );
}

#[test]
fn quality_vote_consensus() {
    let mut h = plain(2, UMICollisionResolutionMethod::QualityVote);
    let p1 = ReadPair::new(rec("a", "ACGT", "IIII"), rec("a", "TT", "II"));
    let p2 = ReadPair::new(rec("b", "ACGA", "II%I"), rec("b", "TA", "II"));
    run(&mut h, vec![p1, p2]);
    let out = h.save_remaining();
    assert_eq!(out.len(), 1);
    let f = &out[0].forward;
    assert_eq!(f.seq, b"GT".to_vec());
    assert_eq!(f.qual, b"~~".to_vec());
    assert_eq!(f.name, b"AC".to_vec());
    assert_eq!(f.desc, Some(b"constructed by grebe from quality voting".to_vec()));
    // reverse: T,T at 0; T vs A tie at 1 goes to T
    assert_eq!(out[0].reverse.seq, b"TT".to_vec());
    assert_eq!(h.counts.records_written, 1);
    assert_eq!(h.counts.records_merged, 1);
    assert_eq!(h.counts.records_good, 2);
}

#[test]
fn quality_vote_tie_goes_to_later_channel() {
    let mut h = plain(1, UMICollisionResolutionMethod::QualityVote);
    let p1 = ReadPair::new(rec("a", "AC", "II"), rec("a", "A", "I"));
    let p2 = ReadPair::new(rec("b", "AG", "II"), rec("b", "C", "I"));
    run(&mut h, vec![p1, p2]);
    let out = h.save_remaining();
    assert_eq!(out[0].forward.seq, b"G".to_vec());
    assert_eq!(out[0].reverse.seq, b"C".to_vec());
}

#[test]
fn quality_vote_invalid_base_is_error() {
    let mut h = plain(2, UMICollisionResolutionMethod::QualityVote);
    let bad_fwd = ReadPair::new(rec("a", "ACGX", "IIII"), rec("a", "TT", "II"));
    assert_eq!(h.process_pair(bad_fwd).unwrap_err(), PairError::InvalidBase(Side::Forward));
    let bad_rev = ReadPair::new(rec("a", "ACGT", "IIII"), rec("a", "TR", "II"));
    assert_eq!(h.process_pair(bad_rev).unwrap_err(), PairError::InvalidBase(Side::Reverse));
    assert_eq!(h.counts.records_total, 0);
    // the UMI itself does not vote
    let umi_n = ReadPair::new(rec("a", "XYGT", "IIII"), rec("a", "TT", "II"));
    assert!(h.process_pair(umi_n).is_ok());
}

#[test]
fn umi_as_primer_is_dropped() {
    let s = settings(4, UMICollisionResolutionMethod::KeepFirst, 0, Metric::Hamming, None, Some("ACGT"), None);
    let mut h = PairHandler::new(s);
    let out = run(&mut h, vec![pair("a", "ACGTTTTTGGGG", "TTTT")]);
    assert!(matches!(out[0], Action::Nothing));
    assert_eq!(h.counts.pair_drop_reason_count.umi_is_forward_primer, 1);
}

#[test]
fn forward_primer_after_umi_is_kept() {
    let s = settings(4, UMICollisionResolutionMethod::KeepFirst, 0, Metric::Hamming, None, Some("ACGN"), None);
    let mut h = PairHandler::new(s);
    let out = run(&mut h, vec![pair("a", "TTTTACGCGG", "TTTT")]);
    assert_eq!(written(&out).len(), 1);
}

#[test]
fn missing_forward_primer_is_dropped() {
    let s = settings(4, UMICollisionResolutionMethod::KeepFirst, 0, Metric::Hamming, None, Some("ACGT"), None);
    let mut h = PairHandler::new(s);
    run(&mut h, vec![pair("a", "TTTTGGGGGG", "TTTT"), pair("b", "TTTTAC", "TTTT"), pair("c", "TTTTANGT", "TT")]);
    assert_eq!(h.counts.pair_drop_reason_count.no_forward_primer, 3);
}

#[test]
fn missing_reverse_primer_is_dropped() {
    let s = settings(2, UMICollisionResolutionMethod::KeepFirst, 0, Metric::Hamming, None, None, Some("GGW"));
    let mut h = PairHandler::new(s);
    let out = run(&mut h, vec![pair("a", "ACGT", "GGC"), pair("b", "ACGT", "GG"), pair("c", "ACGT", "ggtA")]);
    assert_eq!(h.counts.pair_drop_reason_count.no_reverse_primer, 2);
    assert_eq!(written(&out), vec![("c".to_string(), "ACGT".to_string())]);
}

#[test]
fn short_forward_read_is_dropped() {
    let mut h = plain(6, UMICollisionResolutionMethod::KeepFirst);
    run(&mut h, vec![pair("a", "ACG", "TTTT")]);
    assert_eq!(h.counts.pair_drop_reason_count.short_for_umi, 1);
}

#[test]
fn malformed_records_are_errors() {
    let mut h = plain(2, UMICollisionResolutionMethod::KeepFirst);
    let no_name = ReadPair::new(rec("", "ACGT", "IIII"), rec("a", "TT", "II"));
    assert_eq!(
        h.process_pair(no_name).unwrap_err(),
        PairError::InvalidRecord(Side::Forward, RecordError::EmptyName)
    );
    let short_qual = ReadPair::new(rec("a", "ACGT", "IIII"), rec("a", "TT", "I"));
    assert_eq!(
        h.process_pair(short_qual).unwrap_err(),
        PairError::InvalidRecord(Side::Reverse, RecordError::LengthMismatch)
    );
    let bad_seq = ReadPair::new(
        Record::new(b"a".to_vec(), None, vec![200, 65], b"II".to_vec()),
        rec("a", "TT", "II"),
    );
    assert_eq!(
        h.process_pair(bad_seq).unwrap_err(),
        PairError::InvalidRecord(Side::Forward, RecordError::NonAsciiSequence)
    );
    let bad_qual = ReadPair::new(
        rec("a", "TT", "II"),
        Record::new(b"a".to_vec(), None, b"AC".to_vec(), vec![73, 255]),
    );
    assert_eq!(
        h.process_pair(bad_qual).unwrap_err(),
        PairError::InvalidRecord(Side::Reverse, RecordError::NonAsciiQuality)
    );
    assert_eq!(h.counts.records_total, 0);
}

#[test]
fn keep_all_prefixes_names_and_keeps_description() {
    let s = settings(3, UMICollisionResolutionMethod::KeepAll, 0, Metric::Hamming, None, None, None);
    let mut h = PairHandler::new(s);
    let p = ReadPair::new(rec_desc("r1", "x:y", "GATTACA", "IIIIIII"), rec("r1", "TT", "II"));
    let out = run(&mut h, vec![p, pair("r2", "GATCCC", "AA")]);
    match &out[0] {
        Action::WritePair(p) => {
            assert_eq!(p.forward.name, b"GAT r1".to_vec());
            assert_eq!(p.reverse.name, b"GAT r1".to_vec());
            assert_eq!(p.forward.desc, Some(b"x:y".to_vec()));
        }
        other => panic!("unexpected {:?}", other),
    }
    assert_eq!(written(&out)[1].0, "GAT r2");
    assert_eq!(h.counts.records_written, 2);
    assert_eq!(h.table.len(), 1);
}

#[test]
fn keep_all_proactive_picks_largest_bin() {
    let s = settings(4, UMICollisionResolutionMethod::KeepAll, 1, Metric::Hamming, Some(true), None, None);
    let mut h = PairHandler::new(s);
    let out = run(
        &mut h,
        vec![
            pair("a", "AAAAG", "T"),
            pair("b", "CCAAG", "T"),
            pair("c", "CCAAG", "T"),
            pair("d", "CAAAG", "T"),
        ],
    );
    let names: Vec<String> = written(&out).into_iter().map(|w| w.0).collect();
    assert_eq!(names, vec!["AAAA a", "CCAA b", "CCAA c", "CCAA d"]);
}

#[test]
fn keep_longest_left_right_extend() {
    let cases = [
        (UMICollisionResolutionMethod::KeepLongestLeft, "AAACG"),
        (UMICollisionResolutionMethod::KeepLongestRight, "AAACA"),
        (UMICollisionResolutionMethod::KeepLongestExtend, "AAACG"),
    ];
    for (method, expected) in cases {
        let mut h = plain(2, method);
        run(
            &mut h,
            vec![pair("a", "AAACG", "TT"), pair("b", "AAACA", "TT"), pair("c", "AAAT", "TT")],
        );
        let out = h.save_remaining();
        assert_eq!(out[0].forward.seq, expected.as_bytes().to_vec(), "{:?}", method);
    }
}

#[test]
fn keep_longest_extend_requires_prefix() {
    let mut h = plain(2, UMICollisionResolutionMethod::KeepLongestExtend);
    run(&mut h, vec![pair("a", "AACCG", "TT"), pair("b", "AACCGT", "TTA"), pair("c", "AAGGGGG", "TTAC")]);
    let out = h.save_remaining();
    assert_eq!(out[0].forward.seq, b"AACCGT".to_vec());
    assert_eq!(out[0].reverse.seq, b"TTAC".to_vec());
}

#[test]
fn compare_for_extension_on_single_reads() {
    let old = rec("o", "ACG", "III");
    let longer = rec("n", "ACGT", "IIII");
    let other = rec("n", "TTTT", "IIII");
    let same = rec("n", "TTT", "III");
    let m = UMICollisionResolutionMethod::KeepLongestExtend;
    assert_eq!(m.compare_for_extension(&old, &longer).name, b"n".to_vec());
    assert_eq!(m.compare_for_extension(&old, &other).name, b"o".to_vec());
    let r = UMICollisionResolutionMethod::KeepLongestRight;
    assert_eq!(r.compare_for_extension(&old, &same).name, b"n".to_vec());
    let l = UMICollisionResolutionMethod::KeepLongestLeft;
    assert_eq!(l.compare_for_extension(&old, &same).name, b"o".to_vec());
    assert_eq!(l.compare_for_extension(&longer, &old).name, b"n".to_vec());
}

#[test]
fn conservation_holds_through_a_run() {
    let s = settings(4, UMICollisionResolutionMethod::KeepLast, 0, Metric::Hamming, None, Some("GG"), None);
    let mut h = PairHandler::new(s);
    let pairs = vec![
        pair("a", "ACGTGGA", "TT"),
        pair("b", "ACGTGGC", "TT"),
        pair("c", "NNNN", "TT"),
        pair("d", "ACGTAA", "TT"),
        pair("e", "TTTTGG", "NN"),
        pair("f", "TTTTGGA", "TT"),
    ];
    run(&mut h, pairs);
    assert!(conserved(&h));
    assert_eq!(h.counts.records_total, 6);
    h.save_remaining();
    assert!(h.flushed);
    assert!(conserved(&h));
    assert_eq!(h.counts.records_written, 2);
}

#[test]
fn keep_first_twice_writes_same_pairs() {
    for proactive in [Some(true), Some(false)] {
        let s = settings(3, UMICollisionResolutionMethod::KeepFirst, 1, Metric::Hamming, proactive, None, None);
        let mut once = PairHandler::new(s);
        let input = || vec![pair("a", "AAAT", "T"), pair("b", "AACT", "T"), pair("c", "GGGT", "T"), pair("d", "AACT", "T")];
        let first = written(&run(&mut once, input()));
        let mut twice = PairHandler::new(settings(3, UMICollisionResolutionMethod::KeepFirst, 1, Metric::Hamming, proactive, None, None));
        let mut doubled = input();
        doubled.extend(input());
        let second = written(&run(&mut twice, doubled));
        assert_eq!(first, second);
        assert_eq!(first.len(), 2);
    }
}

#[test]
fn keep_first_output_follows_input_order() {
    let mut h = plain(2, UMICollisionResolutionMethod::KeepFirst);
    let out = run(
        &mut h,
        vec![pair("a", "GGA", "T"), pair("b", "CCA", "T"), pair("c", "GGC", "T"), pair("d", "AAA", "T")],
    );
    let names: Vec<String> = written(&out).into_iter().map(|w| w.0).collect();
    assert_eq!(names, vec!["a", "b", "d"]);
}

#[test]
fn exact_bins_split_by_umi() {
    let mut h = plain(3, UMICollisionResolutionMethod::KeepLast);
    run(&mut h, vec![pair("a", "AAAT", "T"), pair("b", "AAAG", "T"), pair("c", "AATT", "T")]);
    assert_eq!(h.table.len(), 2);
    assert_eq!(h.table.get(0).umi, b"AAA".to_vec());
    assert_eq!(h.table.get(0).size, 2);
    assert_eq!(h.table.get(1).umi, b"AAT".to_vec());
}

#[test]
fn proactive_bins_agree_in_either_order() {
    for order in [["AACG", "ATCG"], ["ATCG", "AACG"]] {
        let s = settings(4, UMICollisionResolutionMethod::KeepLast, 1, Metric::Hamming, None, None, None);
        let mut h = PairHandler::new(s);
        run(&mut h, vec![pair("a", &format!("{}T", order[0]), "T"), pair("b", &format!("{}T", order[1]), "T")]);
        assert_eq!(h.table.len(), 1);
        assert_eq!(h.table.get(0).umi, order[0].as_bytes().to_vec());
    }
}

#[test]
fn vote_result_ignores_order() {
    let make = || {
        vec![
            ReadPair::new(rec("a", "ACGT", "II#I"), rec("a", "TTA", "III")),
            ReadPair::new(rec("b", "ACTTC", "II5II"), rec("b", "CT", "II")),
            ReadPair::new(rec("c", "ACGA", "IIII"), rec("c", "TAAG", "IIII")),
        ]
    };
    let mut h1 = plain(2, UMICollisionResolutionMethod::QualityVote);
    run(&mut h1, make());
    let mut h2 = plain(2, UMICollisionResolutionMethod::QualityVote);
    let mut rev = make();
    rev.reverse();
    run(&mut h2, rev);
    let a = h1.save_remaining();
    let b = h2.save_remaining();
    assert_eq!(a[0].forward.seq, b[0].forward.seq);
    assert_eq!(a[0].reverse.seq, b[0].reverse.seq);
    assert_eq!(a[0].forward.seq, b"GTC".to_vec());
}

#[test]
fn settings_defaults() {
    let s = settings(6, UMICollisionResolutionMethod::KeepFirst, 9, Metric::Hamming, None, None, None);
    assert_eq!(s.radius, 6);
    assert!(!s.proactive);
    let s = settings(6, UMICollisionResolutionMethod::KeepFirst, 3, Metric::Levenshtein, None, None, None);
    assert!(!s.proactive);
    let s = settings(6, UMICollisionResolutionMethod::KeepAll, 1, Metric::Hamming, None, None, None);
    assert!(!s.proactive);
    let s = settings(6, UMICollisionResolutionMethod::KeepAll, 1, Metric::Hamming, Some(true), None, None);
    assert!(s.proactive);
    let fp: Option<Vec<u8>> = None;
    let s = Settings::new(2, UMICollisionResolutionMethod::KeepFirst, 0, Metric::Hamming, None, &fp, &fp, true);
    assert_eq!(s.phred_offset, 64);
}

#[test]
fn phred64_offset_changes_votes() {
    let fp: Option<Vec<u8>> = None;
    let s = Settings::new(1, UMICollisionResolutionMethod::QualityVote, 0, Metric::Hamming, None, &fp, &fp, true);
    let mut h = PairHandler::new(s);
    // with offset 64, 'A' (65) is score 1 and '@' (64) is score 0
    let p1 = ReadPair::new(rec("a", "AC", "AA"), rec("a", "T", "A"));
    let p2 = ReadPair::new(rec("b", "AG", "A@"), rec("b", "G", "@"));
    run(&mut h, vec![p1, p2]);
    let out = h.save_remaining();
    assert_eq!(out[0].forward.seq, b"C".to_vec());
    assert_eq!(out[0].reverse.seq, b"T".to_vec());
}
