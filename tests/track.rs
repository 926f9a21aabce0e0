use bio_anno_rs::{BedError, BEDGraphData, BEDGraphRecord};

fn rec(name: &str, start: usize, end: usize, score: f64) -> BEDGraphRecord<f64> {
    BEDGraphRecord::new(name.to_string(), start, end, score)
}

/// Consecutive 5-bp bins on `name` covering `[from, to)`, scored by `score`.
fn bins(name: &str, from: usize, to: usize, score: impl Fn(usize) -> f64) -> Vec<BEDGraphRecord<f64>> {
    (from..to).step_by(5).map(|s| rec(name, s, s + 5, score(s))).collect()
}

fn small_scores() -> Vec<f64> {
    vec![
        0.06669717398000229,
        0.06669717398000229,
        0.06669717398000229,
        -0.622378649894243,
        -0.8331850071880074,
        -0.48281724264735265,
        -1.1957696376198523,
        -0.386565212080191,
        -0.1719770035449314,
    ]
}

fn small() -> BEDGraphData<f64> {
    let recs = small_scores()
        .into_iter()
        .enumerate()
        .map(|(i, s)| rec("CP064350.1", i * 5, i * 5 + 5, s))
        .collect();
    BEDGraphData::new(recs)
}

fn three_contigs() -> BEDGraphData<f64> {
    let mut recs = bins("CP064350.1", 49990, 55025, |s| if s == 50000 { -0.07215033236083573 } else { 0.1 });
    recs.extend(bins("CP064351.1", 1070300, 1070350, |_| 0.2));
    recs.extend(bins("pBRP02", 9800, 9945, |s| match s {
        9805 => -0.21729724583100157,
        9875 => 0.5703630173280463,
        _ => 0.3,
    }));
    BEDGraphData::new(recs)
}

#[test]
fn test_bg_filter() {
    let bgd = three_contigs();
    let filter_bgd = bgd.filter("CP064350.1", &50000, &55000);
    let answer1 = rec("CP064350.1", 50000, 50005, -0.07215033236083573);
    assert_eq!(filter_bgd.data[0], answer1);

    let filter_bgd = bgd.filter("pBRP02", &9802, &9883);
    let answer2 = rec("pBRP02", 9805, 9810, -0.21729724583100157);
    assert_eq!(filter_bgd.data[0], answer2);

    let answer3 = rec("pBRP02", 9875, 9880, 0.5703630173280463);
    assert_eq!(filter_bgd.data[filter_bgd.len() - 1], answer3);
}

#[test]
fn test_get_contigs() {
    let bgd = three_contigs();
    let answer = vec!["CP064350.1", "CP064351.1", "pBRP02"];
    assert_eq!(bgd.get_contigs(), answer);
}

#[test]
fn test_res() {
    let bgd = three_contigs();
    assert_eq!(5, bgd.get_resolution())
}

#[test]
fn test_ctg_lengths() {
    let bgd = three_contigs();
    let answer: Vec<usize> = vec![55025, 1070350, 9945];
    let results: Vec<usize> = bgd
        .get_contigs()
        .iter()
        .map(|c| bgd.get_contig_length(c).unwrap())
        .collect();
    assert_eq!(results, answer);
}

#[test]
fn test_padding() {
    let bgd = small();
    let padded = bgd.get_padded_scores(2, true).unwrap();
    let answer = vec![
        -0.386565212080191,
        -0.1719770035449314,
        0.06669717398000229,
        0.06669717398000229,
        0.06669717398000229,
        -0.622378649894243,
        -0.8331850071880074,
        -0.48281724264735265,
        -1.1957696376198523,
        -0.386565212080191,
        -0.1719770035449314,
        0.06669717398000229,
        0.06669717398000229,
    ];
    assert_eq!(padded, answer);

    let padded = bgd.get_padded_scores(2, false).unwrap();
    let answer = vec![
        0.06669717398000229,
        0.06669717398000229,
        0.06669717398000229,
        0.06669717398000229,
        0.06669717398000229,
        -0.622378649894243,
        -0.8331850071880074,
        -0.48281724264735265,
        -1.1957696376198523,
        -0.386565212080191,
        -0.1719770035449314,
        -0.1719770035449314,
        -0.1719770035449314,
    ];
    assert_eq!(padded, answer);
}

#[test]
fn test_fetch_scores() {
    let bgd = BEDGraphData::new(bins("CP064350.1", 0, 25, |_| 0.06669717398000229));
    let scores = bgd.fetch_scores();
    let answer = vec![0.06669717398000229; 5];
    assert_eq!(answer, scores[0..5]);
}

#[test]
fn filter_keeps_order_and_bounds() {
    let bgd = BEDGraphData::new(vec![
        rec("a", 0, 5, 1.0),
        rec("b", 0, 5, 2.0),
        rec("a", 5, 10, 3.0),
        rec("a", 10, 15, 4.0),
    ]);
    let f = bgd.filter("a", &5, &15);
    assert_eq!(f.fetch_scores(), vec![3.0, 4.0]);
    assert_eq!(bgd.filter("a", &6, &15).fetch_scores(), vec![4.0]);
    assert_eq!(bgd.filter("c", &0, &usize::MAX).len(), 0);
}

#[test]
fn filter_then_max_end_is_contig_maximum() {
    let bgd = BEDGraphData::new(vec![
        rec("a", 0, 30, 1.0),
        rec("b", 0, 90, 2.0),
        rec("a", 5, 10, 3.0),
    ]);
    let whole = bgd.filter("a", &0, &usize::MAX);
    assert_eq!(whole.get_max_end(), 30);
    assert_eq!(bgd.get_contig_length("a"), Ok(30));
    assert_eq!(bgd.get_contig_length("b"), Ok(90));
}

#[test]
fn contig_length_of_missing_contig_fails() {
    let bgd = small();
    assert_eq!(bgd.get_contig_length("chrX"), Err(BedError::EmptyContig));
}

#[test]
fn contigs_keep_first_occurrence_order() {
    let bgd = BEDGraphData::new(vec![
        rec("z", 0, 5, 1.0),
        rec("z", 5, 10, 1.0),
        rec("a", 0, 5, 1.0),
        rec("z", 10, 15, 1.0),
        rec("m", 0, 5, 1.0),
    ]);
    assert_eq!(bgd.get_contigs(), vec!["z", "a", "m"]);
}

#[test]
fn circular_padding_wider_than_track_fails() {
    let bgd = small();
    assert_eq!(
        bgd.get_padded_scores(10, true),
        Err(BedError::PadExceedsContig { pad: 10, len: 9 })
    );
    assert_eq!(bgd.get_padded_scores(9, true).unwrap().len(), 27);
}

#[test]
fn edge_padding_of_empty_track_fails() {
    let bgd: BEDGraphData<f64> = BEDGraphData::new(vec![]);
    assert_eq!(bgd.get_padded_scores(1, false), Err(BedError::EmptyStore));
    assert_eq!(bgd.get_padded_scores(0, false), Ok(vec![]));
    assert_eq!(bgd.get_padded_scores(0, true), Ok(vec![]));
}

#[test]
fn padded_contigs_rejects_even_window() {
    let bgd = small();
    assert_eq!(bgd.padded_contigs(4, true).err(), Some(BedError::InvalidWindow { window_size: 4 }));
    assert_eq!(bgd.padded_contigs(0, false).err(), Some(BedError::InvalidWindow { window_size: 0 }));
}

#[test]
fn padded_contigs_pads_each_contig_apart() {
    let bgd = BEDGraphData::new(vec![
        rec("a", 0, 5, 1.0),
        rec("a", 5, 10, 2.0),
        rec("a", 10, 15, 3.0),
        rec("b", 0, 5, 7.0),
        rec("b", 5, 10, 8.0),
    ]);
    let blocks = bgd.padded_contigs(3, true).unwrap();
    assert_eq!(blocks.len(), 2);
    assert_eq!(blocks[0].0.fetch_scores(), vec![1.0, 2.0, 3.0]);
    assert_eq!(blocks[0].1, vec![3.0, 1.0, 2.0, 3.0, 1.0]);
    assert_eq!(blocks[1].1, vec![8.0, 7.0, 8.0, 7.0]);
    let blocks = bgd.padded_contigs(5, false).unwrap();
    assert_eq!(blocks[1].1, vec![7.0, 7.0, 7.0, 8.0, 8.0, 8.0]);
    assert_eq!(
        bgd.padded_contigs(7, true).err(),
        Some(BedError::PadExceedsContig { pad: 3, len: 2 })
    );
}

#[test]
fn edge_padding_first_window_replicates_boundary() {
    let scores = [0.0667, 0.0667, 0.0667, -0.833, -1.196, -0.386, -0.172];
    let recs = scores.iter().enumerate().map(|(i, s)| rec("c", i * 5, i * 5 + 5, *s)).collect();
    let bgd = BEDGraphData::new(recs);
    let blocks = bgd.padded_contigs(3, false).unwrap();
    let padded = &blocks[0].1;
    assert_eq!(padded.len(), 9);
    assert_eq!(&padded[0..3], &[0.0667, 0.0667, 0.0667]);
    assert_eq!(&padded[7..9], &[-0.172, -0.172]);
}

#[test]
fn rescoring_copies_and_in_place() {
    let bgd = small();
    let new_scores: Vec<f64> = (0..9).map(|i| i as f64).collect();
    let copy = bgd.with_scores(&new_scores);
    assert_eq!(copy.fetch_scores(), new_scores);
    assert_eq!(bgd.fetch_scores(), small_scores());
    assert_eq!(copy.data[4].start, 20);
    let mut inplace = small();
    inplace.set_scores(&new_scores);
    assert_eq!(inplace.fetch_scores(), new_scores);
    assert_eq!(inplace.data[8].end, 45);
    let mut joined: BEDGraphData<f64> = BEDGraphData::new(vec![]);
    joined.extend_rescored(&bgd.filter("CP064350.1", &0, &10), &vec![5.0, 6.0]);
    assert_eq!(joined.fetch_scores(), vec![5.0, 6.0]);
}

#[test]
fn record_setters() {
    let mut r = rec("a", 1, 2, 0.5);
    r.set_score(1.5);
    assert_eq!(r, rec("a", 1, 2, 1.5));
}
