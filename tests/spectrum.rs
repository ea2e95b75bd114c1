use snipper::spectrum::{estimate_interestingness, hit_count, is_interesting, Score};

#[test]
fn percentiles_of_twenty_bins() {
    let m: Vec<u32> = (0..20).rev().collect();
    let s = estimate_interestingness(&m);
    assert_eq!(s, Score { high: 19, low: 15 });
    assert!(!s.is_interesting());
}

#[test]
fn percentiles_of_128_bins() {
    let m: Vec<u32> = (0..128u32).map(|i| (i * 37) % 128).collect();
    // A permutation of 0..128: index 96 and 121 of the sorted bins.
    let s = estimate_interestingness(&m);
    assert_eq!(s, Score { high: 121, low: 96 });
}

#[test]
fn ratio_threshold_is_strict() {
    let mut m = vec![1u32; 15];
    m.extend([10, 10, 10, 10, 31]);
    assert!(is_interesting(&m));
    m[19] = 30;
    assert!(!is_interesting(&m));
}

#[test]
fn single_peak_is_interesting() {
    let mut m = vec![0u32; 128];
    m[40] = 900;
    assert_eq!(estimate_interestingness(&m).low, 0);
    assert!(is_interesting(&m));
}

#[test]
fn silent_spectrum_counts_as_interesting() {
    assert!(is_interesting(&vec![0u32; 64]));
}

#[test]
fn flat_spectrum_is_not_interesting() {
    let mut m = vec![5u32; 128];
    m[7] = 1000;
    assert!(!is_interesting(&m));
}

#[test]
fn scaling_keeps_the_decision() {
    let m: Vec<u32> = vec![3, 1, 4, 1, 5, 9, 2, 6, 5, 3, 5, 8, 9, 7, 9, 3, 2, 3, 8, 40];
    let s = estimate_interestingness(&m);
    for k in [2u32, 7, 1000] {
        let scaled: Vec<u32> = m.iter().map(|x| x * k).collect();
        let t = estimate_interestingness(&scaled);
        assert_eq!(t.high, s.high * k);
        assert_eq!(t.low, s.low * k);
        assert_eq!(is_interesting(&scaled), is_interesting(&m));
    }
    assert!(is_interesting(&m));
}

#[test]
fn hit_count_counts_interesting_windows() {
    let mut peak = vec![0u32; 20];
    peak[0] = 3;
    let flat = vec![2u32; 20];
    let spectra = vec![peak.clone(), flat.clone(), peak, flat, vec![0u32; 20]];
    assert_eq!(hit_count(&spectra), 3);
    assert_eq!(hit_count(&Vec::new()), 0);
}
