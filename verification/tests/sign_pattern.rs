use fleet_keel::SignPattern;

#[test]
fn test_sign_pattern_label() {
    let sp = SignPattern::new([1, -1, -1, 1]);
    assert_eq!(sp.label(), "+--+");
    assert_eq!(format!("{}", sp.label()), "+--+");
}

#[test]
fn test_sign_pattern_cut_size() {
    // "+--+": agents 0(+),3(+) vs 1(-),2(-) => cut = 2*2 = 4
    let sp = SignPattern::new([1, -1, -1, 1]);
    assert_eq!(sp.cut_size(), 4);

    // All same sign => 0 cuts
    let all_plus = SignPattern::new([1, 1, 1, 1]);
    assert_eq!(all_plus.cut_size(), 0);

    // Single agent => 0 cuts
    let single = SignPattern::new([1]);
    assert_eq!(single.cut_size(), 0);
}

#[test]
fn test_sign_pattern_max_cut() {
    // Max cut for K4 = 2*2 = 4
    let balanced = SignPattern::new([1, -1, -1, 1]);
    assert!(balanced.is_max_cut());

    // All same sign is not max cut
    let all_plus = SignPattern::new([1, 1, 1, 1]);
    assert!(!all_plus.is_max_cut());

    // K3: max cut = 1*2 = 2
    let sp3 = SignPattern::new([1, -1, 1]);
    assert_eq!(sp3.cut_size(), 2);
    assert!(sp3.is_max_cut());

    // K5: max cut = 2*3 = 6
    let sp5 = SignPattern::new([1, -1, 1, -1, -1]);
    assert_eq!(sp5.cut_size(), 2 * 3);
    assert!(sp5.is_max_cut());
}

#[test]
fn test_natural_state_is_max_cut() {
    // The natural "+--+" pattern is a max-cut of K4
    let sp = SignPattern::new([1, -1, -1, 1]);
    assert!(sp.is_max_cut());
    assert_eq!(sp.label(), "+--+");
}

#[test]
fn as_slice_gives_the_raw_signs() {
    let sp = SignPattern::new([1, -1, -1, 1]);
    assert_eq!(sp.as_slice(), &[1, -1, -1, 1]);
}

#[test]
fn validity_check_accepts_only_signs() {
    assert!(SignPattern::<3>::is_valid(&[1, -1, 1]));
    assert!(SignPattern::<0>::is_valid(&[]));
    assert!(!SignPattern::<3>::is_valid(&[1, 0, 1]));
    assert!(!SignPattern::<2>::is_valid(&[2, -1]));
    assert!(!SignPattern::<2>::is_valid(&[-1, -2]));
}

#[test]
fn pattern_from_nonnegative_flags() {
    let sp = SignPattern::from_nonnegative(&[true, false, false, true]);
    assert_eq!(sp.as_slice(), &[1, -1, -1, 1]);
    assert_eq!(sp.label(), "+--+");
    let empty = SignPattern::<0>::from_nonnegative(&[]);
    assert_eq!(empty.label(), "");
    assert_eq!(empty.cut_size(), 0);
    assert!(empty.is_max_cut());
}

#[test]
fn cut_counts_crossing_edges() {
    // Every pair (i, j) with different signs is one edge of the cut.
    let patterns: [[i8; 5]; 4] = [
        [1, 1, 1, 1, 1],
        [1, -1, -1, -1, -1],
        [-1, 1, -1, 1, -1],
        [-1, -1, -1, -1, -1],
    ];
    for p in patterns.iter() {
        let mut crossing = 0usize;
        for i in 0..5 {
            for j in (i + 1)..5 {
                if p[i] != p[j] {
                    crossing += 1;
                }
            }
        }
        assert_eq!(SignPattern::new(*p).cut_size(), crossing);
    }
}

#[test]
fn max_cut_is_the_balanced_partition() {
    // K4: only 2-2 splits are maximal.
    assert!(!SignPattern::new([1, -1, -1, -1]).is_max_cut());
    assert_eq!(SignPattern::new([1, -1, -1, -1]).cut_size(), 3);
    assert!(SignPattern::new([-1, -1, 1, 1]).is_max_cut());
    // K5: both 2-3 and 3-2 splits are maximal; 1-4 is not.
    assert!(SignPattern::new([1, 1, 1, -1, -1]).is_max_cut());
    assert!(!SignPattern::new([1, -1, -1, -1, -1]).is_max_cut());
    // K1 and K2
    assert!(SignPattern::new([-1]).is_max_cut());
    assert!(SignPattern::new([1, -1]).is_max_cut());
    assert!(!SignPattern::new([1, 1]).is_max_cut());
}

#[test]
fn same_as_compares_every_agent() {
    let a = SignPattern::new([1, -1, -1, 1]);
    let b = SignPattern::new([1, -1, -1, 1]);
    let c = SignPattern::new([1, -1, 1, 1]);
    assert!(a.same_as(&b));
    assert!(!a.same_as(&c));
    assert!(a.clone().same_as(&a));
    assert_eq!(a, b);
    assert_ne!(a, c);
    assert_eq!(a.clone(), a);
}

#[test]
fn labels_differ_for_different_patterns() {
    assert_ne!(
        SignPattern::new([1, -1, 1]).label(),
        SignPattern::new([1, 1, -1]).label()
    );
    assert_eq!(SignPattern::new([-1, -1, -1]).label(), "---");
}
