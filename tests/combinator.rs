use fertilizer_calc::combinator::Combinator;

#[test]
fn test_combinator() {
    let n = 5;
    let k = 3;
    let num_expected_combinations = 10;
    let mut c = Combinator::new(n, k);
    assert_eq!(c.sequence_len(), num_expected_combinations);
    let mut result = vec![];
    while let Some(v) = c.next() {
        result.push(Vec::from(v));
    }
    assert_eq!(result.len(), num_expected_combinations);
    assert_eq!(
        result,
        vec![
            [0, 1, 2],
            [0, 1, 3],
            [0, 1, 4],
            [0, 2, 3],
            [0, 2, 4],
            [0, 3, 4],
            [1, 2, 3],
            [1, 2, 4],
            [1, 3, 4],
            [2, 3, 4]
        ]
    );
}

#[test]
fn combinator_stays_exhausted() {
    let mut c = Combinator::new(2, 2);
    assert_eq!(c.next(), Some(&[0usize, 1][..]));
    assert_eq!(c.next(), None);
    assert_eq!(c.next(), None);
}

#[test]
fn combinator_empty_subset() {
    let mut c = Combinator::new(4, 0);
    assert_eq!(c.sequence_len(), 1);
    assert_eq!(c.next(), Some(&[][..]));
    assert_eq!(c.next(), None);
}

#[test]
fn sequence_len_exact_values() {
    assert_eq!(Combinator::new(20, 10).sequence_len(), 184756);
    assert_eq!(Combinator::new(40, 20).sequence_len(), 137846528820);
    assert_eq!(Combinator::new(7, 7).sequence_len(), 1);
    assert_eq!(Combinator::new(0, 0).sequence_len(), 1);
}

#[test]
fn sequence_len_saturates() {
    assert_eq!(Combinator::new(200, 100).sequence_len(), usize::MAX);
}

#[test]
fn sequence_len_matches_count() {
    for n in 0..8 {
        for k in 0..=n {
            let mut c = Combinator::new(n, k);
            let expected = c.sequence_len();
            let mut count = 0;
            let mut last: Option<Vec<usize>> = None;
            while let Some(v) = c.next() {
                let v = Vec::from(v);
                if let Some(prev) = &last {
                    assert!(prev < &v);
                }
                last = Some(v);
                count += 1;
            }
            assert_eq!(count, expected);
        }
    }
}
