//! The combination enumerators: counts, distinctness, and the
//! equivalence of the generic and the specialized five-card forms.

use holdem_equity::combos::{combinations, combinations_five};

fn binomial(n: usize, k: usize) -> usize {
    if k > n {
        return 0;
    }
    let mut r: usize = 1;
    for i in 0..k {
        r = r * (n - i) / (i + 1);
    }
    r
}

fn assert_all_distinct(list: &Vec<Vec<usize>>) {
    let mut sorted = list.clone();
    sorted.sort();
    for w in sorted.windows(2) {
        assert_ne!(w[0], w[1]);
    }
}

#[test]
fn generic_small_cases_count_and_distinct() {
    for n in 0..9usize {
        for k in 0..7usize {
            let list = combinations(n, k);
            assert_eq!(list.len(), binomial(n, k), "n={} k={}", n, k);
            assert_all_distinct(&list);
            for combo in &list {
                assert_eq!(combo.len(), k);
                for w in combo.windows(2) {
                    assert!(w[0] < w[1]);
                }
                for &x in combo {
                    assert!(x < n);
                }
            }
        }
    }
}

#[test]
fn zero_of_anything_is_one_empty_combination() {
    let list = combinations(6, 0);
    assert_eq!(list.len(), 1);
    assert!(list[0].is_empty());
}

#[test]
fn more_than_available_yields_nothing() {
    assert_eq!(combinations(3, 5).len(), 0);
    assert_eq!(combinations(0, 1).len(), 0);
}

#[test]
fn generic_lexicographic_order_explicit() {
    let list = combinations(4, 2);
    let expected: Vec<Vec<usize>> = vec![
        vec![0, 1],
        vec![0, 2],
        vec![0, 3],
        vec![1, 2],
        vec![1, 3],
        vec![2, 3],
    ];
    assert_eq!(list, expected);
}

#[test]
fn specialized_five_matches_generic() {
    for n in 0..10usize {
        let generic = combinations(n, 5);
        let special = combinations_five(n);
        assert_eq!(generic, special, "n={}", n);
    }
}

#[test]
fn specialized_five_count_and_distinct() {
    let list = combinations_five(9);
    assert_eq!(list.len(), binomial(9, 5));
    assert_all_distinct(&list);
}
