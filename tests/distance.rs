use pyrsdameraulevenshtein::{distance_native, normalized_distance_fraction};

#[test]
fn test_distance_native_equal_lists() {
    let seq1 = vec![1, 2, 3, 4];
    let seq2 = vec![1, 2, 3, 4];
    assert_eq!(0, distance_native(&seq1, &seq2));
    assert_eq!(0, distance_native(&seq2, &seq1));
}

#[test]
fn test_distance_native_one_change() {
    let seq1 = vec![1, 2, 3, 4];
    let seq2 = vec![2, 3, 4];
    assert_eq!(1, distance_native(&seq1, &seq2));
}

#[test]
fn test_distance_native_one_swap() {
    let seq1 = vec![1, 2, 3, 4];
    let seq2 = vec![2, 1, 3, 4];
    assert_eq!(1, distance_native(&seq1, &seq2));
    assert_eq!(1, distance_native(&seq2, &seq1));
}

#[test]
fn test_distance_native_one_empty_list() {
    let seq1: Vec<i32> = vec![];
    let seq2 = vec![1, 2, 3, 4];
    assert_eq!(4, distance_native(&seq1, &seq2));
    assert_eq!(4, distance_native(&seq2, &seq1));
}

#[test]
fn test_distance_native_one_missing() {
    let seq1 = vec![1, 2, 4];
    let seq2 = vec![1, 2, 3, 4];
    assert_eq!(1, distance_native(&seq1, &seq2));
    assert_eq!(1, distance_native(&seq2, &seq1));
}

#[test]
fn test_distance_native_two_differnt_lists() {
    let seq1 = vec![1, 2, 3];
    let seq2 = vec![4, 5, 6];
    assert_eq!(3, distance_native(&seq1, &seq2));
    assert_eq!(3, distance_native(&seq2, &seq1));
}

#[test]
fn test_str() {
    let seq1 = vec![String::from("A"), String::from("B"), String::from("C")];
    let seq2 = vec![String::from("A"), String::from("C"), String::from("E")];
    assert_eq!(2, distance_native(&seq1, &seq2))
}

#[test]
fn single_substitution() {
    assert_eq!(1, distance_native(&vec![1, 2, 3, 4], &vec![1, 2, 3, 9]));
}

#[test]
fn both_empty() {
    let e: Vec<i32> = vec![];
    assert_eq!(0, distance_native(&e, &e));
    assert_eq!((0, 1), normalized_distance_fraction(&e, &e));
}

#[test]
fn transposition_at_the_start_of_the_rest() {
    // After the shared prefix [7], the swapped pair opens the remaining lists.
    assert_eq!(1, distance_native(&vec![7, 1, 2], &vec![7, 2, 1]));
    assert_eq!(1, distance_native(&vec![1, 2], &vec![2, 1]));
}

#[test]
fn transposition_is_restricted() {
    // "CA" -> "ABC": the general metric gives 2, the restricted one 3.
    let ca: Vec<char> = "CA".chars().collect();
    let abc: Vec<char> = "ABC".chars().collect();
    assert_eq!(3, distance_native(&ca, &abc));
    assert_eq!(3, distance_native(&abc, &ca));
}

#[test]
fn unicode_characters() {
    let s1: Vec<char> = "größe".chars().collect();
    let s2: Vec<char> = "grösse".chars().collect();
    assert_eq!(2, distance_native(&s1, &s2));
    let s3: Vec<char> = "ABC".chars().collect();
    let s4: Vec<char> = "AC".chars().collect();
    assert_eq!(1, distance_native(&s3, &s4));
}

#[test]
fn symmetric_and_bounded_on_examples() {
    let cases: Vec<(Vec<i64>, Vec<i64>)> = vec![
        (vec![1, 2, 3], vec![3, 2, 1, 0]),
        (vec![5, 5, 5, 5], vec![5]),
        (vec![1, 3, 2, 4, 6, 5], vec![1, 2, 3, 4, 5, 6]),
    ];
    for (a, b) in cases.iter() {
        let d = distance_native(a, b);
        assert_eq!(d, distance_native(b, a));
        assert!(d <= a.len().max(b.len()));
        assert_eq!(0, distance_native(a, a));
    }
}

#[test]
fn normalized_fraction_values() {
    let (d, n) = normalized_distance_fraction(&vec![1, 2, 3], &vec![2, 3]);
    assert_eq!((1, 3), (d, n));
    let normalized = d as f64 / n as f64;
    let similarity = 1.0 - normalized;
    assert!((normalized - 1.0 / 3.0).abs() < 1e-12);
    assert!((similarity + normalized - 1.0).abs() < 1e-12);
    assert_eq!((4, 4), normalized_distance_fraction(&vec![1, 2, 3, 4], &vec![]));
}

fn full_matrix(a: &[u8], b: &[u8]) -> usize {
    let (n, m) = (a.len(), b.len());
    let mut d = vec![vec![0usize; m + 1]; n + 1];
    for i in 0..=n {
        d[i][0] = i;
    }
    for j in 0..=m {
        d[0][j] = j;
    }
    for i in 1..=n {
        for j in 1..=m {
            let cost = if a[i - 1] == b[j - 1] { 0 } else { 1 };
            let mut v = (d[i - 1][j] + 1).min(d[i][j - 1] + 1).min(d[i - 1][j - 1] + cost);
            if i > 1 && j > 1 && a[i - 1] == b[j - 2] && a[i - 2] == b[j - 1] {
                v = v.min(d[i - 2][j - 2] + 1);
            }
            d[i][j] = v;
        }
    }
    d[n][m]
}

#[test]
fn agrees_with_full_matrix_on_random_lists() {
    let mut state: u64 = 0x2545_f491_4f6c_dd1d;
    let mut next = move || {
        state ^= state << 13;
        state ^= state >> 7;
        state ^= state << 17;
        state
    };
    for _ in 0..500 {
        let la = (next() % 9) as usize;
        let lb = (next() % 9) as usize;
        let shared = (next() % 4) as usize;
        let mut a: Vec<u8> = Vec::new();
        let mut b: Vec<u8> = Vec::new();
        for _ in 0..shared {
            let x = (next() % 3) as u8;
            a.push(x);
            b.push(x);
        }
        for _ in 0..la {
            a.push((next() % 3) as u8);
        }
        for _ in 0..lb {
            b.push((next() % 3) as u8);
        }
        let expected = full_matrix(&a, &b);
        assert_eq!(expected, distance_native(&a, &b));
        assert_eq!(expected, distance_native(&b, &a));
        assert_eq!(expected, full_matrix(&a[shared..], &b[shared..]));
    }
}
