use rand::RngExt;
use rand::SeedableRng;
use sat_core::cnf::{literal_from_draw, literal_from_sample, Cnf, CnfRng, RngAlgorithm};

fn literals(cnf: &Cnf) -> Vec<Vec<i32>> {
    (0..cnf.num_clauses)
        .map(|i| (0..cnf.num_literals).map(|j| cnf.literal(i, j)).collect())
        .collect()
}

fn cnf_of(num_variables: usize, rows: &[&[i32]]) -> Cnf {
    let num_literals = if rows.is_empty() { 0 } else { rows[0].len() };
    let clauses: Vec<Vec<i32>> = rows.iter().map(|r| r.to_vec()).collect();
    Cnf::from_clauses(num_variables, num_literals, 0, &clauses)
}

#[test]
fn from_str_reads_the_two_names() {
    assert!(matches!(RngAlgorithm::from_str("chacha8"), Some(RngAlgorithm::ChaCha8)));
    assert!(matches!(RngAlgorithm::from_str("pcg64"), Some(RngAlgorithm::Pcg64)));
}

#[test]
fn from_str_refuses_other_names() {
    assert!(RngAlgorithm::from_str("").is_none());
    assert!(RngAlgorithm::from_str("ChaCha8").is_none());
    assert!(RngAlgorithm::from_str("pcg").is_none());
    assert!(RngAlgorithm::from_str("chacha8 ").is_none());
}

#[test]
fn new_distinct_clauses_hold_distinct_variables() {
    let cnf = Cnf::new(10, 3, 50, 42, RngAlgorithm::ChaCha8, true);
    assert_eq!(cnf.num_variables, 10);
    assert_eq!(cnf.num_literals, 3);
    assert_eq!(cnf.num_clauses, 50);
    assert_eq!(cnf.seed, 42);
    for row in literals(&cnf) {
        assert_eq!(row.len(), 3);
        let mut vars: Vec<i32> = row.iter().map(|l| l.abs()).collect();
        assert!(vars.iter().all(|&v| (1..=10).contains(&v)));
        vars.sort();
        vars.dedup();
        assert_eq!(vars.len(), 3);
    }
}

#[test]
fn new_distinct_clauses_with_pcg64() {
    let cnf = Cnf::new(4, 4, 30, 7, RngAlgorithm::Pcg64, true);
    for row in literals(&cnf) {
        let mut vars: Vec<i32> = row.iter().map(|l| l.abs()).collect();
        vars.sort();
        assert_eq!(vars, vec![1, 2, 3, 4]);
    }
}

#[test]
fn new_repeating_literals_stay_below_clause_width() {
    let cnf = Cnf::new(100, 3, 60, 5, RngAlgorithm::Pcg64, false);
    let rows = literals(&cnf);
    assert_eq!(rows.len(), 60);
    for row in rows {
        assert!(row.iter().all(|&l| l != 0 && l.abs() <= 3));
    }
}

#[test]
fn new_is_the_same_for_the_same_seed() {
    let a = Cnf::new(20, 3, 40, 1234, RngAlgorithm::ChaCha8, true);
    let b = Cnf::new(20, 3, 40, 1234, RngAlgorithm::ChaCha8, true);
    assert_eq!(literals(&a), literals(&b));
    assert_eq!(a.to_dimacs_string(), b.to_dimacs_string());
}

#[test]
fn new_without_clauses_is_empty() {
    let cnf = Cnf::new(0, 5, 0, 9, RngAlgorithm::ChaCha8, true);
    assert_eq!(cnf.to_dimacs_string(), "p cnf 0 0\n");
}

#[test]
fn dimacs_text_of_a_small_formula() {
    let cnf = cnf_of(3, &[&[1, -2, 3], &[-1, 2, -3]]);
    assert_eq!(cnf.to_dimacs_string(), "p cnf 3 2\n1 -2 3 0\n-1 2 -3 0\n");
}

#[test]
fn dimacs_text_of_wide_numbers() {
    let cnf = cnf_of(2147483647, &[&[2147483647, -2147483647, 10]]);
    assert_eq!(cnf.to_dimacs_string(), "p cnf 2147483647 1\n2147483647 -2147483647 10 0\n");
}

#[test]
fn dimacs_text_of_empty_clauses() {
    let cnf = cnf_of(4, &[&[], &[]]);
    assert_eq!(cnf.to_dimacs_string(), "p cnf 4 2\n0\n0\n");
}

#[test]
fn dimacs_lines_count_clauses() {
    let cnf = Cnf::new(30, 3, 25, 99, RngAlgorithm::ChaCha8, true);
    let text = cnf.to_dimacs_string();
    let lines: Vec<&str> = text.lines().collect();
    assert_eq!(lines.len(), 26);
    assert_eq!(lines[0], "p cnf 30 25");
    for line in &lines[1..] {
        assert!(line.ends_with(" 0"));
        assert_eq!(line.split(' ').count(), 4);
    }
}

#[test]
fn draws_become_literals() {
    assert_eq!(literal_from_draw(1), -1);
    assert_eq!(literal_from_draw(2), 1);
    assert_eq!(literal_from_draw(3), -2);
    assert_eq!(literal_from_draw(4), 2);
    assert_eq!(literal_from_draw(2147483646), 1073741823);
}

#[test]
fn samples_become_literals() {
    assert_eq!(literal_from_sample(0, 0), 1);
    assert_eq!(literal_from_sample(0, 1), -1);
    assert_eq!(literal_from_sample(4, 1), -5);
    assert_eq!(literal_from_sample(2147483646, 0), 2147483647);
}

#[test]
fn rng_sample_draws_distinct_indices() {
    let mut rng = Cnf::create_rng(RngAlgorithm::ChaCha8, 3);
    let mut all = rng.sample(50, 50);
    all.sort();
    assert_eq!(all, (0..50).collect::<Vec<usize>>());
    let some = rng.sample(1000, 10);
    assert_eq!(some.len(), 10);
    assert!(some.iter().all(|&i| i < 1000));
}

#[test]
fn rng_range_stays_in_range() {
    let mut rng = Cnf::create_rng(RngAlgorithm::Pcg64, 11);
    assert_eq!(rng.random_range_inclusive(5, 5), 5);
    for _ in 0..200 {
        let v = rng.random_range_inclusive(-3, 4);
        assert!((-3..=4).contains(&v));
    }
}

#[test]
fn created_rng_draws_as_seeded_rand_does() {
    let mut ours = Cnf::create_rng(RngAlgorithm::ChaCha8, 77);
    assert!(matches!(ours, CnfRng::ChaCha8(_)));
    let mut theirs = rand_chacha::ChaCha8Rng::seed_from_u64(77);
    for _ in 0..20 {
        assert_eq!(ours.random_range_inclusive(1, 1000), theirs.random_range(1..=1000));
    }
    assert_eq!(ours.sample(100, 7), rand::seq::index::sample(&mut theirs, 100, 7).into_vec());
    let mut ours = Cnf::create_rng(RngAlgorithm::Pcg64, 77);
    assert!(matches!(ours, CnfRng::Pcg64(_)));
    let mut theirs = rand_pcg::Pcg64::seed_from_u64(77);
    assert_eq!(ours.sample(30, 30), rand::seq::index::sample(&mut theirs, 30, 30).into_vec());
    for _ in 0..20 {
        assert_eq!(ours.random_range_inclusive(-5, 5), theirs.random_range(-5..=5));
    }
}

#[test]
fn another_seed_or_algorithm_draws_another_formula() {
    for &distinct in &[true, false] {
        let a = Cnf::new(12, 3, 20, 99, RngAlgorithm::ChaCha8, distinct);
        let b = Cnf::new(12, 3, 20, 99, RngAlgorithm::ChaCha8, distinct);
        assert_eq!(literals(&a), literals(&b));
        let c = Cnf::new(12, 3, 20, 100, RngAlgorithm::ChaCha8, distinct);
        assert_ne!(literals(&a), literals(&c));
        let d = Cnf::new(12, 3, 20, 99, RngAlgorithm::Pcg64, distinct);
        assert_ne!(literals(&a), literals(&d));
    }
}

#[test]
fn from_clauses_keeps_each_literal_in_its_cell() {
    let cnf = cnf_of(9, &[&[1, 2, 3], &[4, -5, 6], &[-7, 8, -9]]);
    assert_eq!(cnf.num_clauses, 3);
    assert_eq!(cnf.num_literals, 3);
    assert_eq!(literals(&cnf), vec![vec![1, 2, 3], vec![4, -5, 6], vec![-7, 8, -9]]);
    assert_eq!(cnf.literal(1, 1), -5);
    let empty = Cnf::from_clauses(3, 2, 5, &vec![]);
    assert_eq!(empty.num_clauses, 0);
    assert_eq!(empty.seed, 5);
}

fn drawn_directly(
    num_variables: usize,
    num_literals: usize,
    num_clauses: usize,
    seed: u64,
    chacha: bool,
    are_distinct: bool,
) -> Vec<Vec<i32>> {
    let mut rng: Box<dyn rand::Rng> = if chacha {
        Box::new(rand_chacha::ChaCha8Rng::seed_from_u64(seed))
    } else {
        Box::new(rand_pcg::Pcg64::seed_from_u64(seed))
    };
    let mut rows = Vec::new();
    for _ in 0..num_clauses {
        let mut row = Vec::new();
        if are_distinct {
            let variables: Vec<i32> = rand::seq::index::sample(&mut rng, num_variables, num_literals)
                .into_iter()
                .map(|v| (v as i32) + 1)
                .collect();
            for j in 0..num_literals {
                let sign = 1 - 2 * rng.random_range(0..=1);
                row.push(sign * variables[j]);
            }
        } else {
            for _ in 0..num_literals {
                let value = rng.random_range(1..=(num_literals as i32 * 2));
                let sign = 1 - 2 * (value % 2);
                row.push(sign * ((value + 1) / 2));
            }
        }
        rows.push(row);
    }
    rows
}

#[test]
fn new_draws_as_rand_does() {
    for &(chacha, algorithm) in &[(true, "chacha8"), (false, "pcg64")] {
        for &distinct in &[true, false] {
            for seed in [0u64, 1, 42, 987654321] {
                let cnf = Cnf::new(
                    25,
                    4,
                    30,
                    seed,
                    RngAlgorithm::from_str(algorithm).unwrap(),
                    distinct,
                );
                assert_eq!(literals(&cnf), drawn_directly(25, 4, 30, seed, chacha, distinct));
            }
        }
    }
}

fn read_back(text: &str) -> (usize, usize, Vec<Vec<i32>>) {
    let mut lines = text.lines();
    let header: Vec<&str> = lines.next().unwrap().split(' ').collect();
    assert_eq!(&header[..2], &["p", "cnf"]);
    let rows = lines
        .map(|line| {
            let mut numbers: Vec<i32> = line.split(' ').map(|t| t.parse().unwrap()).collect();
            assert_eq!(numbers.pop(), Some(0));
            numbers
        })
        .collect();
    (header[2].parse().unwrap(), header[3].parse().unwrap(), rows)
}

#[test]
fn dimacs_text_reads_back_to_the_formula() {
    for &distinct in &[true, false] {
        let cnf = Cnf::new(40, 5, 33, 2024, RngAlgorithm::Pcg64, distinct);
        let text = cnf.to_dimacs_string();
        assert!(text.ends_with('\n'));
        assert_eq!(read_back(&text), (40, 33, literals(&cnf)));
    }
}
