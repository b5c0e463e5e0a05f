use std::sync::Arc;
use std::time::Duration;

use sat_core::cnf::Cnf;
use sat_core::solvers::fixstars::models::request::Term;
use sat_core::solvers::fixstars::{authorization_value, generate_constraints, request_body, response_output};
use sat_core::solvers::kissat::{capture_process_time, capture_status, KissatScan, ScanStep};
use sat_core::solvers::{SolverError, SolverOutput};
use sat_core::util::ResultExt;

fn cnf_of(num_variables: usize, seed: u64, rows: &[&[i32]]) -> Cnf {
    let num_literals = if rows.is_empty() { 0 } else { rows[0].len() };
    let clauses: Vec<Vec<i32>> = rows.iter().map(|r| r.to_vec()).collect();
    Cnf::from_clauses(num_variables, num_literals, seed, &clauses)
}

fn term_text(t: &Term) -> String {
    match t {
        Term::XYK((p, q, k)) => format!("{}*x{}*x{}", k, p, q),
        Term::XK((p, k)) => format!("{}*x{}", k, p),
        Term::K((k,)) => format!("{}", k),
    }
}

fn terms(ts: &[Term]) -> Vec<String> {
    ts.iter().map(term_text).collect()
}

#[test]
fn constraints_of_one_clause_with_complementary_literals() {
    let cnf = cnf_of(1, 0, &[&[1, -1]]);
    let cs = generate_constraints(&cnf);
    assert_eq!(cs.len(), 3);
    assert_eq!(terms(&cs[0].condition.left), vec!["1*x0", "1*x1"]);
    assert_eq!(cs[0].condition.op, "EQ");
    assert_eq!(cs[0].condition.right, 1);
    assert_eq!(cs[0].multiplier, 1);
    assert_eq!(terms(&cs[0].penalty), vec!["-1*x0", "2*x0*x1", "-1*x1", "1"]);
    assert_eq!(terms(&cs[1].condition.left), vec!["1*x0*x1"]);
    assert_eq!(cs[1].condition.right, 0);
    assert_eq!(terms(&cs[1].penalty), vec!["1*x0*x1"]);
    assert_eq!(terms(&cs[2].condition.left), vec!["1*x1*x0"]);
}

#[test]
fn constraints_pair_complementary_cells_across_clauses() {
    let cnf = cnf_of(3, 0, &[&[1, 2], &[-2, 3], &[-1, -3]]);
    let cs = generate_constraints(&cnf);
    let pairs: Vec<String> = cs[3..].iter().map(|c| terms(&c.penalty).join(" ")).collect();
    assert_eq!(
        pairs,
        vec!["1*x0*x4", "1*x1*x2", "1*x2*x1", "1*x3*x5", "1*x4*x0", "1*x5*x3"]
    );
    assert_eq!(terms(&cs[1].condition.left), vec!["1*x2", "1*x3"]);
    assert_eq!(terms(&cs[2].penalty), vec!["-1*x4", "2*x4*x5", "-1*x5", "1"]);
}

#[test]
fn constraints_of_three_literals_expand_the_penalty() {
    let cnf = cnf_of(3, 0, &[&[1, 2, 3]]);
    let cs = generate_constraints(&cnf);
    assert_eq!(cs.len(), 1);
    assert_eq!(
        terms(&cs[0].penalty),
        vec!["-1*x0", "2*x0*x1", "2*x0*x2", "-1*x1", "2*x1*x2", "-1*x2", "1"]
    );
}

#[test]
fn request_asks_ten_seconds() {
    let cnf = cnf_of(2, 0, &[&[1, 2]]);
    let body = request_body(&cnf);
    assert_eq!(body.timeout, 10000);
    assert!(body.polynomial.is_empty());
    assert_eq!(body.constraints.len(), 1);
}

#[test]
fn response_with_a_feasible_sample_is_satisfiable() {
    let cnf = Arc::new(cnf_of(2, 0, &[&[1, 2]]));
    let out = response_output(cnf.clone(), &vec![false, true, false], Some(Duration::from_millis(250)));
    assert_eq!(out.solver, "fixstars");
    assert_eq!(out.is_satisfiable, Some(true));
    assert_eq!(out.process_time, Some(Duration::from_millis(250)));
    assert!(out.errors.is_empty());
}

#[test]
fn response_without_time_stamp_keeps_an_error() {
    let cnf = Arc::new(cnf_of(2, 0, &[&[1, 2]]));
    let out = response_output(cnf, &vec![false, false], None);
    assert_eq!(out.is_satisfiable, Some(false));
    assert_eq!(out.process_time, None);
    assert_eq!(out.errors.len(), 1);
    assert_eq!(out.errors[0].message, "Unable to read process time in output");
}

#[test]
fn response_without_samples_is_unsatisfiable() {
    let cnf = Arc::new(cnf_of(2, 0, &[&[1, 2]]));
    let out = response_output(cnf, &vec![], Some(Duration::from_secs(1)));
    assert_eq!(out.is_satisfiable, Some(false));
}

#[test]
fn process_time_lines_are_captured() {
    assert_eq!(
        capture_process_time("c process-time:                         0.01    seconds").as_deref(),
        Some("0.01")
    );
    assert_eq!(capture_process_time("c process-time: 2s 1.5 seconds").as_deref(), Some("1.5"));
    assert_eq!(capture_process_time("c process-time: 12 seconds").as_deref(), Some("12"));
    assert_eq!(capture_process_time("c process-time: .5 seconds").as_deref(), Some(".5"));
    assert_eq!(capture_process_time("c process-time: 1.5.5 seconds").as_deref(), Some("5.5"));
    assert_eq!(capture_process_time("c process-time: 3. seconds").as_deref(), Some(""));
    assert_eq!(capture_process_time("c process-time: x seconds").as_deref(), Some(""));
    assert_eq!(capture_process_time("c process-time:seconds").as_deref(), Some(""));
    assert_eq!(capture_process_time("c\tprocess-time: 7seconds").as_deref(), Some("7"));
}

#[test]
fn other_lines_have_no_process_time() {
    assert_eq!(capture_process_time("c process-time: 1.5 second"), None);
    assert_eq!(capture_process_time("c  process-time: 1.5 seconds"), None);
    assert_eq!(capture_process_time("cprocess-time: 1.5 seconds"), None);
    assert_eq!(capture_process_time("s SATISFIABLE"), None);
    assert_eq!(capture_process_time(""), None);
}

#[test]
fn status_lines_are_captured() {
    assert_eq!(capture_status("s SATISFIABLE").as_deref(), Some("SATISFIABLE"));
    assert_eq!(capture_status("s   UNSATISFIABLE  ").as_deref(), Some("UNSATISFIABLE"));
    assert_eq!(capture_status("s\tUNKNOWN").as_deref(), Some("UNKNOWN"));
    assert_eq!(capture_status("s ").as_deref(), Some(""));
    assert_eq!(capture_status("sSATISFIABLE"), None);
    assert_eq!(capture_status("c SATISFIABLE"), None);
    assert_eq!(capture_status("s"), None);
}

#[test]
fn scan_reads_time_then_verdict() {
    let mut scan = KissatScan::new();
    assert!(matches!(scan.on_line("c ---- [ resources ] ----"), ScanStep::Continue));
    let text = match scan.on_line("c process-time:   0.25 seconds") {
        ScanStep::ParseSeconds(t) => t,
        _ => panic!("expected a number to parse"),
    };
    assert_eq!(text, "0.25");
    assert!(matches!(scan.on_seconds(Ok(Duration::from_millis(250))), ScanStep::Continue));
    assert!(matches!(scan.on_line("c process-time: 9.0 seconds"), ScanStep::Continue));
    assert!(matches!(scan.on_line("s SATISFIABLE"), ScanStep::Finished));
    let cnf = Arc::new(cnf_of(1, 3, &[&[1]]));
    let out = scan.into_output(cnf);
    assert_eq!(out.solver, "kissat");
    assert_eq!(out.is_satisfiable, Some(true));
    assert_eq!(out.process_time, Some(Duration::from_millis(250)));
    assert!(out.errors.is_empty());
}

#[test]
fn scan_keeps_the_first_verdict() {
    let mut scan = KissatScan::new();
    assert!(matches!(scan.on_line("s UNSATISFIABLE"), ScanStep::Continue));
    assert!(matches!(scan.on_line("s SATISFIABLE"), ScanStep::Continue));
    assert_eq!(scan.is_satisfiable, Some(false));
}

#[test]
fn scan_keeps_parse_errors_and_reads_on() {
    let mut scan = KissatScan::new();
    assert!(matches!(scan.on_line("c process-time: x seconds"), ScanStep::ParseSeconds(_)));
    assert!(matches!(
        scan.on_seconds(Err("cannot parse float from empty string".to_string())),
        ScanStep::Continue
    ));
    assert_eq!(scan.errors.len(), 1);
    assert_eq!(scan.errors[0].message, "cannot parse float from empty string");
    assert!(matches!(scan.on_line("s SATISFIABLE"), ScanStep::Continue));
    assert!(matches!(scan.on_line("c process-time: 2 seconds"), ScanStep::ParseSeconds(_)));
    assert!(matches!(scan.on_seconds(Ok(Duration::from_secs(2))), ScanStep::Finished));
}

#[test]
fn take_err_passes_values_and_keeps_errors() {
    let mut errors: Vec<SolverError> = Vec::new();
    let ok: Result<u32, String> = Ok(5);
    assert_eq!(ok.take_err(&mut errors), Some(5));
    assert!(errors.is_empty());
    let err: Result<u32, String> = Err("bad".to_string());
    assert_eq!(err.take_err(&mut errors), None);
    assert_eq!(errors.len(), 1);
    assert_eq!(errors[0].message, "bad");
}

#[test]
fn csv_record_of_an_output() {
    let out = SolverOutput {
        solver: "kissat",
        cnf: Arc::new(cnf_of(12, 77, &[&[1, 2, 3], &[4, 5, 6]])),
        is_satisfiable: Some(false),
        process_time: Some(Duration::from_millis(1500)),
        errors: Vec::new(),
    };
    assert_eq!(
        out.to_csv_record(Some("1.5".to_string())),
        vec!["kissat", "12", "2", "3", "77", "false", "1.5"]
    );
    assert_eq!(SolverOutput::HEADER.len(), 7);
}

#[test]
fn csv_record_leaves_unknown_fields_empty() {
    let out = SolverOutput {
        solver: "fixstars",
        cnf: Arc::new(cnf_of(1, 0, &[&[1]])),
        is_satisfiable: None,
        process_time: None,
        errors: Vec::new(),
    };
    assert_eq!(out.to_csv_record(None), vec!["fixstars", "1", "1", "1", "0", "", ""]);
}

const SAMPLE_LINES: [&str; 30] = [
    "c process-time:                         0.01    seconds",
    "c process-time: 2s 1.5 seconds",
    "c process-time: 1.5.5 seconds",
    "c process-time: ..5 seconds",
    "c process-time: 3. seconds",
    "c process-time: .5. seconds",
    "c process-time: x seconds",
    "c process-time:seconds",
    "c process-time:   seconds",
    "c\tprocess-time: 7seconds",
    "c process-time: \u{663}1 seconds",
    "c process-time: 1\u{663} seconds",
    "c process-time: 4\u{3000}seconds",
    "c process-time:\u{a0}\u{a0}12.75\u{2003}seconds",
    "c process-time: 12.75 s seconds",
    "c process-time: 1 2 seconds",
    "c process-time: a.b seconds",
    "c process-time: 0.0001 seconds",
    "c process-time: 5 secondsseconds",
    "c process-time: 1.5 second",
    "c  process-time: 1.5 seconds",
    "c process-time 1.5 seconds",
    "s SATISFIABLE",
    "s   UNSATISFIABLE  ",
    "s\tUNKNOWN",
    "s ",
    "sSATISFIABLE",
    "s \u{2003}SATISFIABLE\u{3000}",
    "s SAT ISFIABLE ",
    "",
];

#[test]
fn captures_agree_with_the_regex_crate() {
    let time = regex::Regex::new(r"^c\sprocess-time:\s*.*?(\d*(?:\.\d+)?)\s*seconds$").unwrap();
    let status = regex::Regex::new(r"^s\s+(.*?)\s*$").unwrap();
    for line in SAMPLE_LINES {
        let expected_time = time.captures(line).and_then(|c| c.get(1)).map(|m| m.as_str().to_string());
        assert_eq!(capture_process_time(line), expected_time, "{:?}", line);
        let expected_status = status.captures(line).and_then(|c| c.get(1)).map(|m| m.as_str().to_string());
        assert_eq!(capture_status(line), expected_status, "{:?}", line);
    }
}

#[test]
fn captures_agree_with_the_regex_crate_on_all_short_middles() {
    let time = regex::Regex::new(r"^c\sprocess-time:\s*.*?(\d*(?:\.\d+)?)\s*seconds$").unwrap();
    let status = regex::Regex::new(r"^s\s+(.*?)\s*$").unwrap();
    let alphabet = ['1', '.', ' ', 'x', '\u{663}', '\u{a0}'];
    let mut middles: Vec<String> = vec![String::new()];
    let mut all: Vec<String> = vec![String::new()];
    for _ in 0..5 {
        let mut next = Vec::new();
        for m in &middles {
            for c in alphabet {
                let mut s = m.clone();
                s.push(c);
                next.push(s);
            }
        }
        all.extend(next.iter().cloned());
        middles = next;
    }
    for m in &all {
        let line = format!("c process-time:{}seconds", m);
        let expected = time.captures(&line).and_then(|c| c.get(1)).map(|x| x.as_str().to_string());
        assert_eq!(capture_process_time(&line), expected, "{:?}", line);
        let line = format!("s{}", m);
        let expected = status.captures(&line).and_then(|c| c.get(1)).map(|x| x.as_str().to_string());
        assert_eq!(capture_status(&line), expected, "{:?}", line);
    }
}

fn value_of(ts: &[Term], x: &[i64]) -> i64 {
    ts.iter()
        .map(|t| match *t {
            Term::XYK((p, q, k)) => k as i64 * x[p] * x[q],
            Term::XK((p, k)) => k as i64 * x[p],
            Term::K((k,)) => k as i64,
        })
        .sum()
}

#[test]
fn clause_penalty_is_the_squared_distance_from_one() {
    let cnf = cnf_of(4, 0, &[&[1, 2, 3, 4]]);
    let cs = generate_constraints(&cnf);
    for bits in 0..16u32 {
        let x: Vec<i64> = (0..4).map(|i| ((bits >> i) & 1) as i64).collect();
        let sum: i64 = x.iter().sum();
        assert_eq!(value_of(&cs[0].penalty, &x), (sum - 1) * (sum - 1));
        assert_eq!(value_of(&cs[0].condition.left, &x), sum);
    }
}

#[test]
fn distinct_formulas_pair_cells_of_different_clauses_only() {
    let cnf = sat_core::cnf::Cnf::new(6, 3, 20, 1, sat_core::cnf::RngAlgorithm::ChaCha8, true);
    let cs = generate_constraints(&cnf);
    assert!(cs.len() >= 20);
    for c in &cs[20..] {
        match c.penalty[0] {
            Term::XYK((p, q, 1)) => {
                assert_ne!(p / 3, q / 3);
                assert_eq!(cnf.literal(p / 3, p % 3) + cnf.literal(q / 3, q % 3), 0);
            }
            _ => panic!("a contradiction constraint pairs two variables"),
        }
    }
}

#[test]
fn authorization_value_of_a_plain_token() {
    assert_eq!(authorization_value("abc123").as_deref(), Some("Bearer abc123"));
    assert_eq!(authorization_value("").as_deref(), Some("Bearer "));
    assert_eq!(authorization_value("a\tb é").as_deref(), Some("Bearer a\tb é"));
}

#[test]
fn authorization_value_refuses_control_characters() {
    assert_eq!(authorization_value("abc\n"), None);
    assert_eq!(authorization_value("a\rb"), None);
    assert_eq!(authorization_value("\u{7f}"), None);
    assert_eq!(authorization_value("\u{0}"), None);
}

fn constraints_met(cs: &[sat_core::solvers::fixstars::models::request::Constraint], x: &[i64]) -> bool {
    cs.iter().all(|c| value_of(&c.condition.left, x) == c.condition.right as i64)
}

fn brute_satisfiable(rows: &[&[i32]], num_variables: usize) -> bool {
    (0..(1u32 << num_variables)).any(|bits| {
        rows.iter().all(|row| {
            row.iter().any(|&l| {
                let v = l.unsigned_abs() as usize;
                l != 0 && (((bits >> (v - 1)) & 1) == 1) == (l > 0)
            })
        })
    })
}

#[test]
fn constraints_can_be_met_exactly_for_satisfiable_formulas() {
    let formulas: Vec<Vec<&[i32]>> = vec![
        vec![&[1, 2], &[-1, 2], &[1, -2]],
        vec![&[1, 2], &[-1, 2], &[1, -2], &[-1, -2]],
        vec![&[1, 1], &[-1, -1]],
        vec![&[2, -1], &[1, 1]],
        vec![&[0, 1], &[-1, 0]],
        vec![&[1, -1]],
    ];
    for rows in formulas {
        let cnf = cnf_of(2, 0, &rows);
        let cs = generate_constraints(&cnf);
        let cells = rows.len() * 2;
        let solvable = (0..(1u32 << cells)).any(|bits| {
            let x: Vec<i64> = (0..cells).map(|i| ((bits >> i) & 1) as i64).collect();
            constraints_met(&cs, &x)
        });
        assert_eq!(solvable, brute_satisfiable(&rows, 2), "{:?}", rows);
    }
}
