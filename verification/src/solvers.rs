//! The solvers that a formula is handed to, and what they answer.

pub mod fixstars;
pub mod kissat;

use vstd::prelude::*;
use vstd::string::*;
use std::sync::Arc;
use std::time::Duration;
use crate::cnf::Cnf;
use crate::text::{decimal, decimal_string};

verus! {

/// An error met while reading a solver's answer, kept beside the answer.
#[derive(Debug)]
pub struct SolverError {
    pub message: String,
}

impl From<String> for SolverError {
    fn from(message: String) -> (r: SolverError) {
        SolverError { message }
    }
}

impl vstd::std_specs::convert::FromSpecImpl<String> for SolverError {
    open spec fn obeys_from_spec() -> bool {
        true
    }

    open spec fn from_spec(v: String) -> SolverError {
        SolverError { message: v }
    }
}

/// What a solver answered for a formula: whether it is satisfiable and how long the
/// solver took, each where the answer told, and the errors met reading the answer.
#[derive(Debug)]
pub struct SolverOutput {
    pub solver: &'static str,
    pub cnf: Arc<Cnf>,
    pub is_satisfiable: Option<bool>,
    pub process_time: Option<Duration>,
    pub errors: Vec<SolverError>,
}

/// The CSV text of an optional boolean: `true`, `false`, or empty.
pub open spec fn optional_bool_text(b: Option<bool>) -> Seq<char> {
    match b {
        Some(true) => seq!['t', 'r', 'u', 'e'],
        Some(false) => seq!['f', 'a', 'l', 's', 'e'],
        None => Seq::empty(),
    }
}

/// The satisfiability column reads back: it is `true` exactly for `Some(true)`,
/// `false` exactly for `Some(false)`, and empty exactly for an unknown answer, as
/// Rust writes a boolean.
pub proof fn lemma_satisfiable_text_reads_back(b: Option<bool>)
    ensures
        optional_bool_text(b) == seq!['t', 'r', 'u', 'e'] <==> b == Some(true),
        optional_bool_text(b) == seq!['f', 'a', 'l', 's', 'e'] <==> b == Some(false),
        optional_bool_text(b).len() == 0 <==> b is None,
{
    assert(seq!['t', 'r', 'u', 'e'].len() == 4);
    assert(seq!['f', 'a', 'l', 's', 'e'].len() == 5);
}

/// The CSV text of an optional field: its text, or empty.
pub open spec fn optional_text(t: Option<String>) -> Seq<char> {
    match t {
        Some(s) => s@,
        None => Seq::empty(),
    }
}

impl SolverOutput {
    /// The names of the columns of `to_csv_record`.
    pub const HEADER: [&'static str; 7] = [
        "solver",
        "num_variables",
        "num_clauses",
        "num_literals",
        "seed",
        "is_satisfiable",
        "process_time",
    ];

    /// The output as a CSV record, in the columns of `HEADER`: the solver, the
    /// formula's numbers of variables, clauses and literals, its seed, whether it is
    /// satisfiable, and the process time in seconds. Numbers are in decimal; an unknown
    /// answer is an empty field. `process_time_text` is the decimal text of the process
    /// time in seconds, present exactly where the process time is.
    pub fn to_csv_record(&self, process_time_text: Option<String>) -> (r: Vec<String>)
        requires
            process_time_text is Some <==> self.process_time is Some,
        ensures
            r@.len() == 7,
            r@[0]@ == self.solver@,
            r@[1]@ == decimal(self.cnf.num_variables as nat),
            r@[2]@ == decimal(self.cnf.num_clauses as nat),
            r@[3]@ == decimal(self.cnf.num_literals as nat),
            r@[4]@ == decimal(self.cnf.seed as nat),
            r@[5]@ == optional_bool_text(self.is_satisfiable),
            r@[5]@ == seq!['t', 'r', 'u', 'e'] <==> self.is_satisfiable == Some(true),
            r@[5]@ == seq!['f', 'a', 'l', 's', 'e'] <==> self.is_satisfiable == Some(false),
            r@[5]@.len() == 0 <==> self.is_satisfiable is None,
            r@[6]@ == optional_text(process_time_text),
    {
        let solver = String::from_str(self.solver);
        let satisfiable = match self.is_satisfiable {
            Some(true) => {
                proof {
                    reveal_strlit("true");
                }
                String::from_str("true")
            },
            Some(false) => {
                proof {
                    reveal_strlit("false");
                }
                String::from_str("false")
            },
            None => String::new(),
        };
        let time = match process_time_text {
            Some(t) => t,
            None => String::new(),
        };
        let mut record: Vec<String> = Vec::new();
        record.push(solver);
        record.push(decimal_string(self.cnf.num_variables as u64));
        record.push(decimal_string(self.cnf.num_clauses as u64));
        record.push(decimal_string(self.cnf.num_literals as u64));
        record.push(decimal_string(self.cnf.seed));
        record.push(satisfiable);
        record.push(time);
        proof {
            let text = record@[5]@;
            assert(text == optional_bool_text(self.is_satisfiable));
            lemma_satisfiable_text_reads_back(self.is_satisfiable);
            assert(text =~= seq!['t', 'r', 'u', 'e'] <==> self.is_satisfiable == Some(true));
            assert(text =~= seq!['f', 'a', 'l', 's', 'e'] <==> self.is_satisfiable == Some(false));
        }
        record
    }
}

} // verus!
