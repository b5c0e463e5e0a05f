//! Random k-SAT formulas in conjunctive normal form, their DIMACS text, and the
//! decision logic that prepares requests for SAT solvers and reads their answers.

pub mod cnf;
pub mod dimacs;
pub mod text;
pub mod grid;
pub mod random;
pub mod solvers;
pub mod util;
