//! CNF formulas: the random generator that draws them, and their DIMACS text.

use vstd::prelude::*;
use vstd::string::*;
use crate::grid::{LiteralGrid, grid_rows};
use crate::random::{
    ChaCha8Stream, Pcg64Stream, chacha8_from_seed, chacha8_range_draw, chacha8_range_inclusive,
    chacha8_sample, chacha8_sample_draw, pcg64_from_seed, pcg64_range_draw, pcg64_range_inclusive,
    pcg64_sample, pcg64_sample_draw,
};
use crate::text::{decimal, push_decimal, push_signed_decimal, signed_decimal, str_eq};

verus! {

/// The pseudo-random generator with which a formula is drawn.
pub enum RngAlgorithm {
    ChaCha8,
    Pcg64,
}

impl RngAlgorithm {
    /// Reads an algorithm by its name: `"chacha8"` or `"pcg64"`; any other text gives `None`.
    pub fn from_str(s: &str) -> (r: Option<Self>)
        ensures
            s@ == "chacha8"@ <==> r == Some(RngAlgorithm::ChaCha8),
            s@ == "pcg64"@ <==> r == Some(RngAlgorithm::Pcg64),
            r is None <==> (s@ != "chacha8"@ && s@ != "pcg64"@),
    {
        proof {
            reveal_strlit("chacha8");
            reveal_strlit("pcg64");
            assert("chacha8"@.len() != "pcg64"@.len());
        }
        if str_eq(s, "chacha8") {
            Some(RngAlgorithm::ChaCha8)
        } else if str_eq(s, "pcg64") {
            Some(RngAlgorithm::Pcg64)
        } else {
            None
        }
    }
}

/// A seeded generator of one of the two algorithms.
pub enum CnfRng {
    ChaCha8(ChaCha8Stream),
    Pcg64(Pcg64Stream),
}

/// What `random_range(low..=high)` draws from a generator of `algorithm` made from
/// `seed`, after the requests `history`.
pub open spec fn range_draw(
    algorithm: RngAlgorithm,
    seed: u64,
    history: Seq<(int, int, int)>,
    low: int,
    high: int,
) -> int {
    match algorithm {
        RngAlgorithm::ChaCha8 => chacha8_range_draw(seed, history, low, high),
        RngAlgorithm::Pcg64 => pcg64_range_draw(seed, history, low, high),
    }
}

/// What `sample(length, amount)` draws from a generator of `algorithm` made from
/// `seed`, after the requests `history`.
pub open spec fn sample_draw(
    algorithm: RngAlgorithm,
    seed: u64,
    history: Seq<(int, int, int)>,
    length: int,
    amount: int,
) -> Seq<usize> {
    match algorithm {
        RngAlgorithm::ChaCha8 => chacha8_sample_draw(seed, history, length, amount),
        RngAlgorithm::Pcg64 => pcg64_sample_draw(seed, history, length, amount),
    }
}

impl CnfRng {
    /// The generator's algorithm.
    pub open spec fn algorithm(&self) -> RngAlgorithm {
        match self {
            CnfRng::ChaCha8(_) => RngAlgorithm::ChaCha8,
            CnfRng::Pcg64(_) => RngAlgorithm::Pcg64,
        }
    }

    /// The seed the generator was made from.
    pub open spec fn seed(&self) -> u64 {
        match self {
            CnfRng::ChaCha8(s) => s.seed(),
            CnfRng::Pcg64(s) => s.seed(),
        }
    }

    /// The requests made of the generator so far: `(0, low, high)` for a value of
    /// `low..=high`, `(1, length, amount)` for a sample.
    pub open spec fn history(&self) -> Seq<(int, int, int)> {
        match self {
            CnfRng::ChaCha8(s) => s.history(),
            CnfRng::Pcg64(s) => s.history(),
        }
    }

    /// A value from `low..=high`: the one that the seed and the requests before it give.
    pub fn random_range_inclusive(&mut self, low: i32, high: i32) -> (r: i32)
        requires
            low <= high,
        ensures
            low <= r <= high,
            r == range_draw(old(self).algorithm(), old(self).seed(), old(self).history(), low as int, high as int),
            final(self).algorithm() == old(self).algorithm(),
            final(self).seed() == old(self).seed(),
            final(self).history() == old(self).history().push((0int, low as int, high as int)),
    {
        match self {
            CnfRng::ChaCha8(rng) => chacha8_range_inclusive(rng, low, high),
            CnfRng::Pcg64(rng) => pcg64_range_inclusive(rng, low, high),
        }
    }

    /// `amount` distinct indices from `0..length`: those that the seed and the
    /// requests before them give.
    pub fn sample(&mut self, length: usize, amount: usize) -> (r: Vec<usize>)
        requires
            amount <= length,
        ensures
            r@.len() == amount,
            forall|k: int| 0 <= k < amount ==> #[trigger] r@[k] < length,
            forall|k: int, l: int| 0 <= k < l < amount ==> r@[k] != r@[l],
            r@ == sample_draw(old(self).algorithm(), old(self).seed(), old(self).history(), length as int, amount as int),
            final(self).algorithm() == old(self).algorithm(),
            final(self).seed() == old(self).seed(),
            final(self).history() == old(self).history().push((1int, length as int, amount as int)),
    {
        match self {
            CnfRng::ChaCha8(rng) => chacha8_sample(rng, length, amount),
            CnfRng::Pcg64(rng) => pcg64_sample(rng, length, amount),
        }
    }
}

/// The literal that a draw `value` from `1..=2 * n` stands for in a formula whose
/// variables may repeat: an even draw is the positive literal `value / 2`, an odd
/// one the negative literal `-(value + 1) / 2`.
pub open spec fn drawn_literal(value: int) -> int {
    if value % 2 == 0 {
        value / 2
    } else {
        -((value + 1) / 2)
    }
}

/// The literal of a draw `value` (see `drawn_literal`).
pub fn literal_from_draw(value: i32) -> (r: i32)
    requires
        1 <= value < i32::MAX,
    ensures
        r == drawn_literal(value as int),
{
    let parity = value % 2;
    let sign = 1 - 2 * parity;
    let variable = (value + 1) / 2;
    if parity == 0 {
        assert(sign * variable == variable) by (nonlinear_arith)
            requires
                sign == 1,
        ;
    } else {
        assert(sign * variable == -variable) by (nonlinear_arith)
            requires
                sign == -1,
        ;
    }
    sign * variable
}

/// The literal of variable `index + 1`, positive where `sign_draw` is 0 and
/// negative where it is 1.
pub fn literal_from_sample(index: usize, sign_draw: i32) -> (r: i32)
    requires
        index < i32::MAX,
        0 <= sign_draw <= 1,
    ensures
        r == (if sign_draw == 0 { index + 1 } else { -(index + 1) }),
{
    let variable = (index as i32) + 1;
    let sign = 1 - 2 * sign_draw;
    sign * variable
}

/// The variable of a literal: its absolute value.
pub open spec fn variable_of(literal: int) -> int {
    if literal < 0 {
        -literal
    } else {
        literal
    }
}

/// A clause whose literals are of distinct variables, each in `1..=num_variables`.
pub open spec fn distinct_clause(row: Seq<i32>, num_variables: int) -> bool {
    &&& forall|j: int| 0 <= j < row.len() ==> 1 <= #[trigger] variable_of(row[j] as int) <= num_variables
    &&& forall|j: int, k: int|
        0 <= j < k < row.len() ==> variable_of(row[j] as int) != variable_of(row[k] as int)
}

/// No two literals of a clause of distinct variables are complementary: in a formula
/// drawn with `are_distinct`, complementary literals lie in different clauses.
pub proof fn lemma_distinct_clause_has_no_complementary_pair(row: Seq<i32>, num_variables: int, j: int, k: int)
    requires
        distinct_clause(row, num_variables),
        0 <= j < row.len(),
        0 <= k < row.len(),
        j != k,
    ensures
        row[j] as int + row[k] as int != 0,
{
    if j < k {
        assert(variable_of(row[j] as int) != variable_of(row[k] as int));
    } else {
        assert(variable_of(row[k] as int) != variable_of(row[j] as int));
    }
}

/// A clause each of whose literals is of a variable in `1..=bound`.
pub open spec fn bounded_clause(row: Seq<i32>, bound: int) -> bool {
    forall|j: int| 0 <= j < row.len() ==> 1 <= #[trigger] variable_of(row[j] as int) <= bound
}

/// The requests that drawing one clause makes of the generator: where `are_distinct`,
/// a sample of `num_literals` variables out of `num_variables`, then one sign of
/// `0..=1` per literal; otherwise one value of `1..=2 * num_literals` per literal.
pub open spec fn clause_requests(num_variables: int, num_literals: int, are_distinct: bool) -> Seq<
    (int, int, int),
> {
    if are_distinct {
        seq![(1int, num_variables, num_literals)] + Seq::new(num_literals as nat, |j: int| (0int, 0int, 1int))
    } else {
        Seq::new(num_literals as nat, |j: int| (0int, 1int, 2 * num_literals))
    }
}

/// The requests made of the generator before clause `i` is drawn.
pub open spec fn requests_before(num_variables: int, num_literals: int, are_distinct: bool, i: int) -> Seq<
    (int, int, int),
>
    decreases i,
{
    if i <= 0 {
        Seq::empty()
    } else {
        requests_before(num_variables, num_literals, are_distinct, i - 1) + clause_requests(
            num_variables,
            num_literals,
            are_distinct,
        )
    }
}

/// The clause that a generator of `algorithm` made from `seed` gives after the
/// requests `history`. Where `are_distinct`, literal `j` is of the variable
/// `variables[j] + 1` of the sample, negated where its sign draw is 1; otherwise it
/// is the `drawn_literal` of its draw.
pub open spec fn drawn_clause(
    algorithm: RngAlgorithm,
    seed: u64,
    history: Seq<(int, int, int)>,
    num_variables: int,
    num_literals: int,
    are_distinct: bool,
) -> Seq<i32> {
    let requests = clause_requests(num_variables, num_literals, are_distinct);
    if are_distinct {
        let variables = sample_draw(algorithm, seed, history, num_variables, num_literals);
        Seq::new(
            num_literals as nat,
            |j: int|
                {
                    let sign = range_draw(algorithm, seed, history + requests.take(j + 1), 0, 1);
                    (if sign == 0 {
                        variables[j] + 1
                    } else {
                        -(variables[j] + 1)
                    }) as i32
                },
        )
    } else {
        Seq::new(
            num_literals as nat,
            |j: int|
                drawn_literal(range_draw(algorithm, seed, history + requests.take(j), 1, 2 * num_literals)) as i32,
        )
    }
}

/// The clauses that `Cnf::new` draws with a generator of `algorithm` made from `seed`:
/// a function of its arguments alone.
pub open spec fn drawn_rows(
    algorithm: RngAlgorithm,
    seed: u64,
    num_variables: int,
    num_literals: int,
    num_clauses: int,
    are_distinct: bool,
) -> Seq<Seq<i32>> {
    Seq::new(
        num_clauses as nat,
        |i: int|
            drawn_clause(
                algorithm,
                seed,
                requests_before(num_variables, num_literals, are_distinct, i),
                num_variables,
                num_literals,
                are_distinct,
            ),
    )
}

/// A formula of `num_clauses` clauses of `num_literals` literals each, drawn from a seed.
#[derive(Debug)]
pub struct Cnf {
    pub num_clauses: usize,
    pub num_literals: usize,
    pub num_variables: usize,
    pub formula: LiteralGrid,
    pub seed: u64,
}

/// Reproducibility: two formulas that `Cnf::new` draws with the same sizes, seed,
/// algorithm and choice of distinct variables hold the same clauses.
pub proof fn lemma_same_arguments_draw_the_same_formula(
    a: Cnf,
    b: Cnf,
    num_variables: usize,
    num_literals: usize,
    num_clauses: usize,
    seed: u64,
    algorithm: RngAlgorithm,
    are_distinct: bool,
)
    requires
        a.num_variables == num_variables && a.num_literals == num_literals,
        a.num_clauses == num_clauses && a.seed == seed,
        a.rows() == drawn_rows(algorithm, seed, num_variables as int, num_literals as int, num_clauses as int, are_distinct),
        b.num_variables == num_variables && b.num_literals == num_literals,
        b.num_clauses == num_clauses && b.seed == seed,
        b.rows() == drawn_rows(algorithm, seed, num_variables as int, num_literals as int, num_clauses as int, are_distinct),
    ensures
        a.rows() == b.rows(),
        a.num_variables == b.num_variables,
        a.num_literals == b.num_literals,
        a.num_clauses == b.num_clauses,
        a.seed == b.seed,
{
}

/// The DIMACS text of one clause's literals: each literal in decimal, then a space.
pub open spec fn literals_text(row: Seq<i32>) -> Seq<char>
    decreases row.len(),
{
    if row.len() == 0 {
        Seq::empty()
    } else {
        literals_text(row.drop_last()) + signed_decimal(row.last() as int) + seq![' ']
    }
}

/// The DIMACS lines of the clauses: the literals of each, then `0` and a line break.
pub open spec fn clauses_text(rows: Seq<Seq<i32>>) -> Seq<char>
    decreases rows.len(),
{
    if rows.len() == 0 {
        Seq::empty()
    } else {
        clauses_text(rows.drop_last()) + literals_text(rows.last()) + seq!['0', '\n']
    }
}

/// A DIMACS CNF text: the header `p cnf <variables> <clauses>`, then one line per clause.
pub open spec fn dimacs_text(num_variables: nat, num_clauses: nat, rows: Seq<Seq<i32>>) -> Seq<
    char,
> {
    seq!['p', ' ', 'c', 'n', 'f', ' '] + decimal(num_variables) + seq![' '] + decimal(num_clauses)
        + seq!['\n'] + clauses_text(rows)
}

impl Cnf {
    /// The formula's literals, clause by clause.
    pub open spec fn rows(&self) -> Seq<Seq<i32>> {
        grid_rows(self.formula)
    }

    /// The grid holds `num_clauses` rows of `num_literals` literals, of a size that
    /// ndarray can hold.
    pub open spec fn wf(&self) -> bool {
        &&& self.rows().len() == self.num_clauses
        &&& forall|i: int| 0 <= i < self.num_clauses ==> #[trigger] self.rows()[i].len() == self.num_literals
        &&& self.num_clauses <= isize::MAX
        &&& self.num_literals <= isize::MAX
        &&& self.num_clauses * self.num_literals * 4 <= isize::MAX
    }

    /// A generator of the given algorithm, made from `seed`, with no requests made of it.
    pub fn create_rng(algorithm: RngAlgorithm, seed: u64) -> (r: CnfRng)
        ensures
            r.algorithm() == algorithm,
            r.seed() == seed,
            r.history() == Seq::<(int, int, int)>::empty(),
    {
        match algorithm {
            RngAlgorithm::ChaCha8 => CnfRng::ChaCha8(chacha8_from_seed(seed)),
            RngAlgorithm::Pcg64 => CnfRng::Pcg64(pcg64_from_seed(seed)),
        }
    }

    /// Draws a formula of `num_clauses` clauses of `num_literals` literals from
    /// `seed`, with a generator of `algorithm`. Where `are_distinct`, each clause holds
    /// `num_literals` distinct variables of `1..=num_variables`, each negated or not;
    /// otherwise each literal is drawn on its own, of a variable in `1..=num_literals`.
    /// The clauses are those of `drawn_rows`: the same arguments draw the same formula.
    pub fn new(
        num_variables: usize,
        num_literals: usize,
        num_clauses: usize,
        seed: u64,
        algorithm: RngAlgorithm,
        are_distinct: bool,
    ) -> (r: Cnf)
        requires
            num_clauses <= isize::MAX,
            num_literals <= isize::MAX,
            num_clauses * num_literals * 4 <= isize::MAX,
            are_distinct && num_clauses > 0 ==> num_literals <= num_variables <= i32::MAX,
            !are_distinct && num_clauses > 0 ==> num_literals * 2 <= i32::MAX,
        ensures
            r.wf(),
            r.num_variables == num_variables,
            r.num_literals == num_literals,
            r.num_clauses == num_clauses,
            r.seed == seed,
            r.rows() == drawn_rows(
                algorithm,
                seed,
                num_variables as int,
                num_literals as int,
                num_clauses as int,
                are_distinct,
            ),
            are_distinct ==> forall|i: int|
                0 <= i < num_clauses ==> distinct_clause(#[trigger] r.rows()[i], num_variables as int),
            !are_distinct ==> forall|i: int|
                0 <= i < num_clauses ==> bounded_clause(#[trigger] r.rows()[i], num_literals as int),
    {
        let ghost alg = algorithm;
        let ghost nv = num_variables as int;
        let ghost nl = num_literals as int;
        let ghost requests = clause_requests(nv, nl, are_distinct);
        let mut rng = Self::create_rng(algorithm, seed);
        let mut formula = LiteralGrid::zeros(num_clauses, num_literals);
        let mut i: usize = 0;
        while i < num_clauses
            invariant
                i <= num_clauses,
                nv == num_variables,
                nl == num_literals,
                requests == clause_requests(nv, nl, are_distinct),
                rng.algorithm() == alg,
                rng.seed() == seed,
                rng.history() == requests_before(nv, nl, are_distinct, i as int),
                grid_rows(formula).len() == num_clauses,
                forall|k: int| 0 <= k < num_clauses ==> #[trigger] grid_rows(formula)[k].len() == num_literals,
                forall|k: int|
                    0 <= k < i ==> #[trigger] grid_rows(formula)[k] == drawn_clause(
                        alg,
                        seed,
                        requests_before(nv, nl, are_distinct, k),
                        nv,
                        nl,
                        are_distinct,
                    ),
                are_distinct && num_clauses > 0 ==> num_literals <= num_variables <= i32::MAX,
                !are_distinct && num_clauses > 0 ==> num_literals * 2 <= i32::MAX,
                are_distinct ==> forall|k: int|
                    0 <= k < i ==> distinct_clause(#[trigger] grid_rows(formula)[k], num_variables as int),
                !are_distinct ==> forall|k: int|
                    0 <= k < i ==> bounded_clause(#[trigger] grid_rows(formula)[k], num_literals as int),
            decreases num_clauses - i,
        {
            let ghost before = grid_rows(formula);
            let ghost history = rng.history();
            let ghost clause = drawn_clause(alg, seed, history, nv, nl, are_distinct);
            if are_distinct {
                let variables = rng.sample(num_variables, num_literals);
                assert(rng.history() =~= history + requests.take(1));
                let mut j: usize = 0;
                while j < num_literals
                    invariant
                        i < num_clauses,
                        j <= num_literals,
                        nv == num_variables,
                        nl == num_literals,
                        are_distinct,
                        requests == clause_requests(nv, nl, are_distinct),
                        clause == drawn_clause(alg, seed, history, nv, nl, are_distinct),
                        rng.algorithm() == alg,
                        rng.seed() == seed,
                        rng.history() == history + requests.take(j + 1),
                        num_literals <= num_variables <= i32::MAX,
                        variables@.len() == num_literals,
                        variables@ == sample_draw(alg, seed, history, nv, nl),
                        forall|k: int| 0 <= k < num_literals ==> #[trigger] variables@[k] < num_variables,
                        forall|k: int, l: int| 0 <= k < l < num_literals ==> variables@[k] != variables@[l],
                        grid_rows(formula).len() == num_clauses,
                        forall|k: int| 0 <= k < num_clauses ==> #[trigger] grid_rows(formula)[k].len() == num_literals,
                        forall|k: int| 0 <= k < num_clauses && k != i ==> #[trigger] grid_rows(formula)[k] == before[k],
                        forall|m: int| 0 <= m < j ==> #[trigger] variable_of(grid_rows(formula)[i as int][m] as int) == variables@[m] + 1,
                        forall|m: int| 0 <= m < j ==> #[trigger] grid_rows(formula)[i as int][m] == clause[m],
                    decreases num_literals - j,
                {
                    let sign_draw = rng.random_range_inclusive(0, 1);
                    let literal = literal_from_sample(variables[j], sign_draw);
                    formula.set(i, j, literal);
                    assert(requests[j + 1] == (0int, 0int, 1int));
                    assert(rng.history() =~= history + requests.take(j + 2));
                    j = j + 1;
                }
                proof {
                    let row = grid_rows(formula)[i as int];
                    assert forall|m: int, n: int| 0 <= m < n < row.len() implies variable_of(row[m] as int) != variable_of(row[n] as int) by {
                        assert(variable_of(row[m] as int) == variables@[m] + 1);
                        assert(variable_of(row[n] as int) == variables@[n] + 1);
                    }
                    assert(distinct_clause(row, num_variables as int));
                    assert(row =~= clause);
                    assert(requests.take(num_literals + 1) =~= requests);
                }
            } else {
                let mut j: usize = 0;
                while j < num_literals
                    invariant
                        i < num_clauses,
                        j <= num_literals,
                        nv == num_variables,
                        nl == num_literals,
                        !are_distinct,
                        requests == clause_requests(nv, nl, are_distinct),
                        clause == drawn_clause(alg, seed, history, nv, nl, are_distinct),
                        rng.algorithm() == alg,
                        rng.seed() == seed,
                        rng.history() == history + requests.take(j as int),
                        num_literals * 2 <= i32::MAX,
                        grid_rows(formula).len() == num_clauses,
                        forall|k: int| 0 <= k < num_clauses ==> #[trigger] grid_rows(formula)[k].len() == num_literals,
                        forall|k: int| 0 <= k < num_clauses && k != i ==> #[trigger] grid_rows(formula)[k] == before[k],
                        forall|m: int| 0 <= m < j ==> 1 <= #[trigger] variable_of(grid_rows(formula)[i as int][m] as int) <= num_literals,
                        forall|m: int| 0 <= m < j ==> #[trigger] grid_rows(formula)[i as int][m] == clause[m],
                    decreases num_literals - j,
                {
                    let value = rng.random_range_inclusive(1, (num_literals as i32) * 2);
                    let literal = literal_from_draw(value);
                    formula.set(i, j, literal);
                    assert(requests[j as int] == (0int, 1int, 2 * nl));
                    assert(rng.history() =~= history + requests.take(j + 1));
                    j = j + 1;
                }
                proof {
                    assert(grid_rows(formula)[i as int] =~= clause);
                    assert(requests.take(num_literals as int) =~= requests);
                }
            }
            assert(rng.history() == requests_before(nv, nl, are_distinct, i + 1));
            i = i + 1;
        }
        assert(grid_rows(formula) =~= drawn_rows(alg, seed, nv, nl, num_clauses as int, are_distinct));
        Cnf { num_clauses, num_literals, num_variables, formula, seed }
    }

    /// The literal at `position` in clause `clause`.
    pub fn literal(&self, clause: usize, position: usize) -> (r: i32)
        requires
            self.wf(),
            clause < self.num_clauses,
            position < self.num_literals,
        ensures
            r == self.rows()[clause as int][position as int],
    {
        self.formula.get(clause, position)
    }

    /// A formula of the given clauses, each of `num_literals` literals.
    pub fn from_clauses(num_variables: usize, num_literals: usize, seed: u64, clauses: &Vec<Vec<i32>>) -> (r: Cnf)
        requires
            clauses@.len() <= isize::MAX,
            num_literals <= isize::MAX,
            clauses@.len() * num_literals * 4 <= isize::MAX,
            forall|i: int| 0 <= i < clauses@.len() ==> #[trigger] clauses@[i]@.len() == num_literals,
        ensures
            r.wf(),
            r.num_clauses == clauses@.len(),
            r.num_literals == num_literals,
            r.num_variables == num_variables,
            r.seed == seed,
            forall|i: int| 0 <= i < clauses@.len() ==> #[trigger] r.rows()[i] == clauses@[i]@,
    {
        let num_clauses = clauses.len();
        let mut formula = LiteralGrid::zeros(num_clauses, num_literals);
        let mut i: usize = 0;
        while i < num_clauses
            invariant
                i <= num_clauses == clauses@.len(),
                forall|k: int| 0 <= k < num_clauses ==> #[trigger] clauses@[k]@.len() == num_literals,
                grid_rows(formula).len() == num_clauses,
                forall|k: int| 0 <= k < num_clauses ==> #[trigger] grid_rows(formula)[k].len() == num_literals,
                forall|k: int| 0 <= k < i ==> #[trigger] grid_rows(formula)[k] == clauses@[k]@,
            decreases num_clauses - i,
        {
            let ghost before = grid_rows(formula);
            let mut j: usize = 0;
            while j < num_literals
                invariant
                    i < num_clauses == clauses@.len(),
                    j <= num_literals == clauses@[i as int]@.len(),
                    grid_rows(formula).len() == num_clauses,
                    forall|k: int| 0 <= k < num_clauses ==> #[trigger] grid_rows(formula)[k].len() == num_literals,
                    forall|k: int| 0 <= k < num_clauses && k != i ==> #[trigger] grid_rows(formula)[k] == before[k],
                    forall|m: int| 0 <= m < j ==> #[trigger] grid_rows(formula)[i as int][m] == clauses@[i as int]@[m],
                decreases num_literals - j,
            {
                formula.set(i, j, clauses[i][j]);
                j = j + 1;
            }
            assert(grid_rows(formula)[i as int] =~= clauses@[i as int]@);
            i = i + 1;
        }
        Cnf { num_clauses, num_literals, num_variables, formula, seed }
    }

    /// The formula in DIMACS CNF: `p cnf <variables> <clauses>`, then for each clause
    /// its literals, each followed by a space, and a closing `0` on its line.
    pub fn to_dimacs_string(&self) -> (r: String)
        requires
            self.wf(),
        ensures
            r@ == dimacs_text(self.num_variables as nat, self.num_clauses as nat, self.rows()),
    {
        let mut s = String::new();
        proof {
            reveal_strlit("p cnf ");
            reveal_strlit(" ");
            reveal_strlit("\n");
            reveal_strlit("0\n");
        }
        s.append("p cnf ");
        push_decimal(&mut s, self.num_variables as u64);
        s.append(" ");
        push_decimal(&mut s, self.num_clauses as u64);
        s.append("\n");
        let ghost head = s@;
        assert(head =~= seq!['p', ' ', 'c', 'n', 'f', ' '] + decimal(self.num_variables as nat)
            + seq![' '] + decimal(self.num_clauses as nat) + seq!['\n']);
        let mut i: usize = 0;
        while i < self.num_clauses
            invariant
                self.wf(),
                i <= self.num_clauses,
                s@ == head + clauses_text(self.rows().take(i as int)),
            decreases self.num_clauses - i,
        {
            let ghost row = self.rows()[i as int];
            let ghost start = s@;
            let mut j: usize = 0;
            while j < self.num_literals
                invariant
                    self.wf(),
                    i < self.num_clauses,
                    row == self.rows()[i as int],
                    j <= self.num_literals,
                    s@ == start + literals_text(row.take(j as int)),
                decreases self.num_literals - j,
            {
                proof {
                    reveal_strlit(" ");
                }
                push_signed_decimal(&mut s, self.formula.get(i, j) as i64);
                s.append(" ");
                assert(row.take(j + 1).drop_last() =~= row.take(j as int));
                assert(literals_text(row.take(j + 1)) == literals_text(row.take(j as int))
                    + signed_decimal(row[j as int] as int) + seq![' ']);
                j = j + 1;
            }
            proof {
                reveal_strlit("0\n");
            }
            s.append("0\n");
            assert(row.take(self.num_literals as int) =~= row);
            assert(self.rows().take(i + 1).drop_last() =~= self.rows().take(i as int));
            assert(clauses_text(self.rows().take(i + 1)) == clauses_text(self.rows().take(i as int))
                + literals_text(row) + seq!['0', '\n']);
            i = i + 1;
        }
        assert(self.rows().take(self.num_clauses as int) =~= self.rows());
        s
    }
}

} // verus!
