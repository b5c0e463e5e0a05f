//! Reading DIMACS CNF text back, in spec, and the law that the text that
//! `Cnf::to_dimacs_string` writes reads back to the formula.

use vstd::prelude::*;
use crate::cnf::{clauses_text, dimacs_text, literals_text};
use crate::text::{decimal, digit_char, signed_decimal};

verus! {

/// The value of a decimal digit character.
pub open spec fn digit_value(c: char) -> int {
    c as int - 48
}

/// The number that a run of decimal digits spells.
pub open spec fn digits_value(s: Seq<char>) -> int
    decreases s.len(),
{
    if s.len() == 0 {
        0
    } else {
        10 * digits_value(s.drop_last()) + digit_value(s.last())
    }
}

/// The integer that a decimal text spells, negative where it starts with a minus sign.
pub open spec fn signed_value(s: Seq<char>) -> int {
    if s.len() > 0 && s[0] == '-' {
        -digits_value(s.drop_first())
    } else {
        digits_value(s)
    }
}

/// Where the text after the last `c` in `s` starts (0 where `s` holds no `c`).
pub open spec fn after_last(s: Seq<char>, c: char) -> int
    decreases s.len(),
{
    if s.len() == 0 {
        0
    } else if s.last() == c {
        s.len() as int
    } else {
        after_last(s.drop_last(), c)
    }
}

/// Where the first `c` in `s` stands (`s.len()` where there is none).
pub open spec fn first_index(s: Seq<char>, c: char) -> int
    decreases s.len(),
{
    if s.len() == 0 {
        0
    } else if s[0] == c {
        0
    } else {
        1 + first_index(s.drop_first(), c)
    }
}

/// The literals of the body of a clause line, `l1 l2 ... lk ` (each literal followed
/// by a space), read from its end.
pub open spec fn read_literals(s: Seq<char>) -> Seq<int>
    decreases s.len(),
{
    if s.len() == 0 {
        Seq::empty()
    } else {
        let body = s.drop_last();
        let k = after_last(body, ' ');
        if 0 <= k <= body.len() {
            read_literals(body.take(k)).push(signed_value(body.skip(k)))
        } else {
            Seq::empty()
        }
    }
}

/// The clauses of the clause lines of a DIMACS text, each line its literals and a
/// closing `0`, read from the end: per line, the integers before the closing `0`.
pub open spec fn read_clauses(s: Seq<char>) -> Seq<Seq<int>>
    decreases s.len(),
{
    if s.len() < 2 {
        Seq::empty()
    } else {
        let body = s.take(s.len() - 2);
        let k = after_last(body, '\n');
        if 0 <= k <= body.len() {
            read_clauses(body.take(k)).push(read_literals(body.skip(k)))
        } else {
            Seq::empty()
        }
    }
}

/// What a DIMACS text reads as: the numbers of variables and of clauses in its
/// header line `p cnf <variables> <clauses>`, and the clauses of the lines after it.
pub open spec fn read_dimacs(t: Seq<char>) -> (int, int, Seq<Seq<int>>) {
    let line_end = first_index(t, '\n');
    let fields = t.take(line_end).skip(6);
    let gap = first_index(fields, ' ');
    (digits_value(fields.take(gap)), digits_value(fields.skip(gap + 1)), read_clauses(t.skip(line_end + 1)))
}

/// The literals of a row, as integers.
pub open spec fn int_row(row: Seq<i32>) -> Seq<int> {
    row.map_values(|v: i32| v as int)
}

/// The literals of the rows, as integers.
pub open spec fn int_rows(rows: Seq<Seq<i32>>) -> Seq<Seq<int>> {
    rows.map_values(|r: Seq<i32>| int_row(r))
}

/// Whether `s` holds no `c`.
pub open spec fn lacks(s: Seq<char>, c: char) -> bool {
    forall|i: int| 0 <= i < s.len() ==> #[trigger] s[i] != c
}

proof fn lemma_decimal(n: nat)
    ensures
        decimal(n).len() >= 1,
        digits_value(decimal(n)) == n,
        forall|i: int| 0 <= i < decimal(n).len() ==> '0' <= #[trigger] decimal(n)[i] <= '9',
    decreases n,
{
    assert(digit_char((n % 10) as int) as int == 48 + n % 10);
    if n < 10 {
        assert(decimal(n) =~= seq![digit_char(n as int)]);
        assert(decimal(n).drop_last() =~= Seq::<char>::empty());
        assert(digits_value(Seq::<char>::empty()) == 0);
        assert(decimal(n).last() == digit_char((n % 10) as int));
        assert(digit_value(decimal(n).last()) == n % 10);
        assert(n % 10 == n);
    } else {
        lemma_decimal(n / 10);
        assert(decimal(n).drop_last() =~= decimal(n / 10));
        assert(decimal(n).last() == digit_char((n % 10) as int));
        assert(digit_value(decimal(n).last()) == n % 10);
        assert(10 * (n / 10) + n % 10 == n);
    }
}

proof fn lemma_signed_decimal(x: int)
    ensures
        signed_value(signed_decimal(x)) == x,
        lacks(signed_decimal(x), ' '),
        lacks(signed_decimal(x), '\n'),
{
    if x < 0 {
        let d = decimal((-x) as nat);
        lemma_decimal((-x) as nat);
        assert((seq!['-'] + d).drop_first() =~= d);
        assert forall|i: int| 0 <= i < (seq!['-'] + d).len() implies #[trigger] (seq!['-'] + d)[i] != ' '
            && (seq!['-'] + d)[i] != '\n' by {
            if i > 0 {
                assert((seq!['-'] + d)[i] == d[i - 1]);
            }
        }
    } else {
        lemma_decimal(x as nat);
        assert(decimal(x as nat)[0] != '-');
    }
}

proof fn lemma_after_last(a: Seq<char>, b: Seq<char>, c: char)
    requires
        a.len() == 0 || a.last() == c,
        lacks(b, c),
    ensures
        after_last(a + b, c) == a.len(),
    decreases b.len(),
{
    if b.len() == 0 {
        assert(a + b =~= a);
    } else {
        assert((a + b).drop_last() =~= a + b.drop_last());
        assert((a + b).last() == b.last());
        lemma_after_last(a, b.drop_last(), c);
    }
}

proof fn lemma_first_index(a: Seq<char>, b: Seq<char>, c: char)
    requires
        lacks(a, c),
        b.len() > 0,
        b[0] == c,
    ensures
        first_index(a + b, c) == a.len(),
    decreases a.len(),
{
    if a.len() == 0 {
        assert(a + b =~= b);
    } else {
        assert((a + b).drop_first() =~= a.drop_first() + b);
        assert((a + b)[0] == a[0]);
        lemma_first_index(a.drop_first(), b, c);
    }
}

proof fn lemma_literals_text(row: Seq<i32>)
    ensures
        read_literals(literals_text(row)) == int_row(row),
        lacks(literals_text(row), '\n'),
        literals_text(row).len() == 0 || literals_text(row).last() == ' ',
    decreases row.len(),
{
    if row.len() > 0 {
        let prev = literals_text(row.drop_last());
        let lit = signed_decimal(row.last() as int);
        lemma_literals_text(row.drop_last());
        lemma_signed_decimal(row.last() as int);
        let s = literals_text(row);
        assert(s == prev + lit + seq![' ']);
        assert(s.drop_last() =~= prev + lit);
        lemma_after_last(prev, lit, ' ');
        assert((prev + lit).take(prev.len() as int) =~= prev);
        assert((prev + lit).skip(prev.len() as int) =~= lit);
        assert(int_row(row) =~= int_row(row.drop_last()).push(row.last() as int));
        assert forall|i: int| 0 <= i < s.len() implies #[trigger] s[i] != '\n' by {
            if i < prev.len() {
                assert(s[i] == prev[i]);
            } else if i < prev.len() + lit.len() {
                assert(s[i] == lit[i - prev.len()]);
            }
        }
    } else {
        assert(int_row(row) =~= Seq::<int>::empty());
    }
}

#[verifier::spinoff_prover]
proof fn lemma_clauses_text(rows: Seq<Seq<i32>>)
    ensures
        read_clauses(clauses_text(rows)) == int_rows(rows),
        clauses_text(rows).len() == 0 || clauses_text(rows).last() == '\n',
    decreases rows.len(),
{
    if rows.len() > 0 {
        let prev = clauses_text(rows.drop_last());
        let line = literals_text(rows.last());
        lemma_clauses_text(rows.drop_last());
        lemma_literals_text(rows.last());
        let s = clauses_text(rows);
        assert(s == prev + line + seq!['0', '\n']);
        assert(s.take(s.len() - 2) =~= prev + line);
        lemma_after_last(prev, line, '\n');
        assert((prev + line).take(prev.len() as int) =~= prev);
        assert((prev + line).skip(prev.len() as int) =~= line);
        let ir = int_rows(rows);
        let ip = int_rows(rows.drop_last()).push(int_row(rows.last()));
        assert forall|i: int| 0 <= i < ir.len() implies ir[i] == ip[i] by {
            if i < rows.len() - 1 {
                assert(rows.drop_last()[i] == rows[i]);
            }
        }
        assert(ir =~= ip);
    } else {
        assert(int_rows(rows) =~= Seq::<Seq<int>>::empty());
    }
}

/// The DIMACS text of a formula reads back to it: its header gives the numbers of
/// variables and clauses, and its lines, each read as the integers before the
/// closing `0`, give the rows in order.
pub proof fn lemma_dimacs_reads_back(num_variables: nat, num_clauses: nat, rows: Seq<Seq<i32>>)
    ensures
        read_dimacs(dimacs_text(num_variables, num_clauses, rows)) == (
            num_variables as int,
            num_clauses as int,
            int_rows(rows),
        ),
{
    let v = decimal(num_variables);
    let c = decimal(num_clauses);
    lemma_decimal(num_variables);
    lemma_decimal(num_clauses);
    lemma_clauses_text(rows);
    let head = seq!['p', ' ', 'c', 'n', 'f', ' '] + v + seq![' '] + c;
    let body = clauses_text(rows);
    let t = dimacs_text(num_variables, num_clauses, rows);
    assert(t =~= head + (seq!['\n'] + body));
    assert forall|i: int| 0 <= i < head.len() implies #[trigger] head[i] != '\n' by {
        if 6 <= i < 6 + v.len() {
            assert(head[i] == v[i - 6]);
        } else if 7 + v.len() <= i {
            assert(head[i] == c[i - 7 - v.len()]);
        }
    }
    lemma_first_index(head, seq!['\n'] + body, '\n');
    assert(t.take(head.len() as int) =~= head);
    assert(t.skip(head.len() as int + 1) =~= body);
    let fields = head.skip(6);
    assert(fields =~= v + (seq![' '] + c));
    assert forall|i: int| 0 <= i < v.len() implies #[trigger] v[i] != ' ' by {
        assert('0' <= v[i] <= '9');
    }
    lemma_first_index(v, seq![' '] + c, ' ');
    assert(fields.take(v.len() as int) =~= v);
    assert(fields.skip(v.len() as int + 1) =~= c);
}

} // verus!
