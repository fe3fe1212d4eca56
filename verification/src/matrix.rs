//! The constraint matrices and the builder that fills them.
//!
//! The coefficients of the two matrices A and B come as one stream of
//! entries, each naming its matrix, its constraint (the row) and its
//! signal (the column). The builder holds one row per point of the
//! evaluation domain and appends each entry to its row. When the stream
//! is done, the rows that pin the public inputs, which the compiler put
//! last, are cut off: the prover adds them again by itself.

use crate::error::Detail;
use crate::field::Fr;
use vstd::prelude::*;

verus! {

/// One entry of the coefficient stream.
#[derive(Clone, Copy, Debug, PartialEq, Eq, Hash)]
pub struct Coefficient {
    /// 0 for the matrix A, 1 for B.
    pub matrix: u32,
    /// The row.
    pub constraint: u32,
    /// The column.
    pub signal: u32,
    pub value: Fr,
}

/// The two sparse matrices of a circuit, with its shape. The third matrix
/// is not stored in the source format and stays empty.
#[derive(Clone, Debug, PartialEq, Eq)]
pub struct ConstraintMatrices {
    pub num_instance_variables: usize,
    pub num_witness_variables: usize,
    pub num_constraints: usize,
    pub a_num_non_zero: usize,
    pub b_num_non_zero: usize,
    pub c_num_non_zero: usize,
    pub a: Vec<Vec<(Fr, usize)>>,
    pub b: Vec<Vec<(Fr, usize)>>,
    pub c: Vec<Vec<(Fr, usize)>>,
}

/// A sparse matrix as a value: its rows in order, each the entries of the
/// row in the order of the stream, as coefficient and column.
pub type Matrix = Seq<Seq<(Fr, usize)>>;

/// The constraint matrices as a value.
pub struct ConstraintSystem {
    pub num_instance_variables: usize,
    pub num_witness_variables: usize,
    pub num_constraints: usize,
    pub a_num_non_zero: usize,
    pub b_num_non_zero: usize,
    pub c_num_non_zero: usize,
    pub a: Matrix,
    pub b: Matrix,
    pub c: Matrix,
}

/// The rows of a matrix as values.
pub open spec fn matrix_view(rows: Seq<Vec<(Fr, usize)>>) -> Matrix {
    Seq::new(rows.len(), |i: int| rows[i]@)
}

impl View for ConstraintMatrices {
    type V = ConstraintSystem;

    open spec fn view(&self) -> ConstraintSystem {
        ConstraintSystem {
            num_instance_variables: self.num_instance_variables,
            num_witness_variables: self.num_witness_variables,
            num_constraints: self.num_constraints,
            a_num_non_zero: self.a_num_non_zero,
            b_num_non_zero: self.b_num_non_zero,
            c_num_non_zero: self.c_num_non_zero,
            a: matrix_view(self.a@),
            b: matrix_view(self.b@),
            c: matrix_view(self.c@),
        }
    }
}

/// The number of entries of a matrix.
pub open spec fn total_len(m: Matrix) -> nat
    decreases m.len(),
{
    if m.len() == 0 {
        0
    } else {
        total_len(m.drop_last()) + m.last().len()
    }
}

impl ConstraintSystem {
    /// Whether the counts are those of the rows: both matrices have one
    /// row per constraint, the third has none, and each count of entries
    /// is the number of entries held.
    pub open spec fn well_formed(self) -> bool {
        &&& self.a.len() == self.num_constraints
        &&& self.b.len() == self.num_constraints
        &&& self.c.len() == 0
        &&& self.a_num_non_zero == total_len(self.a)
        &&& self.b_num_non_zero == total_len(self.b)
        &&& self.c_num_non_zero == 0
    }
}

/// The entries of one row of one matrix, in the order of the stream.
pub open spec fn spec_row(entries: Seq<Coefficient>, matrix: u32, row: int) -> Seq<(Fr, usize)> {
    entries.filter(|e: Coefficient| e.matrix == matrix && e.constraint == row).map_values(
        |e: Coefficient| (e.value, e.signal as usize),
    )
}

/// The first `rows` rows of one matrix.
pub open spec fn spec_matrix(entries: Seq<Coefficient>, matrix: u32, rows: nat) -> Matrix {
    Seq::new(rows, |i: int| spec_row(entries, matrix, i))
}

/// The highest constraint index of the stream; 0 for an empty one.
pub open spec fn max_constraint(entries: Seq<Coefficient>) -> u32
    decreases entries.len(),
{
    if entries.len() == 0 {
        0
    } else {
        let rest = max_constraint(entries.drop_last());
        if entries.last().constraint > rest {
            entries.last().constraint
        } else {
            rest
        }
    }
}

/// Why a builder with `rows` rows refuses an entry, if it does.
pub open spec fn spec_rejects(c: Coefficient, rows: nat) -> Option<Detail> {
    if c.matrix > 1 {
        Some(Detail::BadSelector(c.matrix))
    } else if c.constraint >= rows {
        Some(Detail::ConstraintOutOfRange(c.constraint))
    } else {
        None
    }
}

/// What a builder holds.
pub struct BuilderState {
    pub a: Matrix,
    pub b: Matrix,
    pub max_constraint: u32,
}

impl BuilderState {
    /// The number of rows that the builder was made with.
    pub open spec fn rows(self) -> nat {
        self.a.len()
    }

    /// What a new builder with `rows` rows holds: empty rows.
    pub open spec fn empty(rows: nat) -> BuilderState {
        BuilderState {
            a: Seq::new(rows, |i: int| Seq::<(Fr, usize)>::empty()),
            b: Seq::new(rows, |i: int| Seq::<(Fr, usize)>::empty()),
            max_constraint: 0,
        }
    }

    /// What a builder with `rows` rows holds after the entries of a
    /// stream.
    #[verifier::opaque]
    pub open spec fn after(entries: Seq<Coefficient>, rows: nat) -> BuilderState {
        BuilderState {
            a: spec_matrix(entries, 0, rows),
            b: spec_matrix(entries, 1, rows),
            max_constraint: max_constraint(entries),
        }
    }

    /// Why the builder refuses an entry, if it does.
    pub open spec fn rejection(self, c: Coefficient) -> Option<Detail> {
        spec_rejects(c, self.rows())
    }

    /// The state with an entry appended to its row.
    pub open spec fn with(self, c: Coefficient) -> BuilderState {
        let row = c.constraint as int;
        let item = (c.value, c.signal as usize);
        BuilderState {
            a: if c.matrix == 0 {
                self.a.update(row, self.a[row].push(item))
            } else {
                self.a
            },
            b: if c.matrix == 0 {
                self.b
            } else {
                self.b.update(row, self.b[row].push(item))
            },
            max_constraint: if c.constraint > self.max_constraint {
                c.constraint
            } else {
                self.max_constraint
            },
        }
    }

    /// What `MatrixBuilder::finish` returns.
    ///
    /// The number of constraints is the highest constraint index less the
    /// number of public inputs, and both matrices are cut to that many
    /// rows.
    pub open spec fn finish(self, n_vars: usize, n_public: usize) -> Result<
        ConstraintSystem,
        Detail,
    > {
        let n = self.max_constraint - n_public;
        if self.max_constraint < n_public {
            Err(Detail::TooFewConstraints)
        } else if n_vars < n_public {
            Err(Detail::TooManyPublic)
        } else if total_len(self.a.take(n)) > usize::MAX || total_len(self.b.take(n))
            > usize::MAX {
            Err(Detail::TooLarge)
        } else {
            Ok(
                ConstraintSystem {
                    num_instance_variables: (n_public + 1) as usize,
                    num_witness_variables: (n_vars - n_public) as usize,
                    num_constraints: n as usize,
                    a_num_non_zero: total_len(self.a.take(n)) as usize,
                    b_num_non_zero: total_len(self.b.take(n)) as usize,
                    c_num_non_zero: 0,
                    a: self.a.take(n),
                    b: self.b.take(n),
                    c: Seq::empty(),
                },
            )
        }
    }
}

/// The highest constraint index of a stream is that of one of its
/// entries and is not below that of any.
pub proof fn lemma_max_constraint_is_highest(entries: Seq<Coefficient>)
    ensures
        forall|j: int|
            0 <= j < entries.len() ==> (#[trigger] entries[j]).constraint <= max_constraint(
                entries,
            ),
        entries.len() > 0 ==> exists|j: int|
            0 <= j < entries.len() && (#[trigger] entries[j]).constraint == max_constraint(
                entries,
            ),
        entries.len() == 0 ==> max_constraint(entries) == 0,
    decreases entries.len(),
{
    if entries.len() > 0 {
        let front = entries.drop_last();
        lemma_max_constraint_is_highest(front);
        assert forall|j: int| 0 <= j < entries.len() implies (
        #[trigger] entries[j]).constraint <= max_constraint(entries) by {
            if j < front.len() {
                assert(front[j] == entries[j]);
            }
        }
        if entries.last().constraint > max_constraint(front) || front.len() == 0 {
            assert(entries[entries.len() - 1].constraint == max_constraint(entries));
        } else {
            let j = choose|j: int|
                0 <= j < front.len() && (#[trigger] front[j]).constraint == max_constraint(front);
            assert(entries[j] == front[j]);
        }
    }
}

/// A row holds no more entries than the stream.
pub proof fn lemma_row_len(entries: Seq<Coefficient>, matrix: u32, row: int)
    ensures
        spec_row(entries, matrix, row).len() <= entries.len(),
{
    entries.lemma_filter_len(|e: Coefficient| e.matrix == matrix && e.constraint == row);
}

/// Appending an entry to a stream appends it to its row and leaves the
/// other rows as they were.
pub proof fn lemma_row_push(entries: Seq<Coefficient>, c: Coefficient, matrix: u32, row: int)
    ensures
        spec_row(entries.push(c), matrix, row) == if c.matrix == matrix && c.constraint == row {
            spec_row(entries, matrix, row).push((c.value, c.signal as usize))
        } else {
            spec_row(entries, matrix, row)
        },
{
    let pred = |e: Coefficient| e.matrix == matrix && e.constraint == row;
    reveal_with_fuel(Seq::filter, 2);
    assert(entries.push(c).drop_last() =~= entries);
    assert(entries.push(c).last() == c);
    if pred(c) {
        assert(entries.push(c).filter(pred) == entries.filter(pred).push(c));
        assert(spec_row(entries.push(c), matrix, row) =~= spec_row(entries, matrix, row).push(
            (c.value, c.signal as usize),
        ));
    } else {
        assert(entries.push(c).filter(pred) == entries.filter(pred));
    }
}

/// A builder that takes an entry it does not refuse holds what it would
/// hold after the longer stream.
pub proof fn lemma_after_push(entries: Seq<Coefficient>, c: Coefficient, rows: nat)
    requires
        spec_rejects(c, rows) is None,
    ensures
        BuilderState::after(entries, rows).with(c) == BuilderState::after(entries.push(c), rows),
        BuilderState::after(entries, rows).rows() == rows,
{
    reveal(BuilderState::after);
    let before = BuilderState::after(entries, rows);
    let after = BuilderState::after(entries.push(c), rows);
    assert(entries.push(c).drop_last() =~= entries);
    assert forall|i: int| 0 <= i < rows implies #[trigger] before.with(c).a[i] == after.a[i] by {
        lemma_row_push(entries, c, 0, i);
    }
    assert forall|i: int| 0 <= i < rows implies #[trigger] before.with(c).b[i] == after.b[i] by {
        lemma_row_push(entries, c, 1, i);
    }
    assert(before.with(c).a =~= after.a);
    assert(before.with(c).b =~= after.b);
}

/// A matrix of empty rows has no entries.
pub proof fn lemma_total_len_empty(rows: nat)
    ensures
        total_len(Seq::new(rows, |i: int| Seq::<(Fr, usize)>::empty())) == 0,
    decreases rows,
{
    let m = Seq::new(rows, |i: int| Seq::<(Fr, usize)>::empty());
    if rows > 0 {
        assert(m.drop_last() =~= Seq::new(
            (rows - 1) as nat,
            |i: int| Seq::<(Fr, usize)>::empty(),
        ));
        lemma_total_len_empty((rows - 1) as nat);
    }
}

/// A matrix of which one row takes one entry more has one entry more.
pub proof fn lemma_total_len_grows(m: Matrix, row: int, item: (Fr, usize))
    requires
        0 <= row < m.len(),
    ensures
        total_len(m.update(row, m[row].push(item))) == total_len(m) + 1,
    decreases m.len(),
{
    let grown = m.update(row, m[row].push(item));
    if row == m.len() - 1 {
        assert(grown.drop_last() =~= m.drop_last());
    } else {
        let front = m.drop_last();
        assert(grown.drop_last() =~= front.update(row, front[row].push(item)));
        lemma_total_len_grows(front, row, item);
    }
}

/// The two matrices of a builder hold, between them, one entry for each
/// entry of a stream of which the builder refuses none.
pub proof fn lemma_after_counts(entries: Seq<Coefficient>, rows: nat)
    requires
        forall|j: int| 0 <= j < entries.len() ==> spec_rejects(#[trigger] entries[j], rows) is None,
    ensures
        total_len(BuilderState::after(entries, rows).a) + total_len(
            BuilderState::after(entries, rows).b,
        ) == entries.len(),
    decreases entries.len(),
{
    reveal(BuilderState::after);
    if entries.len() == 0 {
        reveal_with_fuel(Seq::filter, 1);
        let state = BuilderState::after(entries, rows);
        assert forall|i: int| 0 <= i < rows implies #[trigger] spec_row(entries, 0, i)
            =~= Seq::<(Fr, usize)>::empty() by {}
        assert forall|i: int| 0 <= i < rows implies #[trigger] spec_row(entries, 1, i)
            =~= Seq::<(Fr, usize)>::empty() by {}
        assert(state.a =~= Seq::new(rows, |i: int| Seq::<(Fr, usize)>::empty()));
        assert(state.b =~= Seq::new(rows, |i: int| Seq::<(Fr, usize)>::empty()));
        lemma_total_len_empty(rows);
    } else {
        let front = entries.drop_last();
        let c = entries.last();
        assert(front.push(c) =~= entries);
        assert forall|j: int| 0 <= j < front.len() implies spec_rejects(
            #[trigger] front[j],
            rows,
        ) is None by {
            assert(front[j] == entries[j]);
        }
        lemma_after_counts(front, rows);
        lemma_after_push(front, c, rows);
        let before = BuilderState::after(front, rows);
        if c.matrix == 0 {
            lemma_total_len_grows(before.a, c.constraint as int, (c.value, c.signal as usize));
        } else {
            lemma_total_len_grows(before.b, c.constraint as int, (c.value, c.signal as usize));
        }
    }
}

/// Fills the two matrices from a stream of entries.
pub struct MatrixBuilder {
    a: Vec<Vec<(Fr, usize)>>,
    b: Vec<Vec<(Fr, usize)>>,
    max_constraint: u32,
}

impl View for MatrixBuilder {
    type V = BuilderState;

    closed spec fn view(&self) -> BuilderState {
        BuilderState {
            a: matrix_view(self.a@),
            b: matrix_view(self.b@),
            max_constraint: self.max_constraint,
        }
    }
}

/// A vector of `rows` empty rows.
fn empty_rows(rows: usize) -> (m: Vec<Vec<(Fr, usize)>>)
    ensures
        matrix_view(m@) == Seq::new(rows as nat, |i: int| Seq::<(Fr, usize)>::empty()),
{
    let mut m: Vec<Vec<(Fr, usize)>> = Vec::new();
    let mut i: usize = 0;
    while i < rows
        invariant
            i <= rows,
            m@.len() == i,
            forall|j: int| 0 <= j < i ==> (#[trigger] m@[j])@ == Seq::<(Fr, usize)>::empty(),
        decreases rows - i,
    {
        m.push(Vec::new());
        i += 1;
    }
    assert(matrix_view(m@) =~= Seq::new(rows as nat, |i: int| Seq::<(Fr, usize)>::empty()));
    m
}

/// Cuts a matrix to its first `n` rows and counts the entries that stay.
fn cut_rows(m: &mut Vec<Vec<(Fr, usize)>>, n: usize) -> (count: Option<usize>)
    requires
        n <= old(m)@.len(),
    ensures
        matrix_view(final(m)@) == matrix_view(old(m)@).take(n as int),
        match count {
            Some(k) => k == total_len(matrix_view(final(m)@)),
            None => total_len(matrix_view(final(m)@)) > usize::MAX,
        },
{
    m.truncate(n);
    assert(matrix_view(m@) =~= matrix_view(old(m)@).take(n as int));
    let mut count: usize = 0;
    let mut i: usize = 0;
    while i < n
        invariant
            i <= n,
            n == m@.len(),
            matrix_view(m@) == matrix_view(old(m)@).take(n as int),
            count == total_len(matrix_view(m@).take(i as int)),
        decreases n - i,
    {
        assert(matrix_view(m@).take(i + 1).drop_last() =~= matrix_view(m@).take(i as int));
        let row_len: usize = m[i].len();
        if row_len > usize::MAX - count {
            proof {
                lemma_total_len_take(matrix_view(m@), i + 1);
            }
            return None;
        }
        count = count + row_len;
        i += 1;
    }
    assert(matrix_view(m@).take(n as int) =~= matrix_view(m@));
    Some(count)
}

/// A matrix has at least as many entries as any of its prefixes.
pub proof fn lemma_total_len_take(m: Matrix, n: int)
    requires
        0 <= n <= m.len(),
    ensures
        total_len(m.take(n)) <= total_len(m),
    decreases m.len() - n,
{
    if n < m.len() {
        assert(m.take(n + 1).drop_last() =~= m.take(n));
        lemma_total_len_take(m, n + 1);
    } else {
        assert(m.take(n) =~= m);
    }
}

impl MatrixBuilder {
    /// Whether the builder has as many rows for B as for A, and has seen
    /// no constraint index beyond them. Every builder that `new` returned
    /// is so, after any calls of `push`.
    pub closed spec fn well_formed(&self) -> bool {
        &&& self.a@.len() == self.b@.len()
        &&& self.max_constraint == 0 || self.max_constraint < self.a@.len()
    }

    /// A builder with `rows` empty rows for each matrix.
    pub fn new(rows: usize) -> (builder: MatrixBuilder)
        ensures
            builder.well_formed(),
            builder@ == BuilderState::empty(rows as nat),
            builder@ == BuilderState::after(Seq::empty(), rows as nat),
    {
        let builder = MatrixBuilder { a: empty_rows(rows), b: empty_rows(rows), max_constraint: 0 };
        proof {
            let entries = Seq::<Coefficient>::empty();
            reveal(BuilderState::after);
            reveal_with_fuel(Seq::filter, 1);
            assert forall|i: int| 0 <= i < rows implies #[trigger] spec_row(entries, 0, i)
                =~= Seq::<(Fr, usize)>::empty() by {}
            assert forall|i: int| 0 <= i < rows implies #[trigger] spec_row(entries, 1, i)
                =~= Seq::<(Fr, usize)>::empty() by {}
            assert(builder@.a =~= spec_matrix(entries, 0, rows as nat));
            assert(builder@.b =~= spec_matrix(entries, 1, rows as nat));
            assert(builder@.a =~= BuilderState::empty(rows as nat).a);
            assert(builder@.b =~= BuilderState::empty(rows as nat).b);
        }
        builder
    }

    /// Appends an entry to its row.
    ///
    /// Refuses, and changes nothing, where the entry names a matrix other
    /// than A and B, or a row that the builder does not have.
    pub fn push(&mut self, c: Coefficient) -> (r: Result<(), Detail>)
        requires
            old(self).well_formed(),
        ensures
            final(self).well_formed(),
            match old(self)@.rejection(c) {
                Some(detail) => r == Err::<(), Detail>(detail) && final(self)@ == old(self)@,
                None => r is Ok && final(self)@ == old(self)@.with(c),
            },
    {
        if c.matrix > 1 {
            return Err(Detail::BadSelector(c.matrix));
        }
        let row: usize = c.constraint as usize;
        if row >= self.a.len() {
            return Err(Detail::ConstraintOutOfRange(c.constraint));
        }
        if c.matrix == 0 {
            self.a[row].push((c.value, c.signal as usize));
        } else {
            self.b[row].push((c.value, c.signal as usize));
        }
        if c.constraint > self.max_constraint {
            self.max_constraint = c.constraint;
        }
        assert(self@.a =~= old(self)@.with(c).a);
        assert(self@.b =~= old(self)@.with(c).b);
        Ok(())
    }

    /// Cuts both matrices to the constraints proper and hands them out
    /// with the shape of the circuit.
    ///
    /// The number of constraints is the highest constraint index seen
    /// less `n_public`. Refuses where that index is below `n_public`,
    /// where `n_public` exceeds `n_vars`, and where a count of entries
    /// does not fit a `usize`.
    pub fn finish(self, n_vars: usize, n_public: usize) -> (r: Result<ConstraintMatrices, Detail>)
        requires
            self.well_formed(),
        ensures
            match r {
                Ok(m) => self@.finish(n_vars, n_public) == Ok::<ConstraintSystem, Detail>(m@)
                    && m@.well_formed(),
                Err(e) => self@.finish(n_vars, n_public) == Err::<ConstraintSystem, Detail>(e),
            },
    {
        let max: usize = self.max_constraint as usize;
        if max < n_public {
            return Err(Detail::TooFewConstraints);
        }
        if n_vars < n_public {
            return Err(Detail::TooManyPublic);
        }
        let num_constraints: usize = max - n_public;
        let mut a = self.a;
        let mut b = self.b;
        assert(num_constraints <= a.len());
        let a_num_non_zero: usize = match cut_rows(&mut a, num_constraints) {
            Some(k) => k,
            None => { return Err(Detail::TooLarge); },
        };
        let b_num_non_zero: usize = match cut_rows(&mut b, num_constraints) {
            Some(k) => k,
            None => { return Err(Detail::TooLarge); },
        };
        let c: Vec<Vec<(Fr, usize)>> = Vec::new();
        assert(matrix_view(c@) =~= Seq::empty());
        Ok(
            ConstraintMatrices {
                num_instance_variables: n_public + 1,
                num_witness_variables: n_vars - n_public,
                num_constraints,
                a_num_non_zero,
                b_num_non_zero,
                c_num_non_zero: 0,
                a,
                b,
                c,
            },
        )
    }
}

} // verus!
