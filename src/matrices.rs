//! Sparse constraint matrices and their byte codec.
//!
//! The layout: matrix `a`, matrix `b`, matrix `c`, then the counters
//! `a_num_non_zero`, `b_num_non_zero`, `c_num_non_zero`,
//! `num_instance_variables`, `num_witness_variables` and `num_constraints`. A
//! matrix is its number of rows followed by the rows; a row is its number of
//! entries followed by the entries; an entry is the coefficient's 32 bytes
//! followed by the column. Counts, columns and counters take eight bytes, least
//! significant first.
use vstd::prelude::*;

use crate::scalar::{
    fr_accepts, fr_modulus, le_nat, lemma_le_bytes_len, lemma_u64_round_trip, read_scalar, read_u64,
    u64_bytes, write_u64, Scalar,
};

verus! {

/// One row of a sparse matrix: (coefficient, column) pairs.
pub type SparseRow = Vec<(Scalar, usize)>;

/// A sparse matrix, row by row.
pub type SparseMatrix = Vec<SparseRow>;

/// An entry as bytes of the coefficient and a column.
pub type EntryView = (Seq<u8>, usize);

/// A row as a sequence of entries.
pub type RowView = Seq<EntryView>;

/// A matrix as a sequence of rows.
pub type MatrixView = Seq<RowView>;

/// Whether the encoding is to compress curve points. Coefficients and counters
/// are written the same way in both modes.
#[derive(Debug, Clone, Copy, PartialEq, Eq, Structural)]
pub enum Compress {
    Yes,
    No,
}

/// Whether decoding is to check the values it reads beyond their framing.
#[derive(Debug, Clone, Copy, PartialEq, Eq, Structural)]
pub enum Validate {
    Yes,
    No,
}

/// Why bytes could not be decoded, or a value is not valid.
#[derive(Debug, Clone, Copy, PartialEq, Eq, Structural)]
pub enum SerializationError {
    /// The bytes end before the value does.
    UnexpectedEof,
    /// A coefficient is not below the scalar field's order.
    InvalidData,
}

pub open spec fn entry_view(e: (Scalar, usize)) -> EntryView {
    (e.0.bytes@, e.1)
}

pub open spec fn row_view(r: SparseRow) -> RowView {
    r@.map_values(|e: (Scalar, usize)| entry_view(e))
}

pub open spec fn matrix_view(m: SparseMatrix) -> MatrixView {
    m@.map_values(|r: SparseRow| row_view(r))
}

/// The matrices and counters as mathematical values.
pub struct MatricesView {
    pub a: MatrixView,
    pub b: MatrixView,
    pub c: MatrixView,
    pub a_num_non_zero: usize,
    pub b_num_non_zero: usize,
    pub c_num_non_zero: usize,
    pub num_instance_variables: usize,
    pub num_witness_variables: usize,
    pub num_constraints: usize,
}

/// A coefficient is the canonical encoding of a field element.
pub open spec fn coefficient_ok(b: Seq<u8>) -> bool {
    b.len() == 32 && le_nat(b) < fr_modulus()
}

/// Every coefficient is canonical, and every count fits in eight bytes.
pub open spec fn matrix_wf(m: MatrixView) -> bool {
    &&& m.len() <= u64::MAX
    &&& forall|i: int| 0 <= i < m.len() ==> #[trigger] m[i].len() <= u64::MAX
    &&& forall|i: int, j: int|
        0 <= i < m.len() && 0 <= j < m[i].len() ==> coefficient_ok(#[trigger] m[i][j].0)
}

impl MatricesView {
    pub open spec fn wf(&self) -> bool {
        matrix_wf(self.a) && matrix_wf(self.b) && matrix_wf(self.c)
    }
}

pub open spec fn entry_bytes(e: EntryView) -> Seq<u8> {
    e.0 + u64_bytes(e.1 as u64)
}

pub open spec fn entries_bytes(r: RowView) -> Seq<u8>
    decreases r.len(),
{
    if r.len() == 0 {
        Seq::empty()
    } else {
        entries_bytes(r.drop_last()) + entry_bytes(r.last())
    }
}

pub open spec fn row_bytes(r: RowView) -> Seq<u8> {
    u64_bytes(r.len() as u64) + entries_bytes(r)
}

pub open spec fn rows_bytes(m: MatrixView) -> Seq<u8>
    decreases m.len(),
{
    if m.len() == 0 {
        Seq::empty()
    } else {
        rows_bytes(m.drop_last()) + row_bytes(m.last())
    }
}

pub open spec fn matrix_bytes(m: MatrixView) -> Seq<u8> {
    u64_bytes(m.len() as u64) + rows_bytes(m)
}

pub open spec fn counters_bytes(v: MatricesView) -> Seq<u8> {
    u64_bytes(v.a_num_non_zero as u64) + u64_bytes(v.b_num_non_zero as u64) + u64_bytes(
        v.c_num_non_zero as u64,
    ) + u64_bytes(v.num_instance_variables as u64) + u64_bytes(v.num_witness_variables as u64)
        + u64_bytes(v.num_constraints as u64)
}

/// The bytes that stand for `v`.
pub open spec fn matrices_bytes(v: MatricesView) -> Seq<u8> {
    matrix_bytes(v.a) + matrix_bytes(v.b) + matrix_bytes(v.c) + counters_bytes(v)
}

/// The three matrices of a rank-1 constraint system with their counters.
#[derive(Debug, Clone, PartialEq, Eq)]
pub struct ConstraintMatrices {
    pub num_instance_variables: usize,
    pub num_witness_variables: usize,
    pub num_constraints: usize,
    pub a_num_non_zero: usize,
    pub b_num_non_zero: usize,
    pub c_num_non_zero: usize,
    pub a: SparseMatrix,
    pub b: SparseMatrix,
    pub c: SparseMatrix,
}

impl View for ConstraintMatrices {
    type V = MatricesView;

    open spec fn view(&self) -> MatricesView {
        MatricesView {
            a: matrix_view(self.a),
            b: matrix_view(self.b),
            c: matrix_view(self.c),
            a_num_non_zero: self.a_num_non_zero,
            b_num_non_zero: self.b_num_non_zero,
            c_num_non_zero: self.c_num_non_zero,
            num_instance_variables: self.num_instance_variables,
            num_witness_variables: self.num_witness_variables,
            num_constraints: self.num_constraints,
        }
    }
}


/// Reads eight bytes at `p` as a count or column.
pub open spec fn parse_u64(s: Seq<u8>, p: nat) -> Result<(u64, nat), SerializationError> {
    if p + 8 <= s.len() {
        Ok((le_nat(s.subrange(p as int, p + 8 as int)) as u64, (p + 8) as nat))
    } else {
        Err(SerializationError::UnexpectedEof)
    }
}

/// Reads 32 bytes at `p` as a coefficient.
pub open spec fn parse_coefficient(s: Seq<u8>, p: nat) -> Result<(Seq<u8>, nat), SerializationError> {
    if p + 32 <= s.len() {
        if le_nat(s.subrange(p as int, p + 32 as int)) < fr_modulus() {
            Ok((s.subrange(p as int, p + 32 as int), (p + 32) as nat))
        } else {
            Err(SerializationError::InvalidData)
        }
    } else {
        Err(SerializationError::UnexpectedEof)
    }
}

pub open spec fn parse_entry(s: Seq<u8>, p: nat) -> Result<(EntryView, nat), SerializationError> {
    match parse_coefficient(s, p) {
        Ok((b, q)) => match parse_u64(s, q) {
            Ok((col, q2)) => Ok(((b, col as usize), q2)),
            Err(e) => Err(e),
        },
        Err(e) => Err(e),
    }
}

/// Reads `k` entries from `p` on.
pub open spec fn parse_entries(s: Seq<u8>, p: nat, k: nat) -> Result<(RowView, nat), SerializationError>
    decreases k,
{
    if k == 0 {
        Ok((Seq::empty(), p))
    } else {
        match parse_entries(s, p, (k - 1) as nat) {
            Ok((es, q)) => match parse_entry(s, q) {
                Ok((e, q2)) => Ok((es.push(e), q2)),
                Err(err) => Err(err),
            },
            Err(err) => Err(err),
        }
    }
}

pub open spec fn parse_row(s: Seq<u8>, p: nat) -> Result<(RowView, nat), SerializationError> {
    match parse_u64(s, p) {
        Ok((n, q)) => parse_entries(s, q, n as nat),
        Err(e) => Err(e),
    }
}

/// Reads `k` rows from `p` on.
pub open spec fn parse_rows(s: Seq<u8>, p: nat, k: nat) -> Result<(MatrixView, nat), SerializationError>
    decreases k,
{
    if k == 0 {
        Ok((Seq::empty(), p))
    } else {
        match parse_rows(s, p, (k - 1) as nat) {
            Ok((rs, q)) => match parse_row(s, q) {
                Ok((r, q2)) => Ok((rs.push(r), q2)),
                Err(err) => Err(err),
            },
            Err(err) => Err(err),
        }
    }
}

pub open spec fn parse_matrix(s: Seq<u8>, p: nat) -> Result<(MatrixView, nat), SerializationError> {
    match parse_u64(s, p) {
        Ok((n, q)) => parse_rows(s, q, n as nat),
        Err(e) => Err(e),
    }
}

/// Reads the six counters from `p` on.
pub open spec fn parse_counters(s: Seq<u8>, p: nat) -> Result<(Seq<usize>, nat), SerializationError> {
    if p + 48 <= s.len() {
        Ok((
            Seq::new(6, |i: int| le_nat(s.subrange(p + 8 * i, p + 8 * i + 8)) as u64 as usize),
            p + 48,
        ))
    } else {
        Err(SerializationError::UnexpectedEof)
    }
}

/// What reading matrices and counters from the start of `s` gives, and where
/// it stops.
pub open spec fn parse_matrices(s: Seq<u8>) -> Result<(MatricesView, nat), SerializationError> {
    match parse_matrix(s, 0) {
        Ok((a, p1)) => match parse_matrix(s, p1) {
            Ok((b, p2)) => match parse_matrix(s, p2) {
                Ok((c, p3)) => match parse_counters(s, p3) {
                    Ok((k, p4)) => Ok(
                        (
                            MatricesView {
                                a,
                                b,
                                c,
                                a_num_non_zero: k[0],
                                b_num_non_zero: k[1],
                                c_num_non_zero: k[2],
                                num_instance_variables: k[3],
                                num_witness_variables: k[4],
                                num_constraints: k[5],
                            },
                            p4,
                        ),
                    ),
                    Err(e) => Err(e),
                },
                Err(e) => Err(e),
            },
            Err(e) => Err(e),
        },
        Err(e) => Err(e),
    }
}

/// A failure to read `k` items stays a failure for more items.
proof fn lemma_entries_err(s: Seq<u8>, p: nat, k: nat, n: nat)
    requires
        k <= n,
        parse_entries(s, p, k) is Err,
    ensures
        parse_entries(s, p, n) == parse_entries(s, p, k),
    decreases n,
{
    if k < n {
        lemma_entries_err(s, p, k, (n - 1) as nat);
    }
}

proof fn lemma_rows_err(s: Seq<u8>, p: nat, k: nat, n: nat)
    requires
        k <= n,
        parse_rows(s, p, k) is Err,
    ensures
        parse_rows(s, p, n) == parse_rows(s, p, k),
    decreases n,
{
    if k < n {
        lemma_rows_err(s, p, k, (n - 1) as nat);
    }
}

/// Parsing ends within the input.
proof fn lemma_entries_in_bounds(s: Seq<u8>, p: nat, k: nat)
    requires
        p <= s.len(),
    ensures
        parse_entries(s, p, k) is Ok ==> p <= parse_entries(s, p, k)->Ok_0.1 <= s.len(),
    decreases k,
{
    if k > 0 {
        lemma_entries_in_bounds(s, p, (k - 1) as nat);
    }
}

proof fn lemma_rows_in_bounds(s: Seq<u8>, p: nat, k: nat)
    requires
        p <= s.len(),
    ensures
        parse_rows(s, p, k) is Ok ==> p <= parse_rows(s, p, k)->Ok_0.1 <= s.len(),
    decreases k,
{
    if k > 0 {
        lemma_rows_in_bounds(s, p, (k - 1) as nat);
        if parse_rows(s, p, (k - 1) as nat) is Ok {
            let q = parse_rows(s, p, (k - 1) as nat)->Ok_0.1;
            if parse_u64(s, q) is Ok {
                lemma_entries_in_bounds(s, q + 8, parse_u64(s, q)->Ok_0.0 as nat);
            }
        }
    }
}


/// Every coefficient of `m` is canonical.
pub open spec fn coefficients_ok(m: MatrixView) -> bool {
    forall|i: int, j: int|
        0 <= i < m.len() && 0 <= j < m[i].len() ==> coefficient_ok(#[trigger] m[i][j].0)
}

proof fn lemma_entries_len_prefix(r: RowView, i: int)
    requires
        0 <= i <= r.len(),
    ensures
        entries_bytes(r.take(i)).len() <= entries_bytes(r).len(),
    decreases r.len(),
{
    if i < r.len() {
        assert(r.drop_last().take(i) =~= r.take(i));
        lemma_entries_len_prefix(r.drop_last(), i);
    } else {
        assert(r.take(i) =~= r);
    }
}

proof fn lemma_rows_len_prefix(m: MatrixView, i: int)
    requires
        0 <= i <= m.len(),
    ensures
        rows_bytes(m.take(i)).len() <= rows_bytes(m).len(),
    decreases m.len(),
{
    if i < m.len() {
        assert(m.drop_last().take(i) =~= m.take(i));
        lemma_rows_len_prefix(m.drop_last(), i);
    } else {
        assert(m.take(i) =~= m);
    }
}

fn row_size(r: &SparseRow) -> (n: usize)
    requires
        row_bytes(row_view(*r)).len() <= usize::MAX,
    ensures
        n == row_bytes(row_view(*r)).len(),
{
    let ghost rv = row_view(*r);
    proof {
        lemma_le_bytes_len(r@.len() as u64 as nat, 8);
    }
    let mut n: usize = 8;
    let mut i: usize = 0;
    while i < r.len()
        invariant
            i <= r@.len(),
            rv == row_view(*r),
            row_bytes(rv).len() <= usize::MAX,
            row_bytes(rv).len() == 8 + entries_bytes(rv).len(),
            n == 8 + entries_bytes(rv.take(i as int)).len(),
        decreases r@.len() - i,
    {
        proof {
            assert(rv.take(i + 1).drop_last() =~= rv.take(i as int));
            lemma_le_bytes_len(r@[i as int].1 as u64 as nat, 8);
            lemma_entries_len_prefix(rv, i + 1);
        }
        n = n + r[i].0.bytes.len() + 8;
        i = i + 1;
    }
    assert(rv.take(i as int) =~= rv);
    n
}

fn matrix_size(m: &SparseMatrix) -> (n: usize)
    requires
        matrix_bytes(matrix_view(*m)).len() <= usize::MAX,
    ensures
        n == matrix_bytes(matrix_view(*m)).len(),
{
    let ghost mv = matrix_view(*m);
    proof {
        lemma_le_bytes_len(m@.len() as u64 as nat, 8);
    }
    let mut n: usize = 8;
    let mut i: usize = 0;
    while i < m.len()
        invariant
            i <= m@.len(),
            mv == matrix_view(*m),
            matrix_bytes(mv).len() <= usize::MAX,
            matrix_bytes(mv).len() == 8 + rows_bytes(mv).len(),
            n == 8 + rows_bytes(mv.take(i as int)).len(),
        decreases m@.len() - i,
    {
        proof {
            assert(mv.take(i + 1).drop_last() =~= mv.take(i as int));
            lemma_rows_len_prefix(mv, i + 1);
        }
        n = n + row_size(&m[i]);
        i = i + 1;
    }
    assert(mv.take(i as int) =~= mv);
    n
}

fn matrix_check(m: &SparseMatrix) -> (r: bool)
    ensures
        r == coefficients_ok(matrix_view(*m)),
{
    let ghost mv = matrix_view(*m);
    let mut i: usize = 0;
    while i < m.len()
        invariant
            i <= m@.len(),
            mv == matrix_view(*m),
            forall|a: int, b: int|
                0 <= a < i && 0 <= b < mv[a].len() ==> coefficient_ok(#[trigger] mv[a][b].0),
        decreases m@.len() - i,
    {
        let row = &m[i];
        let mut j: usize = 0;
        while j < row.len()
            invariant
                i < m@.len(),
                j <= row@.len(),
                *row == m@[i as int],
                mv == matrix_view(*m),
                forall|a: int, b: int|
                    0 <= a < i && 0 <= b < mv[a].len() ==> coefficient_ok(#[trigger] mv[a][b].0),
                forall|b: int| 0 <= b < j ==> coefficient_ok(#[trigger] mv[i as int][b].0),
            decreases row@.len() - j,
        {
            let bytes = &row[j].0.bytes;
            if bytes.len() != 32 || !fr_accepts(bytes.as_slice()) {
                assert(!coefficient_ok(mv[i as int][j as int].0));
                return false;
            }
            j = j + 1;
        }
        i = i + 1;
    }
    true
}

fn write_entry(out: &mut Vec<u8>, e: &(Scalar, usize))
    ensures
        final(out)@ == old(out)@ + entry_bytes(entry_view(*e)),
{
    let bytes = &e.0.bytes;
    let mut i: usize = 0;
    while i < bytes.len()
        invariant
            i <= bytes@.len(),
            out@ == old(out)@ + bytes@.subrange(0, i as int),
        decreases bytes@.len() - i,
    {
        out.push(bytes[i]);
        assert(out@ =~= old(out)@ + bytes@.subrange(0, i + 1));
        i = i + 1;
    }
    assert(bytes@.subrange(0, i as int) =~= bytes@);
    write_u64(out, e.1 as u64);
    assert(out@ =~= old(out)@ + entry_bytes(entry_view(*e)));
}

fn write_row(out: &mut Vec<u8>, r: &SparseRow)
    ensures
        final(out)@ == old(out)@ + row_bytes(row_view(*r)),
{
    let ghost rv = row_view(*r);
    write_u64(out, r.len() as u64);
    let ghost start = out@;
    let mut i: usize = 0;
    while i < r.len()
        invariant
            i <= r@.len(),
            rv == row_view(*r),
            out@ == start + entries_bytes(rv.take(i as int)),
        decreases r@.len() - i,
    {
        write_entry(out, &r[i]);
        assert(rv.take(i + 1).drop_last() =~= rv.take(i as int));
        assert(out@ =~= start + entries_bytes(rv.take(i + 1)));
        i = i + 1;
    }
    assert(rv.take(i as int) =~= rv);
    assert(out@ =~= old(out)@ + row_bytes(rv));
}

fn write_matrix(out: &mut Vec<u8>, m: &SparseMatrix)
    ensures
        final(out)@ == old(out)@ + matrix_bytes(matrix_view(*m)),
{
    let ghost mv = matrix_view(*m);
    write_u64(out, m.len() as u64);
    let ghost start = out@;
    let mut i: usize = 0;
    while i < m.len()
        invariant
            i <= m@.len(),
            mv == matrix_view(*m),
            out@ == start + rows_bytes(mv.take(i as int)),
        decreases m@.len() - i,
    {
        write_row(out, &m[i]);
        assert(mv.take(i + 1).drop_last() =~= mv.take(i as int));
        assert(out@ =~= start + rows_bytes(mv.take(i + 1)));
        i = i + 1;
    }
    assert(mv.take(i as int) =~= mv);
    assert(out@ =~= old(out)@ + matrix_bytes(mv));
}


fn read_entry(s: &[u8], p: usize) -> (r: Result<((Scalar, usize), usize), SerializationError>)
    requires
        p <= s@.len(),
    ensures
        r is Ok <==> parse_entry(s@, p as nat) is Ok,
        r is Ok ==> entry_view(r->Ok_0.0) == parse_entry(s@, p as nat)->Ok_0.0
            && r->Ok_0.1 == parse_entry(s@, p as nat)->Ok_0.1,
        r is Err ==> r->Err_0 == parse_entry(s@, p as nat)->Err_0,
{
    let len = s.len();
    if len - p < 32 {
        return Err(SerializationError::UnexpectedEof);
    }
    let coefficient = match read_scalar(s, p) {
        Some(c) => c,
        None => return Err(SerializationError::InvalidData),
    };
    if len - p - 32 < 8 {
        return Err(SerializationError::UnexpectedEof);
    }
    let col = read_u64(s, p + 32);
    Ok(((coefficient, col as usize), p + 40))
}

fn read_row(s: &[u8], p: usize) -> (r: Result<(SparseRow, usize), SerializationError>)
    requires
        p <= s@.len(),
    ensures
        r is Ok <==> parse_row(s@, p as nat) is Ok,
        r is Ok ==> row_view(r->Ok_0.0) == parse_row(s@, p as nat)->Ok_0.0
            && r->Ok_0.1 == parse_row(s@, p as nat)->Ok_0.1,
        r is Err ==> r->Err_0 == parse_row(s@, p as nat)->Err_0,
{
    let len = s.len();
    if len - p < 8 {
        return Err(SerializationError::UnexpectedEof);
    }
    let n = read_u64(s, p);
    let ghost q: nat = (p + 8) as nat;
    let mut row: SparseRow = Vec::new();
    let mut pos: usize = p + 8;
    let mut i: u64 = 0;
    assert(row_view(row) =~= Seq::<EntryView>::empty());
    while i < n
        invariant
            s@.len() == len,
            q == p + 8,
            n as nat == le_nat(s@.subrange(p as int, p + 8)),
            p + 8 <= len,
            i <= n,
            pos <= len,
            parse_entries(s@, q, i as nat) == Ok::<(RowView, nat), SerializationError>(
                (row_view(row), pos as nat),
            ),
        decreases n - i,
    {
        match read_entry(s, pos) {
            Ok((e, next)) => {
                let ghost before = row;
                row.push(e);
                assert(row_view(row) =~= row_view(before).push(entry_view(e)));
                pos = next;
                proof {
                    lemma_entries_in_bounds(s@, q, (i + 1) as nat);
                }
            },
            Err(err) => {
                proof {
                    lemma_entries_err(s@, q, (i + 1) as nat, n as nat);
                }
                return Err(err);
            },
        }
        i = i + 1;
    }
    Ok((row, pos))
}

fn read_matrix(s: &[u8], p: usize) -> (r: Result<(SparseMatrix, usize), SerializationError>)
    requires
        p <= s@.len(),
    ensures
        r is Ok <==> parse_matrix(s@, p as nat) is Ok,
        r is Ok ==> matrix_view(r->Ok_0.0) == parse_matrix(s@, p as nat)->Ok_0.0
            && r->Ok_0.1 == parse_matrix(s@, p as nat)->Ok_0.1,
        r is Err ==> r->Err_0 == parse_matrix(s@, p as nat)->Err_0,
{
    let len = s.len();
    if len - p < 8 {
        return Err(SerializationError::UnexpectedEof);
    }
    let n = read_u64(s, p);
    let ghost q: nat = (p + 8) as nat;
    let mut m: SparseMatrix = Vec::new();
    let mut pos: usize = p + 8;
    let mut i: u64 = 0;
    assert(matrix_view(m) =~= Seq::<RowView>::empty());
    while i < n
        invariant
            s@.len() == len,
            q == p + 8,
            n as nat == le_nat(s@.subrange(p as int, p + 8)),
            p + 8 <= len,
            i <= n,
            pos <= len,
            parse_rows(s@, q, i as nat) == Ok::<(MatrixView, nat), SerializationError>(
                (matrix_view(m), pos as nat),
            ),
        decreases n - i,
    {
        match read_row(s, pos) {
            Ok((row, next)) => {
                let ghost before = m;
                m.push(row);
                assert(matrix_view(m) =~= matrix_view(before).push(row_view(row)));
                pos = next;
                proof {
                    lemma_rows_in_bounds(s@, q, (i + 1) as nat);
                }
            },
            Err(err) => {
                proof {
                    lemma_rows_err(s@, q, (i + 1) as nat, n as nat);
                }
                return Err(err);
            },
        }
        i = i + 1;
    }
    Ok((m, pos))
}

/// Constraint matrices together with their byte codec.
#[derive(Debug, Clone, PartialEq, Eq)]
pub struct ConstraintMatricesWrapper(pub ConstraintMatrices);

impl ConstraintMatricesWrapper {
    /// Gives back the constraint matrices.
    pub fn into_inner(self) -> (r: ConstraintMatrices)
        ensures
            r == self.0,
    {
        self.0
    }

    /// Appends the encoding of the matrices and counters to `out`. Both modes
    /// give the same bytes.
    pub fn serialize_with_mode(&self, out: &mut Vec<u8>, compress: Compress)
        ensures
            final(out)@ == old(out)@ + matrices_bytes(self.0@),
    {
        let m = &self.0;
        write_matrix(out, &m.a);
        write_matrix(out, &m.b);
        write_matrix(out, &m.c);
        write_u64(out, m.a_num_non_zero as u64);
        write_u64(out, m.b_num_non_zero as u64);
        write_u64(out, m.c_num_non_zero as u64);
        write_u64(out, m.num_instance_variables as u64);
        write_u64(out, m.num_witness_variables as u64);
        write_u64(out, m.num_constraints as u64);
        assert(out@ =~= old(out)@ + matrices_bytes(self.0@));
    }

    /// Reads matrices and counters from the start of `input`; bytes after
    /// them are left alone. Both modes read the same layout, and the checks
    /// that `validate` asks for are those that reading already makes.
    pub fn deserialize_with_mode(input: &[u8], compress: Compress, validate: Validate) -> (r:
        Result<Self, SerializationError>)
        ensures
            r is Ok <==> parse_matrices(input@) is Ok,
            r is Ok ==> r->Ok_0.0@ == parse_matrices(input@)->Ok_0.0,
            r is Err ==> r->Err_0 == parse_matrices(input@)->Err_0,
    {
        match Self::deserialize_prefix(input, compress, validate) {
            Ok((m, _)) => Ok(m),
            Err(e) => Err(e),
        }
    }

    /// As `deserialize_with_mode`, and also gives the number of bytes read, so
    /// that what follows can be read from there.
    pub fn deserialize_prefix(input: &[u8], compress: Compress, validate: Validate) -> (r:
        Result<(Self, usize), SerializationError>)
        ensures
            r is Ok <==> parse_matrices(input@) is Ok,
            r is Ok ==> r->Ok_0.0.0@ == parse_matrices(input@)->Ok_0.0
                && r->Ok_0.1 == parse_matrices(input@)->Ok_0.1,
            r is Err ==> r->Err_0 == parse_matrices(input@)->Err_0,
    {
        let len = input.len();
        let (a, p1) = match read_matrix(input, 0) {
            Ok(x) => x,
            Err(e) => return Err(e),
        };
        let (b, p2) = match read_matrix(input, p1) {
            Ok(x) => x,
            Err(e) => return Err(e),
        };
        let (c, p3) = match read_matrix(input, p2) {
            Ok(x) => x,
            Err(e) => return Err(e),
        };
        if len - p3 < 48 {
            return Err(SerializationError::UnexpectedEof);
        }
        let a_num_non_zero = read_u64(input, p3) as usize;
        let b_num_non_zero = read_u64(input, p3 + 8) as usize;
        let c_num_non_zero = read_u64(input, p3 + 16) as usize;
        let num_instance_variables = read_u64(input, p3 + 24) as usize;
        let num_witness_variables = read_u64(input, p3 + 32) as usize;
        let num_constraints = read_u64(input, p3 + 40) as usize;
        let r = ConstraintMatrices {
            num_instance_variables,
            num_witness_variables,
            num_constraints,
            a_num_non_zero,
            b_num_non_zero,
            c_num_non_zero,
            a,
            b,
            c,
        };
        proof {
            let k = parse_counters(input@, p3 as nat)->Ok_0.0;
            assert(k[0] == a_num_non_zero);
            assert(k[1] == b_num_non_zero);
            assert(k[2] == c_num_non_zero);
            assert(k[3] == num_instance_variables);
            assert(k[4] == num_witness_variables);
            assert(k[5] == num_constraints);
        }
        Ok((ConstraintMatricesWrapper(r), p3 + 48))
    }

    /// The number of bytes that `serialize_with_mode` appends, in either mode.
    pub fn serialized_size(&self, compress: Compress) -> (n: usize)
        requires
            matrices_bytes(self.0@).len() <= usize::MAX,
        ensures
            n == matrices_bytes(self.0@).len(),
    {
        let m = &self.0;
        proof {
            lemma_le_bytes_len(m.a_num_non_zero as u64 as nat, 8);
            lemma_le_bytes_len(m.b_num_non_zero as u64 as nat, 8);
            lemma_le_bytes_len(m.c_num_non_zero as u64 as nat, 8);
            lemma_le_bytes_len(m.num_instance_variables as u64 as nat, 8);
            lemma_le_bytes_len(m.num_witness_variables as u64 as nat, 8);
            lemma_le_bytes_len(m.num_constraints as u64 as nat, 8);
        }
        matrix_size(&m.a) + matrix_size(&m.b) + matrix_size(&m.c) + 48
    }

    /// Checks every coefficient: it must be the canonical encoding of a field
    /// element. The counters are not held against the matrices.
    pub fn check(&self) -> (r: Result<(), SerializationError>)
        ensures
            r is Ok <==> coefficients_ok(self.0@.a) && coefficients_ok(self.0@.b)
                && coefficients_ok(self.0@.c),
            r is Err ==> r->Err_0 == SerializationError::InvalidData,
    {
        if matrix_check(&self.0.a) && matrix_check(&self.0.b) && matrix_check(&self.0.c) {
            Ok(())
        } else {
            Err(SerializationError::InvalidData)
        }
    }
}

} // verus!

verus! {

/// `s` holds `x` from position `p` on.
pub open spec fn holds_at(s: Seq<u8>, p: nat, x: Seq<u8>) -> bool {
    p + x.len() <= s.len() && s.subrange(p as int, (p + x.len()) as int) == x
}

proof fn lemma_holds_split(s: Seq<u8>, p: nat, x: Seq<u8>, y: Seq<u8>)
    requires
        holds_at(s, p, x + y),
    ensures
        holds_at(s, p, x),
        holds_at(s, p + x.len(), y),
{
    let xy = x + y;
    assert forall|i: int| 0 <= i < x.len() implies s.subrange(p as int, (p + x.len()) as int)[i] == x[i] by {
        assert(s.subrange(p as int, (p + xy.len()) as int)[i] == xy[i]);
    }
    assert(s.subrange(p as int, (p + x.len()) as int) =~= x);
    assert forall|i: int| 0 <= i < y.len() implies s.subrange((p + x.len()) as int, (p + x.len() + y.len()) as int)[i]
        == y[i] by {
        assert(s.subrange(p as int, (p + xy.len()) as int)[x.len() + i] == xy[x.len() + i]);
    }
    assert(s.subrange((p + x.len()) as int, (p + x.len() + y.len()) as int) =~= y);
}

proof fn lemma_parse_u64_at(s: Seq<u8>, p: nat, n: u64)
    requires
        holds_at(s, p, u64_bytes(n)),
    ensures
        parse_u64(s, p) == Ok::<(u64, nat), SerializationError>((n, p + 8)),
{
    lemma_u64_round_trip(n);
}

proof fn lemma_parse_entries_at(s: Seq<u8>, p: nat, r: RowView)
    requires
        holds_at(s, p, entries_bytes(r)),
        forall|j: int| 0 <= j < r.len() ==> coefficient_ok(#[trigger] r[j].0),
    ensures
        parse_entries(s, p, r.len()) == Ok::<(RowView, nat), SerializationError>(
            (r, p + entries_bytes(r).len()),
        ),
    decreases r.len(),
{
    if r.len() == 0 {
        assert(r =~= Seq::<EntryView>::empty());
    } else {
        let init = r.drop_last();
        let e = r.last();
        assert(coefficient_ok(r[r.len() - 1].0));
        assert forall|j: int| 0 <= j < init.len() implies coefficient_ok(#[trigger] init[j].0) by {
            assert(init[j] == r[j]);
        }
        lemma_holds_split(s, p, entries_bytes(init), entry_bytes(e));
        lemma_parse_entries_at(s, p, init);
        let q = p + entries_bytes(init).len();
        lemma_holds_split(s, q, e.0, u64_bytes(e.1 as u64));
        lemma_parse_u64_at(s, q + 32, e.1 as u64);
        assert(parse_coefficient(s, q) == Ok::<(Seq<u8>, nat), SerializationError>((e.0, q + 32)));
        lemma_u64_round_trip(e.1 as u64);
        assert((e.0, (e.1 as u64) as usize) == e);
        assert(parse_entry(s, q) == Ok::<(EntryView, nat), SerializationError>(
            (e, q + entry_bytes(e).len()),
        ));
        assert(init.push(e) =~= r);
    }
}

proof fn lemma_parse_row_at(s: Seq<u8>, p: nat, r: RowView)
    requires
        holds_at(s, p, row_bytes(r)),
        r.len() <= u64::MAX,
        forall|j: int| 0 <= j < r.len() ==> coefficient_ok(#[trigger] r[j].0),
    ensures
        parse_row(s, p) == Ok::<(RowView, nat), SerializationError>((r, p + row_bytes(r).len())),
{
    lemma_holds_split(s, p, u64_bytes(r.len() as u64), entries_bytes(r));
    lemma_parse_u64_at(s, p, r.len() as u64);
    lemma_u64_round_trip(r.len() as u64);
    lemma_parse_entries_at(s, p + 8, r);
}

proof fn lemma_parse_rows_at(s: Seq<u8>, p: nat, m: MatrixView)
    requires
        holds_at(s, p, rows_bytes(m)),
        matrix_wf(m),
    ensures
        parse_rows(s, p, m.len()) == Ok::<(MatrixView, nat), SerializationError>(
            (m, p + rows_bytes(m).len()),
        ),
    decreases m.len(),
{
    if m.len() == 0 {
        assert(m =~= Seq::<RowView>::empty());
    } else {
        let init = m.drop_last();
        let r = m.last();
        lemma_holds_split(s, p, rows_bytes(init), row_bytes(r));
        assert(matrix_wf(init)) by {
            assert forall|i: int, j: int| 0 <= i < init.len() && 0 <= j < init[i].len() implies coefficient_ok(
                #[trigger] init[i][j].0,
            ) by {
                assert(init[i] == m[i]);
            }
            assert forall|i: int| 0 <= i < init.len() implies #[trigger] init[i].len() <= u64::MAX by {
                assert(init[i] == m[i]);
            }
        }
        lemma_parse_rows_at(s, p, init);
        let q = p + rows_bytes(init).len();
        assert(r.len() <= u64::MAX) by {
            assert(r == m[m.len() - 1]);
        }
        assert forall|j: int| 0 <= j < r.len() implies coefficient_ok(#[trigger] r[j].0) by {
            assert(r == m[m.len() - 1]);
            assert(coefficient_ok(m[m.len() - 1][j].0));
        }
        lemma_parse_row_at(s, q, r);
        assert(init.push(r) =~= m);
    }
}

proof fn lemma_parse_matrix_at(s: Seq<u8>, p: nat, m: MatrixView)
    requires
        holds_at(s, p, matrix_bytes(m)),
        matrix_wf(m),
    ensures
        parse_matrix(s, p) == Ok::<(MatrixView, nat), SerializationError>(
            (m, p + matrix_bytes(m).len()),
        ),
{
    lemma_holds_split(s, p, u64_bytes(m.len() as u64), rows_bytes(m));
    lemma_parse_u64_at(s, p, m.len() as u64);
    lemma_u64_round_trip(m.len() as u64);
    lemma_parse_rows_at(s, p + 8, m);
}

/// Decoding the encoding of well-formed matrices and counters gives them back,
/// whatever bytes follow, and stops right after the encoding.
pub proof fn lemma_round_trip(v: MatricesView, rest: Seq<u8>)
    requires
        v.wf(),
    ensures
        parse_matrices(matrices_bytes(v) + rest) == Ok::<(MatricesView, nat), SerializationError>(
            (v, matrices_bytes(v).len()),
        ),
{
    let s = matrices_bytes(v) + rest;
    let ma = matrix_bytes(v.a);
    let mb = matrix_bytes(v.b);
    let mc = matrix_bytes(v.c);
    let k = counters_bytes(v);
    assert(s.subrange(0, matrices_bytes(v).len() as int) =~= matrices_bytes(v));
    assert(holds_at(s, 0, ma + mb + mc + k));
    lemma_holds_split(s, 0, ma + mb + mc, k);
    lemma_holds_split(s, 0, ma + mb, mc);
    lemma_holds_split(s, 0, ma, mb);
    lemma_parse_matrix_at(s, 0, v.a);
    lemma_parse_matrix_at(s, ma.len(), v.b);
    lemma_parse_matrix_at(s, ma.len() + mb.len(), v.c);
    let p3 = ma.len() + mb.len() + mc.len();
    let c0 = u64_bytes(v.a_num_non_zero as u64);
    let c1 = u64_bytes(v.b_num_non_zero as u64);
    let c2 = u64_bytes(v.c_num_non_zero as u64);
    let c3 = u64_bytes(v.num_instance_variables as u64);
    let c4 = u64_bytes(v.num_witness_variables as u64);
    let c5 = u64_bytes(v.num_constraints as u64);
    lemma_u64_round_trip(v.a_num_non_zero as u64);
    lemma_u64_round_trip(v.b_num_non_zero as u64);
    lemma_u64_round_trip(v.c_num_non_zero as u64);
    lemma_u64_round_trip(v.num_instance_variables as u64);
    lemma_u64_round_trip(v.num_witness_variables as u64);
    lemma_u64_round_trip(v.num_constraints as u64);
    lemma_holds_split(s, p3, c0 + c1 + c2 + c3 + c4, c5);
    lemma_holds_split(s, p3, c0 + c1 + c2 + c3, c4);
    lemma_holds_split(s, p3, c0 + c1 + c2, c3);
    lemma_holds_split(s, p3, c0 + c1, c2);
    lemma_holds_split(s, p3, c0, c1);
    let kk = parse_counters(s, p3)->Ok_0.0;
    assert(kk[0] == v.a_num_non_zero);
    assert(kk[1] == v.b_num_non_zero);
    assert(kk[2] == v.c_num_non_zero);
    assert(kk[3] == v.num_instance_variables);
    assert(kk[4] == v.num_witness_variables);
    assert(kk[5] == v.num_constraints);
}

} // verus!
