//! Operators on rows: filtering, mapping, copying, renaming and projection, and
//! chains of them.

use vstd::prelude::*;

use crate::row::{columns_view, empty_row, rows_view, ColumnDef, ColumnV, FieldV, Row, RowV, SchemaV, TableSchema};
use crate::text;

verus! {

/// Decides which rows pass.
pub trait FilterPredicate {
    fn test(&self, row: &Row) -> bool;
}

/// Turns a row into another one.
pub trait FieldMapper {
    fn map(&self, row: Row) -> Row;
}

/// The schema behind an optional one.
pub open spec fn schema_view(s: Option<TableSchema>) -> Option<SchemaV> {
    match s {
        Some(t) => Some(t@),
        None => None,
    }
}

fn copy_schema(s: &Option<TableSchema>) -> (r: Option<TableSchema>)
    ensures
        schema_view(r) == schema_view(*s),
{
    match s {
        Some(t) => Some(t.copy()),
        None => None,
    }
}

/// One row as a list.
fn only(row: Row) -> (r: Vec<Row>)
    ensures
        rows_view(r@) == seq![row@],
{
    let ghost w = row@;
    let mut rows: Vec<Row> = Vec::new();
    rows.push(row);
    assert(rows_view(rows@) =~= seq![w]);
    rows
}

// ---------------------------------------------------------------------------
// Filtering
// ---------------------------------------------------------------------------

/// Drops the rows that a predicate does not accept.
#[derive(Debug)]
pub struct FilterTransform<F: FilterPredicate> {
    pub predicate: F,
    pub output_schema: Option<TableSchema>,
}

/// What is left of a row, given whether it passes.
pub open spec fn filtered(row: RowV, passes: bool) -> Seq<RowV> {
    if passes { seq![row] } else { Seq::empty() }
}

/// What is left of a row, given whether it passes.
pub fn keep_if(row: Row, passes: bool) -> (r: Vec<Row>)
    ensures
        rows_view(r@) == filtered(row@, passes),
{
    if passes {
        only(row)
    } else {
        let none: Vec<Row> = Vec::new();
        assert(rows_view(none@) =~= Seq::empty());
        none
    }
}

impl<F: FilterPredicate> FilterTransform<F> {
    /// A filter with a predicate.
    pub fn new(predicate: F) -> (r: Self)
        ensures
            r.predicate == predicate,
            r.output_schema is None,
    {
        FilterTransform { predicate, output_schema: None }
    }

    /// Sets the schema of what comes out.
    pub fn with_output_schema(self, schema: TableSchema) -> (r: Self)
        ensures
            r.predicate == self.predicate,
            schema_view(r.output_schema) == Some(schema@),
    {
        FilterTransform { predicate: self.predicate, output_schema: Some(schema) }
    }

    /// The row when the predicate accepts it, else nothing.
    pub fn process(&self, record: Row) -> (r: Vec<Row>)
        ensures
            exists|passes: bool|
                #[trigger] call_ensures(F::test, (&self.predicate, &record), passes) && rows_view(r@) == filtered(
                    record@,
                    passes,
                ),
    {
        let passes = self.predicate.test(&record);
        keep_if(record, passes)
    }

    /// The schema of what comes out.
    pub fn get_output_schema(&self) -> (r: Option<TableSchema>)
        ensures
            schema_view(r) == schema_view(self.output_schema),
    {
        copy_schema(&self.output_schema)
    }

    /// Takes the schema of what goes in, unless one was set.
    pub fn set_input_schema(&mut self, schema: TableSchema)
        ensures
            final(self).predicate == old(self).predicate,
            schema_view(final(self).output_schema) == match schema_view(old(self).output_schema) {
                Some(s) => Some(s),
                None => Some(schema@),
            },
    {
        if self.output_schema.is_none() {
            self.output_schema = Some(schema);
        }
    }
}

// ---------------------------------------------------------------------------
// Mapping
// ---------------------------------------------------------------------------

/// Applies a function to every row.
#[derive(Debug)]
pub struct MapTransform<F: FieldMapper> {
    pub mapper: F,
    pub output_schema: Option<TableSchema>,
}

impl<F: FieldMapper> MapTransform<F> {
    /// A transform with a function.
    pub fn new(mapper: F) -> (r: Self)
        ensures
            r.mapper == mapper,
            r.output_schema is None,
    {
        MapTransform { mapper, output_schema: None }
    }

    /// Sets the schema of what comes out.
    pub fn with_output_schema(self, schema: TableSchema) -> (r: Self)
        ensures
            r.mapper == self.mapper,
            schema_view(r.output_schema) == Some(schema@),
    {
        MapTransform { mapper: self.mapper, output_schema: Some(schema) }
    }

    /// What the function makes of the row.
    pub fn process(&self, record: Row) -> (r: Vec<Row>)
        ensures
            exists|out: Row| #[trigger] call_ensures(F::map, (&self.mapper, record), out) && rows_view(r@) == seq![out@],
    {
        let out = self.mapper.map(record);
        only(out)
    }

    /// The schema of what comes out.
    pub fn get_output_schema(&self) -> (r: Option<TableSchema>)
        ensures
            schema_view(r) == schema_view(self.output_schema),
    {
        copy_schema(&self.output_schema)
    }

    /// Takes the schema of what goes in, unless one was set.
    pub fn set_input_schema(&mut self, schema: TableSchema)
        ensures
            final(self).mapper == old(self).mapper,
            schema_view(final(self).output_schema) == match schema_view(old(self).output_schema) {
                Some(s) => Some(s),
                None => Some(schema@),
            },
    {
        if self.output_schema.is_none() {
            self.output_schema = Some(schema);
        }
    }
}

// ---------------------------------------------------------------------------
// Copying
// ---------------------------------------------------------------------------

/// Copies of a row at most.
pub const MAX_FAN: usize = 3;

/// How many copies are made of a row.
#[derive(Debug, Clone, Copy, PartialEq, Eq, Structural)]
pub enum FanoutMode {
    All,
    First { index: usize },
    N { count: usize },
}

/// Makes copies of every row.
#[derive(Debug)]
pub struct FanoutTransform {
    pub mode: FanoutMode,
    pub output_schema: Option<TableSchema>,
}

/// The number of copies in a mode.
pub open spec fn copies(mode: FanoutMode) -> nat {
    match mode {
        FanoutMode::All => MAX_FAN as nat,
        FanoutMode::First { index } => if index < MAX_FAN { 1 } else { 0 },
        FanoutMode::N { count } => if count < MAX_FAN { count as nat } else { MAX_FAN as nat },
    }
}

impl FanoutTransform {
    /// A transform with a mode.
    pub fn new(mode: FanoutMode) -> (r: Self)
        ensures
            r.mode == mode,
            r.output_schema is None,
    {
        FanoutTransform { mode, output_schema: None }
    }

    /// The copies of a row.
    pub fn process(&self, record: Row) -> (r: Vec<Row>)
        ensures
            rows_view(r@) == Seq::new(copies(self.mode), |i: int| record@),
    {
        let n: usize = match self.mode {
            FanoutMode::All => MAX_FAN,
            FanoutMode::First { index } => if index < MAX_FAN { 1 } else { 0 },
            FanoutMode::N { count } => if count < MAX_FAN { count } else { MAX_FAN },
        };
        let mut out: Vec<Row> = Vec::new();
        let mut i: usize = 0;
        while i < n
            invariant
                i <= n,
                out@.len() == i,
                forall|k: int| 0 <= k < i ==> #[trigger] out@[k]@ == record@,
            decreases n - i,
        {
            out.push(record.copy());
            i += 1;
        }
        assert(rows_view(out@) =~= Seq::new(copies(self.mode), |i: int| record@));
        out
    }

    /// The schema of what comes out.
    pub fn get_output_schema(&self) -> (r: Option<TableSchema>)
        ensures
            schema_view(r) == schema_view(self.output_schema),
    {
        copy_schema(&self.output_schema)
    }

    /// Takes the schema of what goes in, unless one was set.
    pub fn set_input_schema(&mut self, schema: TableSchema)
        ensures
            final(self).mode == old(self).mode,
            schema_view(final(self).output_schema) == match schema_view(old(self).output_schema) {
                Some(s) => Some(s),
                None => Some(schema@),
            },
    {
        if self.output_schema.is_none() {
            self.output_schema = Some(schema);
        }
    }
}

// ---------------------------------------------------------------------------
// Renaming
// ---------------------------------------------------------------------------

/// Renames columns.
#[derive(Debug)]
pub struct RenameTransform {
    pub renames: Vec<(String, String)>,
    pub output_schema: Option<TableSchema>,
}

/// The name of a column after the renames; the first one that fits counts.
pub open spec fn renamed(renames: crate::props::Pairs, name: Seq<char>) -> Seq<char> {
    match crate::props::lookup(renames, name) {
        Some(n) => n,
        None => name,
    }
}

/// The schema after the renames. The columns keep their types.
pub open spec fn renamed_schema(renames: crate::props::Pairs, s: SchemaV) -> SchemaV {
    SchemaV {
        table: s.table,
        columns: s.columns.map_values(
            |c: ColumnV| ColumnV {
                name: renamed(renames, c.name),
                column_type: c.column_type,
                is_primary_key: false,
            },
        ),
    }
}

impl RenameTransform {
    /// A transform with pairs of an old and a new name.
    pub fn new(renames: Vec<(String, String)>) -> (r: Self)
        ensures
            r.renames == renames,
            r.output_schema is None,
    {
        RenameTransform { renames, output_schema: None }
    }

    /// The row itself.
    pub fn process(&self, record: Row) -> (r: Vec<Row>)
        ensures
            rows_view(r@) == seq![record@],
    {
        only(record)
    }

    /// The schema of what comes out.
    pub fn get_output_schema(&self) -> (r: Option<TableSchema>)
        ensures
            schema_view(r) == schema_view(self.output_schema),
    {
        copy_schema(&self.output_schema)
    }

    fn new_name(&self, name: &String) -> (r: String)
        ensures
            r@ == renamed(crate::props::pairs_view(self.renames@), name@),
    {
        let ghost p = crate::props::pairs_view(self.renames@);
        let mut i: usize = 0;
        assert(p.skip(0) =~= p);
        while i < self.renames.len()
            invariant
                i <= self.renames@.len(),
                p == crate::props::pairs_view(self.renames@),
                crate::props::lookup(p, name@) == crate::props::lookup(p.skip(i as int), name@),
            decreases self.renames@.len() - i,
        {
            proof {
                let s = p.skip(i as int);
                assert(s[0] == (self.renames@[i as int].0@, self.renames@[i as int].1@));
                assert(s.skip(1) =~= p.skip(i + 1));
            }
            if text::same(self.renames[i].0.as_str(), name.as_str()) {
                return self.renames[i].1.clone();
            }
            i += 1;
        }
        name.clone()
    }

    /// Takes the schema of what goes in and renames its columns.
    pub fn set_input_schema(&mut self, schema: TableSchema)
        ensures
            final(self).renames == old(self).renames,
            schema_view(final(self).output_schema) == Some(
                renamed_schema(crate::props::pairs_view(old(self).renames@), schema@),
            ),
    {
        let ghost p = crate::props::pairs_view(self.renames@);
        let mut columns: Vec<ColumnDef> = Vec::new();
        let mut i: usize = 0;
        while i < schema.columns.len()
            invariant
                i <= schema.columns@.len(),
                p == crate::props::pairs_view(self.renames@),
                columns@.len() == i,
                forall|k: int|
                    0 <= k < i ==> #[trigger] columns@[k]@ == (ColumnV {
                        name: renamed(p, schema.columns@[k].name@),
                        column_type: schema.columns@[k].column_type,
                        is_primary_key: false,
                    }),
            decreases schema.columns@.len() - i,
        {
            let name = self.new_name(&schema.columns[i].name);
            columns.push(ColumnDef::new(name, schema.columns[i].column_type));
            i += 1;
        }
        assert(columns_view(columns@) =~= renamed_schema(p, schema@).columns);
        self.output_schema = Some(TableSchema::new(schema.table_identifier.clone(), columns));
    }
}

// ---------------------------------------------------------------------------
// Projection
// ---------------------------------------------------------------------------

/// Picks columns by their positions.
#[derive(Debug)]
pub struct SelectTransform {
    pub column_indices: Vec<usize>,
    pub output_schema: Option<TableSchema>,
}

/// The picked fields of a row; a position that it does not have is empty.
pub open spec fn selected(indices: Seq<usize>, row: RowV) -> RowV {
    RowV {
        kind: row.kind,
        fields: Seq::new(
            indices.len(),
            |i: int| if indices[i] < row.fields.len() { row.fields[indices[i] as int] } else { FieldV::Null },
        ),
        origin: None,
    }
}

/// The picked columns of a schema; a position that it does not have is left out.
pub open spec fn selected_columns(indices: Seq<usize>, columns: Seq<ColumnV>) -> Seq<ColumnV>
    decreases indices.len(),
{
    if indices.len() == 0 {
        Seq::empty()
    } else {
        let h = selected_columns(indices.drop_last(), columns);
        if indices.last() < columns.len() { h.push(columns[indices.last() as int]) } else { h }
    }
}

impl SelectTransform {
    /// A transform with the positions of the columns.
    pub fn new(column_indices: Vec<usize>) -> (r: Self)
        ensures
            r.column_indices == column_indices,
            r.output_schema is None,
    {
        SelectTransform { column_indices, output_schema: None }
    }

    /// The row of the picked fields.
    pub fn process(&self, record: Row) -> (r: Vec<Row>)
        ensures
            rows_view(r@) == seq![selected(self.column_indices@, record@)],
    {
        let n: usize = self.column_indices.len();
        let ghost rv = record@;
        let ghost want = selected(self.column_indices@, rv);
        let mut out = Row::new(record.kind, n);
        let mut i: usize = 0;
        while i < n
            invariant
                i <= n,
                n == self.column_indices@.len(),
                rv == record@,
                want == selected(self.column_indices@, rv),
                out@ == (RowV { fields: out@.fields, ..empty_row(rv.kind, n as nat) }),
                out@.fields.len() == n,
                forall|k: int| 0 <= k < i ==> #[trigger] out@.fields[k] == want.fields[k],
                forall|k: int| i <= k < n ==> #[trigger] out@.fields[k] == FieldV::Null,
            decreases n - i,
        {
            let at: usize = self.column_indices[i];
            if at < record.field_count() {
                out.set(i, record.get(at).copy());
            }
            i += 1;
        }
        assert(out@.fields =~= want.fields);
        only(out)
    }

    /// The schema of what comes out.
    pub fn get_output_schema(&self) -> (r: Option<TableSchema>)
        ensures
            schema_view(r) == schema_view(self.output_schema),
    {
        copy_schema(&self.output_schema)
    }

    /// Takes the schema of what goes in and picks its columns.
    pub fn set_input_schema(&mut self, schema: TableSchema)
        ensures
            final(self).column_indices == old(self).column_indices,
            schema_view(final(self).output_schema) == Some(
                (SchemaV {
                    table: schema@.table,
                    columns: selected_columns(old(self).column_indices@, schema@.columns),
                }),
            ),
    {
        let ghost c = schema@.columns;
        let ghost x = self.column_indices@;
        let mut columns: Vec<ColumnDef> = Vec::new();
        let mut i: usize = 0;
        proof {
            assert(x.take(0) =~= Seq::empty());
            assert(columns_view(columns@) =~= Seq::empty());
        }
        while i < self.column_indices.len()
            invariant
                i <= self.column_indices@.len(),
                x == self.column_indices@,
                c == schema@.columns,
                columns_view(columns@) == selected_columns(x.take(i as int), c),
            decreases self.column_indices@.len() - i,
        {
            proof {
                assert(x.take(i + 1).drop_last() =~= x.take(i as int));
                assert(x.take(i + 1).last() == x[i as int]);
            }
            let at: usize = self.column_indices[i];
            if at < schema.columns.len() {
                let ghost prev = columns@;
                let col = schema.columns[at].copy();
                assert(c[at as int] == schema.columns@[at as int]@);
                columns.push(col);
                assert(columns_view(columns@) =~= columns_view(prev).push(col@));
            }
            i += 1;
        }
        assert(x.take(x.len() as int) =~= x);
        self.output_schema = Some(TableSchema::new(schema.table_identifier.clone(), columns));
    }
}

/// What is selected fits the selected schema: where every position is a column of
/// the schema, the row has a field for each column that comes out, and each field
/// is that of its column.
pub proof fn law_selection_fits(indices: Seq<usize>, columns: Seq<ColumnV>, row: RowV)
    requires
        row.fields.len() == columns.len(),
        forall|i: int| 0 <= i < indices.len() ==> #[trigger] indices[i] < columns.len(),
    ensures
        selected(indices, row).fields.len() == selected_columns(indices, columns).len(),
        forall|i: int|
            0 <= i < indices.len() ==> #[trigger] selected_columns(indices, columns)[i] == columns[indices[i] as int]
                && selected(indices, row).fields[i] == row.fields[indices[i] as int],
    decreases indices.len(),
{
    if indices.len() > 0 {
        let d = indices.drop_last();
        assert forall|i: int| 0 <= i < d.len() implies #[trigger] d[i] < columns.len() by {
            assert(d[i] == indices[i]);
        }
        law_selection_fits(d, columns, row);
        assert(indices[indices.len() - 1] < columns.len());
        let r = selected_columns(indices, columns);
        let h = selected_columns(d, columns);
        assert forall|i: int| 0 <= i < indices.len() implies #[trigger] r[i] == columns[indices[i] as int] && selected(
            indices,
            row,
        ).fields[i] == row.fields[indices[i] as int] by {
            if i < d.len() {
                assert(r[i] == h[i]);
                assert(h[i] == columns[d[i] as int]);
            }
        }
    }
}

// ---------------------------------------------------------------------------
// SQL
// ---------------------------------------------------------------------------

/// A statement over a table. Rows pass as they are; the statement is run on whole
/// tables.
#[derive(Debug)]
pub struct SqlTransform {
    pub sql: String,
    pub table_name: String,
    pub output_schema: Option<TableSchema>,
}

impl SqlTransform {
    /// A statement over a table.
    pub fn new(sql: &str, table_name: &str) -> (r: Self)
        ensures
            r.sql@ == sql@,
            r.table_name@ == table_name@,
            r.output_schema is None,
    {
        SqlTransform { sql: text::owned(sql), table_name: text::owned(table_name), output_schema: None }
    }

    /// The row itself.
    pub fn process(&self, record: Row) -> (r: Vec<Row>)
        ensures
            rows_view(r@) == seq![record@],
    {
        only(record)
    }

    /// The schema of what comes out.
    pub fn get_output_schema(&self) -> (r: Option<TableSchema>)
        ensures
            schema_view(r) == schema_view(self.output_schema),
    {
        copy_schema(&self.output_schema)
    }

    /// Takes the schema of what goes in.
    pub fn set_input_schema(&mut self, schema: TableSchema)
        ensures
            final(self).sql == old(self).sql,
            final(self).table_name == old(self).table_name,
            schema_view(final(self).output_schema) == Some(schema@),
    {
        self.output_schema = Some(schema);
    }
}

// ---------------------------------------------------------------------------
// Chains
// ---------------------------------------------------------------------------

/// One operator of a chain.
#[derive(Debug)]
pub enum Operator<P: FilterPredicate, M: FieldMapper> {
    Filter(FilterTransform<P>),
    Mapping(MapTransform<M>),
    Fanout(FanoutTransform),
    Rename(RenameTransform),
    Select(SelectTransform),
    Sql(SqlTransform),
}

/// Whether `out` may be what an operator makes of a row: what a predicate or a
/// mapper answers is theirs.
pub open spec fn makes<P: FilterPredicate, M: FieldMapper>(op: Operator<P, M>, row: Row, out: Seq<RowV>) -> bool {
    match op {
        Operator::Filter(t) => exists|passes: bool|
            #[trigger] call_ensures(P::test, (&t.predicate, &row), passes) && out == filtered(row@, passes),
        Operator::Mapping(t) => exists|r: Row| #[trigger] call_ensures(M::map, (&t.mapper, row), r) && out == seq![r@],
        Operator::Fanout(t) => out == Seq::new(copies(t.mode), |i: int| row@),
        Operator::Rename(_) => out == seq![row@],
        Operator::Select(t) => out == seq![selected(t.column_indices@, row@)],
        Operator::Sql(_) => out == seq![row@],
    }
}

/// Rows behind each other.
pub open spec fn behind(a: Seq<RowV>, b: Seq<RowV>) -> Seq<RowV> {
    a + b
}

/// Whether `out` may be what an operator makes of some rows, in order.
pub open spec fn makes_all<P: FilterPredicate, M: FieldMapper>(op: Operator<P, M>, rows: Seq<Row>, out: Seq<RowV>) -> bool
    decreases rows.len(),
{
    if rows.len() == 0 {
        out.len() == 0
    } else {
        exists|a: Seq<RowV>, b: Seq<RowV>|
            out == #[trigger] behind(a, b) && makes_all(op, rows.drop_last(), a) && makes(op, rows.last(), b)
    }
}

/// Whether `out` may be what the first `n` operators of a chain make of a row, one
/// after the other.
pub open spec fn chains<P: FilterPredicate, M: FieldMapper>(
    ops: Seq<Operator<P, M>>,
    n: nat,
    row: Row,
    out: Seq<Row>,
) -> bool
    decreases n,
{
    if n == 0 {
        out == seq![row]
    } else {
        exists|mid: Seq<Row>|
            chains(ops, (n - 1) as nat, row, mid) && #[trigger] makes_all(ops[n - 1], mid, rows_view(out))
    }
}

impl<P: FilterPredicate, M: FieldMapper> Operator<P, M> {
    /// What the operator makes of a row.
    pub fn process(&self, record: Row) -> (r: Vec<Row>)
        ensures
            makes(*self, record, rows_view(r@)),
    {
        match self {
            Operator::Filter(t) => t.process(record),
            Operator::Mapping(t) => t.process(record),
            Operator::Fanout(t) => t.process(record),
            Operator::Rename(t) => t.process(record),
            Operator::Select(t) => t.process(record),
            Operator::Sql(t) => t.process(record),
        }
    }
}

/// Operators that are applied one after the other.
#[derive(Debug)]
pub struct TransformPipeline<P: FilterPredicate, M: FieldMapper> {
    pub transforms: Vec<Operator<P, M>>,
}

impl<P: FilterPredicate, M: FieldMapper> TransformPipeline<P, M> {
    /// A chain without operators.
    pub fn new() -> (r: Self)
        ensures
            r.transforms@.len() == 0,
    {
        TransformPipeline { transforms: Vec::new() }
    }

    /// Adds an operator at the end, and hands the chain back.
    pub fn add(&mut self, transform: Operator<P, M>) -> (r: &mut Self)
        ensures
            r.transforms@ == old(self).transforms@.push(transform),
            *final(self) == *final(r),
    {
        self.transforms.push(transform);
        self
    }

    /// What the chain makes of a row.
    pub fn process(&self, row: Row) -> (r: Vec<Row>)
        ensures
            chains(self.transforms@, self.transforms@.len(), row, r@),
    {
        let ghost ops = self.transforms@;
        let ghost first = row;
        let mut current: Vec<Row> = Vec::new();
        current.push(row);
        let mut i: usize = 0;
        assert(current@ =~= seq![first]);
        while i < self.transforms.len()
            invariant
                i <= self.transforms@.len(),
                ops == self.transforms@,
                chains(ops, i as nat, first, current@),
            decreases self.transforms@.len() - i,
        {
            let ghost mid = current@;
            let next = apply_to_all(&self.transforms[i], current);
            proof {
                let n = (i + 1) as nat;
                assert(chains(ops, (n - 1) as nat, first, mid) && makes_all(ops[n - 1], mid, rows_view(next@)));
                assert(chains(ops, n, first, next@));
            }
            current = next;
            i += 1;
        }
        current
    }
}

fn apply_to_all<P: FilterPredicate, M: FieldMapper>(op: &Operator<P, M>, rows: Vec<Row>) -> (r: Vec<Row>)
    ensures
        makes_all(*op, rows@, rows_view(r@)),
{
    let ghost all = rows@;
    let mut queue = rows;
    let mut out: Vec<Row> = Vec::new();
    proof {
        assert(all.take(0) =~= Seq::empty());
        assert(all.skip(0) =~= all);
        assert(rows_view(out@) =~= Seq::empty());
    }
    while queue.len() > 0
        invariant
            queue@.len() <= all.len(),
            queue@ == all.skip(all.len() - queue@.len()),
            makes_all(*op, all.take(all.len() - queue@.len()), rows_view(out@)),
        decreases queue@.len(),
    {
        let ghost done = all.len() - queue@.len();
        let row = queue.remove(0);
        proof {
            assert(row == all[done]);
            assert(queue@ =~= all.skip(done + 1));
            assert(all.take(done + 1).drop_last() =~= all.take(done));
            assert(all.take(done + 1).last() == row);
        }
        let ghost before = out@;
        let mut made = op.process(row);
        let ghost added = made@;
        out.append(&mut made);
        proof {
            assert(rows_view(out@) =~= behind(rows_view(before), rows_view(added)));
            let s = all.take(done + 1);
            assert(makes_all(*op, s.drop_last(), rows_view(before)) && makes(*op, s.last(), rows_view(added)));
            assert(makes_all(*op, s, rows_view(out@)));
        }
    }
    assert(all.take(all.len() as int) =~= all);
    out
}

// ---------------------------------------------------------------------------
// What the operators are for
// ---------------------------------------------------------------------------

/// A renamed schema has the table and the columns of the one before, in order and with
/// their types. A column has the new name of the first pair whose old name fits, and else
/// the name that it had.
pub proof fn law_renamed_columns(renames: crate::props::Pairs, s: SchemaV, i: int)
    requires
        0 <= i < s.columns.len(),
    ensures
        ({
            let r = renamed_schema(renames, s);
            &&& r.table == s.table
            &&& r.columns.len() == s.columns.len()
            &&& r.columns[i].column_type == s.columns[i].column_type
            &&& forall|k: int|
                0 <= k < renames.len() && (#[trigger] renames[k]).0 == s.columns[i].name && (forall|m: int|
                    0 <= m < k ==> (#[trigger] renames[m]).0 != s.columns[i].name) ==> r.columns[i].name == renames[k].1
            &&& (forall|k: int| 0 <= k < renames.len() ==> (#[trigger] renames[k]).0 != s.columns[i].name)
                ==> r.columns[i].name == s.columns[i].name
        }),
{
    let name = s.columns[i].name;
    assert forall|k: int|
        0 <= k < renames.len() && (#[trigger] renames[k]).0 == name && (forall|m: int|
            0 <= m < k ==> (#[trigger] renames[m]).0 != name) implies renamed(renames, name) == renames[k].1 by {
        lemma_first_pair(renames, name, k);
    }
    if forall|k: int| 0 <= k < renames.len() ==> (#[trigger] renames[k]).0 != name {
        lemma_no_pair(renames, name);
    }
}

proof fn lemma_first_pair(p: crate::props::Pairs, name: Seq<char>, k: int)
    requires
        0 <= k < p.len(),
        p[k].0 == name,
        forall|m: int| 0 <= m < k ==> (#[trigger] p[m]).0 != name,
    ensures
        crate::props::lookup(p, name) == Some(p[k].1),
    decreases p.len(),
{
    if k > 0 {
        assert(p[0].0 != name);
        let r = p.skip(1);
        assert forall|m: int| 0 <= m < k - 1 implies (#[trigger] r[m]).0 != name by {
            assert(p[m + 1].0 != name);
        }
        lemma_first_pair(r, name, k - 1);
    }
}

proof fn lemma_no_pair(p: crate::props::Pairs, name: Seq<char>)
    requires
        forall|k: int| 0 <= k < p.len() ==> (#[trigger] p[k]).0 != name,
    ensures
        crate::props::lookup(p, name) is None,
    decreases p.len(),
{
    if p.len() > 0 {
        assert(p[0].0 != name);
        let r = p.skip(1);
        assert forall|k: int| 0 <= k < r.len() implies (#[trigger] r[k]).0 != name by {
            assert(p[k + 1].0 != name);
        }
        lemma_no_pair(r, name);
    }
}

/// A row is copied three times at most: with all copies three times, with a number of
/// copies that often, and with one of them once, if there is such a one.
pub proof fn law_copies(count: usize)
    ensures
        copies(FanoutMode::All) == 3,
        copies(FanoutMode::N { count }) == if count < 3 { count as nat } else { 3 },
        copies(FanoutMode::First { index: count }) == if count < 3 { 1nat } else { 0 },
{
}

/// A row that passes a filter stays as it is, and one that does not is dropped.
pub proof fn law_filtering(row: RowV)
    ensures
        filtered(row, true) == seq![row],
        filtered(row, false).len() == 0,
{
}

/// A selected row keeps its kind and has a field for each position, empty where the row
/// has none; a selected schema leaves out the positions that it does not have.
pub proof fn law_selection_beyond(indices: Seq<usize>, row: RowV, columns: Seq<ColumnV>, at: usize, i: int)
    requires
        0 <= i < indices.len(),
    ensures
        selected(indices, row).kind == row.kind,
        selected(indices, row).fields.len() == indices.len(),
        indices[i] < row.fields.len() ==> selected(indices, row).fields[i] == row.fields[indices[i] as int],
        indices[i] >= row.fields.len() ==> selected(indices, row).fields[i] is Null,
        at < columns.len() ==> selected_columns(indices.push(at), columns) == selected_columns(indices, columns).push(
            columns[at as int],
        ),
        at >= columns.len() ==> selected_columns(indices.push(at), columns) == selected_columns(indices, columns),
{
    assert(indices.push(at).drop_last() =~= indices);
}

/// A chain of operators that only rename, or that a statement is run for elsewhere, hands
/// on a row as it came.
pub proof fn law_passing_chain<P: FilterPredicate, M: FieldMapper>(
    ops: Seq<Operator<P, M>>,
    n: nat,
    row: Row,
    out: Seq<Row>,
)
    requires
        n <= ops.len(),
        forall|i: int| 0 <= i < ops.len() ==> (#[trigger] ops[i]) is Rename || ops[i] is Sql,
        chains(ops, n, row, out),
    ensures
        rows_view(out) == seq![row@],
    decreases n,
{
    if n == 0 {
        assert(rows_view(out) =~= seq![row@]);
    } else {
        let mid = choose|mid: Seq<Row>|
            chains(ops, (n - 1) as nat, row, mid) && #[trigger] makes_all(ops[n - 1], mid, rows_view(out));
        law_passing_chain(ops, (n - 1) as nat, row, mid);
        assert(rows_view(mid).len() == 1);
        assert(rows_view(mid)[0] == row@);
        assert(mid.len() == 1);
        assert(ops[n - 1] is Rename || ops[n - 1] is Sql);
        law_one_row(ops[n - 1], mid[0], rows_view(out));
        assert(mid =~= seq![mid[0]]);
    }
}

/// What an operator makes of one row alone is what it makes of it; of no rows it makes
/// none; and of more rows what it makes of each stands in their order.
pub proof fn law_one_row<P: FilterPredicate, M: FieldMapper>(op: Operator<P, M>, row: Row, out: Seq<RowV>)
    ensures
        makes_all(op, seq![row], out) <==> makes(op, row, out),
        makes_all(op, Seq::<Row>::empty(), out) <==> out.len() == 0,
{
    let one = seq![row];
    let none = Seq::<RowV>::empty();
    assert(one.drop_last() =~= Seq::<Row>::empty());
    if makes_all(op, one, out) {
        let (a, b) = choose|a: Seq<RowV>, b: Seq<RowV>|
            out == #[trigger] behind(a, b) && makes_all(op, one.drop_last(), a) && makes(op, one.last(), b);
        assert(a.len() == 0);
        assert(a + b =~= b);
    }
    if makes(op, row, out) {
        assert(none + out =~= out);
        assert(out == behind(none, out) && makes_all(op, one.drop_last(), none) && makes(op, one.last(), out));
    }
}

/// What an operator makes of two lists of rows, one behind the other.
pub proof fn law_rows_in_order<P: FilterPredicate, M: FieldMapper>(
    op: Operator<P, M>,
    rows: Seq<Row>,
    row: Row,
    first: Seq<RowV>,
    second: Seq<RowV>,
)
    requires
        makes_all(op, rows, first),
        makes(op, row, second),
    ensures
        makes_all(op, rows.push(row), first + second),
{
    assert(rows.push(row).drop_last() =~= rows);
    assert(first + second == behind(first, second) && makes_all(op, rows.push(row).drop_last(), first) && makes(
        op,
        rows.push(row).last(),
        second,
    ));
}

/// What the operators that decide alone make of a row: copies of it, the row itself, or
/// its selected fields.
pub proof fn law_operators<P: FilterPredicate, M: FieldMapper>(op: Operator<P, M>, row: Row, out: Seq<RowV>)
    requires
        makes(op, row, out),
    ensures
        op matches Operator::Fanout(t) ==> {
            &&& t.mode is All ==> out.len() == 3
            &&& forall|i: int| 0 <= i < out.len() ==> #[trigger] out[i] == row@
        },
        op is Rename || op is Sql ==> out.len() == 1 && out[0] == row@,
        op matches Operator::Select(t) ==> out.len() == 1 && out[0].kind == row@.kind && out[0].fields.len()
            == t.column_indices@.len() && forall|i: int|
            0 <= i < t.column_indices@.len() && t.column_indices@[i] < row@.fields.len() ==> #[trigger] out[0].fields[i]
                == row@.fields[t.column_indices@[i] as int],
        op is Filter ==> out.len() == 0 || out.len() == 1 && out[0] == row@,
        op is Mapping ==> out.len() == 1,
{
}

} // verus!
