//! The canal-client format: one message per change, with the after-image and, of
//! an update, the before-image.
//!
//! Sources give an update as its before-image followed by its after-image.
//! [`CanalClientEncoder`] keeps what it needs to pair them, separately for each
//! table. A mapping says which columns a message carries: those that are always
//! mapped, and those that are mapped when they changed.

use vstd::prelude::*;

use crate::formats::client_table::{
    build_document, delete_message, document, encoded, overdue, row_key, CanalMessage, FieldsV, MessageV, TableFields,
    TableState, TableV,
};
use crate::formats::client_values::{all_become, camel_case, camel_case_name, convert_row};
use crate::formats::convert::{field_or_null, json_to_field, Reading};
use crate::formats::error::{FormatError, FormatErrorV};
use crate::formats::zone::{zone_of, ServerTz, ZoneV};
use crate::job::opt_view;
use crate::json;
use crate::json::{with_member, Json, JsonV};
use crate::keyed;
use crate::keyed::{index_of, named, values, Named};
use crate::props;
use crate::props::{assign, lookup, Pairs, Properties};
use crate::row::{rows_view, ColumnV, Field, Row, RowKind, RowV, SchemaV, TableSchema};
use crate::text;

verus! {

// ---------------------------------------------------------------------------
// Configuration and errors
// ---------------------------------------------------------------------------

/// The configuration of the format.
#[derive(Debug)]
pub struct CanalClientConfig {
    pub database_name: String,
    pub table_name: String,
    /// The columns in the order of a row's fields.
    pub columns: Vec<String>,
    /// Mappings by the camel case of the table's name.
    pub tables: Vec<(String, TableFields)>,
    /// The zone in which dates without one are read.
    pub server_time_zone: String,
}

/// Mappings by name.
pub type MappingsV = Seq<(Seq<char>, FieldsV)>;

/// The mappings behind a list.
pub open spec fn mappings_view(v: Seq<(String, TableFields)>) -> MappingsV {
    v.map_values(|e: (String, TableFields)| (e.0@, e.1@))
}

/// The first mapping of a name.
pub open spec fn mapping_of(m: MappingsV, name: Seq<char>) -> Option<FieldsV>
    decreases m.len(),
{
    if m.len() == 0 {
        None
    } else {
        match mapping_of(m.drop_last(), name) {
            Some(f) => Some(f),
            None => if m.last().0 == name { Some(m.last().1) } else { None },
        }
    }
}

/// Why an encoder cannot be set up, or a row cannot be encoded.
#[derive(Debug)]
pub enum EncoderError {
    /// The configured table has no mapping.
    NoMapping(String),
    /// The mapping of the configured table is empty.
    EmptyMapping(String),
    /// A mapping names a column that the schema does not have.
    UnknownColumn { table: String, column: String },
    /// A mapping's key is a column that the schema does not have.
    UnknownKey { table: String, column: String },
    /// The schema has no columns.
    EmptySchema(String),
    /// A row came before any schema.
    NoSchemaYet,
    /// A row came from a table that the configuration does not name.
    ForeignTable { configured: String, origin: String },
    /// A row came before its table's schema.
    UnregisteredTable(String),
}

/// The mathematical value of such an error.
#[verifier::ext_equal]
pub enum EncoderErrorV {
    NoMapping(Seq<char>),
    EmptyMapping(Seq<char>),
    UnknownColumn(Seq<char>, Seq<char>),
    UnknownKey(Seq<char>, Seq<char>),
    EmptySchema(Seq<char>),
    NoSchemaYet,
    ForeignTable(Seq<char>, Seq<char>),
    UnregisteredTable(Seq<char>),
}

impl View for EncoderError {
    type V = EncoderErrorV;

    open spec fn view(&self) -> EncoderErrorV {
        match self {
            EncoderError::NoMapping(t) => EncoderErrorV::NoMapping(t@),
            EncoderError::EmptyMapping(t) => EncoderErrorV::EmptyMapping(t@),
            EncoderError::UnknownColumn { table, column } => EncoderErrorV::UnknownColumn(table@, column@),
            EncoderError::UnknownKey { table, column } => EncoderErrorV::UnknownKey(table@, column@),
            EncoderError::EmptySchema(t) => EncoderErrorV::EmptySchema(t@),
            EncoderError::NoSchemaYet => EncoderErrorV::NoSchemaYet,
            EncoderError::ForeignTable { configured, origin } => EncoderErrorV::ForeignTable(configured@, origin@),
            EncoderError::UnregisteredTable(t) => EncoderErrorV::UnregisteredTable(t@),
        }
    }
}

/// What an error says.
pub open spec fn error_text(e: EncoderErrorV) -> Seq<char> {
    match e {
        EncoderErrorV::NoMapping(t) => "canal-client config has no field mapping for table '"@ + t + "'"@,
        EncoderErrorV::EmptyMapping(t) => "canal-client table '"@ + t + "' has empty must/update mappings"@,
        EncoderErrorV::UnknownColumn(t, c) => "canal-client table '"@ + t + "': mapped column '"@ + c
            + "' is not in the source schema"@,
        EncoderErrorV::UnknownKey(t, c) => "canal-client table '"@ + t + "': key column '"@ + c
            + "' is not in the source schema"@,
        EncoderErrorV::EmptySchema(t) => "canal-client table '"@ + t + "': source schema has no columns"@,
        EncoderErrorV::NoSchemaYet =>
            "canal-client automatic column mapping: row arrived before any initial schema event — the source must emit the table schema first (MySQL-CDC does; or configure canal-client.columns explicitly)"@,
        EncoderErrorV::ForeignTable(c, o) => "canal-client explicit config targets table '"@ + c
            + "' but a row arrived from '"@ + o
            + "' — multi-table sources need the schema-driven mode (drop canal-client.columns and let the initial-schema events map them)"@,
        EncoderErrorV::UnregisteredTable(o) => "canal-client automatic column mapping: row from table '"@ + o
            + "' arrived before its initial schema event"@,
    }
}

fn join5(a: &str, b: &str, c: &str, d: &str, e: &str) -> (r: String)
    ensures
        r@ == a@ + b@ + c@ + d@ + e@,
{
    let head = text::join3(a, b, c);
    let r = text::join3(head.as_str(), d, e);
    r
}

impl EncoderError {
    /// What the error says.
    pub fn message(&self) -> (r: String)
        ensures
            r@ == error_text(self@),
    {
        match self {
            EncoderError::NoMapping(t) => text::join3(
                "canal-client config has no field mapping for table '",
                t.as_str(),
                "'",
            ),
            EncoderError::EmptyMapping(t) => text::join3(
                "canal-client table '",
                t.as_str(),
                "' has empty must/update mappings",
            ),
            EncoderError::UnknownColumn { table, column } => join5(
                "canal-client table '",
                table.as_str(),
                "': mapped column '",
                column.as_str(),
                "' is not in the source schema",
            ),
            EncoderError::UnknownKey { table, column } => join5(
                "canal-client table '",
                table.as_str(),
                "': key column '",
                column.as_str(),
                "' is not in the source schema",
            ),
            EncoderError::EmptySchema(t) => text::join3(
                "canal-client table '",
                t.as_str(),
                "': source schema has no columns",
            ),
            EncoderError::NoSchemaYet => text::owned(
                "canal-client automatic column mapping: row arrived before any initial schema event — the source must emit the table schema first (MySQL-CDC does; or configure canal-client.columns explicitly)",
            ),
            EncoderError::ForeignTable { configured, origin } => join5(
                "canal-client explicit config targets table '",
                configured.as_str(),
                "' but a row arrived from '",
                origin.as_str(),
                "' — multi-table sources need the schema-driven mode (drop canal-client.columns and let the initial-schema events map them)",
            ),
            EncoderError::UnregisteredTable(o) => text::join3(
                "canal-client automatic column mapping: row from table '",
                o.as_str(),
                "' arrived before its initial schema event",
            ),
        }
    }
}

/// The database and the table of an identifier, which is split at its last dot; one
/// without a dot has no database.
pub open spec fn identity(s: Seq<char>) -> (Seq<char>, Seq<char>) {
    match text::split_at_last(s, '.') {
        Some(p) => p,
        None => (Seq::empty(), s),
    }
}

/// The database and the table of an identifier.
pub fn split_table_identifier(identifier: &str) -> (r: (String, String))
    ensures
        (r.0@, r.1@) == identity(identifier@),
{
    match text::rsplit_once(identifier, '.') {
        Some(p) => p,
        None => (String::new(), text::owned(identifier)),
    }
}

// ---------------------------------------------------------------------------
// Mappings of a schema
// ---------------------------------------------------------------------------

/// The first column of the primary key.
pub open spec fn primary_key(c: Seq<ColumnV>) -> Option<Seq<char>>
    decreases c.len(),
{
    if c.len() == 0 {
        None
    } else {
        match primary_key(c.drop_last()) {
            Some(n) => Some(n),
            None => if c.last().is_primary_key { Some(c.last().name) } else { None },
        }
    }
}

/// The key of a schema: the first column of its primary key, else its first column.
pub open spec fn schema_key(c: Seq<ColumnV>) -> Seq<char> {
    match primary_key(c) {
        Some(n) => n,
        None => if c.len() > 0 { c[0].name } else { Seq::empty() },
    }
}

/// Whether a schema has a column.
pub open spec fn has_column(c: Seq<ColumnV>, name: Seq<char>) -> bool {
    exists|i: int| 0 <= i < c.len() && (#[trigger] c[i]).name == name
}

/// The first column of a mapping that a schema does not have.
pub open spec fn unknown_column(c: Seq<ColumnV>, p: Pairs) -> Option<Seq<char>>
    decreases p.len(),
{
    if p.len() == 0 {
        None
    } else {
        match unknown_column(c, p.drop_last()) {
            Some(n) => Some(n),
            None => if has_column(c, p.last().0) { None } else { Some(p.last().0) },
        }
    }
}

/// Every column mapped to a field of its own name; those of `update` are mapped on
/// change, and `must` renames fields.
pub open spec fn merged(c: Seq<ColumnV>, must: Pairs, update: Pairs) -> (Pairs, Pairs)
    decreases c.len(),
{
    if c.len() == 0 {
        (Seq::empty(), Seq::empty())
    } else {
        let h = merged(c.drop_last(), must, update);
        let n = c.last().name;
        match lookup(update, n) {
            Some(t) => (h.0, assign(h.1, n, t)),
            None => match lookup(must, n) {
                Some(t) => (assign(h.0, n, t), h.1),
                None => (assign(h.0, n, n), h.1),
            },
        }
    }
}

/// The mapping of a table with a schema. Without an entry every column is always
/// mapped under its own name. An entry gives the differences only, and may name
/// nothing that the schema does not have.
pub open spec fn resolved(
    c: Seq<ColumnV>,
    camel: Seq<char>,
    entry: Option<FieldsV>,
) -> Result<FieldsV, EncoderErrorV> {
    match entry {
        None => {
            let m = merged(c, Seq::empty(), Seq::empty());
            Ok(FieldsV { key: schema_key(c), must: m.0, update: m.1 })
        },
        Some(f) => match unknown_column(c, f.must) {
            Some(n) => Err(EncoderErrorV::UnknownColumn(camel, n)),
            None => match unknown_column(c, f.update) {
                Some(n) => Err(EncoderErrorV::UnknownColumn(camel, n)),
                None => if f.key.len() > 0 && !has_column(c, f.key) {
                    Err(EncoderErrorV::UnknownKey(camel, f.key))
                } else {
                    let m = merged(c, f.must, f.update);
                    Ok(
                        FieldsV {
                            key: if f.key.len() == 0 { schema_key(c) } else { f.key },
                            must: m.0,
                            update: m.1,
                        },
                    )
                },
            },
        },
    }
}

/// The names of columns.
pub open spec fn column_names(c: Seq<ColumnV>) -> Seq<Seq<char>> {
    c.map_values(|x: ColumnV| x.name)
}

fn find_mapping(tables: &Vec<(String, TableFields)>, name: &str) -> (r: Option<TableFields>)
    ensures
        match (r, mapping_of(mappings_view(tables@), name@)) {
            (Some(f), Some(v)) => f@ == v,
            (None, None) => true,
            _ => false,
        },
{
    let ghost m = mappings_view(tables@);
    let mut i: usize = 0;
    assert(m.take(0) =~= Seq::empty());
    while i < tables.len()
        invariant
            i <= tables@.len(),
            m == mappings_view(tables@),
            mapping_of(m.take(i as int), name@) is None,
        decreases tables@.len() - i,
    {
        proof {
            assert(m.take(i + 1).drop_last() =~= m.take(i as int));
            assert(m.take(i + 1).last() == (tables@[i as int].0@, tables@[i as int].1@));
        }
        if text::same(tables[i].0.as_str(), name) {
            proof {
                lemma_mapping_stays(m, i + 1, name@);
            }
            return Some(tables[i].1.copy());
        }
        i += 1;
    }
    assert(m.take(m.len() as int) =~= m);
    None
}

proof fn lemma_mapping_stays(m: MappingsV, n: int, name: Seq<char>)
    requires
        0 <= n <= m.len(),
        mapping_of(m.take(n), name) is Some,
    ensures
        mapping_of(m, name) == mapping_of(m.take(n), name),
    decreases m.len() - n,
{
    if n < m.len() {
        assert(m.take(n + 1).drop_last() =~= m.take(n));
        lemma_mapping_stays(m, n + 1, name);
    } else {
        assert(m.take(n) =~= m);
    }
}

fn key_of_schema(schema: &TableSchema) -> (r: String)
    ensures
        r@ == schema_key(schema@.columns),
{
    let ghost c = schema@.columns;
    let mut i: usize = 0;
    assert(c.take(0) =~= Seq::empty());
    while i < schema.columns.len()
        invariant
            i <= schema.columns@.len(),
            c == schema@.columns,
            primary_key(c.take(i as int)) is None,
        decreases schema.columns@.len() - i,
    {
        proof {
            assert(c.take(i + 1).drop_last() =~= c.take(i as int));
            assert(c.take(i + 1).last() == schema.columns@[i as int]@);
        }
        if schema.columns[i].is_primary_key {
            proof {
                lemma_primary_key_stays(c, i + 1);
            }
            return schema.columns[i].name.clone();
        }
        i += 1;
    }
    assert(c.take(c.len() as int) =~= c);
    if schema.columns.len() > 0 {
        assert(c[0] == schema.columns@[0]@);
        schema.columns[0].name.clone()
    } else {
        String::new()
    }
}

proof fn lemma_primary_key_stays(c: Seq<ColumnV>, n: int)
    requires
        0 <= n <= c.len(),
        primary_key(c.take(n)) is Some,
    ensures
        primary_key(c) == primary_key(c.take(n)),
    decreases c.len() - n,
{
    if n < c.len() {
        assert(c.take(n + 1).drop_last() =~= c.take(n));
        lemma_primary_key_stays(c, n + 1);
    } else {
        assert(c.take(n) =~= c);
    }
}

fn knows(schema: &TableSchema, name: &str) -> (r: bool)
    ensures
        r == has_column(schema@.columns, name@),
{
    let ghost c = schema@.columns;
    let mut i: usize = 0;
    while i < schema.columns.len()
        invariant
            i <= schema.columns@.len(),
            c == schema@.columns,
            forall|k: int| 0 <= k < i ==> (#[trigger] c[k]).name != name@,
        decreases schema.columns@.len() - i,
    {
        assert(c[i as int] == schema.columns@[i as int]@);
        if text::same(schema.columns[i].name.as_str(), name) {
            return true;
        }
        i += 1;
    }
    false
}

fn find_unknown(schema: &TableSchema, pairs: &Properties) -> (r: Option<String>)
    ensures
        opt_view(r) == unknown_column(schema@.columns, pairs@),
{
    let ghost p = pairs@;
    let ghost c = schema@.columns;
    let mut i: usize = 0;
    assert(p.take(0) =~= Seq::empty());
    while i < pairs.len()
        invariant
            i <= p.len(),
            p == pairs@,
            c == schema@.columns,
            unknown_column(c, p.take(i as int)) is None,
        decreases p.len() - i,
    {
        let e = pairs.at(i);
        proof {
            assert(p.take(i + 1).drop_last() =~= p.take(i as int));
            assert(p.take(i + 1).last() == (e.0@, e.1@));
        }
        if !knows(schema, e.0.as_str()) {
            proof {
                lemma_unknown_stays(c, p, i + 1);
            }
            return Some(e.0.clone());
        }
        i += 1;
    }
    assert(p.take(p.len() as int) =~= p);
    None
}

proof fn lemma_unknown_stays(c: Seq<ColumnV>, p: Pairs, n: int)
    requires
        0 <= n <= p.len(),
        unknown_column(c, p.take(n)) is Some,
    ensures
        unknown_column(c, p) == unknown_column(c, p.take(n)),
    decreases p.len() - n,
{
    if n < p.len() {
        assert(p.take(n + 1).drop_last() =~= p.take(n));
        lemma_unknown_stays(c, p, n + 1);
    } else {
        assert(p.take(n) =~= p);
    }
}

fn merge(schema: &TableSchema, must: &Properties, update: &Properties) -> (r: (Properties, Properties))
    ensures
        (r.0@, r.1@) == merged(schema@.columns, must@, update@),
{
    let ghost c = schema@.columns;
    let mut always = Properties::new();
    let mut on_change = Properties::new();
    let mut i: usize = 0;
    assert(c.take(0) =~= Seq::empty());
    while i < schema.columns.len()
        invariant
            i <= schema.columns@.len(),
            c == schema@.columns,
            (always@, on_change@) == merged(c.take(i as int), must@, update@),
        decreases schema.columns@.len() - i,
    {
        proof {
            assert(c.take(i + 1).drop_last() =~= c.take(i as int));
            assert(c.take(i + 1).last() == schema.columns@[i as int]@);
        }
        let name = schema.columns[i].name.clone();
        match update.get(name.as_str()) {
            Some(t) => {
                on_change.insert(name, t.clone());
            },
            None => {
                let target = match must.get(name.as_str()) {
                    Some(t) => t.clone(),
                    None => name.clone(),
                };
                always.insert(name, target);
            },
        }
        i += 1;
    }
    assert(c.take(c.len() as int) =~= c);
    (always, on_change)
}

fn resolve(schema: &TableSchema, camel: &str, entry: Option<TableFields>) -> (r: Result<TableFields, EncoderError>)
    ensures
        match (
            r,
            resolved(
                schema@.columns,
                camel@,
                match entry {
                    Some(f) => Some(f@),
                    None => None,
                },
            ),
        ) {
            (Ok(f), Ok(v)) => f@ == v,
            (Err(e), Err(v)) => e@ == v,
            _ => false,
        },
{
    match entry {
        None => {
            let none = Properties::new();
            let m = merge(schema, &none, &none);
            Ok(TableFields { key: key_of_schema(schema), must: m.0, update: m.1 })
        },
        Some(f) => {
            match find_unknown(schema, &f.must) {
                Some(column) => {
                    return Err(EncoderError::UnknownColumn { table: text::owned(camel), column });
                },
                None => {},
            }
            match find_unknown(schema, &f.update) {
                Some(column) => {
                    return Err(EncoderError::UnknownColumn { table: text::owned(camel), column });
                },
                None => {},
            }
            if !f.key.as_str().is_empty() && !knows(schema, f.key.as_str()) {
                return Err(EncoderError::UnknownKey { table: text::owned(camel), column: f.key });
            }
            let m = merge(schema, &f.must, &f.update);
            let key = if f.key.as_str().is_empty() { key_of_schema(schema) } else { f.key };
            Ok(TableFields { key, must: m.0, update: m.1 })
        },
    }
}

fn names_of(schema: &TableSchema) -> (r: Vec<String>)
    ensures
        text::views(r@) == column_names(schema@.columns),
{
    let mut out: Vec<String> = Vec::new();
    let mut i: usize = 0;
    while i < schema.columns.len()
        invariant
            i <= schema.columns@.len(),
            out@.len() == i,
            forall|k: int| 0 <= k < i ==> (#[trigger] out@[k])@ == schema.columns@[k].name@,
        decreases schema.columns@.len() - i,
    {
        out.push(schema.columns[i].name.clone());
        i += 1;
    }
    assert(text::views(out@) =~= column_names(schema@.columns));
    out
}

// ---------------------------------------------------------------------------
// The encoder
// ---------------------------------------------------------------------------

/// Makes messages of rows. A row that tells where it comes from is encoded as a row
/// of that table, any other as one of the default table.
#[derive(Debug)]
pub struct CanalClientEncoder {
    pub config: CanalClientConfig,
    pub zone: ServerTz,
    pub tables: Vec<TableState>,
    /// The table of rows without an origin; empty while there is none.
    pub default_table: String,
    /// Whether the configuration lists the columns of its one table.
    pub explicit: bool,
}

/// The mathematical value of an encoder.
#[verifier::ext_equal]
pub struct EncoderV {
    pub mappings: MappingsV,
    pub zone: ZoneV,
    pub tables: Seq<TableV>,
    pub default_table: Seq<char>,
    pub explicit: bool,
}

impl View for CanalClientEncoder {
    type V = EncoderV;

    open spec fn view(&self) -> EncoderV {
        EncoderV {
            mappings: mappings_view(self.config.tables@),
            zone: self.zone@,
            tables: values(self.tables@),
            default_table: self.default_table@,
            explicit: self.explicit,
        }
    }
}

/// Whether an encoder knows its default table, once it has one, and has one when its
/// configuration lists the columns.
pub open spec fn consistent(e: EncoderV) -> bool {
    &&& e.default_table.len() > 0 ==> index_of(e.tables, e.default_table) is Some
    &&& e.explicit ==> e.default_table.len() > 0
}

/// A table that nothing waits in.
pub open spec fn fresh_table(id: Seq<char>, fields: FieldsV, zone: ZoneV, columns: Seq<Seq<char>>) -> TableV {
    TableV {
        id,
        db_name: identity(id).0,
        table_name: identity(id).1,
        fields,
        zone,
        columns,
        pending: None,
    }
}

/// An encoder after the registration of a schema. One that is registered already
/// changes nothing; the first one becomes the default.
pub open spec fn registered(e: EncoderV, schema: SchemaV) -> Result<EncoderV, EncoderErrorV> {
    let camel = camel_case(identity(schema.table).1);
    if index_of(e.tables, schema.table) is Some {
        Ok(e)
    } else {
        match resolved(schema.columns, camel, mapping_of(e.mappings, camel)) {
            Err(x) => Err(x),
            Ok(fields) => if schema.columns.len() == 0 {
                Err(EncoderErrorV::EmptySchema(camel))
            } else {
                Ok(
                    EncoderV {
                        default_table: if e.default_table.len() == 0 { schema.table } else { e.default_table },
                        tables: e.tables.push(
                            fresh_table(schema.table, fields, e.zone, column_names(schema.columns)),
                        ),
                        ..e
                    },
                )
            },
        }
    }
}

/// The table that a row belongs to.
pub open spec fn table_for(e: EncoderV, origin: Option<Seq<char>>) -> Result<Seq<char>, EncoderErrorV> {
    match origin {
        None => if e.default_table.len() == 0 { Err(EncoderErrorV::NoSchemaYet) } else { Ok(e.default_table) },
        Some(o) => if index_of(e.tables, o) is Some {
            Ok(o)
        } else if e.explicit {
            if text::equal_ignoring_case(o, e.default_table) {
                Ok(e.default_table)
            } else {
                Err(EncoderErrorV::ForeignTable(e.default_table, o))
            }
        } else {
            Err(EncoderErrorV::UnregisteredTable(o))
        },
    }
}

/// Calls `uuid::Uuid::new_v4` and its simple form: 32 lower-case hexadecimal
/// digits. Which ones is left to chance.
#[verifier::external_body]
pub(crate) fn new_request_id() -> (r: String)
    ensures
        r@.len() == 32,
        forall|i: int| 0 <= i < 32 ==> is_hex(#[trigger] r@[i]),
{
    uuid::Uuid::new_v4().simple().to_string()
}

/// Whether a character is a lower-case hexadecimal digit.
pub open spec fn is_hex(c: char) -> bool {
    48 <= c as u32 <= 57 || 97 <= c as u32 <= 102
}

/// Whether a text can be the id of a message.
pub open spec fn is_request_id(s: Seq<char>) -> bool {
    s.len() == 32 && forall|i: int| 0 <= i < 32 ==> is_hex(#[trigger] s[i])
}

/// The encoder after one image of a row of its table at position `i`.
pub open spec fn stepped(
    e: EncoderV,
    i: int,
    row: RowV,
    image: Seq<JsonV>,
    ids: (Seq<char>, Seq<char>),
    now: i64,
) -> (EncoderV, Seq<MessageV>) {
    let t = e.tables[i];
    let r = encoded(t, row.kind, row_key(t, row.fields), image, ids, now);
    (EncoderV { tables: e.tables.update(i, r.0), ..e }, r.1)
}

/// Whether an encoder gave `messages` for a row and became `after`: the row's values
/// are what its fields become in the table's zone, and every message has an id.
pub open spec fn gives(e: EncoderV, row: RowV, now: i64, after: EncoderV, messages: Seq<MessageV>) -> bool {
    match table_for(e, row.origin) {
        Ok(id) => match index_of(e.tables, id) {
            Some(i) => exists|image: Seq<JsonV>, ids: (Seq<char>, Seq<char>)|
                all_become(e.tables[i].zone, row.fields, image) && is_request_id(ids.0) && is_request_id(ids.1) && (
                after,
                messages,
                ) == #[trigger] stepped(e, i, row, image, ids, now),
            None => false,
        },
        Err(_) => false,
    }
}

impl CanalClientEncoder {
    /// An encoder of the one table that the configuration names, with the columns
    /// that it lists. The table must have a mapping that is not empty.
    pub fn new(config: CanalClientConfig) -> (r: Result<Self, EncoderError>)
        ensures
            ({
                let camel = camel_case(config.table_name@);
                match mapping_of(mappings_view(config.tables@), camel) {
                    None => r is Err && r->Err_0@ == EncoderErrorV::NoMapping(camel),
                    Some(f) => if f.must.len() == 0 && f.update.len() == 0 {
                        r is Err && r->Err_0@ == EncoderErrorV::EmptyMapping(camel)
                    } else {
                        let id = config.database_name@ + "."@ + config.table_name@;
                        r is Ok && consistent(r->Ok_0@) && r->Ok_0.config == config && r->Ok_0@ == (EncoderV {
                            mappings: mappings_view(config.tables@),
                            zone: zone_of(config.server_time_zone@),
                            tables: seq![
                                TableV {
                                    id,
                                    db_name: config.database_name@,
                                    table_name: config.table_name@,
                                    fields: f,
                                    zone: zone_of(config.server_time_zone@),
                                    columns: text::views(config.columns@),
                                    pending: None,
                                },
                            ],
                            default_table: id,
                            explicit: true,
                        })
                    },
                }
            }),
    {
        let zone = ServerTz::parse(config.server_time_zone.as_str());
        let camel = camel_case_name(config.table_name.as_str());
        let fields = match find_mapping(&config.tables, camel.as_str()) {
            Some(f) => f,
            None => {
                return Err(EncoderError::NoMapping(camel));
            },
        };
        if fields.must.is_empty() && fields.update.is_empty() {
            return Err(EncoderError::EmptyMapping(camel));
        }
        let id = text::join3(config.database_name.as_str(), ".", config.table_name.as_str());
        let table = TableState {
            id: id.clone(),
            db_name: config.database_name.clone(),
            table_name: config.table_name.clone(),
            fields,
            zone: zone.copy(),
            columns: text::copy_list(&config.columns),
            pending: None,
        };
        let ghost tv = table@;
        let mut tables: Vec<TableState> = Vec::new();
        tables.push(table);
        let r = CanalClientEncoder { config, zone, tables, default_table: id, explicit: true };
        proof {
            assert(r@.tables =~= seq![tv]);
            keyed::lemma_index_is(r@.tables, id@, 0);
            reveal_strlit(".");
        }
        Ok(r)
    }

    /// An encoder without tables; they come with their schemas.
    pub fn new_auto(config: CanalClientConfig) -> (r: Self)
        ensures
            consistent(r@),
            r.config == config,
            r@ == (EncoderV {
                mappings: mappings_view(config.tables@),
                zone: zone_of(config.server_time_zone@),
                tables: Seq::empty(),
                default_table: Seq::empty(),
                explicit: false,
            }),
    {
        let zone = ServerTz::parse(config.server_time_zone.as_str());
        let r = CanalClientEncoder {
            config,
            zone,
            tables: Vec::new(),
            default_table: String::new(),
            explicit: false,
        };
        assert(r@.tables =~= Seq::empty());
        r
    }

    /// An encoder of one table with its schema.
    pub fn from_schema(config: CanalClientConfig, schema: &TableSchema) -> (r: Result<Self, EncoderError>)
        ensures
            ({
                let e = EncoderV {
                    mappings: mappings_view(config.tables@),
                    zone: zone_of(config.server_time_zone@),
                    tables: Seq::empty(),
                    default_table: Seq::empty(),
                    explicit: false,
                };
                match (r, registered(e, schema@)) {
                    (Ok(x), Ok(v)) => x@ == v && consistent(v) && x.config == config,
                    (Err(x), Err(v)) => x@ == v,
                    _ => false,
                }
            }),
    {
        let mut e = CanalClientEncoder::new_auto(config);
        match e.register_schema(schema) {
            Ok(_) => Ok(e),
            Err(x) => Err(x),
        }
    }

    /// Registers a table with its schema, which gives the columns. The mapping
    /// begins with every column under its own name; an entry of the configuration
    /// changes names, moves columns to those that are mapped on change, or sets the
    /// key, and must not name what the schema does not have. A table that is
    /// registered stays as it is.
    pub fn register_schema(&mut self, schema: &TableSchema) -> (r: Result<(), EncoderError>)
        requires
            consistent(old(self)@),
        ensures
            consistent(final(self)@),
            final(self).config == old(self).config,
            match (r, registered(old(self)@, schema@)) {
                (Ok(_), Ok(v)) => final(self)@ == v,
                (Err(e), Err(v)) => e@ == v && final(self)@ == old(self)@,
                _ => false,
            },
    {
        let ghost e = self@;
        if keyed::find(&self.tables, schema.table_identifier.as_str()).is_some() {
            return Ok(());
        }
        let id = schema.table_identifier.clone();
        let split = split_table_identifier(id.as_str());
        let camel = camel_case_name(split.1.as_str());
        let entry = find_mapping(&self.config.tables, camel.as_str());
        let fields = match resolve(schema, camel.as_str(), entry) {
            Ok(f) => f,
            Err(x) => {
                return Err(x);
            },
        };
        if schema.columns.len() == 0 {
            return Err(EncoderError::EmptySchema(camel));
        }
        let table = TableState {
            id: id.clone(),
            db_name: split.0,
            table_name: split.1,
            fields,
            zone: self.zone.copy(),
            columns: names_of(schema),
            pending: None,
        };
        let ghost tv = table@;
        if self.default_table.as_str().is_empty() {
            self.default_table = id;
        }
        self.tables.push(table);
        proof {
            assert(self@.tables =~= e.tables.push(tv));
            let t = self@.tables;
            keyed::lemma_index_of(e.tables, schema@.table);
            keyed::lemma_index_of(e.tables, e.default_table);
            if e.default_table.len() == 0 {
                assert forall|k: int| 0 <= k < t.len() - 1 implies (#[trigger] t[k]).name() != schema@.table by {
                    assert(t[k] == e.tables[k]);
                }
                keyed::lemma_index_is(t, schema@.table, t.len() - 1);
            } else {
                let k = index_of(e.tables, e.default_table)->0;
                assert forall|m: int| 0 <= m < k implies (#[trigger] t[m]).name() != e.default_table by {
                    assert(t[m] == e.tables[m]);
                }
                keyed::lemma_index_is(t, e.default_table, k);
            }
        }
        Ok(())
    }

    /// The zone in which dates without one are read.
    pub fn server_tz(&self) -> (r: &ServerTz)
        ensures
            r@ == self@.zone,
    {
        &self.zone
    }

    /// The configuration.
    pub fn config(&self) -> (r: &CanalClientConfig)
        ensures
            *r == self.config,
    {
        &self.config
    }

    /// The mapping of the default table.
    pub fn fields(&self) -> (r: &TableFields)
        requires
            index_of(self@.tables, self@.default_table) is Some,
        ensures
            r@ == (named(self@.tables, self@.default_table)->0).fields,
    {
        let i = keyed::find(&self.tables, self.default_table.as_str()).unwrap();
        assert(self@.tables[i as int] == self.tables@[i as int]@);
        &self.tables[i].fields
    }

    /// The number of tables.
    pub fn registered_tables(&self) -> (r: usize)
        ensures
            r == self@.tables.len(),
    {
        self.tables.len()
    }

    /// Whether the configuration lists the columns of its one table.
    pub fn is_explicit(&self) -> (r: bool)
        ensures
            r == self@.explicit,
    {
        self.explicit
    }

    /// The position of the table that a row belongs to.
    pub fn state_for(&self, origin: &Option<String>) -> (r: Result<usize, EncoderError>)
        requires
            consistent(self@),
        ensures
            match (r, table_for(self@, opt_view(*origin))) {
                (Ok(i), Ok(id)) => i < self.tables@.len() && index_of(self@.tables, id) == Some(i as int),
                (Err(e), Err(v)) => e@ == v,
                _ => false,
            },
    {
        match origin {
            None => {
                if self.default_table.as_str().is_empty() {
                    return Err(EncoderError::NoSchemaYet);
                }
                Ok(keyed::find(&self.tables, self.default_table.as_str()).unwrap())
            },
            Some(o) => match keyed::find(&self.tables, o.as_str()) {
                Some(i) => Ok(i),
                None => {
                    if self.explicit {
                        if text::same_ignoring_case(o.as_str(), self.default_table.as_str()) {
                            Ok(keyed::find(&self.tables, self.default_table.as_str()).unwrap())
                        } else {
                            Err(
                                EncoderError::ForeignTable {
                                    configured: self.default_table.clone(),
                                    origin: o.clone(),
                                },
                            )
                        }
                    } else {
                        Err(EncoderError::UnregisteredTable(o.clone()))
                    }
                },
            },
        }
    }

    /// The messages of a row of the table at position `i`, given its values as JSON
    /// and ids for the messages.
    pub fn encode_image(
        &mut self,
        i: usize,
        row: &Row,
        image: Vec<Json>,
        first_id: &str,
        second_id: &str,
        now: i64,
    ) -> (r: Vec<CanalMessage>)
        requires
            i < old(self).tables@.len(),
        ensures
            final(self).config == old(self).config,
            (final(self)@, values(r@)) == stepped(
                old(self)@,
                i as int,
                row@,
                json::items_view(image@),
                (first_id@, second_id@),
                now,
            ),
    {
        let ghost e = self@;
        assert(e.tables[i as int] == self.tables@[i as int]@);
        let key = self.tables[i].row_key(&row.fields);
        let r = self.tables[i].encode(row.kind, key.as_str(), image, first_id, second_id, now);
        assert(self@.tables =~= e.tables.update(i as int, self.tables@[i as int]@));
        r
    }

    /// The messages of a row: none, one or two. There is none when a before-image
    /// waits for its after-image, and when an update changed no configured column.
    pub fn encode(&mut self, row: &Row, now: i64) -> (r: Result<Vec<CanalMessage>, EncoderError>)
        requires
            consistent(old(self)@),
        ensures
            consistent(final(self)@),
            final(self).config == old(self).config,
            match (r, table_for(old(self)@, row@.origin)) {
                (Ok(m), Ok(_)) => gives(old(self)@, row@, now, final(self)@, values(m@)),
                (Err(e), Err(v)) => e@ == v && final(self)@ == old(self)@,
                _ => false,
            },
    {
        let ghost e = self@;
        let i = match self.state_for(&row.origin_table) {
            Ok(i) => i,
            Err(x) => {
                return Err(x);
            },
        };
        assert(e.tables[i as int] == self.tables@[i as int]@);
        let image = convert_row(&self.tables[i].zone, &row.fields);
        let first = new_request_id();
        let second = new_request_id();
        let ghost iv = json::items_view(image@);
        let ghost ids = (first@, second@);
        let r = self.encode_image(i, row, image, first.as_str(), second.as_str(), now);
        proof {
            assert(is_request_id(ids.0) && is_request_id(ids.1));
            assert((self@, values(r@)) == stepped(e, i as int, row@, iv, ids, now));
            lemma_step_keeps_tables(e, i as int, row@, iv, ids, now);
        }
        Ok(r)
    }
}

// ---------------------------------------------------------------------------
// Flushing
// ---------------------------------------------------------------------------

/// Whether a table's waiting image is emitted: always, or when it is overdue.
pub open spec fn emits(t: TableV, all: bool, now: i64) -> bool {
    t.pending is Some && (all || overdue(t, now))
}

/// A table after its waiting image was emitted, where it is.
pub open spec fn emptied(t: TableV, all: bool, now: i64) -> TableV {
    if emits(t, all, now) { TableV { pending: None, ..t } } else { t }
}

/// The deletes of the images that are emitted, one per table, with the ids that
/// they are given in order.
pub open spec fn emitted(t: Seq<TableV>, all: bool, now: i64, ids: Seq<Seq<char>>) -> Seq<MessageV>
    decreases t.len(),
{
    if t.len() == 0 {
        Seq::empty()
    } else {
        let h = emitted(t.drop_last(), all, now, ids);
        if emits(t.last(), all, now) {
            h.push(delete_message(t.last(), t.last().pending->0, ids[t.len() - 1]))
        } else {
            h
        }
    }
}

/// Whether `messages` are the deletes of the images that are emitted, each with an
/// id of its own.
pub open spec fn deletes(t: Seq<TableV>, all: bool, now: i64, messages: Seq<MessageV>) -> bool {
    exists|ids: Seq<Seq<char>>|
        ids.len() == t.len() && (forall|i: int| 0 <= i < ids.len() ==> is_request_id(#[trigger] ids[i])) && messages
            == #[trigger] emitted(t, all, now, ids)
}

impl CanalClientEncoder {
    fn emit(&mut self, all: bool, now: i64) -> (r: Vec<CanalMessage>)
        ensures
            final(self).config == old(self).config,
            final(self)@ == (EncoderV {
                tables: old(self)@.tables.map_values(|t: TableV| emptied(t, all, now)),
                ..old(self)@
            }),
            deletes(old(self)@.tables, all, now, values(r@)),
    {
        let ghost e = self@;
        let ghost t = e.tables;
        let ghost mut ids = Seq::<Seq<char>>::empty();
        let mut out: Vec<CanalMessage> = Vec::new();
        let mut i: usize = 0;
        proof {
            assert(t.take(0) =~= Seq::empty());
            assert(values(out@) =~= Seq::<MessageV>::empty());
        }
        while i < self.tables.len()
            invariant
                i <= self.tables@.len(),
                self.tables@.len() == t.len(),
                e == old(self)@,
                t == e.tables,
                self.config == old(self).config,
                self@ == (EncoderV { tables: values(self.tables@), ..e }),
                ids.len() == i,
                forall|k: int| 0 <= k < ids.len() ==> is_request_id(#[trigger] ids[k]),
                forall|k: int| 0 <= k < i ==> #[trigger] self.tables@[k]@ == emptied(t[k], all, now),
                forall|k: int| i <= k < t.len() ==> #[trigger] self.tables@[k]@ == t[k],
                values(out@) == emitted(t.take(i as int), all, now, ids),
            decreases self.tables@.len() - i,
        {
            let id = new_request_id();
            let ghost before = ids;
            proof {
                ids = ids.push(id@);
                assert(is_request_id(id@));
                assert(t.take(i + 1).drop_last() =~= t.take(i as int));
                assert(t.take(i + 1).last() == t[i as int]);
                assert(self.tables@[i as int]@ == t[i as int]);
                lemma_emitted_ids(t.take(i as int), all, now, before, ids);
                assert forall|k: int| 0 <= k < ids.len() implies is_request_id(#[trigger] ids[k]) by {
                    if k < before.len() {
                        assert(ids[k] == before[k]);
                    }
                }
            }
            if all || self.tables[i].is_overdue(now) {
                match self.tables[i].flush(id.as_str()) {
                    Some(m) => {
                        let ghost prev = out@;
                        out.push(m);
                        assert(values(out@) =~= values(prev).push(m@));
                    },
                    None => {},
                }
            }
            i += 1;
        }
        proof {
            assert(t.take(t.len() as int) =~= t);
            assert(self@.tables =~= t.map_values(|x: TableV| emptied(x, all, now)));
            assert(values(out@) == emitted(t, all, now, ids));
        }
        out
    }

    /// The deletes of all images that wait.
    pub fn flush(&mut self, now: i64) -> (r: Vec<CanalMessage>)
        ensures
            consistent(old(self)@) ==> consistent(final(self)@),
            final(self).config == old(self).config,
            final(self)@ == (EncoderV {
                tables: old(self)@.tables.map_values(|t: TableV| emptied(t, true, now)),
                ..old(self)@
            }),
            deletes(old(self)@.tables, true, now, values(r@)),
    {
        let ghost t = self@.tables;
        let r = self.emit(true, now);
        proof {
            lemma_same_names(t, self@.tables, self@.default_table);
        }
        r
    }

    /// The deletes of the images that have waited for too long.
    pub fn expire_pending(&mut self, now: i64) -> (r: Vec<CanalMessage>)
        ensures
            consistent(old(self)@) ==> consistent(final(self)@),
            final(self).config == old(self).config,
            final(self)@ == (EncoderV {
                tables: old(self)@.tables.map_values(|t: TableV| emptied(t, false, now)),
                ..old(self)@
            }),
            deletes(old(self)@.tables, false, now, values(r@)),
    {
        let ghost t = self@.tables;
        let r = self.emit(false, now);
        proof {
            lemma_same_names(t, self@.tables, self@.default_table);
        }
        r
    }
}

proof fn lemma_same_names(a: Seq<TableV>, b: Seq<TableV>, name: Seq<char>)
    requires
        a.len() == b.len(),
        forall|i: int| 0 <= i < a.len() ==> (#[trigger] a[i]).id == b[i].id,
    ensures
        index_of(a, name) == index_of(b, name),
    decreases a.len(),
{
    if a.len() > 0 {
        let c = a.drop_last();
        let d = b.drop_last();
        assert forall|i: int| 0 <= i < c.len() implies (#[trigger] c[i]).id == d[i].id by {
            assert(a[i].id == b[i].id);
        }
        lemma_same_names(c, d, name);
        assert(a[a.len() - 1].id == b[b.len() - 1].id);
    }
}

proof fn lemma_step_keeps_tables(
    e: EncoderV,
    i: int,
    row: RowV,
    image: Seq<JsonV>,
    ids: (Seq<char>, Seq<char>),
    now: i64,
)
    requires
        0 <= i < e.tables.len(),
        consistent(e),
    ensures
        consistent(stepped(e, i, row, image, ids, now).0),
{
    lemma_same_names(e.tables, stepped(e, i, row, image, ids, now).0.tables, e.default_table);
}

proof fn lemma_emitted_ids(t: Seq<TableV>, all: bool, now: i64, a: Seq<Seq<char>>, b: Seq<Seq<char>>)
    requires
        a.len() >= t.len(),
        b.len() >= a.len(),
        forall|i: int| 0 <= i < a.len() ==> #[trigger] b[i] == a[i],
    ensures
        emitted(t, all, now, a) == emitted(t, all, now, b),
    decreases t.len(),
{
    if t.len() > 0 {
        lemma_emitted_ids(t.drop_last(), all, now, a, b);
        assert(b[t.len() - 1] == a[t.len() - 1]);
    }
}

// ---------------------------------------------------------------------------
// Single messages
// ---------------------------------------------------------------------------

/// The kind of change of a message.
pub open spec fn kind_of(v: JsonV) -> RowKind {
    match json::field(v, "eventType"@) {
        Some(JsonV::Str(s)) => if s == "update"@ {
            RowKind::UpdateAfter
        } else if s == "delete"@ {
            RowKind::Delete
        } else {
            RowKind::Insert
        },
        _ => RowKind::Insert,
    }
}

/// The value of a column in a message's data.
pub open spec fn data_value(v: JsonV, name: Seq<char>) -> Option<JsonV> {
    match json::field(v, "data"@) {
        Some(d) => json::field(d, name),
        None => None,
    }
}

/// The row of a message: the values of its data by the names of the columns.
pub open spec fn decoded(v: JsonV, schema: SchemaV) -> RowV {
    RowV {
        kind: kind_of(v),
        fields: schema.columns.map_values(|c: ColumnV| field_or_null(data_value(v, c.name), Reading::Client)),
        origin: None,
    }
}

/// The row of a message's document.
pub fn read_value(v: &Json, schema: &TableSchema) -> (r: Row)
    ensures
        r@ == decoded(v@, schema@),
{
    let kind = match v.get("eventType") {
        Some(t) => match t.as_str() {
            Some(s) => if text::same(s.as_str(), "update") {
                RowKind::UpdateAfter
            } else if text::same(s.as_str(), "delete") {
                RowKind::Delete
            } else {
                RowKind::Insert
            },
            None => RowKind::Insert,
        },
        None => RowKind::Insert,
    };
    let mut fields: Vec<Field> = Vec::new();
    let mut i: usize = 0;
    while i < schema.columns.len()
        invariant
            i <= schema.columns@.len(),
            fields@.len() == i,
            forall|k: int|
                0 <= k < i ==> #[trigger] fields@[k]@ == field_or_null(
                    data_value(v@, schema.columns@[k].name@),
                    Reading::Client,
                ),
        decreases schema.columns@.len() - i,
    {
        let f = match v.get("data") {
            Some(d) => match d.get(schema.columns[i].name.as_str()) {
                Some(x) => json_to_field(x, Reading::Client),
                None => Field::Null,
            },
            None => Field::Null,
        };
        fields.push(f);
        i += 1;
    }
    let r = Row { kind, fields, origin_table: None };
    assert(r@.fields =~= decoded(v@, schema@).fields);
    r
}

/// The one row of a message.
pub fn deserialize(bytes: &[u8], schema: &TableSchema) -> (r: Result<Vec<Row>, FormatError>)
    ensures
        match json::parsed_json(bytes@) {
            Some(v) => r is Ok && rows_view(r->Ok_0@) == seq![decoded(v, schema@)],
            None => r is Err && r->Err_0@ == FormatErrorV::Json,
        },
{
    match json::read_json(bytes) {
        Ok(v) => {
            let row = read_value(&v, schema);
            let ghost w = row@;
            let mut rows: Vec<Row> = Vec::new();
            rows.push(row);
            assert(rows_view(rows@) =~= seq![w]);
            Ok(rows)
        },
        Err(e) => Err(FormatError::Json(e)),
    }
}

/// The event of a kind of change.
pub open spec fn event_text(k: RowKind) -> Seq<char> {
    match k {
        RowKind::Insert => "insert"@,
        RowKind::UpdateAfter => "update"@,
        RowKind::UpdateBefore => "update"@,
        RowKind::Delete => "delete"@,
    }
}

/// The data of a message: every column under its own name.
pub open spec fn data_upto(columns: Seq<ColumnV>, image: Seq<JsonV>, n: nat) -> Seq<(Seq<char>, JsonV)>
    decreases n,
{
    if n == 0 {
        Seq::empty()
    } else {
        with_member(
            data_upto(columns, image, (n - 1) as nat),
            columns[n - 1].name,
            if n - 1 < image.len() { image[n - 1] } else { JsonV::Null },
        )
    }
}

/// The document of a single row, given its values as JSON and an id.
pub open spec fn single_document(schema: SchemaV, row: RowV, image: Seq<JsonV>, id: Seq<char>) -> JsonV {
    let names = match row.origin {
        Some(o) => identity(o),
        None => (Seq::empty(), Seq::empty()),
    };
    document(
        names.0,
        names.1,
        event_text(row.kind),
        id,
        data_upto(schema.columns, image, schema.columns.len()),
        None,
    )
}

fn event_str(k: &RowKind) -> (r: &'static str)
    ensures
        r@ == event_text(*k),
{
    match k {
        RowKind::Insert => "insert",
        RowKind::UpdateAfter => "update",
        RowKind::UpdateBefore => "update",
        RowKind::Delete => "delete",
    }
}

/// The document of a single row, given its values as JSON and an id.
pub fn write_value(schema: &TableSchema, row: &Row, image: &Vec<Json>, id: &str) -> (r: Json)
    ensures
        r@ == single_document(schema@, row@, json::items_view(image@), id@),
{
    let ghost c = schema@.columns;
    let ghost iv = json::items_view(image@);
    let mut data: Vec<(String, Json)> = Vec::new();
    let mut i: usize = 0;
    assert(json::members_view(data@) =~= Seq::empty());
    while i < schema.columns.len()
        invariant
            i <= schema.columns@.len(),
            c == schema@.columns,
            iv == json::items_view(image@),
            json::members_view(data@) == data_upto(c, iv, i as nat),
        decreases schema.columns@.len() - i,
    {
        assert(c[i as int].name == schema.columns@[i as int].name@);
        let v = if i < image.len() {
            assert(iv[i as int] == image@[i as int]@);
            image[i].copy()
        } else {
            Json::Null
        };
        json::put(&mut data, schema.columns[i].name.as_str(), v);
        i += 1;
    }
    let names = match &row.origin_table {
        Some(o) => split_table_identifier(o.as_str()),
        None => (String::new(), String::new()),
    };
    build_document(names.0.as_str(), names.1.as_str(), event_str(&row.kind), id, data, None)
}

/// The message of a single row, without pairing and filtering. Dates are read in
/// the machine's zone.
pub fn serialize(schema: &TableSchema, row: &Row) -> (r: Result<Vec<u8>, FormatError>)
    ensures
        r is Ok,
        is_single(schema@, row@, r->Ok_0@),
{
    let image = convert_row(&ServerTz::Local, &row.fields);
    let id = new_request_id();
    let doc = write_value(schema, row, &image, id.as_str());
    match json::write_json(&doc) {
        Ok(b) => {
            proof {
                let iv = json::items_view(image@);
                assert(is_request_id(id@));
                assert(b@ == json::json_bytes(single_document(schema@, row@, iv, id@)));
            }
            Ok(b)
        },
        Err(e) => Err(FormatError::Json(e)),
    }
}

/// Whether some bytes are a message of a single row.
pub open spec fn is_single(schema: SchemaV, row: RowV, bytes: Seq<u8>) -> bool {
    exists|image: Seq<JsonV>, id: Seq<char>|
        all_become(ZoneV::Local, row.fields, image) && is_request_id(id) && bytes == json::json_bytes(
            #[trigger] single_document(schema, row, image, id),
        )
}

// ---------------------------------------------------------------------------
// What holds of every encoder
// ---------------------------------------------------------------------------

/// A row of one table leaves the images that wait in other tables alone, so that
/// rows of different tables are never paired.
pub proof fn law_tables_are_separate(
    e: EncoderV,
    i: int,
    other: int,
    row: RowV,
    image: Seq<JsonV>,
    ids: (Seq<char>, Seq<char>),
    now: i64,
)
    requires
        0 <= i < e.tables.len(),
        0 <= other < e.tables.len(),
        other != i,
    ensures
        stepped(e, i, row, image, ids, now).0.tables[other] == e.tables[other],
        forall|k: int|
            0 <= k < stepped(e, i, row, image, ids, now).1.len() ==> (#[trigger] stepped(
                e,
                i,
                row,
                image,
                ids,
                now,
            ).1[k]).table == e.tables[i].db_name + "."@ + e.tables[i].table_name,
{
}

/// Registering a schema again changes nothing, and other tables stay.
pub proof fn law_registering_again(e: EncoderV, schema: SchemaV)
    requires
        registered(e, schema) is Ok,
    ensures
        registered(registered(e, schema)->Ok_0, schema) == registered(e, schema),
        forall|i: int| 0 <= i < e.tables.len() ==> registered(e, schema)->Ok_0.tables[i] == #[trigger] e.tables[i],
{
    let r = registered(e, schema)->Ok_0;
    keyed::lemma_index_of(r.tables, schema.table);
    if index_of(e.tables, schema.table) is None {
        let last = r.tables.len() - 1;
        assert(r.tables[last].name() == schema.table);
    }
}

proof fn lemma_merged(c: Seq<ColumnV>, must: Pairs, update: Pairs, name: Seq<char>)
    ensures
        ({
            let m = merged(c, must, update);
            &&& lookup(m.0, name) == if has_column(c, name) && lookup(update, name) is None {
                Some(
                    match lookup(must, name) {
                        Some(t) => t,
                        None => name,
                    },
                )
            } else {
                None
            }
            &&& lookup(m.1, name) == if has_column(c, name) { lookup(update, name) } else { None }
        }),
    decreases c.len(),
{
    if c.len() > 0 {
        let d = c.drop_last();
        lemma_merged(d, must, update, name);
        let h = merged(d, must, update);
        let n = c.last().name;
        let t = match lookup(must, n) {
            Some(t) => t,
            None => n,
        };
        props::lemma_assign(h.0, n, t);
        match lookup(update, n) {
            Some(u) => {
                props::lemma_assign(h.1, n, u);
            },
            None => {},
        }
        assert(has_column(c, name) <==> (has_column(d, name) || n == name)) by {
            if has_column(d, name) {
                let i = choose|i: int| 0 <= i < d.len() && (#[trigger] d[i]).name == name;
                assert(c[i].name == name);
            }
            if n == name {
                assert(c[c.len() - 1].name == name);
            }
            if has_column(c, name) && n != name {
                let i = choose|i: int| 0 <= i < c.len() && (#[trigger] c[i]).name == name;
                assert(d[i].name == name);
            }
        }
    }
}

/// What a mapping resolves to: every column of the schema is mapped, either always
/// or on change; on change exactly when the entry says so; under the name that the
/// entry gives, else under its own. Nothing else is mapped.
pub proof fn law_resolved_mapping(c: Seq<ColumnV>, camel: Seq<char>, f: FieldsV, name: Seq<char>)
    requires
        resolved(c, camel, Some(f)) is Ok,
    ensures
        ({
            let r = resolved(c, camel, Some(f))->Ok_0;
            &&& lookup(r.update, name) == if has_column(c, name) { lookup(f.update, name) } else { None }
            &&& lookup(r.must, name) == if has_column(c, name) && lookup(f.update, name) is None {
                Some(
                    match lookup(f.must, name) {
                        Some(t) => t,
                        None => name,
                    },
                )
            } else {
                None
            }
            &&& f.key.len() == 0 ==> r.key == schema_key(c)
            &&& f.key.len() > 0 ==> r.key == f.key && has_column(c, r.key)
        }),
{
    lemma_merged(c, f.must, f.update, name);
}

/// A mapping that names a column or a key that the schema does not have is refused.
pub proof fn law_unknown_columns_are_refused(c: Seq<ColumnV>, camel: Seq<char>, f: FieldsV, i: int)
    ensures
        0 <= i < f.must.len() && !has_column(c, f.must[i].0) ==> resolved(c, camel, Some(f)) is Err,
        0 <= i < f.update.len() && !has_column(c, f.update[i].0) ==> resolved(c, camel, Some(f)) is Err,
        f.key.len() > 0 && !has_column(c, f.key) ==> resolved(c, camel, Some(f)) is Err,
{
    lemma_unknown_found(c, f.must, i);
    lemma_unknown_found(c, f.update, i);
}

proof fn lemma_unknown_found(c: Seq<ColumnV>, p: Pairs, i: int)
    ensures
        0 <= i < p.len() && !has_column(c, p[i].0) ==> unknown_column(c, p) is Some,
    decreases p.len(),
{
    if p.len() > 0 && i < p.len() - 1 {
        lemma_unknown_found(c, p.drop_last(), i);
    }
}

} // verus!
