//! One table in the canal-client format: its mapping, and how the rows of a change
//! are paired into messages.

use vstd::prelude::*;

use crate::formats::client_values::key_text;
use crate::formats::client_values::field_to_key;
use crate::formats::zone::{ServerTz, ZoneV};
use crate::json;
use crate::json::{with_member, Json, JsonV};
use crate::keyed::{Keyed, Named};
use crate::props::{Pairs, Properties};
use crate::row::{fields_view, Field, FieldV, RowKind};
use crate::text;

verus! {

/// How long a before-image waits for its after-image, in milliseconds.
pub const PAIRING_WINDOW_MS: i64 = 2_000;

/// The members of an object.
pub type MembersV = Seq<(Seq<char>, JsonV)>;

/// How the columns of a table are mapped.
#[derive(Debug)]
pub struct TableFields {
    /// The column whose value is the partition key.
    pub key: String,
    /// Columns with their target fields that are always mapped.
    pub must: Properties,
    /// Columns with their target fields that are mapped when they changed.
    pub update: Properties,
}

/// The mathematical value of a mapping.
#[verifier::ext_equal]
pub struct FieldsV {
    pub key: Seq<char>,
    pub must: Pairs,
    pub update: Pairs,
}

impl View for TableFields {
    type V = FieldsV;

    open spec fn view(&self) -> FieldsV {
        FieldsV { key: self.key@, must: self.must@, update: self.update@ }
    }
}

impl Default for TableFields {
    fn default() -> (r: Self)
        ensures
            r@ == (FieldsV { key: Seq::empty(), must: Seq::empty(), update: Seq::empty() }),
    {
        TableFields { key: String::new(), must: Properties::new(), update: Properties::new() }
    }
}

impl TableFields {
    /// A copy.
    pub fn copy(&self) -> (r: Self)
        ensures
            r@ == self@,
    {
        TableFields { key: self.key.clone(), must: self.must.copy(), update: self.update.copy() }
    }
}

/// A message of the format with the table that it is about.
#[derive(Debug)]
pub struct CanalMessage {
    /// `database.table` of the row.
    pub table: String,
    /// The partition key.
    pub key: String,
    /// The JSON text.
    pub payload: String,
}

/// The mathematical value of a message.
#[verifier::ext_equal]
pub struct MessageV {
    pub table: Seq<char>,
    pub key: Seq<char>,
    pub payload: Seq<char>,
}

impl View for CanalMessage {
    type V = MessageV;

    open spec fn view(&self) -> MessageV {
        MessageV { table: self.table@, key: self.key@, payload: self.payload@ }
    }
}

/// A before-image that waits for its after-image.
#[derive(Debug)]
pub struct PendingDelete {
    pub key: String,
    /// The values of the row, as JSON.
    pub values: Vec<Json>,
    /// What a delete message would carry.
    pub data: Vec<(String, Json)>,
    /// When the image came, in milliseconds.
    pub since: i64,
}

/// The mathematical value of a before-image that waits.
#[verifier::ext_equal]
pub struct PendingV {
    pub key: Seq<char>,
    pub values: Seq<JsonV>,
    pub data: MembersV,
    pub since: i64,
}

impl View for PendingDelete {
    type V = PendingV;

    open spec fn view(&self) -> PendingV {
        PendingV {
            key: self.key@,
            values: json::items_view(self.values@),
            data: json::members_view(self.data@),
            since: self.since,
        }
    }
}

/// A table: its identity, its mapping, its columns, and the image that waits.
#[derive(Debug)]
pub struct TableState {
    /// The identifier under which the table is registered.
    pub id: String,
    pub db_name: String,
    pub table_name: String,
    pub fields: TableFields,
    pub zone: ServerTz,
    /// The columns in the order of a row's fields.
    pub columns: Vec<String>,
    pub pending: Option<PendingDelete>,
}

/// The mathematical value of a table.
#[verifier::ext_equal]
pub struct TableV {
    pub id: Seq<char>,
    pub db_name: Seq<char>,
    pub table_name: Seq<char>,
    pub fields: FieldsV,
    pub zone: ZoneV,
    pub columns: Seq<Seq<char>>,
    pub pending: Option<PendingV>,
}

impl View for TableState {
    type V = TableV;

    open spec fn view(&self) -> TableV {
        TableV {
            id: self.id@,
            db_name: self.db_name@,
            table_name: self.table_name@,
            fields: self.fields@,
            zone: self.zone@,
            columns: text::views(self.columns@),
            pending: match self.pending {
                Some(p) => Some(p@),
                None => None,
            },
        }
    }
}

impl Named for TableV {
    open spec fn name(self) -> Seq<char> {
        self.id
    }
}

impl Keyed for TableState {
    fn is_named(&self, name: &str) -> (r: bool) {
        text::same(self.id.as_str(), name)
    }
}

// ---------------------------------------------------------------------------
// Mapping
// ---------------------------------------------------------------------------

/// The last position of a column.
pub open spec fn position(columns: Seq<Seq<char>>, name: Seq<char>) -> Option<int>
    decreases columns.len(),
{
    if columns.len() == 0 {
        None
    } else if columns.last() == name {
        Some(columns.len() - 1)
    } else {
        position(columns.drop_last(), name)
    }
}

/// The value of a column in an image.
pub open spec fn value_in(columns: Seq<Seq<char>>, values: Seq<JsonV>, name: Seq<char>) -> Option<JsonV> {
    match position(columns, name) {
        Some(i) => if i < values.len() { Some(values[i]) } else { None },
        None => None,
    }
}

/// An object with the mapped values of an image added to it.
pub open spec fn mapped_onto(base: MembersV, columns: Seq<Seq<char>>, pairs: Pairs, values: Seq<JsonV>) -> MembersV
    decreases pairs.len(),
{
    if pairs.len() == 0 {
        base
    } else {
        let h = mapped_onto(base, columns, pairs.drop_last(), values);
        match value_in(columns, values, pairs.last().0) {
            Some(v) => with_member(h, pairs.last().1, v),
            None => h,
        }
    }
}

/// Whether a column differs between two images.
pub open spec fn differs(columns: Seq<Seq<char>>, values: Seq<JsonV>, old: Seq<JsonV>, name: Seq<char>) -> bool {
    match (value_in(columns, old, name), value_in(columns, values, name)) {
        (Some(a), Some(b)) => !json::same_value(a, b),
        (None, None) => false,
        _ => true,
    }
}

/// An object with the mapped values that differ from the old image added to it.
pub open spec fn changed_onto(
    base: MembersV,
    columns: Seq<Seq<char>>,
    pairs: Pairs,
    values: Seq<JsonV>,
    old: Seq<JsonV>,
) -> MembersV
    decreases pairs.len(),
{
    if pairs.len() == 0 {
        base
    } else {
        let h = changed_onto(base, columns, pairs.drop_last(), values, old);
        let col = pairs.last().0;
        match value_in(columns, values, col) {
            Some(v) => if differs(columns, values, old, col) { with_member(h, pairs.last().1, v) } else { h },
            None => h,
        }
    }
}

/// Whether a column that is always mapped has changed.
pub open spec fn must_changed(columns: Seq<Seq<char>>, pairs: Pairs, values: Seq<JsonV>, old: Seq<JsonV>) -> bool {
    exists|i: int|
        0 <= i < pairs.len() && value_in(columns, values, (#[trigger] pairs[i]).0) is Some && differs(
            columns,
            values,
            old,
            pairs[i].0,
        )
}

/// Whether a column that is mapped on change has changed.
pub open spec fn update_changed(columns: Seq<Seq<char>>, pairs: Pairs, values: Seq<JsonV>, old: Seq<JsonV>) -> bool {
    exists|i: int| 0 <= i < pairs.len() && differs(columns, values, old, (#[trigger] pairs[i]).0)
}

/// Whether an update changed a configured column.
pub open spec fn is_change(t: TableV, values: Seq<JsonV>, old: Seq<JsonV>) -> bool {
    must_changed(t.columns, t.fields.must, values, old) || update_changed(t.columns, t.fields.update, values, old)
}

/// What an insert carries: all mapped columns.
pub open spec fn full_image(t: TableV, values: Seq<JsonV>) -> MembersV {
    mapped_onto(
        mapped_onto(Seq::empty(), t.columns, t.fields.must, values),
        t.columns,
        t.fields.update,
        values,
    )
}

/// What an update carries: the columns that are always mapped, and those that
/// changed.
pub open spec fn changed_image(t: TableV, values: Seq<JsonV>, old: Seq<JsonV>) -> MembersV {
    changed_onto(
        mapped_onto(Seq::empty(), t.columns, t.fields.must, values),
        t.columns,
        t.fields.update,
        values,
        old,
    )
}

/// What a delete carries: the columns that are always mapped.
pub open spec fn delete_image(t: TableV, values: Seq<JsonV>) -> MembersV {
    mapped_onto(Seq::empty(), t.columns, t.fields.must, values)
}

/// The document of a message.
pub open spec fn document(
    db: Seq<char>,
    table: Seq<char>,
    event: Seq<char>,
    id: Seq<char>,
    data: MembersV,
    old: Option<MembersV>,
) -> JsonV {
    let o = with_member(Seq::empty(), "requestId"@, JsonV::Str(id));
    let o = with_member(o, "dbName"@, JsonV::Str(text::lower_text(db)));
    let o = with_member(o, "tableName"@, JsonV::Str(text::lower_text(table)));
    let o = with_member(o, "eventType"@, JsonV::Str(event));
    let o = with_member(o, "data"@, JsonV::Object(data));
    JsonV::Object(
        match old {
            Some(m) => with_member(o, "oldData"@, JsonV::Object(m)),
            None => o,
        },
    )
}

/// A message of a table.
pub open spec fn message(
    t: TableV,
    event: Seq<char>,
    key: Seq<char>,
    id: Seq<char>,
    data: MembersV,
    old: Option<MembersV>,
) -> MessageV {
    MessageV {
        table: t.db_name + "."@ + t.table_name,
        key,
        payload: json::json_text(document(t.db_name, t.table_name, event, id, data, old)),
    }
}

/// The delete message of a before-image that waited in vain.
pub open spec fn delete_message(t: TableV, p: PendingV, id: Seq<char>) -> MessageV {
    message(t, "delete"@, p.key, id, p.data, None)
}

/// The message of an image that is paired with no other: an insert, or an update
/// whose before-image is not known.
pub open spec fn lone_message(t: TableV, kind: RowKind, key: Seq<char>, values: Seq<JsonV>, id: Seq<char>) -> MessageV {
    message(
        t,
        if kind is UpdateAfter { "update"@ } else { "insert"@ },
        key,
        id,
        full_image(t, values),
        None,
    )
}

/// The message of a before-image with its after-image, unless no configured column
/// changed and the mapping has columns that are mapped on change.
pub open spec fn update_messages(t: TableV, p: PendingV, key: Seq<char>, values: Seq<JsonV>, id: Seq<char>) -> Seq<
    MessageV,
> {
    if t.fields.update.len() > 0 && !is_change(t, values, p.values) {
        Seq::empty()
    } else {
        seq![
            message(
                t,
                "update"@,
                key,
                id,
                changed_image(t, values, p.values),
                Some(full_image(t, p.values)),
            ),
        ]
    }
}

/// What an image of a row makes of a table, and the messages that it gives. A
/// before-image waits; an after-image with its key is paired with it.
pub open spec fn encoded(
    t: TableV,
    kind: RowKind,
    key: Seq<char>,
    values: Seq<JsonV>,
    ids: (Seq<char>, Seq<char>),
    now: i64,
) -> (TableV, Seq<MessageV>) {
    let idle = TableV { pending: None, ..t };
    if kind is Delete || kind is UpdateBefore {
        (
            TableV {
                pending: Some(PendingV { key, values, data: delete_image(t, values), since: now }),
                ..t
            },
            match t.pending {
                Some(p) => seq![delete_message(t, p, ids.0)],
                None => Seq::empty(),
            },
        )
    } else {
        match t.pending {
            Some(p) => if p.key == key {
                (idle, update_messages(t, p, key, values, ids.0))
            } else {
                (idle, seq![delete_message(t, p, ids.0), lone_message(t, kind, key, values, ids.1)])
            },
            None => (idle, seq![lone_message(t, kind, key, values, ids.0)]),
        }
    }
}

/// The partition key of a row.
pub open spec fn row_key(t: TableV, fields: Seq<FieldV>) -> Seq<char> {
    match position(t.columns, t.fields.key) {
        Some(i) => if i < fields.len() { key_text(fields[i]) } else { Seq::empty() },
        None => Seq::empty(),
    }
}

fn find_column(columns: &Vec<String>, name: &str) -> (r: Option<usize>)
    ensures
        match r {
            Some(i) => i < columns@.len() && position(text::views(columns@), name@) == Some(i as int),
            None => position(text::views(columns@), name@) is None,
        },
{
    let ghost c = text::views(columns@);
    let mut i: usize = columns.len();
    assert(c.take(c.len() as int) =~= c);
    while i > 0
        invariant
            i <= columns@.len(),
            c == text::views(columns@),
            position(c, name@) == position(c.take(i as int), name@),
        decreases i,
    {
        proof {
            assert(c.take(i as int).last() == columns@[i - 1]@);
            assert(c.take(i as int).drop_last() =~= c.take(i - 1));
        }
        if text::same(columns[i - 1].as_str(), name) {
            return Some(i - 1);
        }
        i -= 1;
    }
    assert(c.take(0).len() == 0);
    None
}

fn find_value<'a>(columns: &Vec<String>, values: &'a Vec<Json>, name: &str) -> (r: Option<&'a Json>)
    ensures
        match r {
            Some(v) => value_in(text::views(columns@), json::items_view(values@), name@) == Some(v@),
            None => value_in(text::views(columns@), json::items_view(values@), name@) is None,
        },
{
    match find_column(columns, name) {
        Some(i) => {
            if i < values.len() {
                assert(json::items_view(values@)[i as int] == values@[i as int]@);
                Some(&values[i])
            } else {
                None
            }
        },
        None => None,
    }
}

fn map_onto(base: &mut Vec<(String, Json)>, columns: &Vec<String>, pairs: &Properties, values: &Vec<Json>)
    ensures
        json::members_view(final(base)@) == mapped_onto(
            json::members_view(old(base)@),
            text::views(columns@),
            pairs@,
            json::items_view(values@),
        ),
{
    let ghost b = json::members_view(base@);
    let ghost c = text::views(columns@);
    let ghost v = json::items_view(values@);
    let ghost p = pairs@;
    let mut i: usize = 0;
    assert(p.take(0) =~= Seq::empty());
    while i < pairs.len()
        invariant
            i <= p.len(),
            p == pairs@,
            c == text::views(columns@),
            v == json::items_view(values@),
            json::members_view(base@) == mapped_onto(b, c, p.take(i as int), v),
        decreases p.len() - i,
    {
        let e = pairs.at(i);
        proof {
            assert(p.take(i + 1).drop_last() =~= p.take(i as int));
            assert(p.take(i + 1).last() == (e.0@, e.1@));
        }
        match find_value(columns, values, e.0.as_str()) {
            Some(x) => {
                json::put(base, e.1.as_str(), x.copy());
            },
            None => {},
        }
        i += 1;
    }
    assert(p.take(p.len() as int) =~= p);
}

fn column_differs(columns: &Vec<String>, values: &Vec<Json>, old: &Vec<Json>, name: &str) -> (r: bool)
    ensures
        r == differs(text::views(columns@), json::items_view(values@), json::items_view(old@), name@),
{
    match (find_value(columns, old, name), find_value(columns, values, name)) {
        (Some(a), Some(b)) => !a.same(b),
        (None, None) => false,
        _ => true,
    }
}

fn map_changed(
    base: &mut Vec<(String, Json)>,
    columns: &Vec<String>,
    pairs: &Properties,
    values: &Vec<Json>,
    old_values: &Vec<Json>,
)
    ensures
        json::members_view(final(base)@) == changed_onto(
            json::members_view(old(base)@),
            text::views(columns@),
            pairs@,
            json::items_view(values@),
            json::items_view(old_values@),
        ),
{
    let ghost b = json::members_view(base@);
    let ghost c = text::views(columns@);
    let ghost v = json::items_view(values@);
    let ghost o = json::items_view(old_values@);
    let ghost p = pairs@;
    let mut i: usize = 0;
    assert(p.take(0) =~= Seq::empty());
    while i < pairs.len()
        invariant
            i <= p.len(),
            p == pairs@,
            c == text::views(columns@),
            v == json::items_view(values@),
            o == json::items_view(old_values@),
            json::members_view(base@) == changed_onto(b, c, p.take(i as int), v, o),
        decreases p.len() - i,
    {
        let e = pairs.at(i);
        proof {
            assert(p.take(i + 1).drop_last() =~= p.take(i as int));
            assert(p.take(i + 1).last() == (e.0@, e.1@));
        }
        match find_value(columns, values, e.0.as_str()) {
            Some(x) => {
                if column_differs(columns, values, old_values, e.0.as_str()) {
                    json::put(base, e.1.as_str(), x.copy());
                }
            },
            None => {},
        }
        i += 1;
    }
    assert(p.take(p.len() as int) =~= p);
}

fn any_change(
    columns: &Vec<String>,
    pairs: &Properties,
    values: &Vec<Json>,
    old_values: &Vec<Json>,
    present: bool,
) -> (r: bool)
    ensures
        present ==> r == must_changed(
            text::views(columns@),
            pairs@,
            json::items_view(values@),
            json::items_view(old_values@),
        ),
        !present ==> r == update_changed(
            text::views(columns@),
            pairs@,
            json::items_view(values@),
            json::items_view(old_values@),
        ),
{
    let ghost c = text::views(columns@);
    let ghost v = json::items_view(values@);
    let ghost o = json::items_view(old_values@);
    let ghost p = pairs@;
    let mut i: usize = 0;
    while i < pairs.len()
        invariant
            i <= p.len(),
            p == pairs@,
            c == text::views(columns@),
            v == json::items_view(values@),
            o == json::items_view(old_values@),
            forall|k: int|
                0 <= k < i ==> !((!present || value_in(c, v, (#[trigger] p[k]).0) is Some) && differs(c, v, o, p[k].0)),
        decreases p.len() - i,
    {
        let e = pairs.at(i);
        assert(p[i as int] == (e.0@, e.1@));
        let counted: bool = !present || find_value(columns, values, e.0.as_str()).is_some();
        if counted && column_differs(columns, values, old_values, e.0.as_str()) {
            return true;
        }
        i += 1;
    }
    false
}

/// The document of a message.
pub(crate) fn build_document(
    db: &str,
    table: &str,
    event: &str,
    id: &str,
    data: Vec<(String, Json)>,
    old_data: Option<Vec<(String, Json)>>,
) -> (r: Json)
    ensures
        r@ == document(
            db@,
            table@,
            event@,
            id@,
            json::members_view(data@),
            match old_data {
                Some(m) => Some(json::members_view(m@)),
                None => None,
            },
        ),
{
    let mut o: Vec<(String, Json)> = Vec::new();
    let image = Json::Object(data);
    proof {
        assert(json::members_view(o@) =~= Seq::empty());
        json::lemma_json_parts(image);
    }
    json::put(&mut o, "requestId", Json::Str(text::owned(id)));
    json::put(&mut o, "dbName", Json::Str(text::to_lower(db)));
    json::put(&mut o, "tableName", Json::Str(text::to_lower(table)));
    json::put(&mut o, "eventType", Json::Str(text::owned(event)));
    json::put(&mut o, "data", image);
    match old_data {
        Some(m) => {
            let before = Json::Object(m);
            proof {
                json::lemma_json_parts(before);
            }
            json::put(&mut o, "oldData", before);
        },
        None => {},
    }
    let r = Json::Object(o);
    proof {
        json::lemma_json_parts(r);
    }
    r
}

impl TableState {
    /// The partition key of a row.
    pub fn row_key(&self, fields: &Vec<Field>) -> (r: String)
        ensures
            r@ == row_key(self@, fields_view(fields@)),
    {
        match find_column(&self.columns, self.fields.key.as_str()) {
            Some(i) => {
                if i < fields.len() {
                    assert(fields_view(fields@)[i as int] == fields@[i as int]@);
                    field_to_key(&fields[i])
                } else {
                    String::new()
                }
            },
            None => String::new(),
        }
    }

    fn full(&self, values: &Vec<Json>) -> (r: Vec<(String, Json)>)
        ensures
            json::members_view(r@) == full_image(self@, json::items_view(values@)),
    {
        let mut out: Vec<(String, Json)> = Vec::new();
        assert(json::members_view(out@) =~= Seq::empty());
        map_onto(&mut out, &self.columns, &self.fields.must, values);
        map_onto(&mut out, &self.columns, &self.fields.update, values);
        out
    }

    fn changed(&self, values: &Vec<Json>, old_values: &Vec<Json>) -> (r: Vec<(String, Json)>)
        ensures
            json::members_view(r@) == changed_image(
                self@,
                json::items_view(values@),
                json::items_view(old_values@),
            ),
    {
        let mut out: Vec<(String, Json)> = Vec::new();
        assert(json::members_view(out@) =~= Seq::empty());
        map_onto(&mut out, &self.columns, &self.fields.must, values);
        map_changed(&mut out, &self.columns, &self.fields.update, values, old_values);
        out
    }

    fn build_message(
        &self,
        event: &str,
        key: &str,
        id: &str,
        data: Vec<(String, Json)>,
        old_data: Option<Vec<(String, Json)>>,
    ) -> (r: CanalMessage)
        ensures
            r@ == message(
                self@,
                event@,
                key@,
                id@,
                json::members_view(data@),
                match old_data {
                    Some(m) => Some(json::members_view(m@)),
                    None => None,
                },
            ),
    {
        let doc = build_document(self.db_name.as_str(), self.table_name.as_str(), event, id, data, old_data);
        CanalMessage {
            table: text::join3(self.db_name.as_str(), ".", self.table_name.as_str()),
            key: text::owned(key),
            payload: json::json_string(&doc),
        }
    }

    /// The messages of an image of a row, given its values as JSON and ids for the
    /// messages: none, one or two.
    pub fn encode(
        &mut self,
        kind: RowKind,
        key: &str,
        values: Vec<Json>,
        first_id: &str,
        second_id: &str,
        now: i64,
    ) -> (r: Vec<CanalMessage>)
        ensures
            (final(self)@, crate::keyed::values(r@)) == encoded(
                old(self)@,
                kind,
                key@,
                json::items_view(values@),
                (first_id@, second_id@),
                now,
            ),
    {
        let ghost t = self@;
        let ghost vv = json::items_view(values@);
        let mut waiting: Option<PendingDelete> = None;
        std::mem::swap(&mut self.pending, &mut waiting);
        let mut out: Vec<CanalMessage> = Vec::new();
        let ghost none = crate::keyed::values(out@);
        assert(none =~= Seq::<MessageV>::empty());
        match kind {
            RowKind::Delete | RowKind::UpdateBefore => {
                if let Some(p) = waiting {
                    let m = self.build_message("delete", p.key.as_str(), first_id, p.data, None);
                    out.push(m);
                    assert(crate::keyed::values(out@) =~= seq![m@]);
                }
                let mut data: Vec<(String, Json)> = Vec::new();
                assert(json::members_view(data@) =~= Seq::empty());
                map_onto(&mut data, &self.columns, &self.fields.must, &values);
                self.pending = Some(PendingDelete { key: text::owned(key), values, data, since: now });
            },
            RowKind::Insert | RowKind::UpdateAfter => {
                let event = if kind == RowKind::UpdateAfter { "update" } else { "insert" };
                match waiting {
                    Some(p) => {
                        if text::same(p.key.as_str(), key) {
                            let touched: bool = any_change(&self.columns, &self.fields.must, &values, &p.values, true)
                                || any_change(&self.columns, &self.fields.update, &values, &p.values, false);
                            if self.fields.update.is_empty() || touched {
                                let data = self.changed(&values, &p.values);
                                let before = self.full(&p.values);
                                let m = self.build_message("update", key, first_id, data, Some(before));
                                out.push(m);
                                assert(crate::keyed::values(out@) =~= seq![m@]);
                            }
                        } else {
                            let m = self.build_message("delete", p.key.as_str(), first_id, p.data, None);
                            let data = self.full(&values);
                            let n = self.build_message(event, key, second_id, data, None);
                            out.push(m);
                            out.push(n);
                            assert(crate::keyed::values(out@) =~= seq![m@, n@]);
                        }
                    },
                    None => {
                        let data = self.full(&values);
                        let m = self.build_message(event, key, first_id, data, None);
                        out.push(m);
                        assert(crate::keyed::values(out@) =~= seq![m@]);
                    },
                }
            },
        }
        out
    }

    /// The delete of an image that waits, when there is one.
    pub fn flush(&mut self, id: &str) -> (r: Option<CanalMessage>)
        ensures
            final(self)@ == (TableV { pending: None, ..old(self)@ }),
            match (r, old(self)@.pending) {
                (Some(m), Some(p)) => m@ == delete_message(old(self)@, p, id@),
                (None, None) => true,
                _ => false,
            },
    {
        let mut waiting: Option<PendingDelete> = None;
        std::mem::swap(&mut self.pending, &mut waiting);
        match waiting {
            Some(p) => Some(self.build_message("delete", p.key.as_str(), id, p.data, None)),
            None => None,
        }
    }

    /// Whether the image that waits has waited for too long.
    pub fn is_overdue(&self, now: i64) -> (r: bool)
        ensures
            r == overdue(self@, now),
    {
        match &self.pending {
            Some(p) => now as i128 - p.since as i128 >= PAIRING_WINDOW_MS as i128,
            None => false,
        }
    }
}

/// Whether the image that waits has waited for too long.
pub open spec fn overdue(t: TableV, now: i64) -> bool {
    match t.pending {
        Some(p) => now - p.since >= PAIRING_WINDOW_MS,
        None => false,
    }
}

// ---------------------------------------------------------------------------
// What holds of every table
// ---------------------------------------------------------------------------

/// An image gives at most two messages; only a before-image makes the table wait;
/// and the table's identity, mapping and columns stay.
pub proof fn law_messages_of_an_image(
    t: TableV,
    kind: RowKind,
    key: Seq<char>,
    values: Seq<JsonV>,
    ids: (Seq<char>, Seq<char>),
    now: i64,
)
    ensures
        ({
            let r = encoded(t, kind, key, values, ids, now);
            &&& r.1.len() <= 2
            &&& r.0 == (TableV { pending: r.0.pending, ..t })
            &&& r.0.pending is Some <==> (kind is Delete || kind is UpdateBefore)
        }),
{
}

/// A before-image that waits is not lost: the next image gives its delete, or is
/// the after-image with the same key. Deletes are never filtered.
pub proof fn law_deletes_are_never_filtered(
    t: TableV,
    kind: RowKind,
    key: Seq<char>,
    values: Seq<JsonV>,
    ids: (Seq<char>, Seq<char>),
    now: i64,
)
    requires
        t.pending is Some,
    ensures
        ({
            let p = t.pending->0;
            let m = encoded(t, kind, key, values, ids, now).1;
            ||| m.len() > 0 && m[0] == delete_message(t, p, ids.0)
            ||| (kind is Insert || kind is UpdateAfter) && p.key == key
        }),
{
}

/// An update is filtered exactly when the mapping has columns that are mapped on
/// change and no configured column changed.
pub proof fn law_filtered_updates(
    t: TableV,
    kind: RowKind,
    key: Seq<char>,
    values: Seq<JsonV>,
    ids: (Seq<char>, Seq<char>),
    now: i64,
)
    requires
        kind is Insert || kind is UpdateAfter,
    ensures
        encoded(t, kind, key, values, ids, now).1.len() == 0 <==> (t.pending is Some && t.pending->0.key == key
            && t.fields.update.len() > 0 && !is_change(t, values, t.pending->0.values)),
{
}

} // verus!
