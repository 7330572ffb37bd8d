use seatunnel::factory_attrs::{AttrToken, Attrs, FactoryKind};
use seatunnel::row::{ColumnDef, ColumnType, Field, Row, RowKind, TableSchema};
use seatunnel::transforms::{
    FanoutMode, FanoutTransform, FieldMapper, FilterPredicate, FilterTransform, MapTransform, Operator,
    RenameTransform, SelectTransform, SqlTransform, TransformPipeline,
};

fn make_schema() -> TableSchema {
    TableSchema::new(
        "test".to_string(),
        vec![
            ColumnDef::new("id".to_string(), ColumnType::Int64),
            ColumnDef::new("name".to_string(), ColumnType::String),
            ColumnDef::new("active".to_string(), ColumnType::Bool),
        ],
    )
}

struct EvenIdFilter;

impl FilterPredicate for EvenIdFilter {
    fn test(&self, row: &Row) -> bool {
        row.get(0).as_i64().map(|v| v % 2 == 0).unwrap_or(false)
    }
}

struct DoubleIdMapper;

impl FieldMapper for DoubleIdMapper {
    fn map(&self, mut row: Row) -> Row {
        if let Some(v) = row.get(0).as_i64() {
            row.set(0, Field::Int64(v * 2));
        }
        row
    }
}

#[test]
fn test_sql_transform_creation() {
    let t = SqlTransform::new("SELECT * FROM users WHERE active = true", "users");
    assert_eq!(t.table_name, "users");
}

#[test]
fn test_filter_transform() {
    let t = FilterTransform::new(EvenIdFilter);
    let mut row1 = Row::new(RowKind::Insert, 3);
    row1.set(0, Field::Int64(2));
    let mut row2 = Row::new(RowKind::Insert, 3);
    row2.set(0, Field::Int64(3));
    assert_eq!(t.process(row1).len(), 1);
    assert_eq!(t.process(row2).len(), 0);
}

#[test]
fn test_map_transform() {
    let t = MapTransform::new(DoubleIdMapper);
    let mut row = Row::new(RowKind::Insert, 3);
    row.set(0, Field::Int64(7));
    let result = t.process(row);
    assert_eq!(result.len(), 1);
    assert_eq!(*result[0].get(0), Field::Int64(14));
}

#[test]
fn test_fanout_all() {
    let t = FanoutTransform::new(FanoutMode::All);
    let row = Row::new(RowKind::Insert, 1);
    let result = t.process(row);
    assert_eq!(result.len(), 3);
}

#[test]
fn test_fanout_n() {
    let t = FanoutTransform::new(FanoutMode::N { count: 5 });
    let row = Row::new(RowKind::Insert, 1);
    let result = t.process(row);
    assert_eq!(result.len(), 3);
}

#[test]
fn test_fanout_first() {
    let t = FanoutTransform::new(FanoutMode::First { index: 0 });
    let row = Row::new(RowKind::Insert, 1);
    let result = t.process(row);
    assert_eq!(result.len(), 1);
}

#[test]
fn test_rename_transform() {
    let mut t = RenameTransform::new(vec![("id".to_string(), "user_id".to_string())]);
    t.set_input_schema(make_schema());
    let schema = t.get_output_schema().unwrap();
    assert_eq!(schema.columns[0].name, "user_id");
    assert_eq!(schema.columns[1].name, "name");
}

#[test]
fn test_select_transform() {
    let mut t = SelectTransform::new(vec![1, 0]);
    t.set_input_schema(make_schema());
    let schema = t.get_output_schema().unwrap();
    assert_eq!(schema.columns.len(), 2);
    assert_eq!(schema.columns[0].name, "name");
    assert_eq!(schema.columns[1].name, "id");

    let mut row = Row::new(RowKind::Insert, 3);
    row.set(0, Field::Int64(42));
    row.set(1, Field::String("test".to_string()));
    let result = t.process(row);
    assert_eq!(result.len(), 1);
    assert_eq!(*result[0].get(0), Field::String("test".to_string()));
    assert_eq!(*result[0].get(1), Field::Int64(42));
}

#[test]
fn test_pipeline() {
    let mut pipeline = TransformPipeline::new();
    pipeline.add(Operator::Filter(FilterTransform::new(EvenIdFilter)));
    pipeline.add(Operator::Mapping(MapTransform::new(DoubleIdMapper)));

    let mut row = Row::new(RowKind::Insert, 3);
    row.set(0, Field::Int64(4));
    let result = pipeline.process(row);
    assert_eq!(result.len(), 1);
    assert_eq!(*result[0].get(0), Field::Int64(8));
}

#[test]
fn test_schema_generation() {
    let mut t = SelectTransform::new(vec![0]);
    t.set_input_schema(make_schema());
    let schema = t.get_output_schema().unwrap();
    assert_eq!(schema.table_identifier, "test");
    assert_eq!(schema.columns.len(), 1);
    assert_eq!(schema.columns[0].name, "id");
    assert_eq!(schema.columns[0].column_type, ColumnType::Int64);
}

#[test]
fn a_pipeline_ends_where_no_row_is_left() {
    let mut pipeline = TransformPipeline::new();
    pipeline.add(Operator::Filter(FilterTransform::new(EvenIdFilter)));
    pipeline.add(Operator::Fanout(FanoutTransform::new(FanoutMode::N { count: 2 })));
    pipeline.add(Operator::Mapping(MapTransform::new(DoubleIdMapper)));
    let mut odd = Row::new(RowKind::Insert, 1);
    odd.set(0, Field::Int64(3));
    assert!(pipeline.process(odd).is_empty());
    let mut even = Row::new(RowKind::Insert, 1);
    even.set(0, Field::Int64(6));
    let rows = pipeline.process(even);
    assert_eq!(rows.len(), 2);
    assert!(rows.iter().all(|r| *r.get(0) == Field::Int64(12)));
}

#[test]
fn columns_beyond_a_row_are_left_out() {
    let t = SelectTransform::new(vec![0, 9]);
    let mut row = Row::new(RowKind::Delete, 1);
    row.set(0, Field::Bool(true));
    let rows = t.process(row);
    assert_eq!(rows.len(), 1);
    assert_eq!(rows[0].kind, RowKind::Delete);
    assert_eq!(*rows[0].get(0), Field::Bool(true));
}

#[test]
fn test_parse_full_attrs() {
    let ts: proc_macro2::TokenStream = r#"id = "fake", category = "source""#.parse().unwrap();
    let attrs = Attrs::parse(ts);
    assert_eq!(attrs.id, Some("fake".to_string()));
    assert_eq!(attrs.category, Some("source".to_string()));
}

#[test]
fn test_parse_id_only() {
    let ts: proc_macro2::TokenStream = r#"id = "kafka""#.parse().unwrap();
    let attrs = Attrs::parse(ts);
    assert_eq!(attrs.id, Some("kafka".to_string()));
    assert_eq!(attrs.category, None);
}

#[test]
fn test_parse_empty() {
    let ts: proc_macro2::TokenStream = "".parse().unwrap();
    let attrs = Attrs::parse(ts);
    assert_eq!(attrs.id, None);
    assert_eq!(attrs.category, None);
}

#[test]
fn test_parse_category_only() {
    let ts: proc_macro2::TokenStream = r#"category = "sink""#.parse().unwrap();
    let attrs = Attrs::parse(ts);
    assert_eq!(attrs.id, None);
    assert_eq!(attrs.category, Some("sink".to_string()));
}

fn arguments(text: &str) -> Attrs {
    Attrs::parse(text.parse().unwrap())
}

#[test]
fn a_literal_in_a_group_sets_nothing() {
    let hidden = proc_macro2::Group::new(proc_macro2::Delimiter::None, r#""x""#.parse().unwrap());
    let mut stream: proc_macro2::TokenStream = r#"category = "c", id ="#.parse().unwrap();
    stream.extend([proc_macro2::TokenTree::Group(hidden)]);
    let attrs = Attrs::parse(stream);
    assert_eq!(attrs.id, None);
    assert_eq!(attrs.category, Some("c".to_string()));
}

#[test]
fn tokens_are_read_as_they_are_given() {
    let tokens = vec![
        AttrToken::Group,
        AttrToken::Ident("id".to_string()),
        AttrToken::Punct('='),
        AttrToken::Literal("\"a\"".to_string()),
        AttrToken::Ident("id".to_string()),
        AttrToken::Punct('='),
        AttrToken::Literal("7".to_string()),
        AttrToken::Ident("category".to_string()),
        AttrToken::Punct('='),
    ];
    let attrs = Attrs::read(&tokens);
    assert_eq!(attrs.id, Some("7".to_string()));
    assert_eq!(attrs.category, None);
}

#[test]
fn factories_have_defaults() {
    let none = arguments("other(1) = 2");
    assert_eq!(none.factory(FactoryKind::Source), ("unknown".to_string(), "source".to_string()));
    assert_eq!(none.factory(FactoryKind::Sink), ("unknown".to_string(), "sink".to_string()));
    assert_eq!(none.factory(FactoryKind::Transform), ("unknown".to_string(), "transform".to_string()));
    let set = arguments(r#"category = "c", id = "i""#);
    assert_eq!(set.factory(FactoryKind::Sink), ("i".to_string(), "c".to_string()));
}

struct AnyFilter(Box<dyn FilterPredicate>);

impl FilterPredicate for AnyFilter {
    fn test(&self, row: &Row) -> bool {
        self.0.test(row)
    }
}

struct SmallIdFilter(i64);

impl FilterPredicate for SmallIdFilter {
    fn test(&self, row: &Row) -> bool {
        row.get(0).as_i64().is_some_and(|v| v < self.0)
    }
}

#[test]
fn a_pipeline_holds_predicates_of_several_kinds() {
    let filter = |p: Box<dyn FilterPredicate>| Operator::Filter(FilterTransform::new(AnyFilter(p)));
    let mut pipeline = TransformPipeline::new();
    pipeline
        .add(filter(Box::new(EvenIdFilter)))
        .add(filter(Box::new(SmallIdFilter(10))))
        .add(Operator::Mapping(MapTransform::new(DoubleIdMapper)));
    let pass = |id| {
        let mut row = Row::new(RowKind::Insert, 1);
        row.set(0, Field::Int64(id));
        pipeline.process(row).len()
    };
    assert_eq!(pass(4), 1);
    assert_eq!(pass(5), 0);
    assert_eq!(pass(12), 0);
}
