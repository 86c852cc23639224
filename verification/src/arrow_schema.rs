//! Schemas as Arrow has them.

use vstd::prelude::*;

use arrow::datatypes::DataType as ArrowType;
use arrow::datatypes::Field as ArrowField;
use arrow::datatypes::Schema as ArrowSchema;
use arrow::datatypes::TimeUnit as ArrowUnit;

use crate::schema::{
    column, columns, integer_type, ColumnField, ColumnType, FieldTree, TableSchema, TimeUnit,
    TypeTree,
};

verus! {

/// A type of columns in Arrow.
#[verifier::external_type_specification]
#[verifier::external_body]
pub struct ExArrowType(arrow::datatypes::DataType);

/// A field of a schema in Arrow.
#[verifier::external_type_specification]
#[verifier::external_body]
pub struct ExArrowField(arrow::datatypes::Field);

/// A schema in Arrow.
#[verifier::external_type_specification]
#[verifier::external_body]
pub struct ExArrowSchema(arrow::datatypes::Schema);

/// What a type of Arrow stands for, with the metadata of the fields in it. Two types are equal in
/// Arrow exactly where they stand for the same.
pub uninterp spec fn type_of(data_type: ArrowType) -> TypeTree;

/// What a field of Arrow stands for: its name, its type, whether it is nullable, and its metadata.
pub uninterp spec fn field_of(field: ArrowField) -> FieldTree;

/// What a schema of Arrow stands for: its fields in order.
pub uninterp spec fn fields_of(schema: ArrowSchema) -> Seq<FieldTree>;

/// A type that is made of no other types or fields.
enum LeafType {
    Null,
    Boolean,
    Float32,
    Float64,
    Binary,
    LargeBinary,
    Utf8,
    LargeUtf8,
    Date32,
}

spec fn leaf_tree(leaf: LeafType) -> TypeTree {
    match leaf {
        LeafType::Null => TypeTree::Null,
        LeafType::Boolean => TypeTree::Boolean,
        LeafType::Float32 => TypeTree::Float32,
        LeafType::Float64 => TypeTree::Float64,
        LeafType::Binary => TypeTree::Binary,
        LeafType::LargeBinary => TypeTree::LargeBinary,
        LeafType::Utf8 => TypeTree::Utf8,
        LeafType::LargeUtf8 => TypeTree::LargeUtf8,
        LeafType::Date32 => TypeTree::Date32,
    }
}

/// A type of whole numbers.
enum WholeType {
    Int8,
    Int16,
    Int32,
    Int64,
    UInt8,
    UInt16,
    UInt32,
    UInt64,
}

spec fn whole_tree(whole: WholeType) -> TypeTree {
    match whole {
        WholeType::Int8 => TypeTree::Int8,
        WholeType::Int16 => TypeTree::Int16,
        WholeType::Int32 => TypeTree::Int32,
        WholeType::Int64 => TypeTree::Int64,
        WholeType::UInt8 => TypeTree::UInt8,
        WholeType::UInt16 => TypeTree::UInt16,
        WholeType::UInt32 => TypeTree::UInt32,
        WholeType::UInt64 => TypeTree::UInt64,
    }
}

/// One level of a type with parts.
enum NodeType {
    Decimal(u8, i8),
    FixedSize(i32),
    Struct(Vec<ArrowField>),
    List(ArrowField),
    MapOf(ArrowField, bool),
    Dictionary(ArrowType, ArrowType),
}

/// What a list of fields of Arrow stands for.
pub open spec fn field_trees(fields: Seq<ArrowField>) -> Seq<FieldTree> {
    fields.map_values(|f: ArrowField| field_of(f))
}

spec fn node_tree(node: NodeType) -> TypeTree {
    match node {
        NodeType::Decimal(precision, scale) => TypeTree::Decimal128(precision, scale),
        NodeType::FixedSize(size) => TypeTree::FixedSizeBinary(size),
        NodeType::Struct(fields) => TypeTree::Struct(field_trees(fields@)),
        NodeType::List(field) => TypeTree::List(Box::new(field_of(field))),
        NodeType::MapOf(field, sorted) => TypeTree::MapOf(Box::new(field_of(field)), sorted),
        NodeType::Dictionary(key, value) => TypeTree::Dictionary(
            Box::new(type_of(key)),
            Box::new(type_of(value)),
        ),
    }
}

/// Makes a variant of `arrow::datatypes::DataType` that has no parts. Claimed: it stands for the
/// type of that name.
#[verifier::external_body]
fn leaf_type(leaf: LeafType) -> (r: ArrowType)
    ensures
        type_of(r) == leaf_tree(leaf),
{
    match leaf {
        LeafType::Null => ArrowType::Null,
        LeafType::Boolean => ArrowType::Boolean,
        LeafType::Float32 => ArrowType::Float32,
        LeafType::Float64 => ArrowType::Float64,
        LeafType::Binary => ArrowType::Binary,
        LeafType::LargeBinary => ArrowType::LargeBinary,
        LeafType::Utf8 => ArrowType::Utf8,
        LeafType::LargeUtf8 => ArrowType::LargeUtf8,
        LeafType::Date32 => ArrowType::Date32,
    }
}

/// Makes a variant of `arrow::datatypes::DataType` for whole numbers. Claimed: it stands for the
/// type of that name.
#[verifier::external_body]
fn whole_type(whole: WholeType) -> (r: ArrowType)
    ensures
        type_of(r) == whole_tree(whole),
{
    match whole {
        WholeType::Int8 => ArrowType::Int8,
        WholeType::Int16 => ArrowType::Int16,
        WholeType::Int32 => ArrowType::Int32,
        WholeType::Int64 => ArrowType::Int64,
        WholeType::UInt8 => ArrowType::UInt8,
        WholeType::UInt16 => ArrowType::UInt16,
        WholeType::UInt32 => ArrowType::UInt32,
        WholeType::UInt64 => ArrowType::UInt64,
    }
}

/// Makes a `DataType::Timestamp` without a time zone. Claimed: it stands for the type with that
/// unit.
#[verifier::external_body]
fn time_type(unit: TimeUnit) -> (r: ArrowType)
    ensures
        type_of(r) == TypeTree::Timestamp(unit),
{
    let unit = match unit {
        TimeUnit::Second => ArrowUnit::Second,
        TimeUnit::Millisecond => ArrowUnit::Millisecond,
        TimeUnit::Microsecond => ArrowUnit::Microsecond,
        TimeUnit::Nanosecond => ArrowUnit::Nanosecond,
    };
    ArrowType::Timestamp(unit, None)
}

/// Makes a variant of `arrow::datatypes::DataType` out of its parts. Claimed: it stands for the
/// type with these parts.
#[verifier::external_body]
fn node_type(node: NodeType) -> (r: ArrowType)
    ensures
        type_of(r) == node_tree(node),
{
    match node {
        NodeType::Decimal(precision, scale) => ArrowType::Decimal128(precision, scale),
        NodeType::FixedSize(size) => ArrowType::FixedSizeBinary(size),
        NodeType::Struct(fields) => ArrowType::Struct(fields.into()),
        NodeType::List(field) => ArrowType::List(std::sync::Arc::new(field)),
        NodeType::MapOf(field, sorted) => ArrowType::Map(std::sync::Arc::new(field), sorted),
        NodeType::Dictionary(key, value) => ArrowType::Dictionary(Box::new(key), Box::new(value)),
    }
}

/// Calls `arrow::datatypes::Field::new`. Claimed: the field has the name, the type and the
/// nullability that were given, and no metadata.
#[verifier::external_body]
pub(crate) fn new_field(name: &str, data_type: ArrowType, nullable: bool) -> (r: ArrowField)
    ensures
        field_of(r) == column(name@, type_of(data_type), nullable),
{
    ArrowField::new(name, data_type, nullable)
}

/// Calls `arrow::datatypes::Schema::new`. Claimed: the schema has the fields in the order given.
#[verifier::external_body]
pub(crate) fn new_schema(fields: Vec<ArrowField>) -> (r: ArrowSchema)
    ensures
        fields_of(r) == field_trees(fields@),
{
    ArrowSchema::new(fields)
}

/// The type as Arrow has it.
pub fn to_arrow_type(data_type: &ColumnType) -> (r: ArrowType)
    ensures
        type_of(r) == data_type@,
    decreases data_type,
{
    match data_type {
        ColumnType::Null => leaf_type(LeafType::Null),
        ColumnType::Boolean => leaf_type(LeafType::Boolean),
        ColumnType::Int8 => whole_type(WholeType::Int8),
        ColumnType::Int16 => whole_type(WholeType::Int16),
        ColumnType::Int32 => whole_type(WholeType::Int32),
        ColumnType::Int64 => whole_type(WholeType::Int64),
        ColumnType::UInt8 => whole_type(WholeType::UInt8),
        ColumnType::UInt16 => whole_type(WholeType::UInt16),
        ColumnType::UInt32 => whole_type(WholeType::UInt32),
        ColumnType::UInt64 => whole_type(WholeType::UInt64),
        ColumnType::Float32 => leaf_type(LeafType::Float32),
        ColumnType::Float64 => leaf_type(LeafType::Float64),
        ColumnType::Binary => leaf_type(LeafType::Binary),
        ColumnType::LargeBinary => leaf_type(LeafType::LargeBinary),
        ColumnType::Utf8 => leaf_type(LeafType::Utf8),
        ColumnType::LargeUtf8 => leaf_type(LeafType::LargeUtf8),
        ColumnType::Date32 => leaf_type(LeafType::Date32),
        ColumnType::Timestamp(unit) => time_type(*unit),
        ColumnType::Decimal128(precision, scale) => node_type(NodeType::Decimal(*precision, *scale)),
        ColumnType::FixedSizeBinary(size) => node_type(NodeType::FixedSize(*size)),
        ColumnType::Struct(fields) => {
            let mut list: Vec<ArrowField> = Vec::new();
            let mut i: usize = 0;
            while i < fields.len()
                invariant
                    i <= fields.len(),
                    *data_type == ColumnType::Struct(*fields),
                    list@.len() == i,
                    forall|j: int|
                        0 <= j < i ==> field_of(#[trigger] list@[j]) == fields@[j].tree(),
                decreases fields.len() - i,
            {
                assert(decreases_to!(*data_type => data_type->Struct_0));
                assert(decreases_to!(data_type->Struct_0 => fields@));
                assert(decreases_to!(fields@ => fields@[i as int]));
                list.push(to_arrow_field(&fields[i]));
                i = i + 1;
            }
            assert(field_trees(list@) =~= data_type@->Struct_0);
            node_type(NodeType::Struct(list))
        },
        ColumnType::List(field) => node_type(NodeType::List(to_arrow_field(field))),
        ColumnType::MapOf(field, sorted) => node_type(
            NodeType::MapOf(to_arrow_field(field), *sorted),
        ),
        ColumnType::Dictionary(key, value) => node_type(
            NodeType::Dictionary(to_arrow_type(key), to_arrow_type(value)),
        ),
    }
}

/// The field as Arrow has it.
pub fn to_arrow_field(field: &ColumnField) -> (r: ArrowField)
    ensures
        field_of(r) == field@,
    decreases field,
{
    new_field(field.name.as_str(), to_arrow_type(&field.data_type), field.nullable)
}

/// The schema as Arrow has it.
pub fn to_arrow_schema(schema: &TableSchema) -> (r: ArrowSchema)
    ensures
        fields_of(r) == schema@,
{
    let mut list: Vec<ArrowField> = Vec::new();
    let mut i: usize = 0;
    while i < schema.fields.len()
        invariant
            i <= schema.fields.len(),
            list@.len() == i,
            forall|j: int| 0 <= j < i ==> field_of(#[trigger] list@[j]) == schema.fields@[j]@,
        decreases schema.fields.len() - i,
    {
        list.push(to_arrow_field(&schema.fields[i]));
        i = i + 1;
    }
    assert(field_trees(list@) =~= columns(schema.fields@));
    new_schema(list)
}

/// Calls `arrow::datatypes::Field::name`. Claimed: the name of the field.
#[verifier::external_body]
pub(crate) fn field_name(field: &ArrowField) -> (r: String)
    ensures
        r@ == field_of(*field).name,
{
    field.name().clone()
}

/// Calls `arrow::datatypes::Field::data_type`. Claimed: the type of the field.
#[verifier::external_body]
pub(crate) fn field_data_type(field: &ArrowField) -> (r: ArrowType)
    ensures
        type_of(r) == field_of(*field).data_type,
{
    field.data_type().clone()
}

/// Calls `clone` of `arrow::datatypes::Field`. Claimed: the copy stands for the same.
#[verifier::external_body]
pub(crate) fn clone_field(field: &ArrowField) -> (r: ArrowField)
    ensures
        field_of(r) == field_of(*field),
{
    field.clone()
}

/// Calls `arrow::datatypes::Field::with_name`. Claimed: the field has the name, and else stays.
#[verifier::external_body]
pub(crate) fn renamed_field(field: ArrowField, name: &str) -> (r: ArrowField)
    ensures
        field_of(r) == (FieldTree { name: name@, ..field_of(field) }),
{
    field.with_name(name)
}

/// Calls `arrow::datatypes::Field::with_data_type`. Claimed: the field has the type, and else
/// stays.
#[verifier::external_body]
pub(crate) fn retyped_field(field: ArrowField, data_type: ArrowType) -> (r: ArrowField)
    ensures
        field_of(r) == (FieldTree { data_type: type_of(data_type), ..field_of(field) }),
{
    field.with_data_type(data_type)
}

/// Lists copies of what `arrow::datatypes::Schema::fields` gives. Claimed: the fields of the schema
/// in order.
#[verifier::external_body]
pub(crate) fn schema_fields(schema: &ArrowSchema) -> (r: Vec<ArrowField>)
    ensures
        field_trees(r@) == fields_of(*schema),
{
    schema.fields().iter().map(|field| field.as_ref().clone()).collect()
}

/// Compares two values of `arrow::datatypes::DataType`. Claimed: whether they stand for the same.
#[verifier::external_body]
pub(crate) fn same_type(a: &ArrowType, b: &ArrowType) -> (r: bool)
    ensures
        r == (type_of(*a) == type_of(*b)),
{
    a == b
}

/// Calls `DataType::is_integer`. Claimed: whether the type is one of whole numbers.
#[verifier::external_body]
pub(crate) fn is_integer_type(data_type: &ArrowType) -> (r: bool)
    ensures
        r == integer_type(type_of(*data_type)),
{
    data_type.is_integer()
}

/// Whether a type is one of texts.
pub open spec fn text_type(data_type: TypeTree) -> bool {
    data_type == TypeTree::Utf8 || data_type == TypeTree::LargeUtf8 || data_type
        == TypeTree::Utf8View
}

/// Calls `DataType::is_string`. Claimed: whether the type is one of texts.
#[verifier::external_body]
pub(crate) fn is_text_type(data_type: &ArrowType) -> (r: bool)
    ensures
        r == text_type(type_of(*data_type)),
{
    data_type.is_string()
}

/// The unit in which a type counts time.
pub open spec fn unit_of(data_type: TypeTree) -> Option<TimeUnit> {
    match data_type {
        TypeTree::Timestamp(unit) => Some(unit),
        TypeTree::Zoned(unit, _) => Some(unit),
        TypeTree::Time32(unit) => Some(unit),
        TypeTree::Time64(unit) => Some(unit),
        TypeTree::Duration(unit) => Some(unit),
        _ => None,
    }
}

/// Tells variants of `arrow::datatypes::DataType` and of its `TimeUnit` apart. Claimed: the unit in
/// which the type counts time.
#[verifier::external_body]
pub(crate) fn unit_in(data_type: &ArrowType) -> (r: Option<TimeUnit>)
    ensures
        r == unit_of(type_of(*data_type)),
{
    match data_type {
        ArrowType::Timestamp(unit, _) | ArrowType::Duration(unit) | ArrowType::Time32(unit)
        | ArrowType::Time64(unit) => Some(match unit {
            ArrowUnit::Second => TimeUnit::Second,
            ArrowUnit::Millisecond => TimeUnit::Millisecond,
            ArrowUnit::Microsecond => TimeUnit::Microsecond,
            ArrowUnit::Nanosecond => TimeUnit::Nanosecond,
        }),
        _ => None,
    }
}

/// The bits, the precision and the scale of a type of decimals.
pub open spec fn decimal_of(data_type: TypeTree) -> Option<(u16, u8, i8)> {
    match data_type {
        TypeTree::Decimal32(precision, scale) => Some((32, precision, scale)),
        TypeTree::Decimal64(precision, scale) => Some((64, precision, scale)),
        TypeTree::Decimal128(precision, scale) => Some((128, precision, scale)),
        TypeTree::Decimal256(precision, scale) => Some((256, precision, scale)),
        _ => None,
    }
}

/// Tells variants of `arrow::datatypes::DataType` apart. Claimed: the bits, the precision and the
/// scale of the type, where it is one of decimals.
#[verifier::external_body]
pub(crate) fn decimal_in(data_type: &ArrowType) -> (r: Option<(u16, u8, i8)>)
    ensures
        r == decimal_of(type_of(*data_type)),
{
    match data_type {
        ArrowType::Decimal32(precision, scale) => Some((32, *precision, *scale)),
        ArrowType::Decimal64(precision, scale) => Some((64, *precision, *scale)),
        ArrowType::Decimal128(precision, scale) => Some((128, *precision, *scale)),
        ArrowType::Decimal256(precision, scale) => Some((256, *precision, *scale)),
        _ => None,
    }
}

/// What is special about a type without parts that is not one of decimals.
pub enum SpecialTree {
    Null,
    Bytes(i32),
    Day,
    Date,
    Point(Option<Seq<char>>),
    Clock(bool),
    Span,
    Other,
}

/// What is special about a type without parts: that there are no values, how many bytes there are,
/// that it is a number of days or a date in milliseconds, a point in time with or without a zone, a
/// time of day of 32 bits or of more, or a span of time.
pub open spec fn special_of(data_type: TypeTree) -> SpecialTree {
    match data_type {
        TypeTree::Null => SpecialTree::Null,
        TypeTree::FixedSizeBinary(size) => SpecialTree::Bytes(size),
        TypeTree::Date32 => SpecialTree::Day,
        TypeTree::Date64 => SpecialTree::Date,
        TypeTree::Timestamp(_) => SpecialTree::Point(None),
        TypeTree::Zoned(_, zone) => SpecialTree::Point(Some(zone)),
        TypeTree::Time32(_) => SpecialTree::Clock(false),
        TypeTree::Time64(_) => SpecialTree::Clock(true),
        TypeTree::Duration(_) => SpecialTree::Span,
        _ => SpecialTree::Other,
    }
}

/// What is special about a type without parts that is not one of decimals.
pub enum SpecialType {
    Null,
    Bytes(i32),
    Day,
    Date,
    Point(Option<String>),
    Clock(bool),
    Span,
    Other,
}

impl View for SpecialType {
    type V = SpecialTree;

    open spec fn view(&self) -> SpecialTree {
        match self {
            SpecialType::Null => SpecialTree::Null,
            SpecialType::Bytes(size) => SpecialTree::Bytes(*size),
            SpecialType::Day => SpecialTree::Day,
            SpecialType::Date => SpecialTree::Date,
            SpecialType::Point(None) => SpecialTree::Point(None),
            SpecialType::Point(Some(zone)) => SpecialTree::Point(Some(zone@)),
            SpecialType::Clock(wide) => SpecialTree::Clock(*wide),
            SpecialType::Span => SpecialTree::Span,
            SpecialType::Other => SpecialTree::Other,
        }
    }
}

/// Tells variants of `arrow::datatypes::DataType` apart. Claimed: what is special about the type.
#[verifier::external_body]
pub(crate) fn special_type(data_type: &ArrowType) -> (r: SpecialType)
    ensures
        r@ == special_of(type_of(*data_type)),
{
    match data_type {
        ArrowType::Null => SpecialType::Null,
        ArrowType::FixedSizeBinary(size) => SpecialType::Bytes(*size),
        ArrowType::Date32 => SpecialType::Day,
        ArrowType::Date64 => SpecialType::Date,
        ArrowType::Timestamp(_, zone) => SpecialType::Point(zone.as_ref().map(|z| z.to_string())),
        ArrowType::Time32(_) => SpecialType::Clock(false),
        ArrowType::Time64(_) => SpecialType::Clock(true),
        ArrowType::Duration(_) => SpecialType::Span,
        _ => SpecialType::Other,
    }
}

/// Tells variants of `arrow::datatypes::DataType` apart. Claimed: whether the type is one of
/// intervals.
#[verifier::external_body]
pub(crate) fn is_interval_type(data_type: &ArrowType) -> (r: bool)
    ensures
        r == (type_of(*data_type) is Interval),
{
    matches!(data_type, ArrowType::Interval(_))
}

/// One level of a type that is made of others, but for lists without a fixed size.
pub(crate) enum TypeParts {
    Simple,
    Struct(Vec<ArrowField>),
    Sized(ArrowField, i32),
    MapOf(ArrowField, bool),
    Dictionary(ArrowType, ArrowType),
    Union,
    Runs,
}

/// Tells variants of `arrow::datatypes::DataType` apart. Claimed: the parts are those of the type;
/// those of unions and runs are not told.
#[verifier::external_body]
pub(crate) fn open_type(data_type: &ArrowType) -> (r: TypeParts)
    ensures
        match r {
            TypeParts::Simple => simple_type(type_of(*data_type)),
            TypeParts::Struct(fields) => type_of(*data_type) == TypeTree::Struct(
                field_trees(fields@),
            ),
            TypeParts::Sized(item, size) => type_of(*data_type) == TypeTree::FixedSizeList(
                Box::new(field_of(item)),
                size,
            ),
            TypeParts::MapOf(entries, sorted) => type_of(*data_type) == TypeTree::MapOf(
                Box::new(field_of(entries)),
                sorted,
            ),
            TypeParts::Dictionary(key, value) => type_of(*data_type) == TypeTree::Dictionary(
                Box::new(type_of(key)),
                Box::new(type_of(value)),
            ),
            TypeParts::Union => type_of(*data_type) is Union,
            TypeParts::Runs => type_of(*data_type) is Runs,
        },
{
    match data_type {
        ArrowType::Struct(fields) => {
            TypeParts::Struct(fields.iter().map(|field| field.as_ref().clone()).collect())
        },
        ArrowType::FixedSizeList(item, size) => TypeParts::Sized(item.as_ref().clone(), *size),
        ArrowType::Map(entries, sorted) => TypeParts::MapOf(entries.as_ref().clone(), *sorted),
        ArrowType::Dictionary(key, value) => TypeParts::Dictionary(*key.clone(), *value.clone()),
        ArrowType::Union(_, _) => TypeParts::Union,
        ArrowType::RunEndEncoded(_, _) => TypeParts::Runs,
        _ => TypeParts::Simple,
    }
}

/// Whether a type has no parts, or is a list without a fixed size.
pub open spec fn simple_type(data_type: TypeTree) -> bool {
    !(data_type is Struct) && !(data_type is FixedSizeList) && !(data_type is MapOf)
        && !(data_type is Dictionary) && !(data_type is Union) && !(data_type is Runs)
}

/// A type of lists without a fixed size.
pub(crate) enum ListType {
    Small(ArrowField),
    Large(ArrowField),
    View(ArrowField),
    LargeView(ArrowField),
}

/// Tells variants of `arrow::datatypes::DataType` apart. Claimed: the list that the type is, with
/// the field of its items, where it is one without a fixed size.
#[verifier::external_body]
pub(crate) fn open_list(data_type: &ArrowType) -> (r: Option<ListType>)
    ensures
        match r {
            Some(ListType::Small(item)) => type_of(*data_type) == TypeTree::List(
                Box::new(field_of(item)),
            ),
            Some(ListType::Large(item)) => type_of(*data_type) == TypeTree::LargeList(
                Box::new(field_of(item)),
            ),
            Some(ListType::View(item)) => type_of(*data_type) == TypeTree::ListView(
                Box::new(field_of(item)),
            ),
            Some(ListType::LargeView(item)) => type_of(*data_type) == TypeTree::LargeListView(
                Box::new(field_of(item)),
            ),
            None => !(type_of(*data_type) is List) && !(type_of(*data_type) is LargeList)
                && !(type_of(*data_type) is ListView) && !(type_of(*data_type) is LargeListView),
        },
{
    match data_type {
        ArrowType::List(item) => Some(ListType::Small(item.as_ref().clone())),
        ArrowType::LargeList(item) => Some(ListType::Large(item.as_ref().clone())),
        ArrowType::ListView(item) => Some(ListType::View(item.as_ref().clone())),
        ArrowType::LargeListView(item) => Some(ListType::LargeView(item.as_ref().clone())),
        _ => None,
    }
}

/// Calls `arrow::datatypes::Field::is_nullable`. Claimed: whether the field is nullable.
#[verifier::external_body]
pub(crate) fn field_nullable(field: &ArrowField) -> (r: bool)
    ensures
        r == field_of(*field).nullable,
{
    field.is_nullable()
}

/// A list of fields stands for each of them, in order.
pub proof fn law_fields_stand_for_themselves(fields: Seq<ArrowField>)
    ensures
        field_trees(fields).len() == fields.len(),
        forall|i: int| 0 <= i < fields.len() ==> #[trigger] field_trees(fields)[i] == field_of(
            fields[i],
        ),
{
}

} // verus!
