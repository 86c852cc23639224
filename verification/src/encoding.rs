//! How message values are encoded, and the columns that a read gives.

use vstd::prelude::*;

use crate::batch::{is_readable_schema, readable_fields};
use crate::schema::{
    column, columns, ColumnField, ColumnType, FieldTree, TableSchema, TimeUnit, TypeTree,
};

verus! {

/// How the values of messages are encoded.
#[derive(Debug)]
pub enum ValueEncoding {
    /// Avro records of a registered schema.
    Avro { reader_schema_json: String, schema_id: u32 },
    /// JSON objects with these columns.
    Json { schema: TableSchema },
    /// Bytes that are handed on as they are.
    Raw,
}

/// What a `ValueEncoding` stands for.
pub enum EncodingTree {
    Avro { reader_schema_json: Seq<char>, schema_id: u32 },
    Json { schema: Seq<FieldTree> },
    Raw,
}

impl View for ValueEncoding {
    type V = EncodingTree;

    open spec fn view(&self) -> EncodingTree {
        match self {
            ValueEncoding::Avro { reader_schema_json, schema_id } => EncodingTree::Avro {
                reader_schema_json: reader_schema_json@,
                schema_id: *schema_id,
            },
            ValueEncoding::Json { schema } => EncodingTree::Json { schema: schema@ },
            ValueEncoding::Raw => EncodingTree::Raw,
        }
    }
}

/// The short name of an encoding.
pub open spec fn label_of(encoding: EncodingTree) -> Seq<char> {
    match encoding {
        EncodingTree::Avro { .. } => "avro"@,
        EncodingTree::Json { .. } => "json"@,
        EncodingTree::Raw => "raw"@,
    }
}

impl ValueEncoding {
    /// The short name of the encoding.
    pub fn label(&self) -> (r: &'static str)
        ensures
            r@ == label_of(self@),
    {
        match self {
            ValueEncoding::Avro { .. } => "avro",
            ValueEncoding::Json { .. } => "json",
            ValueEncoding::Raw => "raw",
        }
    }

    /// An encoding with the same contents.
    pub fn duplicate(&self) -> (r: ValueEncoding)
        ensures
            r@ == self@,
    {
        match self {
            ValueEncoding::Avro { reader_schema_json, schema_id } => ValueEncoding::Avro {
                reader_schema_json: reader_schema_json.clone(),
                schema_id: *schema_id,
            },
            ValueEncoding::Json { schema } => ValueEncoding::Json { schema: schema.duplicate() },
            ValueEncoding::Raw => ValueEncoding::Raw,
        }
    }
}

/// The columns of a message that is handed on as it is, each nullable.
pub open spec fn raw_columns() -> Seq<FieldTree> {
    seq![
        column("key"@, TypeTree::Binary, true),
        column("value"@, TypeTree::Binary, true),
        column("topic"@, TypeTree::Utf8, true),
        column("partition"@, TypeTree::Int32, true),
        column("offset"@, TypeTree::Int64, true),
        column("timestamp"@, TypeTree::Timestamp(TimeUnit::Microsecond), true),
        column("timestampType"@, TypeTree::Int32, true),
    ]
}

/// The column with the headers of a message: a list of keys and values.
pub open spec fn headers_column() -> FieldTree {
    let item = column(
        "item"@,
        TypeTree::Struct(
            seq![
                column("key"@, TypeTree::Utf8, true),
                column("value"@, TypeTree::Binary, true),
            ],
        ),
        true,
    );
    column("headers"@, TypeTree::List(Box::new(item)), true)
}

/// The columns of a raw read.
pub open spec fn raw_schema_columns(include_headers: bool) -> Seq<FieldTree> {
    if include_headers {
        raw_columns().push(headers_column())
    } else {
        raw_columns()
    }
}

/// The schema of a raw read, as Spark has it: all columns are nullable.
pub fn raw_kafka_schema(include_headers: bool) -> (r: TableSchema)
    ensures
        r@ == raw_schema_columns(include_headers),
{
    let mut fields: Vec<ColumnField> = Vec::new();
    fields.push(ColumnField::new("key", ColumnType::Binary, true));
    fields.push(ColumnField::new("value", ColumnType::Binary, true));
    fields.push(ColumnField::new("topic", ColumnType::Utf8, true));
    fields.push(ColumnField::new("partition", ColumnType::Int32, true));
    fields.push(ColumnField::new("offset", ColumnType::Int64, true));
    fields.push(ColumnField::new("timestamp", ColumnType::Timestamp(TimeUnit::Microsecond), true));
    fields.push(ColumnField::new("timestampType", ColumnType::Int32, true));
    assert(columns(fields@) =~= raw_columns());
    if include_headers {
        let mut parts: Vec<ColumnField> = Vec::new();
        parts.push(ColumnField::new("key", ColumnType::Utf8, true));
        parts.push(ColumnField::new("value", ColumnType::Binary, true));
        let item = ColumnType::Struct(parts);
        assert(item@->Struct_0 =~= seq![
            column("key"@, TypeTree::Utf8, true),
            column("value"@, TypeTree::Binary, true),
        ]);
        let list = ColumnType::List(Box::new(ColumnField::new("item", item, true)));
        let headers: ColumnField = ColumnField::new("headers", list, true);
        fields.push(headers);
        assert(columns(fields@) =~= raw_columns().push(headers_column()));
    }
    TableSchema { fields }
}

/// The columns that accompany decoded values, each nullable.
pub open spec fn metadata_columns() -> Seq<FieldTree> {
    seq![
        column("_kafka_key"@, TypeTree::Binary, true),
        column("_kafka_topic"@, TypeTree::Utf8, true),
        column("_kafka_partition"@, TypeTree::Int32, true),
        column("_kafka_offset"@, TypeTree::Int64, true),
        column("_kafka_timestamp"@, TypeTree::Timestamp(TimeUnit::Microsecond), true),
    ]
}

/// The fields that accompany decoded values.
pub fn kafka_metadata_fields() -> (r: Vec<ColumnField>)
    ensures
        columns(r@) == metadata_columns(),
{
    let mut fields: Vec<ColumnField> = Vec::new();
    fields.push(ColumnField::new("_kafka_key", ColumnType::Binary, true));
    fields.push(ColumnField::new("_kafka_topic", ColumnType::Utf8, true));
    fields.push(ColumnField::new("_kafka_partition", ColumnType::Int32, true));
    fields.push(ColumnField::new("_kafka_offset", ColumnType::Int64, true));
    fields.push(ColumnField::new("_kafka_timestamp", ColumnType::Timestamp(TimeUnit::Microsecond), true));
    assert(columns(fields@) =~= metadata_columns());
    fields
}

/// The schema of a read with decoded values: the columns of the values, then those that accompany
/// them.
pub fn build_deserialized_schema(value_schema: &TableSchema) -> (r: TableSchema)
    ensures
        r@ == value_schema@ + metadata_columns(),
{
    let mut r: TableSchema = value_schema.duplicate();
    let mut extra: Vec<ColumnField> = kafka_metadata_fields();
    let ghost before = r.fields@;
    let ghost added = extra@;
    r.fields.append(&mut extra);
    assert(columns(r.fields@) =~= columns(before) + columns(added));
    r
}

/// Whether values of an encoding can be read: JSON of columns that `arrow_json` can be asked for,
/// and all others.
pub open spec fn readable_encoding(encoding: EncodingTree) -> bool {
    match encoding {
        EncodingTree::Json { schema } => readable_fields(schema),
        _ => true,
    }
}

/// Whether values of an encoding can be read.
pub fn is_readable_encoding(encoding: &ValueEncoding) -> (r: bool)
    ensures
        r == readable_encoding(encoding@),
{
    match encoding {
        ValueEncoding::Json { schema } => is_readable_schema(schema),
        _ => true,
    }
}

/// The columns of a raw read: key and value as bytes, topic as text, partition, offset, time in
/// microseconds and what that is the time of as numbers, and the headers last where they are asked
/// for. All are nullable.
pub proof fn law_raw_schema(include_headers: bool)
    ensures
        ({
            let fields = raw_schema_columns(include_headers);
            let micros = TypeTree::Timestamp(TimeUnit::Microsecond);
            &&& fields.len() == 7 + if include_headers {
                1int
            } else {
                0
            }
            &&& fields[0].name == "key"@ && fields[0].data_type == TypeTree::Binary
            &&& fields[1].name == "value"@ && fields[1].data_type == TypeTree::Binary
            &&& fields[2].name == "topic"@ && fields[2].data_type == TypeTree::Utf8
            &&& fields[3].name == "partition"@ && fields[3].data_type == TypeTree::Int32
            &&& fields[4].name == "offset"@ && fields[4].data_type == TypeTree::Int64
            &&& fields[5].name == "timestamp"@ && fields[5].data_type == micros
            &&& fields[6].name == "timestampType"@ && fields[6].data_type == TypeTree::Int32
            &&& include_headers ==> {
                &&& fields[7].name == "headers"@
                &&& fields[7].data_type is List
                &&& fields[7].data_type->List_0.nullable
                &&& fields[7].data_type->List_0.data_type is Struct
                &&& ({
                    let parts = fields[7].data_type->List_0.data_type->Struct_0;
                    &&& parts.len() == 2
                    &&& parts[0].name == "key"@ && parts[0].data_type == TypeTree::Utf8
                    &&& parts[1].name == "value"@ && parts[1].data_type == TypeTree::Binary
                    &&& parts[0].nullable && parts[1].nullable
                })
            }
            &&& forall|i: int| 0 <= i < fields.len() ==> (#[trigger] fields[i]).nullable
        }),
{
}

/// The columns that accompany decoded values: key, topic, partition, offset and time in
/// microseconds under names of their own. All are nullable.
pub proof fn law_metadata_schema()
    ensures
        ({
            let fields = metadata_columns();
            let micros = TypeTree::Timestamp(TimeUnit::Microsecond);
            &&& fields.len() == 5
            &&& fields[0].name == "_kafka_key"@ && fields[0].data_type == TypeTree::Binary
            &&& fields[1].name == "_kafka_topic"@ && fields[1].data_type == TypeTree::Utf8
            &&& fields[2].name == "_kafka_partition"@ && fields[2].data_type == TypeTree::Int32
            &&& fields[3].name == "_kafka_offset"@ && fields[3].data_type == TypeTree::Int64
            &&& fields[4].name == "_kafka_timestamp"@ && fields[4].data_type == micros
            &&& forall|i: int| 0 <= i < fields.len() ==> (#[trigger] fields[i]).nullable
        }),
{
}

/// An encoding stands for what it holds, and each has its own short name.
pub proof fn law_encodings_stand_for_their_parts(encoding: ValueEncoding)
    ensures
        match encoding {
            ValueEncoding::Avro { reader_schema_json, schema_id } => encoding@ is Avro
                && encoding@->reader_schema_json == reader_schema_json@
                && encoding@->schema_id == schema_id && label_of(encoding@) == "avro"@,
            ValueEncoding::Json { schema } => encoding@ is Json && encoding@->schema == schema@
                && label_of(encoding@) == "json"@,
            ValueEncoding::Raw => encoding@ is Raw && label_of(encoding@) == "raw"@,
        },
{
}

} // verus!
