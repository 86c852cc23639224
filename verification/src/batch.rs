//! Columns and batches of rows, as Arrow keeps them.

use vstd::prelude::*;

use arrow::array::RecordBatch;
use arrow::datatypes::Schema as ArrowSchema;
use arrow::error::ArrowError;

use crate::arrow_schema::fields_of;
use crate::avro::{has_sized_items, sized_items};
use crate::error::{
    arrow_failure, decode_error, decode_failure, Failure, FailureKind, ReadError,
};
use crate::json::{json_of_text, parse_json};
use crate::schema::{ColumnField, ColumnType, FieldTree, TableSchema, TimeUnit, TypeTree};
use crate::text::{decimal, decimal_text, joined, texts};

verus! {

/// A value in a column. `Other` is a value that is none of these, by a number that tells it from
/// all others.
pub enum CellTree {
    Null,
    Bytes(Seq<u8>),
    Text(Seq<char>),
    Integer(int),
    Other(int),
}

/// A column: its type and its values.
pub struct ColumnTree {
    pub data_type: TypeTree,
    pub cells: Seq<CellTree>,
}

/// Rows: the fields of their schema, and a column for each.
pub struct BatchTree {
    pub fields: Seq<FieldTree>,
    pub columns: Seq<ColumnTree>,
}

/// An array of Arrow.
#[verifier::external_body]
#[derive(Debug)]
pub struct Column {
    array: arrow::array::ArrayRef,
}

/// A batch of rows of Arrow.
#[verifier::external_body]
#[derive(Debug)]
pub struct RowBatch {
    pub rows: RecordBatch,
}

/// An error of Arrow.
#[verifier::external_type_specification]
#[verifier::external_body]
pub struct ExArrowError(arrow::error::ArrowError);

/// What an array holds.
pub uninterp spec fn column_of(column: Column) -> ColumnTree;

/// What a batch holds.
pub uninterp spec fn batch_of(batch: RowBatch) -> BatchTree;

/// The text with which an error of Arrow describes itself.
pub uninterp spec fn arrow_text_of(error: ArrowError) -> Seq<char>;

/// How many items the maps in the columns of a batch and the lists that are kept by offsets, views
/// among them, hold together. Lists of a fixed size are not counted.
pub uninterp spec fn listed_in(batch: RowBatch) -> nat;

/// How many bytes the texts and the bytes in the columns of a batch take together.
pub uninterp spec fn text_in(batch: RowBatch) -> nat;

/// The batches that `arrow_json` reads of the bytes for the fields; none where it fails.
pub uninterp spec fn json_batches(fields: Seq<FieldTree>, bytes: Seq<u8>) -> Option<Seq<BatchTree>>;

/// Whether a failure is one that Arrow describes.
pub open spec fn arrow_failed(failure: Failure) -> bool {
    exists|error: ArrowError| failure == arrow_failure(#[trigger] arrow_text_of(error))
}

/// What a list of arrays holds.
pub open spec fn columns_of(columns: Seq<Column>) -> Seq<ColumnTree> {
    columns.map_values(|c: Column| column_of(c))
}

/// What a list of batches holds.
pub open spec fn batches_of(batches: Seq<RowBatch>) -> Seq<BatchTree> {
    batches.map_values(|b: RowBatch| batch_of(b))
}

/// The bytes of an optional value.
pub open spec fn optional_bytes(bytes: Option<Vec<u8>>) -> Option<Seq<u8>> {
    match bytes {
        Some(bytes) => Some(bytes@),
        None => None,
    }
}

/// What a list of optional bytes stands for.
pub open spec fn bytes_views(list: Seq<Option<Vec<u8>>>) -> Seq<Option<Seq<u8>>> {
    list.map_values(|b: Option<Vec<u8>>| optional_bytes(b))
}

/// The number of bytes in a list of optional bytes.
pub open spec fn bytes_total(list: Seq<Option<Seq<u8>>>) -> int
    decreases list.len(),
{
    if list.len() == 0 {
        0
    } else {
        bytes_total(list.drop_last()) + match list.last() {
            Some(bytes) => bytes.len() as int,
            None => 0,
        }
    }
}

/// The number of bytes that a list of texts takes in UTF-8.
pub open spec fn text_total(list: Seq<Seq<char>>) -> int
    decreases list.len(),
{
    if list.len() == 0 {
        0
    } else {
        text_total(list.drop_last()) + vstd::utf8::encode_utf8(list.last()).len()
    }
}

/// The column of optional bytes.
pub open spec fn binary_tree(list: Seq<Option<Seq<u8>>>) -> ColumnTree {
    ColumnTree {
        data_type: TypeTree::Binary,
        cells: list.map_values(
            |b: Option<Seq<u8>>|
                match b {
                    Some(bytes) => CellTree::Bytes(bytes),
                    None => CellTree::Null,
                },
        ),
    }
}

/// The column of texts.
pub open spec fn text_tree(list: Seq<Seq<char>>) -> ColumnTree {
    ColumnTree {
        data_type: TypeTree::Utf8,
        cells: list.map_values(|s: Seq<char>| CellTree::Text(s)),
    }
}

/// The column of numbers of 32 bits.
pub open spec fn int32_tree(list: Seq<i32>) -> ColumnTree {
    ColumnTree {
        data_type: TypeTree::Int32,
        cells: list.map_values(|n: i32| CellTree::Integer(n as int)),
    }
}

/// The column of numbers of 64 bits.
pub open spec fn int64_tree(list: Seq<i64>) -> ColumnTree {
    ColumnTree {
        data_type: TypeTree::Int64,
        cells: list.map_values(|n: i64| CellTree::Integer(n as int)),
    }
}

/// The column of times in microseconds.
pub open spec fn micros_tree(list: Seq<i64>) -> ColumnTree {
    ColumnTree {
        data_type: TypeTree::Timestamp(TimeUnit::Microsecond),
        cells: list.map_values(|n: i64| CellTree::Integer(n as int)),
    }
}

/// Collects a `BinaryArray` of Arrow. Claimed: it has type `Binary` and holds the bytes, or null,
/// in the order given. It panics where the bytes do not fit in offsets of 32 bits.
#[verifier::external_body]
pub(crate) fn binary_column(list: &Vec<Option<Vec<u8>>>) -> (r: Column)
    requires
        bytes_total(bytes_views(list@)) <= i32::MAX,
    ensures
        column_of(r) == binary_tree(bytes_views(list@)),
{
    Column { array: std::sync::Arc::new(list.iter().collect::<arrow::array::BinaryArray>()) }
}

/// Calls `StringArray::from`. Claimed: the array has type `Utf8` and holds the texts in the order
/// given. It panics where their bytes do not fit in offsets of 32 bits.
#[verifier::external_body]
pub(crate) fn text_column(list: Vec<String>) -> (r: Column)
    requires
        text_total(texts(list@)) <= i32::MAX,
    ensures
        column_of(r) == text_tree(texts(list@)),
{
    Column { array: std::sync::Arc::new(arrow::array::StringArray::from(list)) }
}

/// Calls `Int32Array::from`. Claimed: the array has type `Int32` and holds the numbers in the order
/// given.
#[verifier::external_body]
pub(crate) fn int32_column(list: Vec<i32>) -> (r: Column)
    ensures
        column_of(r) == int32_tree(list@),
{
    Column { array: std::sync::Arc::new(arrow::array::Int32Array::from(list)) }
}

/// Calls `Int64Array::from`. Claimed: the array has type `Int64` and holds the numbers in the order
/// given.
#[verifier::external_body]
pub(crate) fn int64_column(list: Vec<i64>) -> (r: Column)
    ensures
        column_of(r) == int64_tree(list@),
{
    Column { array: std::sync::Arc::new(arrow::array::Int64Array::from(list)) }
}

/// Calls `TimestampMicrosecondArray::from`. Claimed: the array has type `Timestamp` in microseconds
/// without a time zone and holds the numbers in the order given.
#[verifier::external_body]
pub(crate) fn micros_column(list: Vec<i64>) -> (r: Column)
    ensures
        column_of(r) == micros_tree(list@),
{
    Column { array: std::sync::Arc::new(arrow::array::TimestampMicrosecondArray::from(list)) }
}

/// Whether columns go with fields: one column of the field's type for each field, at least one, and
/// all of one length.
pub open spec fn columns_match(fields: Seq<FieldTree>, columns: Seq<ColumnTree>) -> bool {
    &&& fields.len() == columns.len()
    &&& columns.len() > 0
    &&& forall|i: int|
        0 <= i < columns.len() ==> (#[trigger] columns[i]).data_type == fields[i].data_type
            && columns[i].cells.len() == columns[0].cells.len()
}

/// Whether columns are fit for fields: they go with them, and there is no null where a field is not
/// nullable, but in a column that can hold nothing else.
pub open spec fn columns_fit(fields: Seq<FieldTree>, columns: Seq<ColumnTree>) -> bool {
    &&& columns_match(fields, columns)
    &&& forall|i: int|
        0 <= i < columns.len() ==> fields[i].nullable || fields[i].data_type == TypeTree::Null
            || !(#[trigger] columns[i]).cells.contains(CellTree::Null)
}

/// Calls `RecordBatch::try_new`. Claimed: columns that are fit are accepted, and columns that do
/// not go with the fields are refused; the batch has the fields of the schema and the columns
/// given. Left unsaid is whether nulls are refused in a column whose field is not nullable, since
/// Arrow does not count the nulls of every type, and what an error says, since it may print
/// metadata in the order of a hash map.
#[verifier::external_body]
fn try_batch(schema: ArrowSchema, columns: Vec<Column>) -> (r: Result<RowBatch, ArrowError>)
    ensures
        match r {
            Ok(batch) => batch_of(batch) == (BatchTree {
                fields: fields_of(schema),
                columns: columns_of(columns@),
            }) && columns_match(fields_of(schema), columns_of(columns@)),
            Err(_) => !columns_fit(fields_of(schema), columns_of(columns@)),
        },
{
    let arrays = columns.into_iter().map(|column| column.array).collect();
    let rows = RecordBatch::try_new(std::sync::Arc::new(schema), arrays)?;
    Ok(RowBatch { rows })
}

/// Calls `to_string` of `ArrowError`. Claimed: the description depends on the error alone.
#[verifier::external_body]
fn arrow_error_text(error: &ArrowError) -> (r: String)
    ensures
        r@ == arrow_text_of(*error),
{
    error.to_string()
}

/// Calls `RecordBatch::columns`. Claimed: the arrays are the columns of the batch, in order.
#[verifier::external_body]
pub(crate) fn columns_in(batch: &RowBatch) -> (r: Vec<Column>)
    ensures
        columns_of(r@) == batch_of(*batch).columns,
{
    batch.rows.columns().iter().map(|array| Column { array: array.clone() }).collect()
}

/// Whether `arrow_json` can be asked for values of a type. It panics on bytes of a fixed number
/// that are not given as text, on lists of a size below zero and on runs of a bad type, and its
/// decimals overflow on long texts; unions and the types without a name here are left out with
/// them.
pub open spec fn readable_type(data_type: TypeTree) -> bool
    decreases data_type,
{
    match data_type {
        TypeTree::FixedSizeBinary(_) => false,
        TypeTree::Decimal32(_, _) => false,
        TypeTree::Decimal64(_, _) => false,
        TypeTree::Decimal128(_, _) => false,
        TypeTree::Decimal256(_, _) => false,
        TypeTree::Union(_) => false,
        TypeTree::Runs(_) => false,
        TypeTree::Interval(_) => false,
        TypeTree::Struct(fields) => forall|i: int|
            #![trigger fields[i]]
            0 <= i < fields.len() ==> readable_type(fields[i].data_type),
        TypeTree::List(item) => readable_type(item.data_type),
        TypeTree::LargeList(item) => readable_type(item.data_type),
        TypeTree::ListView(item) => readable_type(item.data_type),
        TypeTree::LargeListView(item) => readable_type(item.data_type),
        TypeTree::FixedSizeList(item, size) => size >= 0 && readable_type(item.data_type),
        TypeTree::MapOf(entries, _) => readable_type(entries.data_type),
        _ => true,
    }
}

/// Whether `arrow_json` can be asked for values of the types of all fields.
pub open spec fn readable_fields(fields: Seq<FieldTree>) -> bool {
    forall|i: int|
        #![trigger fields[i]]
        0 <= i < fields.len() ==> readable_type(fields[i].data_type)
}

/// Whether `arrow_json` can be asked for values of a type.
pub fn is_readable_type(data_type: &ColumnType) -> (r: bool)
    ensures
        r == readable_type(data_type@),
    decreases data_type,
{
    proof {
        reveal_with_fuel(ColumnType::tree, 3);
        reveal_with_fuel(ColumnField::tree, 3);
    }
    match data_type {
        ColumnType::FixedSizeBinary(_) => false,
        ColumnType::Decimal128(_, _) => false,
        ColumnType::Struct(fields) => {
            let mut i: usize = 0;
            while i < fields.len()
                invariant
                    i <= fields.len(),
                    *data_type == ColumnType::Struct(*fields),
                    forall|j: int|
                        0 <= j < i ==> readable_type((#[trigger] fields@[j]).data_type@),
                decreases fields.len() - i,
            {
                proof {
                    reveal_with_fuel(ColumnType::tree, 3);
                    reveal_with_fuel(ColumnField::tree, 3);
                }
                assert(decreases_to!(*data_type => data_type->Struct_0));
                assert(decreases_to!(data_type->Struct_0 => fields@));
                assert(decreases_to!(fields@ => fields@[i as int]));
                assert(decreases_to!(fields@[i as int] => fields@[i as int].data_type));
                let one: bool = is_readable_type(&fields[i].data_type);
                if !one {
                    assert(data_type@->Struct_0[i as int].data_type == fields@[i as int].data_type@);
                    return false;
                }
                i = i + 1;
            }
            assert(data_type@ is Struct);
            assert forall|j: int|
                #![trigger data_type@->Struct_0[j]]
                0 <= j < data_type@->Struct_0.len() implies readable_type(
                data_type@->Struct_0[j].data_type,
            ) by {
                assert(data_type@->Struct_0[j].data_type == fields@[j].data_type@);
            }
            true
        },
        ColumnType::List(item) => is_readable_type(&item.data_type),
        ColumnType::MapOf(entries, _) => is_readable_type(&entries.data_type),
        _ => true,
    }
}

/// Whether `arrow_json` can be asked for values of the types of all columns.
pub fn is_readable_schema(schema: &TableSchema) -> (r: bool)
    ensures
        r == readable_fields(schema@),
{
    let mut i: usize = 0;
    while i < schema.fields.len()
        invariant
            i <= schema.fields.len(),
            forall|j: int| 0 <= j < i ==> readable_type((#[trigger] schema@[j]).data_type),
        decreases schema.fields.len() - i,
    {
        assert(schema@[i as int] == schema.fields@[i as int]@);
        if !is_readable_type(&schema.fields[i].data_type) {
            return false;
        }
        i = i + 1;
    }
    true
}

/// Whether several columns of a type can be put together: no structure has a field without values
/// that may not be null.
pub open spec fn stackable_type(data_type: TypeTree) -> bool
    decreases data_type,
{
    match data_type {
        TypeTree::Struct(fields) => forall|i: int|
            #![trigger fields[i]]
            0 <= i < fields.len() ==> (fields[i].data_type == TypeTree::Null
                ==> fields[i].nullable) && stackable_type(fields[i].data_type),
        TypeTree::List(item) => stackable_type(item.data_type),
        TypeTree::LargeList(item) => stackable_type(item.data_type),
        TypeTree::ListView(item) => stackable_type(item.data_type),
        TypeTree::LargeListView(item) => stackable_type(item.data_type),
        TypeTree::FixedSizeList(item, _) => stackable_type(item.data_type),
        TypeTree::MapOf(entries, _) => stackable_type(entries.data_type),
        _ => true,
    }
}

/// Whether several columns of the type of each field can be put together.
pub open spec fn stackable_fields(fields: Seq<FieldTree>) -> bool {
    forall|i: int|
        #![trigger fields[i]]
        0 <= i < fields.len() ==> stackable_type(fields[i].data_type)
}

/// How many items the lists and maps in the columns of batches hold together.
pub open spec fn listed_total(batches: Seq<RowBatch>) -> nat
    decreases batches.len(),
{
    if batches.len() == 0 {
        0
    } else {
        listed_total(batches.drop_last()) + listed_in(batches.last())
    }
}

/// How many bytes the texts and the bytes in the columns of batches take together.
pub open spec fn texts_total(batches: Seq<RowBatch>) -> nat
    decreases batches.len(),
{
    if batches.len() == 0 {
        0
    } else {
        texts_total(batches.drop_last()) + text_in(batches.last())
    }
}

/// Builds a reader with `arrow_json::ReaderBuilder` and collects its batches. Claimed: whether it
/// fails, and else the batches, depends on the fields and the bytes alone; each batch has the
/// fields, and columns that are fit for them; the items of lists and maps are at most half as many
/// as the bytes, since each is followed by a byte of its own; and texts take no more bytes than
/// were read, less two for each row, since none is longer than it is written and each row stands in
/// braces. Left unsaid is what an error says, since it may print metadata in the order of a hash
/// map.
#[verifier::external_body]
fn read_json_rows(schema: &ArrowSchema, bytes: Vec<u8>) -> (r: Result<Vec<RowBatch>, ArrowError>)
    requires
        readable_fields(fields_of(*schema)),
        bytes@.len() < u32::MAX,
    ensures
        match r {
            Ok(batches) => {
                &&& json_batches(fields_of(*schema), bytes@) == Some(batches_of(batches@))
                &&& 2 * listed_total(batches@) <= bytes@.len()
                &&& texts_total(batches@) <= text_room(
                    fields_of(*schema),
                    bytes@,
                    batches_of(batches@),
                )
                &&& forall|i: int|
                    #![trigger batches@[i]]
                    0 <= i < batches@.len() ==> json_batch_fits(
                        fields_of(*schema),
                        batch_of(batches@[i]),
                    ) && 2 * listed_in(batches@[i]) <= bytes@.len() && text_in(batches@[i])
                        <= bytes@.len()
            },
            Err(_) => json_batches(fields_of(*schema), bytes@) is None,
        },
{
    let reader = arrow_json::ReaderBuilder::new(std::sync::Arc::new(schema.clone())).build(
        std::io::Cursor::new(bytes),
    )?;
    reader.map(|batch| batch.map(|rows| RowBatch { rows })).collect()
}

/// Whether a batch has the fields, and columns that are fit for them; without fields it has no
/// columns.
pub open spec fn json_batch_fits(fields: Seq<FieldTree>, batch: BatchTree) -> bool {
    &&& batch.fields == fields
    &&& batch.columns.len() == fields.len()
    &&& fields.len() > 0 ==> columns_fit(fields, batch.columns)
}

/// The cells of the column `i` of all batches, one after the other.
pub open spec fn stacked_cells(batches: Seq<BatchTree>, i: int) -> Seq<CellTree>
    decreases batches.len(),
{
    if batches.len() == 0 {
        Seq::empty()
    } else {
        stacked_cells(batches.drop_last(), i) + batches.last().columns[i].cells
    }
}

/// How many bytes of JSON text are left for the texts of columns where the braces of its rows are
/// taken off; none where there are no columns.
pub open spec fn text_room(
    fields: Seq<FieldTree>,
    bytes: Seq<u8>,
    batches: Seq<BatchTree>,
) -> int {
    if fields.len() == 0 {
        0
    } else {
        bytes.len() - 2 * stacked_cells(batches, 0).len()
    }
}

/// The rows of all batches, one after the other, under the fields.
pub open spec fn stacked(fields: Seq<FieldTree>, batches: Seq<BatchTree>) -> BatchTree {
    BatchTree {
        fields,
        columns: Seq::new(
            fields.len(),
            |i: int|
                ColumnTree { data_type: fields[i].data_type, cells: stacked_cells(batches, i) },
        ),
    }
}

/// Calls `arrow::compute::concat_batches`. Claimed: a batch that comes back has the rows of the
/// batches one after the other, and one comes back unless several batches have more bytes of text
/// than offsets of 32 bits can tell, or structures with a field without values that may not be
/// null. It panics where a batch has fewer columns than there are
/// fields, or where there are more items in lists than such offsets can tell.
#[verifier::external_body]
fn concat_rows(schema: &ArrowSchema, batches: &Vec<RowBatch>) -> (r: Result<
    RowBatch,
    ArrowError,
>)
    requires
        batches@.len() > 0,
        readable_fields(fields_of(*schema)),
        listed_total(batches@) <= i32::MAX,
        forall|i: int|
            #![trigger batches@[i]]
            0 <= i < batches@.len() ==> json_batch_fits(fields_of(*schema), batch_of(batches@[i])),
    ensures
        match r {
            Ok(batch) => batch_of(batch) == stacked(fields_of(*schema), batches_of(batches@)),
            Err(_) => batches@.len() > 1 && (texts_total(batches@) > i32::MAX
                || !stackable_fields(fields_of(*schema))),
        },
{
    let rows = arrow::compute::concat_batches(
        &std::sync::Arc::new(schema.clone()),
        batches.iter().map(|batch| &batch.rows),
    )?;
    Ok(RowBatch { rows })
}

/// Whether putting columns under fields may give `outcome`: the batch, which comes where the
/// columns are fit and only where they go with the fields, or a failure of Arrow.
pub open spec fn batch_outcome(
    fields: Seq<FieldTree>,
    columns: Seq<ColumnTree>,
    outcome: Result<BatchTree, Failure>,
) -> bool {
    match outcome {
        Ok(batch) => batch == (BatchTree { fields, columns }) && columns_match(fields, columns),
        Err(failure) => !columns_fit(fields, columns) && arrow_failed(failure),
    }
}

/// The error that Arrow describes.
fn arrow_read_error(error: &ArrowError) -> (r: ReadError)
    ensures
        arrow_failed(r@),
{
    let r = ReadError::Arrow(arrow_error_text(error));
    assert(r@ == arrow_failure(arrow_text_of(*error)));
    r
}

/// The batch of the columns.
pub(crate) fn new_batch(schema: ArrowSchema, columns: Vec<Column>) -> (r: Result<
    RowBatch,
    ReadError,
>)
    ensures
        match r {
            Ok(batch) => batch_outcome(
                fields_of(schema),
                columns_of(columns@),
                Ok(batch_of(batch)),
            ),
            Err(error) => batch_outcome(fields_of(schema), columns_of(columns@), Err(error@)),
        },
{
    match try_batch(schema, columns) {
        Ok(batch) => Ok(batch),
        Err(error) => Err(arrow_read_error(&error)),
    }
}

/// Whether reading JSON text may give `outcome`: its rows in one batch, nothing where it holds
/// none, or a failure of Arrow, which comes where the text cannot be read, and else may come only
/// where it has room for longer texts than offsets of 32 bits can tell, or columns cannot be put
/// together.
pub open spec fn json_outcome(
    fields: Seq<FieldTree>,
    bytes: Seq<u8>,
    outcome: Result<Option<BatchTree>, Failure>,
) -> bool {
    match json_batches(fields, bytes) {
        None => outcome matches Err(failure) && arrow_failed(failure),
        Some(batches) => match outcome {
            Ok(None) => batches.len() == 0,
            Ok(Some(batch)) => batches.len() > 0 && batch == stacked(fields, batches),
            Err(failure) => batches.len() > 1 && (text_room(fields, bytes, batches) > i32::MAX
                || !stackable_fields(fields)) && arrow_failed(failure),
        },
    }
}

/// JSON text that can be read gives its rows, where it has no room for longer texts than offsets of
/// 32 bits can tell and columns can be put together.
pub proof fn law_readable_json_gives_its_rows(
    fields: Seq<FieldTree>,
    bytes: Seq<u8>,
    outcome: Result<Option<BatchTree>, Failure>,
)
    requires
        json_outcome(fields, bytes, outcome),
        json_batches(fields, bytes) is Some,
        stackable_fields(fields),
        text_room(fields, bytes, json_batches(fields, bytes)->0) <= i32::MAX,
    ensures
        outcome == Ok::<_, Failure>(
            if json_batches(fields, bytes)->0.len() == 0 {
                None
            } else {
                Some(stacked(fields, json_batches(fields, bytes)->0))
            },
        ),
{
}

/// What optional rows hold.
pub open spec fn optional_batch(batch: Option<RowBatch>) -> Option<BatchTree> {
    match batch {
        Some(batch) => Some(batch_of(batch)),
        None => None,
    }
}

/// The rows that JSON text holds, in one batch; nothing where it holds none.
pub fn decode_json(schema: &ArrowSchema, bytes: Vec<u8>) -> (r: Result<
    Option<RowBatch>,
    ReadError,
>)
    requires
        readable_fields(fields_of(*schema)),
        bytes@.len() < u32::MAX,
    ensures
        match r {
            Ok(batch) => json_outcome(fields_of(*schema), bytes@, Ok(optional_batch(batch))),
            Err(error) => json_outcome(fields_of(*schema), bytes@, Err(error@)),
        },
{
    match read_json_rows(schema, bytes) {
        Ok(batches) => {
            if batches.len() == 0 {
                return Ok(None);
            }
            match concat_rows(schema, &batches) {
                Ok(batch) => Ok(Some(batch)),
                Err(error) => Err(arrow_read_error(&error)),
            }
        },
        Err(error) => Err(arrow_read_error(&error)),
    }
}

/// A decoder of Avro messages.
#[verifier::external_type_specification]
#[verifier::external_body]
pub struct ExAvroDecoder(arrow_avro::reader::Decoder);

/// An error of Avro.
#[verifier::external_type_specification]
#[verifier::external_body]
pub struct ExAvroError(arrow_avro::errors::AvroError);

/// What a decoder was made for, a schema with its identifier and a number of rows, and the messages
/// that it has taken since.
pub struct DecoderTree {
    pub schema_json: Seq<char>,
    pub schema_id: u32,
    pub size: usize,
    pub taken: Seq<Seq<u8>>,
}

/// What a decoder was made for and has taken.
pub uninterp spec fn decoder_of(decoder: arrow_avro::reader::Decoder) -> DecoderTree;

/// The text with which an error of Avro describes itself.
pub uninterp spec fn avro_text_of(error: arrow_avro::errors::AvroError) -> Seq<char>;

/// Whether a decoder can be made for the schema.
pub uninterp spec fn decoder_made(schema_json: Seq<char>, schema_id: u32, size: usize) -> bool;

/// How many bytes of a message a decoder takes; none where it fails.
pub uninterp spec fn avro_consumed(decoder: DecoderTree, message: Seq<u8>) -> Option<usize>;

/// How many rows a decoder has room for.
pub uninterp spec fn avro_room(decoder: DecoderTree) -> usize;

/// The rows that a decoder hands out, where there are any; none where it fails.
pub uninterp spec fn avro_batch(decoder: DecoderTree) -> Option<Option<BatchTree>>;

/// Whether a failure is one that Avro describes.
pub open spec fn avro_failed(failure: Failure) -> bool {
    exists|error: arrow_avro::errors::AvroError|
        failure == decode_failure(#[trigger] avro_text_of(error))
}

/// Builds a decoder with `arrow_avro::reader::ReaderBuilder` for a store that holds one schema
/// under its identifier. Claimed: whether one can be built depends on the schema, the identifier
/// and the number of rows alone, and the decoder has room for that many rows. Left unsaid is what
/// an error says, since it may print attributes of the schema in the order of a hash map.
#[verifier::external_body]
fn new_decoder(schema_json: &str, schema_id: u32, size: usize) -> (r: Result<
    arrow_avro::reader::Decoder,
    ArrowError,
>)
    ensures
        match r {
            Ok(decoder) => decoder_made(schema_json@, schema_id, size) && decoder_of(decoder) == (
            DecoderTree { schema_json: schema_json@, schema_id, size, taken: Seq::empty() })
                && avro_room(decoder_of(decoder)) == size,
            Err(_) => !decoder_made(schema_json@, schema_id, size),
        },
{
    let id = arrow_avro::schema::Fingerprint::Id(schema_id);
    let mut store = arrow_avro::schema::SchemaStore::new_with_type(
        arrow_avro::schema::FingerprintAlgorithm::Id,
    );
    store.set(id, arrow_avro::schema::AvroSchema::new(schema_json.to_string()))?;
    let builder = arrow_avro::reader::ReaderBuilder::new().with_batch_size(size);
    builder.with_writer_schema_store(store).build_decoder()
}

/// Calls `Decoder::decode`. Claimed: whether it fails, and else the number of bytes taken, depends
/// on what the decoder was made for and has taken and on the bytes alone.
#[verifier::external_body]
fn decode_message(decoder: &mut arrow_avro::reader::Decoder, message: &Vec<u8>) -> (r: Result<
    usize,
    arrow_avro::errors::AvroError,
>)
    ensures
        match r {
            Ok(n) => avro_consumed(decoder_of(*old(decoder)), message@) == Some(n)
                && decoder_of(*final(decoder)) == (DecoderTree {
                taken: decoder_of(*old(decoder)).taken.push(message@),
                ..decoder_of(*old(decoder))
            }),
            Err(_) => avro_consumed(decoder_of(*old(decoder)), message@) is None,
        },
{
    decoder.decode(message)
}

/// Calls `Decoder::capacity`. Claimed: the number depends on what the decoder was made for and has
/// taken alone.
#[verifier::external_body]
fn decoder_room(decoder: &arrow_avro::reader::Decoder) -> (r: usize)
    ensures
        r == avro_room(decoder_of(*decoder)),
{
    decoder.capacity()
}

/// Whether the items of all arrays in the schema are known to take at least one byte each.
pub open spec fn sized_schema(schema_json: Seq<char>) -> bool {
    match json_of_text(schema_json) {
        Ok(tree) => sized_items(tree),
        Err(_) => false,
    }
}

/// The number of bytes that messages have behind the five bytes that name their schema.
pub open spec fn bodies_total(messages: Seq<Seq<u8>>) -> int
    decreases messages.len(),
{
    if messages.len() == 0 {
        0
    } else {
        bodies_total(messages.drop_last()) + if messages.last().len() > 5 {
            messages.last().len() - 5
        } else {
            0
        }
    }
}

/// Calls `Decoder::flush`. Claimed: whether it fails, and else the rows, depends on what the
/// decoder was made for and has taken alone. Left unsaid is what an error says, since it may print
/// metadata in the order of a hash map. It panics where arrays have more items together than
/// offsets of 32 bits can tell; where each item takes a byte they are no more than the bytes taken.
#[verifier::external_body]
fn flush_decoder(decoder: &mut arrow_avro::reader::Decoder) -> (r: Result<
    Option<RowBatch>,
    arrow_avro::errors::AvroError,
>)
    requires
        sized_schema(decoder_of(*old(decoder)).schema_json),
        bodies_total(decoder_of(*old(decoder)).taken) <= i32::MAX,
    ensures
        match r {
            Ok(batch) => avro_batch(decoder_of(*old(decoder))) == Some(optional_batch(batch)),
            Err(_) => avro_batch(decoder_of(*old(decoder))) is None,
        },
{
    let batch = decoder.flush()?;
    Ok(batch.map(|rows| RowBatch { rows }))
}

/// Calls `to_string` of `AvroError`. Claimed: the description depends on the error alone.
#[verifier::external_body]
fn avro_error_text(error: &arrow_avro::errors::AvroError) -> (r: String)
    ensures
        r@ == avro_text_of(*error),
{
    error.to_string()
}

/// What a decoder is after it has taken `message`.
pub open spec fn taken(decoder: DecoderTree, message: Seq<u8>) -> DecoderTree {
    DecoderTree { taken: decoder.taken.push(message), ..decoder }
}

/// Why messages cannot be decoded: no decoder can be made, arrays in the schema may have items that
/// take no bytes, the decoder fails, or the message at a position is no complete record.
pub enum AvroFault {
    Schema,
    Unsized,
    Decoder,
    Incomplete(int),
}

/// Whether `failure` is the failure of a fault.
pub open spec fn fault_failure(fault: AvroFault, failure: Failure) -> bool {
    match fault {
        AvroFault::Schema => arrow_failed(failure),
        AvroFault::Unsized => failure == decode_failure(
            "Avro arrays of items that may take no bytes are not supported"@,
        ),
        AvroFault::Decoder => avro_failed(failure),
        AvroFault::Incomplete(position) => failure == decode_failure(
            "no complete Avro record in message "@ + decimal(position),
        ),
    }
}

/// What a decoder is after the message at `position`: it has to take the whole message, and have
/// room for one row less afterwards.
pub open spec fn fed_one(decoder: DecoderTree, message: Seq<u8>, position: int) -> Result<
    DecoderTree,
    AvroFault,
> {
    match avro_consumed(decoder, message) {
        None => Err(AvroFault::Decoder),
        Some(n) => if n == message.len() && avro_room(taken(decoder, message)) + 1 == avro_room(
            decoder,
        ) {
            Ok(taken(decoder, message))
        } else {
            Err(AvroFault::Incomplete(position))
        },
    }
}

/// What a decoder is after the first `n` messages, or the fault of the first that has one.
pub open spec fn fed(decoder: DecoderTree, messages: Seq<Seq<u8>>, n: int) -> Result<
    DecoderTree,
    AvroFault,
>
    decreases n,
{
    if n <= 0 {
        Ok(decoder)
    } else {
        match fed(decoder, messages, n - 1) {
            Ok(done) => fed_one(done, messages[n - 1], n - 1),
            Err(fault) => Err(fault),
        }
    }
}

/// The rows of Avro messages, a row for each, in one batch; nothing where a decoder has none.
pub open spec fn avro_rows(schema_json: Seq<char>, schema_id: u32, messages: Seq<Seq<u8>>) -> Result<
    Option<BatchTree>,
    AvroFault,
> {
    let size = messages.len() as usize;
    if !decoder_made(schema_json, schema_id, size) {
        Err(AvroFault::Schema)
    } else if !sized_schema(schema_json) {
        Err(AvroFault::Unsized)
    } else {
        match fed(
            DecoderTree { schema_json, schema_id, size, taken: Seq::empty() },
            messages,
            messages.len() as int,
        ) {
            Err(fault) => Err(fault),
            Ok(decoder) => match avro_batch(decoder) {
                Some(batch) => Ok(batch),
                None => Err(AvroFault::Decoder),
            },
        }
    }
}

/// Whether decoding Avro messages may give `outcome`: their rows, or a failure of the fault.
pub open spec fn avro_outcome(
    schema_json: Seq<char>,
    schema_id: u32,
    messages: Seq<Seq<u8>>,
    outcome: Result<Option<BatchTree>, Failure>,
) -> bool {
    match avro_rows(schema_json, schema_id, messages) {
        Ok(batch) => outcome == Ok::<_, Failure>(batch),
        Err(fault) => outcome matches Err(failure) && fault_failure(fault, failure),
    }
}

proof fn lemma_fed_failure(decoder: DecoderTree, messages: Seq<Seq<u8>>, m: int, n: int)
    requires
        m <= n,
        fed(decoder, messages, m) is Err,
    ensures
        fed(decoder, messages, n) == fed(decoder, messages, m),
    decreases n,
{
    if m < n && n > 0 {
        lemma_fed_failure(decoder, messages, m, n - 1);
    }
}

/// The error that Avro describes.
fn avro_read_error(error: &arrow_avro::errors::AvroError) -> (r: ReadError)
    ensures
        avro_failed(r@),
{
    let r = decode_error(avro_error_text(error));
    assert(r@ == decode_failure(avro_text_of(*error)));
    r
}

/// What a list of messages stands for.
pub open spec fn message_bytes(messages: Seq<Vec<u8>>) -> Seq<Seq<u8>> {
    messages.map_values(|m: Vec<u8>| m@)
}

/// The rows of Avro messages that name their schema in front, a row for each, in one batch; nothing
/// where the decoder has none.
pub fn decode_avro(schema_json: &str, schema_id: u32, messages: &Vec<Vec<u8>>) -> (r: Result<
    Option<RowBatch>,
    ReadError,
>)
    requires
        bodies_total(message_bytes(messages@)) <= i32::MAX,
    ensures
        ({
            let all = message_bytes(messages@);
            match r {
                Ok(batch) => avro_outcome(schema_json@, schema_id, all, Ok(optional_batch(batch))),
                Err(error) => avro_outcome(schema_json@, schema_id, all, Err(error@)),
            }
        }),
{
    let ghost all = message_bytes(messages@);
    let n: usize = messages.len();
    let mut decoder: arrow_avro::reader::Decoder = match new_decoder(schema_json, schema_id, n) {
        Ok(decoder) => decoder,
        Err(error) => {
            return Err(arrow_read_error(&error));
        },
    };
    let sized: bool = match parse_json(schema_json) {
        Ok(json) => has_sized_items(&json),
        Err(_) => false,
    };
    if !sized {
        return Err(
            decode_error(
                "Avro arrays of items that may take no bytes are not supported".to_owned(),
            ),
        );
    }
    let ghost first = decoder_of(decoder);
    let mut i: usize = 0;
    while i < n
        invariant
            i <= n,
            n == messages@.len(),
            all == message_bytes(messages@),
            first == (DecoderTree {
                schema_json: schema_json@,
                schema_id,
                size: n,
                taken: Seq::empty(),
            }),
            decoder_made(schema_json@, schema_id, n),
            sized_schema(schema_json@),
            decoder_of(decoder).schema_json == schema_json@,
            decoder_of(decoder).taken == all.take(i as int),
            fed(first, all, i as int) == Ok::<_, AvroFault>(decoder_of(decoder)),
        decreases n - i,
    {
        let ghost before = decoder_of(decoder);
        let message: &Vec<u8> = &messages[i];
        assert(all[i as int] == message@);
        let room: usize = decoder_room(&decoder);
        match decode_message(&mut decoder, message) {
            Ok(count) => {
                assert(decoder_of(decoder) == taken(before, message@));
                let left: usize = decoder_room(&decoder);
                if !(count == message.len() && room > 0 && left == room - 1) {
                    proof {
                        lemma_fed_failure(first, all, i + 1, n as int);
                    }
                    let number: String = decimal_text(i as i128);
                    return Err(
                        decode_error(
                            joined("no complete Avro record in message ", number.as_str()),
                        ),
                    );
                }
            },
            Err(error) => {
                proof {
                    lemma_fed_failure(first, all, i + 1, n as int);
                }
                return Err(avro_read_error(&error));
            },
        }
        assert(all.take(i + 1) =~= all.take(i as int).push(all[i as int]));
        i = i + 1;
    }
    assert(all.take(n as int) =~= all);
    match flush_decoder(&mut decoder) {
        Ok(batch) => Ok(batch),
        Err(error) => Err(avro_read_error(&error)),
    }
}

/// Columns under fields give the batch of these very fields and columns; wherever there is one of
/// the field's type for each field, at least one, all of one length, and null only where a field
/// allows it or its type has nothing else, there is a batch.
pub proof fn law_batches_have_their_columns(
    fields: Seq<FieldTree>,
    columns: Seq<ColumnTree>,
    outcome: Result<BatchTree, Failure>,
)
    requires
        batch_outcome(fields, columns, outcome),
    ensures
        outcome is Ok ==> outcome->Ok_0.fields == fields && outcome->Ok_0.columns == columns,
        outcome is Ok ==> fields.len() == columns.len() && forall|i: int|
            0 <= i < columns.len() ==> (#[trigger] columns[i]).data_type == fields[i].data_type
                && columns[i].cells.len() == columns[0].cells.len(),
        columns.len() == fields.len() && columns.len() > 0 && (forall|i: int|
            0 <= i < columns.len() ==> (#[trigger] columns[i]).data_type == fields[i].data_type
                && columns[i].cells.len() == columns[0].cells.len() && (fields[i].nullable
                || fields[i].data_type == TypeTree::Null || forall|k: int|
                0 <= k < columns[i].cells.len() ==> !((
                #[trigger] columns[i].cells[k]) is Null))) ==> outcome is Ok,
        outcome is Err ==> outcome->Err_0.kind == FailureKind::Arrow,
{
    if columns.len() == fields.len() && columns.len() > 0 && (forall|i: int|
        0 <= i < columns.len() ==> (#[trigger] columns[i]).data_type == fields[i].data_type
            && columns[i].cells.len() == columns[0].cells.len() && (fields[i].nullable
            || fields[i].data_type == TypeTree::Null || forall|k: int|
            0 <= k < columns[i].cells.len() ==> !((#[trigger] columns[i].cells[k]) is Null))) {
        assert forall|i: int| 0 <= i < columns.len() implies fields[i].nullable
            || fields[i].data_type == TypeTree::Null || !(
        #[trigger] columns[i]).cells.contains(CellTree::Null) by {
            if columns[i].cells.contains(CellTree::Null) {
                let k = choose|k: int|
                    0 <= k < columns[i].cells.len() && columns[i].cells[k] == CellTree::Null;
                assert(columns[i].cells[k] is Null);
            }
        }
        assert(columns_fit(fields, columns));
    }
}

/// Batches that are put together have, in each column, the cells of the first and then those of the
/// rest, under the fields and their types.
pub proof fn law_stacked_rows_follow_each_other(
    fields: Seq<FieldTree>,
    a: Seq<BatchTree>,
    b: Seq<BatchTree>,
    i: int,
)
    requires
        0 <= i < fields.len(),
    ensures
        stacked(fields, a).fields == fields,
        stacked(fields, a).columns.len() == fields.len(),
        stacked(fields, a).columns[i].data_type == fields[i].data_type,
        stacked(fields, a + b).columns[i].cells == stacked(fields, a).columns[i].cells + stacked(
            fields,
            b,
        ).columns[i].cells,
        a.len() == 1 ==> stacked(fields, a).columns[i].cells == a[0].columns[i].cells,
        a.len() == 0 ==> stacked(fields, a).columns[i].cells.len() == 0,
{
    lemma_stacked_concat(a, b, i);
    if a.len() == 1 {
        assert(a.drop_last() =~= Seq::<BatchTree>::empty());
        assert(stacked_cells(a.drop_last(), i) =~= Seq::<CellTree>::empty());
        assert(stacked_cells(a, i) =~= a[0].columns[i].cells);
    }
}

proof fn lemma_stacked_concat(a: Seq<BatchTree>, b: Seq<BatchTree>, i: int)
    ensures
        stacked_cells(a + b, i) == stacked_cells(a, i) + stacked_cells(b, i),
    decreases b.len(),
{
    if b.len() == 0 {
        assert(a + b =~= a);
        assert(stacked_cells(a, i) + stacked_cells(b, i) =~= stacked_cells(a, i));
    } else {
        lemma_stacked_concat(a, b.drop_last(), i);
        assert((a + b).drop_last() =~= a + b.drop_last());
        assert((a + b).last() == b.last());
        assert(stacked_cells(a + b, i) =~= stacked_cells(a, i) + stacked_cells(b, i));
    }
}

/// What a decoder for a schema is after it has taken the first `n` messages.
pub open spec fn decoder_after(
    schema_json: Seq<char>,
    schema_id: u32,
    messages: Seq<Seq<u8>>,
    n: int,
) -> DecoderTree {
    DecoderTree {
        schema_json,
        schema_id,
        size: messages.len() as usize,
        taken: messages.take(n),
    }
}

/// Avro messages give rows where, and only where, a decoder for their number can be made, items of
/// arrays take bytes, each message is taken whole and fills one row, and the decoder hands its rows
/// out. They are then the rows of a decoder for the schema and its identifier that has taken every
/// message, in order.
pub proof fn law_every_avro_message_is_decoded(
    schema_json: Seq<char>,
    schema_id: u32,
    messages: Seq<Seq<u8>>,
)
    requires
        messages.len() <= usize::MAX,
    ensures
        ({
            let rows = avro_rows(schema_json, schema_id, messages);
            let done = DecoderTree {
                schema_json,
                schema_id,
                size: messages.len() as usize,
                taken: messages,
            };
            &&& rows is Ok <==> {
                &&& decoder_made(schema_json, schema_id, messages.len() as usize)
                &&& sized_schema(schema_json)
                &&& forall|i: int|
                    0 <= i < messages.len() ==> {
                        let before = decoder_after(schema_json, schema_id, messages, i);
                        let after = decoder_after(schema_json, schema_id, messages, i + 1);
                        &&& avro_consumed(before, #[trigger] messages[i]) is Some
                        &&& avro_consumed(before, messages[i])->0 == messages[i].len()
                        &&& avro_room(after) + 1 == avro_room(before)
                    }
                &&& avro_batch(done) is Some
            }
            &&& rows is Ok ==> avro_batch(done) == Some(rows->Ok_0)
        }),
{
    let start = DecoderTree {
        schema_json,
        schema_id,
        size: messages.len() as usize,
        taken: Seq::empty(),
    };
    assert(messages.take(0) =~= Seq::<Seq<u8>>::empty());
    assert(messages.take(messages.len() as int) =~= messages);
    lemma_fed_takes(schema_json, schema_id, messages, messages.len() as int);
}

proof fn lemma_fed_takes(
    schema_json: Seq<char>,
    schema_id: u32,
    messages: Seq<Seq<u8>>,
    n: int,
)
    requires
        0 <= n <= messages.len() <= usize::MAX,
    ensures
        ({
            let start = DecoderTree {
                schema_json,
                schema_id,
                size: messages.len() as usize,
                taken: Seq::empty(),
            };
            let result = fed(start, messages, n);
            &&& result is Ok ==> result->Ok_0 == decoder_after(schema_json, schema_id, messages, n)
            &&& result is Ok <==> forall|i: int|
                0 <= i < n ==> {
                    let before = decoder_after(schema_json, schema_id, messages, i);
                    let after = decoder_after(schema_json, schema_id, messages, i + 1);
                    &&& avro_consumed(before, #[trigger] messages[i]) is Some
                    &&& avro_consumed(before, messages[i])->0 == messages[i].len()
                    &&& avro_room(after) + 1 == avro_room(before)
                }
        }),
    decreases n,
{
    if n == 0 {
        assert(messages.take(0) =~= Seq::<Seq<u8>>::empty());
    } else {
        lemma_fed_takes(schema_json, schema_id, messages, n - 1);
        let before = decoder_after(schema_json, schema_id, messages, n - 1);
        let after = decoder_after(schema_json, schema_id, messages, n);
        assert(messages.take(n - 1).push(messages[n - 1]) =~= messages.take(n));
        assert(taken(before, messages[n - 1]) == after);
        assert(messages[n - 1] == messages[n - 1]);
    }
}

/// Where Avro messages cannot be decoded, the failure says whose fault it is: Arrow's where no
/// decoder can be made, and that of decoding everywhere else.
pub proof fn law_avro_failures(
    schema_json: Seq<char>,
    schema_id: u32,
    messages: Seq<Seq<u8>>,
    outcome: Result<Option<BatchTree>, Failure>,
)
    requires
        avro_outcome(schema_json, schema_id, messages, outcome),
    ensures
        outcome is Ok <==> avro_rows(schema_json, schema_id, messages) is Ok,
        outcome is Ok ==> avro_rows(schema_json, schema_id, messages)->Ok_0 == outcome->Ok_0,
        outcome is Err && !decoder_made(schema_json, schema_id, messages.len() as usize)
            ==> outcome->Err_0.kind == FailureKind::Arrow,
        outcome is Err && decoder_made(schema_json, schema_id, messages.len() as usize)
            ==> outcome->Err_0.kind == FailureKind::Deserialization,
{
    let start = DecoderTree {
        schema_json,
        schema_id,
        size: messages.len() as usize,
        taken: Seq::empty(),
    };
    lemma_fed_faults(start, messages, messages.len() as int);
}

proof fn lemma_fed_faults(decoder: DecoderTree, messages: Seq<Seq<u8>>, n: int)
    ensures
        fed(decoder, messages, n) matches Err(fault) ==> fault is Decoder || fault is Incomplete,
    decreases n,
{
    if n > 0 {
        lemma_fed_faults(decoder, messages, n - 1);
    }
}

/// JSON text gives its rows in one batch: all cells of all batches that it is read as, in order, or
/// nothing where there are none; and Arrow fails where it cannot be read.
pub proof fn law_json_rows_come_in_one_batch(
    fields: Seq<FieldTree>,
    bytes: Seq<u8>,
    outcome: Result<Option<BatchTree>, Failure>,
)
    requires
        json_outcome(fields, bytes, outcome),
    ensures
        outcome is Ok ==> json_batches(fields, bytes) is Some,
        outcome == Ok::<_, Failure>(None::<BatchTree>) ==> json_batches(fields, bytes)->0.len()
            == 0,
        outcome matches Ok(Some(batch)) ==> batch == stacked(fields, json_batches(fields, bytes)->0)
            && json_batches(fields, bytes)->0.len() > 0,
        outcome is Err ==> outcome->Err_0.kind == FailureKind::Arrow,
{
}

/// JSON values of all plain types can be read but bytes of a fixed number, decimals and intervals,
/// and those of structures, lists and maps where their parts can.
pub proof fn law_readable_types(data_type: TypeTree, fields: Seq<FieldTree>)
    ensures
        data_type is Boolean || data_type is Int32 || data_type is Int64 || data_type is Float32
            || data_type is Float64 || data_type is Utf8 || data_type is Binary
            || data_type is Date32 || data_type is Timestamp || data_type is Null
            ==> readable_type(data_type),
        data_type is FixedSizeBinary || data_type is Decimal128 || data_type is Union
            || data_type is Interval ==> !readable_type(data_type),
        data_type is List ==> (readable_type(data_type) <==> readable_type(
            data_type->List_0.data_type,
        )),
        data_type is MapOf ==> (readable_type(data_type) <==> readable_type(
            data_type->MapOf_0.data_type,
        )),
        readable_type(TypeTree::Struct(fields)) <==> forall|i: int|
            0 <= i < fields.len() ==> readable_type((#[trigger] fields[i]).data_type),
        readable_fields(fields) <==> forall|i: int|
            0 <= i < fields.len() ==> readable_type((#[trigger] fields[i]).data_type),
{
    reveal_with_fuel(readable_type, 2);
    if readable_type(TypeTree::Struct(fields)) {
        assert forall|i: int| 0 <= i < fields.len() implies readable_type(
            (#[trigger] fields[i]).data_type,
        ) by {}
    }
}

/// Lists of columns, of batches, of messages and of optional bytes stand for what each of them
/// holds, in order; and what may be missing for what it holds where it is there.
pub proof fn law_lists_stand_for_what_they_hold(
    columns: Seq<Column>,
    batches: Seq<RowBatch>,
    messages: Seq<Vec<u8>>,
    list: Seq<Option<Vec<u8>>>,
    batch: Option<RowBatch>,
)
    ensures
        columns_of(columns).len() == columns.len(),
        forall|i: int|
            0 <= i < columns.len() ==> #[trigger] columns_of(columns)[i] == column_of(columns[i]),
        batches_of(batches).len() == batches.len(),
        forall|i: int|
            0 <= i < batches.len() ==> #[trigger] batches_of(batches)[i] == batch_of(batches[i]),
        message_bytes(messages).len() == messages.len(),
        forall|i: int|
            0 <= i < messages.len() ==> #[trigger] message_bytes(messages)[i] == messages[i]@,
        bytes_views(list).len() == list.len(),
        forall|i: int|
            0 <= i < list.len() ==> #[trigger] bytes_views(list)[i] == match list[i] {
                Some(bytes) => Some(bytes@),
                None => None,
            },
        optional_batch(batch) == match batch {
            Some(rows) => Some(batch_of(rows)),
            None => None,
        },
{
}

} // verus!
