//! Columns of an Avro schema.

use vstd::prelude::*;

use crate::error::{
    missing_key_failure, plan_error, plan_failure, Failure, FailureKind, ReadError,
};
use crate::json::{
    entry, lemma_entry_smaller, lemma_item_smaller, signed_in, text_in, unsigned_in, Json, JsonTree,
};
use crate::schema::{
    column, columns, ColumnField, ColumnType, FieldTree, TableSchema, TimeUnit, TypeTree,
};
use crate::text::{joined, same_text};

verus! {

/// What an Avro type becomes: a column type and whether it is nullable.
pub type AvroOutcome = Result<(TypeTree, bool), Failure>;

/// What the Avro type with the name `name` becomes.
pub open spec fn avro_primitive(name: Seq<char>) -> AvroOutcome {
    if name == "null"@ {
        Ok((TypeTree::Null, true))
    } else if name == "boolean"@ {
        Ok((TypeTree::Boolean, false))
    } else if name == "int"@ {
        Ok((TypeTree::Int32, false))
    } else if name == "long"@ {
        Ok((TypeTree::Int64, false))
    } else if name == "float"@ {
        Ok((TypeTree::Float32, false))
    } else if name == "double"@ {
        Ok((TypeTree::Float64, false))
    } else if name == "bytes"@ {
        Ok((TypeTree::Binary, false))
    } else if name == "string"@ {
        Ok((TypeTree::Utf8, false))
    } else {
        Err(plan_failure("unsupported Avro type: "@ + name))
    }
}

/// The notation of a value that is neither a text, a list nor an object.
pub open spec fn scalar_notation(tree: JsonTree) -> Seq<char> {
    match tree {
        JsonTree::Bool(b) => if b {
            "true"@
        } else {
            "false"@
        },
        JsonTree::Number(n) => n.text,
        _ => "null"@,
    }
}

/// The branches of a union other than `"null"`.
pub open spec fn value_branches(branches: Seq<JsonTree>) -> Seq<JsonTree>
    decreases branches.len(),
{
    if branches.len() == 0 {
        Seq::empty()
    } else {
        let front = value_branches(branches.drop_last());
        if branches.last() == JsonTree::Text("null"@) {
            front
        } else {
            front.push(branches.last())
        }
    }
}

/// The position of the first branch of a union other than `"null"`, or the number of branches
/// where there is none.
pub open spec fn first_value_branch(branches: Seq<JsonTree>) -> int
    decreases branches.len(),
{
    if branches.len() == 0 {
        0
    } else if first_value_branch(branches.drop_last()) < branches.len() - 1 {
        first_value_branch(branches.drop_last())
    } else if branches.last() != JsonTree::Text("null"@) {
        branches.len() - 1
    } else {
        branches.len() as int
    }
}

/// What the logical type of an Avro type object says, where it is one that counts.
pub open spec fn avro_logical(tree: JsonTree) -> Option<TypeTree> {
    match text_in(entry(tree, "logicalType"@)) {
        Some(name) => if name == "date"@ {
            Some(TypeTree::Date32)
        } else if name == "timestamp-millis"@ {
            Some(TypeTree::Timestamp(TimeUnit::Millisecond))
        } else if name == "timestamp-micros"@ {
            Some(TypeTree::Timestamp(TimeUnit::Microsecond))
        } else if name == "decimal"@ {
            let precision: u64 = match unsigned_in(entry(tree, "precision"@)) {
                Some(n) => n,
                None => 38,
            };
            let scale: i64 = match signed_in(entry(tree, "scale"@)) {
                Some(n) => n,
                None => 0,
            };
            Some(TypeTree::Decimal128(precision as u8, scale as i8))
        } else {
            None
        },
        None => None,
    }
}

/// The type of a map from texts to values of the type `value`.
pub open spec fn avro_map_of(value: TypeTree, nullable: bool) -> TypeTree {
    let entries = TypeTree::Struct(
        seq![column("key"@, TypeTree::Utf8, false), column("value"@, value, nullable)],
    );
    TypeTree::MapOf(Box::new(column("entries"@, entries, false)), false)
}

/// What an Avro type becomes. A union of `"null"` and one more branch is that branch, nullable; a
/// union with another number of further branches is kept as bytes. In an object a logical type
/// that counts goes before the type.
pub open spec fn avro_type(tree: JsonTree) -> AvroOutcome
    decreases tree,
{
    match tree {
        JsonTree::Text(name) => avro_primitive(name),
        JsonTree::Array(branches) => {
            let others = value_branches(branches);
            let has_null = others.len() < branches.len();
            let i = first_value_branch(branches);
            if others.len() == 1 && 0 <= i < branches.len() {
                proof {
                    lemma_item_smaller(tree, i);
                }
                match avro_type(branches[i]) {
                    Ok((data_type, _)) => Ok((data_type, has_null)),
                    Err(failure) => Err(failure),
                }
            } else {
                Ok((TypeTree::Binary, has_null))
            }
        },
        JsonTree::Object(_) => {
            proof {
                lemma_entry_smaller(tree, "fields"@);
                lemma_entry_smaller(tree, "items"@);
                lemma_entry_smaller(tree, "values"@);
            }
            match (avro_logical(tree), text_in(entry(tree, "type"@))) {
                (Some(data_type), _) => Ok((data_type, false)),
                (None, None) => Err(plan_failure("Avro type object missing 'type' field"@)),
                (None, Some(name)) => if name == "record"@ {
                    match entry(tree, "fields"@) {
                        None => Err(missing_key_failure("fields"@)),
                        Some(JsonTree::Array(fields)) => match avro_fields(
                            JsonTree::Array(fields),
                            fields.len() as int,
                        ) {
                            Ok(inner) => Ok((TypeTree::Struct(inner), false)),
                            Err(failure) => Err(failure),
                        },
                        Some(_) => Err(plan_failure("Avro record must have 'fields'"@)),
                    }
                } else if name == "array"@ {
                    match entry(tree, "items"@) {
                        None => Err(missing_key_failure("items"@)),
                        Some(items) => match avro_type(items) {
                            Ok((item, nullable)) => Ok(
                                (
                                    TypeTree::List(Box::new(column("item"@, item, nullable))),
                                    false,
                                ),
                            ),
                            Err(failure) => Err(failure),
                        },
                    }
                } else if name == "map"@ {
                    match entry(tree, "values"@) {
                        None => Err(missing_key_failure("values"@)),
                        Some(values) => match avro_type(values) {
                            Ok((value, nullable)) => Ok((avro_map_of(value, nullable), false)),
                            Err(failure) => Err(failure),
                        },
                    }
                } else if name == "enum"@ {
                    Ok(
                        (
                            TypeTree::Dictionary(
                                Box::new(TypeTree::Int32),
                                Box::new(TypeTree::Utf8),
                            ),
                            false,
                        ),
                    )
                } else if name == "fixed"@ {
                    let size: u64 = match unsigned_in(entry(tree, "size"@)) {
                        Some(n) => n,
                        None => 0,
                    };
                    Ok((TypeTree::FixedSizeBinary(size as i32), false))
                } else {
                    avro_primitive(name)
                },
            }
        },
        _ => Err(plan_failure("unsupported Avro type value: "@ + scalar_notation(tree))),
    }
}

/// The column of a field of an Avro record; `"unknown"` where it has no name.
pub open spec fn avro_field(tree: JsonTree) -> Result<FieldTree, Failure>
    decreases tree,
{
    proof {
        lemma_entry_smaller(tree, "type"@);
    }
    let name = match text_in(entry(tree, "name"@)) {
        Some(name) => name,
        None => "unknown"@,
    };
    match entry(tree, "type"@) {
        Some(data_type) => match avro_type(data_type) {
            Ok((data_type, nullable)) => Ok(column(name, data_type, nullable)),
            Err(failure) => Err(failure),
        },
        None => Err(plan_failure("unsupported Avro type value: "@ + "null"@)),
    }
}

/// The columns of the first `n` fields of an Avro record, or the failure of the first that has one.
pub open spec fn avro_fields(tree: JsonTree, n: int) -> Result<Seq<FieldTree>, Failure>
    decreases tree, n,
{
    if tree is Array && 0 < n <= tree->Array_0.len() {
        proof {
            lemma_item_smaller(tree, n - 1);
        }
        match avro_fields(tree, n - 1) {
            Ok(done) => match avro_field(tree->Array_0[n - 1]) {
                Ok(field) => Ok(done.push(field)),
                Err(failure) => Err(failure),
            },
            Err(failure) => Err(failure),
        }
    } else {
        Ok(Seq::empty())
    }
}

/// What an Avro schema becomes.
pub open spec fn avro_schema(tree: JsonTree) -> Result<Seq<FieldTree>, Failure> {
    match entry(tree, "fields"@) {
        Some(JsonTree::Array(fields)) => avro_fields(
            JsonTree::Array(fields),
            fields.len() as int,
        ),
        _ => Err(plan_failure("Avro schema must be a record type with 'fields'"@)),
    }
}

/// A failure among the first fields is the failure of all.
proof fn lemma_avro_fields_failure(tree: JsonTree, m: int, n: int)
    requires
        tree is Array,
        0 <= m <= n <= tree->Array_0.len(),
        avro_fields(tree, m) is Err,
    ensures
        avro_fields(tree, n) == avro_fields(tree, m),
    decreases n,
{
    if m < n {
        lemma_avro_fields_failure(tree, m, n - 1);
    }
}

proof fn lemma_value_branches(branches: Seq<JsonTree>)
    ensures
        value_branches(branches).len() <= branches.len(),
        0 <= first_value_branch(branches) <= branches.len(),
        value_branches(branches).len() > 0 <==> first_value_branch(branches) < branches.len(),
    decreases branches.len(),
{
    if branches.len() > 0 {
        lemma_value_branches(branches.drop_last());
    }
}

/// The type that goes by a name.
fn primitive_to_arrow(name: &String) -> (r: Result<(ColumnType, bool), ReadError>)
    ensures
        match r {
            Ok((data_type, nullable)) => avro_primitive(name@) == Ok::<_, Failure>(
                (data_type@, nullable),
            ),
            Err(error) => avro_primitive(name@) == Err::<(TypeTree, bool), _>(error@),
        },
{
    let s: &str = name.as_str();
    if same_text(s, "null") {
        Ok((ColumnType::Null, true))
    } else if same_text(s, "boolean") {
        Ok((ColumnType::Boolean, false))
    } else if same_text(s, "int") {
        Ok((ColumnType::Int32, false))
    } else if same_text(s, "long") {
        Ok((ColumnType::Int64, false))
    } else if same_text(s, "float") {
        Ok((ColumnType::Float32, false))
    } else if same_text(s, "double") {
        Ok((ColumnType::Float64, false))
    } else if same_text(s, "bytes") {
        Ok((ColumnType::Binary, false))
    } else if same_text(s, "string") {
        Ok((ColumnType::Utf8, false))
    } else {
        Err(plan_error(joined("unsupported Avro type: ", s)))
    }
}

/// The type that a logical type stands for.
fn logical_to_arrow(avro: &Json) -> (r: Option<ColumnType>)
    ensures
        match r {
            Some(data_type) => avro_logical(avro@) == Some(data_type@),
            None => avro_logical(avro@) is None,
        },
{
    match avro.text_entry("logicalType") {
        Some(name) => {
            let s: &str = name.as_str();
            if same_text(s, "date") {
                Some(ColumnType::Date32)
            } else if same_text(s, "timestamp-millis") {
                Some(ColumnType::Timestamp(TimeUnit::Millisecond))
            } else if same_text(s, "timestamp-micros") {
                Some(ColumnType::Timestamp(TimeUnit::Microsecond))
            } else if same_text(s, "decimal") {
                let precision: u64 = match avro.unsigned_entry("precision") {
                    Some(n) => n,
                    None => 38,
                };
                let scale: i64 = match avro.signed_entry("scale") {
                    Some(n) => n,
                    None => 0,
                };
                Some(
                    ColumnType::Decimal128(
                        #[verifier::truncate]
                        (precision as u8),
                        #[verifier::truncate]
                        (scale as i8),
                    ),
                )
            } else {
                None
            }
        },
        None => None,
    }
}

/// The position of the only branch of a union other than `"null"`, where there is exactly one, and
/// whether there is a branch `"null"`.
fn only_value_branch(branches: &Vec<Json>) -> (r: (Option<usize>, bool))
    ensures
        ({
            let trees = Json::Array(*branches)@->Array_0;
            let others = value_branches(trees);
            &&& r.0 is Some <==> others.len() == 1
            &&& r.0 is Some ==> r.0->0 == first_value_branch(trees) && r.0->0 < branches@.len()
            &&& r.1 == (others.len() < trees.len())
        }),
{
    let ghost trees = Json::Array(*branches)@->Array_0;
    let mut count: usize = 0;
    let mut first: usize = 0;
    let mut i: usize = 0;
    assert(trees.take(0) =~= Seq::<JsonTree>::empty());
    while i < branches.len()
        invariant
            i <= branches.len(),
            trees == Json::Array(*branches)@->Array_0,
            count <= i,
            count == value_branches(trees.take(i as int)).len(),
            count > 0 ==> first == first_value_branch(trees.take(i as int)) && first < i,
            count == 0 ==> first_value_branch(trees.take(i as int)) == i,
        decreases branches.len() - i,
    {
        assert(trees.take(i + 1).drop_last() =~= trees.take(i as int));
        assert(trees.take(i + 1).last() == branches@[i as int]@);
        let is_null = match &branches[i] {
            Json::Text(s) => same_text(s.as_str(), "null"),
            _ => false,
        };
        if !is_null {
            if count == 0 {
                first = i;
            }
            count = count + 1;
        }
        i = i + 1;
    }
    assert(trees.take(trees.len() as int) =~= trees);
    if count == 1 {
        (Some(first), count < branches.len())
    } else {
        (None, count < branches.len())
    }
}

/// The column type of an Avro type, and whether it is nullable.
pub fn avro_type_to_arrow(avro: &Json) -> (r: Result<(ColumnType, bool), ReadError>)
    ensures
        match r {
            Ok((data_type, nullable)) => avro_type(avro@) == Ok::<_, Failure>(
                (data_type@, nullable),
            ),
            Err(error) => avro_type(avro@) == Err::<(TypeTree, bool), _>(error@),
        },
    decreases avro@, 0int,
{
    let ghost tree = avro@;
    match avro {
        Json::Text(name) => primitive_to_arrow(name),
        Json::Array(branches) => {
            let (only, has_null) = only_value_branch(branches);
            proof {
                lemma_value_branches(tree->Array_0);
            }
            match only {
                Some(i) => {
                    proof {
                        lemma_item_smaller(tree, i as int);
                    }
                    match avro_type_to_arrow(&branches[i]) {
                        Ok((data_type, _)) => Ok((data_type, has_null)),
                        Err(error) => Err(error),
                    }
                },
                None => Ok((ColumnType::Binary, has_null)),
            }
        },
        Json::Object(_) => {
            if let Some(data_type) = logical_to_arrow(avro) {
                return Ok((data_type, false));
            }
            match avro.text_entry("type") {
                None => Err(plan_error("Avro type object missing 'type' field".to_owned())),
                Some(name) => {
                    if same_text(name.as_str(), "record") {
                        proof {
                            lemma_entry_smaller(tree, "fields"@);
                        }
                        match avro.entry("fields") {
                            None => Err(ReadError::MissingKey("fields".to_owned())),
                            Some(fields) => match fields {
                                Json::Array(_) => match fields_to_arrow(fields) {
                                    Ok(inner) => {
                                        let data_type = ColumnType::Struct(inner);
                                        assert(data_type@->Struct_0 =~= columns(inner@));
                                        Ok((data_type, false))
                                    },
                                    Err(error) => Err(error),
                                },
                                _ => Err(plan_error("Avro record must have 'fields'".to_owned())),
                            },
                        }
                    } else if same_text(name.as_str(), "array") {
                        proof {
                            lemma_entry_smaller(tree, "items"@);
                        }
                        match avro.entry("items") {
                            None => Err(ReadError::MissingKey("items".to_owned())),
                            Some(items) => match avro_type_to_arrow(items) {
                                Ok((item, nullable)) => {
                                    let field: ColumnField = ColumnField::new("item", item, nullable);
                                    Ok((ColumnType::List(Box::new(field)), false))
                                },
                                Err(error) => Err(error),
                            },
                        }
                    } else if same_text(name.as_str(), "map") {
                        proof {
                            lemma_entry_smaller(tree, "values"@);
                        }
                        match avro.entry("values") {
                            None => Err(ReadError::MissingKey("values".to_owned())),
                            Some(values) => match avro_type_to_arrow(values) {
                                Ok((value, nullable)) => {
                                    Ok((map_of(value, nullable), false))
                                },
                                Err(error) => Err(error),
                            },
                        }
                    } else if same_text(name.as_str(), "enum") {
                        let data_type = ColumnType::Dictionary(
                            Box::new(ColumnType::Int32),
                            Box::new(ColumnType::Utf8),
                        );
                        reveal_with_fuel(ColumnType::tree, 2);
                        Ok((data_type, false))
                    } else if same_text(name.as_str(), "fixed") {
                        let size: u64 = match avro.unsigned_entry("size") {
                            Some(n) => n,
                            None => 0,
                        };
                        Ok(
                            (
                                ColumnType::FixedSizeBinary(
                                    #[verifier::truncate]
                                    (size as i32),
                                ),
                                false,
                            ),
                        )
                    } else {
                        primitive_to_arrow(name)
                    }
                },
            }
        },
        Json::Null => Err(plan_error(joined("unsupported Avro type value: ", "null"))),
        Json::Bool(b) => {
            let notation: &str = if *b {
                "true"
            } else {
                "false"
            };
            Err(plan_error(joined("unsupported Avro type value: ", notation)))
        },
        Json::Number(n) => Err(
            plan_error(joined("unsupported Avro type value: ", n.text.as_str())),
        ),
    }
}

/// The type of a map from texts to values of the type `value`.
fn map_of(value: ColumnType, nullable: bool) -> (r: ColumnType)
    ensures
        r@ == avro_map_of(value@, nullable),
{
    let mut parts: Vec<ColumnField> = Vec::new();
    parts.push(ColumnField::new("key", ColumnType::Utf8, false));
    parts.push(ColumnField::new("value", value, nullable));
    let entries = ColumnType::Struct(parts);
    assert(entries@->Struct_0 =~= seq![
        column("key"@, TypeTree::Utf8, false),
        column("value"@, value@, nullable),
    ]);
    ColumnType::MapOf(Box::new(ColumnField::new("entries", entries, false)), false)
}

/// The column of a field of an Avro record.
fn field_to_arrow(avro: &Json) -> (r: Result<ColumnField, ReadError>)
    ensures
        match r {
            Ok(field) => avro_field(avro@) == Ok::<_, Failure>(field@),
            Err(error) => avro_field(avro@) == Err::<FieldTree, _>(error@),
        },
    decreases avro@, 0int,
{
    proof {
        lemma_entry_smaller(avro@, "type"@);
    }
    match avro.entry("type") {
        Some(data_type) => match avro_type_to_arrow(data_type) {
            Ok((data_type, nullable)) => match avro.text_entry("name") {
                Some(name) => Ok(ColumnField::new(name.as_str(), data_type, nullable)),
                None => Ok(ColumnField::new("unknown", data_type, nullable)),
            },
            Err(error) => Err(error),
        },
        None => Err(plan_error(joined("unsupported Avro type value: ", "null"))),
    }
}

/// The columns of the fields of an Avro record.
fn fields_to_arrow(avro: &Json) -> (r: Result<Vec<ColumnField>, ReadError>)
    requires
        avro is Array,
    ensures
        ({
            let outcome = avro_fields(avro@, avro@->Array_0.len() as int);
            match r {
                Ok(fields) => outcome == Ok::<_, Failure>(columns(fields@)),
                Err(error) => outcome == Err::<Seq<FieldTree>, _>(error@),
            }
        }),
    decreases avro@, 1int,
{
    let ghost tree = avro@;
    let mut r: Vec<ColumnField> = Vec::new();
    if let Json::Array(fields) = avro {
        let mut i: usize = 0;
        assert(columns(r@) =~= Seq::<FieldTree>::empty());
        while i < fields.len()
            invariant
                i <= fields.len(),
                *avro == Json::Array(*fields),
                tree == avro@,
                tree->Array_0.len() == fields@.len(),
                avro_fields(tree, i as int) == Ok::<_, Failure>(columns(r@)),
            decreases fields.len() - i,
        {
            assert(tree->Array_0[i as int] == fields@[i as int]@);
            proof {
                lemma_item_smaller(tree, i as int);
            }
            match field_to_arrow(&fields[i]) {
                Ok(field) => {
                    let ghost before = columns(r@);
                    r.push(field);
                    assert(columns(r@) =~= before.push(field@));
                },
                Err(error) => {
                    proof {
                        lemma_avro_fields_failure(tree, i + 1, fields@.len() as int);
                    }
                    return Err(error);
                },
            }
            i = i + 1;
        }
    }
    Ok(r)
}

/// The columns of an Avro schema. Where a type object lacks a key that its meaning rests on, the
/// error names the key.
pub fn avro_to_arrow_schema(avro: &Json) -> (r: Result<TableSchema, ReadError>)
    ensures
        match r {
            Ok(schema) => avro_schema(avro@) == Ok::<_, Failure>(schema@),
            Err(error) => avro_schema(avro@) == Err::<Seq<FieldTree>, _>(error@),
        },
{
    match avro.entry("fields") {
        Some(fields) => match fields {
            Json::Array(_) => match fields_to_arrow(fields) {
                Ok(fields) => Ok(TableSchema { fields }),
                Err(error) => Err(error),
            },
            _ => Err(
                plan_error("Avro schema must be a record type with 'fields'".to_owned()),
            ),
        },
        None => Err(plan_error("Avro schema must be a record type with 'fields'".to_owned())),
    }
}

/// An Avro schema becomes a column for each field of its record, in order and each by itself.
pub proof fn law_avro_fields_become_columns(tree: JsonTree, n: int, i: int)
    requires
        tree is Array,
        0 <= i < n <= tree->Array_0.len(),
        avro_fields(tree, n) is Ok,
    ensures
        avro_fields(tree, n)->Ok_0.len() == n,
        avro_field(tree->Array_0[i]) == Ok::<_, Failure>(avro_fields(tree, n)->Ok_0[i]),
    decreases n,
{
    if n > 1 {
        if i < n - 1 {
            law_avro_fields_become_columns(tree, n - 1, i);
        } else {
            law_avro_fields_become_columns(tree, n - 1, 0);
        }
    } else {
        assert(avro_fields(tree, 0) == Ok::<Seq<FieldTree>, Failure>(Seq::empty()));
    }
}

/// A union of `"null"` and a type is that type, nullable, whichever comes first.
pub proof fn law_avro_union_with_null_is_nullable(value: JsonTree)
    requires
        value != JsonTree::Text("null"@),
    ensures
        ({
            let null = JsonTree::Text("null"@);
            let before = avro_type(JsonTree::Array(seq![null, value]));
            let after = avro_type(JsonTree::Array(seq![value, null]));
            &&& before == after
            &&& match avro_type(value) {
                Ok((data_type, _)) => before == Ok::<_, Failure>((data_type, true)),
                Err(failure) => before == Err::<(TypeTree, bool), _>(failure),
            }
        }),
{
    let null = JsonTree::Text("null"@);
    lemma_pair_of_branches(null, value);
    lemma_pair_of_branches(value, null);
}

proof fn lemma_pair_of_branches(a: JsonTree, b: JsonTree)
    ensures
        ({
            let null = JsonTree::Text("null"@);
            let pair = seq![a, b];
            &&& a == null && b != null ==> value_branches(pair).len() == 1 && first_value_branch(
                pair,
            ) == 1
            &&& a != null && b == null ==> value_branches(pair).len() == 1 && first_value_branch(
                pair,
            ) == 0
        }),
{
    reveal_with_fuel(value_branches, 3);
    reveal_with_fuel(first_value_branch, 3);
    let pair = seq![a, b];
    let one = pair.drop_last();
    assert(one.len() == 1 && one.last() == a && pair.last() == b);
    assert(one.drop_last() =~= Seq::<JsonTree>::empty());
    assert(value_branches(one.drop_last()) =~= Seq::<JsonTree>::empty());
    assert(first_value_branch(one.drop_last()) == 0);
}

/// A union of one type is that type, and not nullable.
pub proof fn law_avro_union_of_one_is_that_type(value: JsonTree)
    requires
        value != JsonTree::Text("null"@),
    ensures
        ({
            let union = avro_type(JsonTree::Array(seq![value]));
            match avro_type(value) {
                Ok((data_type, _)) => union == Ok::<_, Failure>((data_type, false)),
                Err(failure) => union == Err::<(TypeTree, bool), _>(failure),
            }
        }),
{
    reveal_with_fuel(value_branches, 2);
    reveal_with_fuel(first_value_branch, 2);
    let one = seq![value];
    assert(one.drop_last() =~= Seq::<JsonTree>::empty());
    assert(value_branches(one.drop_last()) =~= Seq::<JsonTree>::empty());
    assert(first_value_branch(one.drop_last()) == 0);
}

/// Whether values of a primitive type take at least one byte: all but null do.
pub open spec fn sized_primitive(name: Seq<char>) -> bool {
    name == "boolean"@ || name == "int"@ || name == "long"@ || name == "float"@ || name
        == "double"@ || name == "bytes"@ || name == "string"@
}

/// Whether values of an Avro type are known to take at least one byte. `named` says whether those of
/// all types that go by a name of their own do.
pub open spec fn takes_bytes(tree: JsonTree, named: bool) -> bool
    decreases tree, 0int,
{
    proof {
        lemma_entry_smaller(tree, "type"@);
        lemma_entry_smaller(tree, "fields"@);
    }
    match tree {
        JsonTree::Text(name) => sized_primitive(name) || named && name != "null"@,
        JsonTree::Array(_) => true,
        JsonTree::Object(_) => match entry(tree, "type"@) {
            None => false,
            Some(JsonTree::Text(name)) => if name == "record"@ {
                match entry(tree, "fields"@) {
                    Some(JsonTree::Array(fields)) => a_field_takes_bytes(
                        JsonTree::Array(fields),
                        fields.len() as int,
                        named,
                    ),
                    _ => false,
                }
            } else if name == "fixed"@ {
                unsigned_in(entry(tree, "size"@)) matches Some(n) && n > 0
            } else {
                name == "enum"@ || name == "array"@ || name == "map"@ || sized_primitive(name) || named
                    && name != "null"@
            },
            Some(inner) => takes_bytes(inner, named),
        },
        _ => false,
    }
}

/// Whether one of the first `n` fields is known to take at least one byte.
pub open spec fn a_field_takes_bytes(fields: JsonTree, n: int, named: bool) -> bool
    decreases fields, n,
{
    if fields is Array && 0 < n <= fields->Array_0.len() {
        let field = fields->Array_0[n - 1];
        proof {
            lemma_item_smaller(fields, n - 1);
            lemma_entry_smaller(field, "type"@);
        }
        a_field_takes_bytes(fields, n - 1, named) || match entry(field, "type"@) {
            Some(data_type) => takes_bytes(data_type, named),
            None => false,
        }
    } else {
        false
    }
}

/// Which parts of a schema are looked at: types that go by a name of their own, or the items of
/// arrays, where it is known whether values of all such types take at least one byte.
#[derive(Debug, Clone, Copy, PartialEq, Eq, Structural)]
pub enum SizedPart {
    Named,
    Items(bool),
}

/// Whether a schema, without its parts, is none that is looked at, or of values that take at least
/// one byte.
pub open spec fn sized_here(tree: JsonTree, part: SizedPart) -> bool {
    match part {
        SizedPart::Named => text_in(entry(tree, "type"@)) == Some("record"@) || text_in(
            entry(tree, "type"@),
        ) == Some("fixed"@) ==> takes_bytes(tree, false),
        SizedPart::Items(named) => text_in(entry(tree, "type"@)) == Some("array"@) ==> match entry(
            tree,
            "items"@,
        ) {
            Some(items) => takes_bytes(items, named),
            None => false,
        },
    }
}

/// Whether values of all parts of a schema that are looked at take at least one byte.
pub open spec fn sized_parts(tree: JsonTree, part: SizedPart) -> bool
    decreases tree,
{
    match tree {
        JsonTree::Array(items) => forall|i: int|
            #![trigger items[i]]
            0 <= i < items.len() ==> sized_parts(items[i], part),
        JsonTree::Object(entries) => {
            &&& forall|i: int|
                #![trigger entries[i]]
                0 <= i < entries.len() ==> sized_parts(entries[i].1, part)
            &&& sized_here(tree, part)
        },
        _ => true,
    }
}

/// Whether the items of all arrays in a schema are known to take at least one byte each.
pub open spec fn sized_items(tree: JsonTree) -> bool {
    sized_parts(tree, SizedPart::Items(sized_parts(tree, SizedPart::Named)))
}

fn is_sized_primitive(name: &str) -> (r: bool)
    ensures
        r == sized_primitive(name@),
{
    same_text(name, "boolean") || same_text(name, "int") || same_text(name, "long") || same_text(
        name,
        "float",
    ) || same_text(name, "double") || same_text(name, "bytes") || same_text(name, "string")
}

/// Whether values of an Avro type are known to take at least one byte.
fn is_sized(avro: &Json, named: bool) -> (r: bool)
    ensures
        r == takes_bytes(avro@, named),
    decreases avro@, 0int,
{
    let ghost tree = avro@;
    proof {
        lemma_entry_smaller(tree, "type"@);
        lemma_entry_smaller(tree, "fields"@);
    }
    match avro {
        Json::Text(name) => is_sized_primitive(name.as_str()) || (named && !same_text(
            name.as_str(),
            "null",
        )),
        Json::Array(_) => true,
        Json::Object(_) => match avro.entry("type") {
            None => false,
            Some(inner) => match inner {
                Json::Text(name) => {
                    if same_text(name.as_str(), "record") {
                        match avro.entry("fields") {
                            Some(fields) => match fields {
                                Json::Array(list) => has_sized_field(fields, list.len(), named),
                                _ => false,
                            },
                            None => false,
                        }
                    } else if same_text(name.as_str(), "fixed") {
                        match avro.unsigned_entry("size") {
                            Some(n) => n > 0,
                            None => false,
                        }
                    } else {
                        same_text(name.as_str(), "enum") || same_text(name.as_str(), "array")
                            || same_text(name.as_str(), "map") || is_sized_primitive(name.as_str())
                            || (named && !same_text(name.as_str(), "null"))
                    }
                },
                _ => is_sized(inner, named),
            },
        },
        _ => false,
    }
}

/// Whether one of the first `n` fields is known to take at least one byte.
fn has_sized_field(fields: &Json, n: usize, named: bool) -> (r: bool)
    requires
        fields@ is Array,
        n <= fields@->Array_0.len(),
    ensures
        r == a_field_takes_bytes(fields@, n as int, named),
    decreases fields@, n as int,
{
    if n == 0 {
        return false;
    }
    match fields {
        Json::Array(list) => {
            let field: &Json = &list[n - 1];
            assert(fields@->Array_0[n - 1] == field@);
            proof {
                lemma_item_smaller(fields@, n - 1);
                lemma_entry_smaller(field@, "type"@);
            }
            if has_sized_field(fields, n - 1, named) {
                return true;
            }
            match field.entry("type") {
                Some(data_type) => is_sized(data_type, named),
                None => false,
            }
        },
        _ => false,
    }
}

/// Whether the items of all arrays in a schema are known to take at least one byte each.
pub fn has_sized_items(avro: &Json) -> (r: bool)
    ensures
        r == sized_items(avro@),
{
    let named: bool = has_sized_parts(avro, SizedPart::Named);
    has_sized_parts(avro, SizedPart::Items(named))
}

/// Whether a schema, without its parts, is none that is looked at, or of values that take at least
/// one byte.
fn is_sized_here(avro: &Json, part: SizedPart) -> (r: bool)
    ensures
        r == sized_here(avro@, part),
{
    let name: String = match avro.text_entry("type") {
        Some(name) => name.clone(),
        None => {
            return true;
        },
    };
    match part {
        SizedPart::Named => if same_text(name.as_str(), "record") || same_text(
            name.as_str(),
            "fixed",
        ) {
            is_sized(avro, false)
        } else {
            true
        },
        SizedPart::Items(named) => if same_text(name.as_str(), "array") {
            match avro.entry("items") {
                Some(items) => is_sized(items, named),
                None => false,
            }
        } else {
            true
        },
    }
}

/// Whether values of all parts of a schema that are looked at take at least one byte.
fn has_sized_parts(avro: &Json, part: SizedPart) -> (r: bool)
    ensures
        r == sized_parts(avro@, part),
    decreases avro,
{
    let ghost tree = avro@;
    match avro {
        Json::Array(list) => {
            let mut i: usize = 0;
            while i < list.len()
                invariant
                    i <= list.len(),
                    *avro == Json::Array(*list),
                    tree == avro@,
                    forall|j: int| 0 <= j < i ==> sized_parts(#[trigger] tree->Array_0[j], part),
                decreases list.len() - i,
            {
                assert(decreases_to!(*avro => avro->Array_0));
                assert(decreases_to!(avro->Array_0 => list@));
                assert(decreases_to!(list@ => list@[i as int]));
                assert(tree->Array_0[i as int] == list@[i as int]@);
                if !has_sized_parts(&list[i], part) {
                    return false;
                }
                i = i + 1;
            }
            true
        },
        Json::Object(list) => {
            let mut i: usize = 0;
            while i < list.len()
                invariant
                    i <= list.len(),
                    *avro == Json::Object(*list),
                    tree == avro@,
                    forall|j: int| 0 <= j < i ==> sized_parts((#[trigger] tree->Object_0[j]).1, part),
                decreases list.len() - i,
            {
                assert(decreases_to!(*avro => avro->Object_0));
                assert(decreases_to!(avro->Object_0 => list@));
                assert(decreases_to!(list@ => list@[i as int]));
                assert(decreases_to!(list@[i as int] => list@[i as int].1));
                assert(tree->Object_0[i as int].1 == list@[i as int].1@);
                if !has_sized_parts(&list[i].1, part) {
                    return false;
                }
                i = i + 1;
            }
            is_sized_here(avro, part)
        },
        _ => true,
    }
}

/// A number that tells the names that mean something in an Avro schema apart.
spec fn name_number(name: Seq<char>) -> int {
    let c = name[0];
    if name.len() == 3 {
        if c == 'i' {
            2
        } else {
            10
        }
    } else if name.len() == 4 {
        if c == 'n' {
            0
        } else if c == 'l' {
            3
        } else if c == 'e' {
            11
        } else {
            13
        }
    } else if name.len() == 5 {
        if name[1] == 'l' {
            4
        } else if name[1] == 'y' {
            6
        } else if name[1] == 'r' {
            9
        } else {
            12
        }
    } else if name.len() == 6 {
        if c == 'd' {
            5
        } else if c == 's' {
            7
        } else {
            8
        }
    } else if name.len() == 7 {
        if c == 'b' {
            1
        } else {
            16
        }
    } else if name[12] == 'l' {
        14
    } else {
        15
    }
}

/// The names that mean something in an Avro schema differ from each other.
proof fn lemma_avro_names_differ()
    ensures
        name_number("null"@) == 0,
        name_number("boolean"@) == 1,
        name_number("int"@) == 2,
        name_number("long"@) == 3,
        name_number("float"@) == 4,
        name_number("double"@) == 5,
        name_number("bytes"@) == 6,
        name_number("string"@) == 7,
        name_number("record"@) == 8,
        name_number("array"@) == 9,
        name_number("map"@) == 10,
        name_number("enum"@) == 11,
        name_number("fixed"@) == 12,
        name_number("date"@) == 13,
        name_number("timestamp-millis"@) == 14,
        name_number("timestamp-micros"@) == 15,
        name_number("decimal"@) == 16,
{
    reveal_strlit("null");
    reveal_strlit("boolean");
    reveal_strlit("int");
    reveal_strlit("long");
    reveal_strlit("float");
    reveal_strlit("double");
    reveal_strlit("bytes");
    reveal_strlit("string");
    reveal_strlit("record");
    reveal_strlit("array");
    reveal_strlit("map");
    reveal_strlit("enum");
    reveal_strlit("fixed");
    reveal_strlit("date");
    reveal_strlit("timestamp-millis");
    reveal_strlit("timestamp-micros");
    reveal_strlit("decimal");
    assert("null"@[0] == 'n' && "long"@[0] == 'l' && "enum"@[0] == 'e' && "date"@[0] == 'd');
    assert("int"@[0] == 'i' && "map"@[0] == 'm');
    assert("float"@[1] == 'l' && "bytes"@[1] == 'y' && "array"@[1] == 'r' && "fixed"@[1] == 'i');
    assert("double"@[0] == 'd' && "string"@[0] == 's' && "record"@[0] == 'r');
    assert("boolean"@[0] == 'b' && "decimal"@[0] == 'd');
    assert("timestamp-millis"@[11] == 'i' && "timestamp-micros"@[11] == 'i');
    assert("timestamp-millis"@[12] == 'l' && "timestamp-micros"@[12] == 'c');
}

/// Each primitive type of Avro has its own column type, and only `null` is nullable by itself; a
/// name that is none of them is not accepted.
pub proof fn law_avro_primitives_have_their_types(name: Seq<char>)
    ensures
        avro_type(JsonTree::Text("null"@)) == Ok::<_, Failure>((TypeTree::Null, true)),
        avro_type(JsonTree::Text("boolean"@)) == Ok::<_, Failure>((TypeTree::Boolean, false)),
        avro_type(JsonTree::Text("int"@)) == Ok::<_, Failure>((TypeTree::Int32, false)),
        avro_type(JsonTree::Text("long"@)) == Ok::<_, Failure>((TypeTree::Int64, false)),
        avro_type(JsonTree::Text("float"@)) == Ok::<_, Failure>((TypeTree::Float32, false)),
        avro_type(JsonTree::Text("double"@)) == Ok::<_, Failure>((TypeTree::Float64, false)),
        avro_type(JsonTree::Text("bytes"@)) == Ok::<_, Failure>((TypeTree::Binary, false)),
        avro_type(JsonTree::Text("string"@)) == Ok::<_, Failure>((TypeTree::Utf8, false)),
        avro_type(JsonTree::Text(name)) is Err <==> !seq![
            "null"@,
            "boolean"@,
            "int"@,
            "long"@,
            "float"@,
            "double"@,
            "bytes"@,
            "string"@,
        ].contains(name),
        avro_type(JsonTree::Text(name)) matches Err(failure) ==> failure.kind == FailureKind::Plan,
{
    lemma_avro_names_differ();
    let names = seq![
        "null"@,
        "boolean"@,
        "int"@,
        "long"@,
        "float"@,
        "double"@,
        "bytes"@,
        "string"@,
    ];
    assert(names[0] == "null"@ && names[1] == "boolean"@ && names[2] == "int"@ && names[3]
        == "long"@ && names[4] == "float"@ && names[5] == "double"@ && names[6] == "bytes"@
        && names[7] == "string"@);
}

/// In a type object the logical types `date`, `timestamp-millis`, `timestamp-micros` and `decimal`
/// give the column type, whatever the other entries are, `type` among them. A decimal has the
/// precision and the scale that the object gives, and without them 38 and 0.
pub proof fn law_avro_logical_types_go_first(tree: JsonTree)
    requires
        tree is Object,
    ensures
        entry(tree, "logicalType"@) == Some(JsonTree::Text("date"@)) ==> avro_type(tree) == Ok::<
            _,
            Failure,
        >((TypeTree::Date32, false)),
        entry(tree, "logicalType"@) == Some(JsonTree::Text("timestamp-millis"@)) ==> avro_type(tree)
            == Ok::<_, Failure>((TypeTree::Timestamp(TimeUnit::Millisecond), false)),
        entry(tree, "logicalType"@) == Some(JsonTree::Text("timestamp-micros"@)) ==> avro_type(tree)
            == Ok::<_, Failure>((TypeTree::Timestamp(TimeUnit::Microsecond), false)),
        entry(tree, "logicalType"@) == Some(JsonTree::Text("decimal"@)) ==> {
            let precision = unsigned_in(entry(tree, "precision"@));
            let scale = signed_in(entry(tree, "scale"@));
            &&& avro_type(tree) is Ok
            &&& avro_type(tree)->Ok_0.0 is Decimal128
            &&& !avro_type(tree)->Ok_0.1
            &&& precision is None ==> avro_type(tree)->Ok_0.0->Decimal128_0 == 38
            &&& scale is None ==> avro_type(tree)->Ok_0.0->Decimal128_1 == 0
            &&& precision is Some && precision->0 <= u8::MAX ==> avro_type(
                tree,
            )->Ok_0.0->Decimal128_0 == precision->0
            &&& scale is Some && i8::MIN <= scale->0 <= i8::MAX ==> avro_type(
                tree,
            )->Ok_0.0->Decimal128_1 == scale->0
        },
{
    lemma_avro_names_differ();
}

/// Whether no logical type of an object stands before its type.
pub open spec fn goes_by_its_type(tree: JsonTree) -> bool {
    &&& tree is Object
    &&& entry(tree, "logicalType"@) != Some(JsonTree::Text("date"@))
    &&& entry(tree, "logicalType"@) != Some(JsonTree::Text("timestamp-millis"@))
    &&& entry(tree, "logicalType"@) != Some(JsonTree::Text("timestamp-micros"@))
    &&& entry(tree, "logicalType"@) != Some(JsonTree::Text("decimal"@))
}

/// A type object that no logical type stands before is what its type says. The name of a primitive
/// type means the same there as by itself; an enumeration is a dictionary of texts; fixed bytes are
/// as many as the object says, or none; and without a type the object is not accepted.
pub proof fn law_avro_objects_go_by_their_type(tree: JsonTree, name: Seq<char>)
    requires
        goes_by_its_type(tree),
    ensures
        entry(tree, "type"@) == Some(JsonTree::Text(name)) && name != "record"@ && name != "array"@
            && name != "map"@ && name != "enum"@ && name != "fixed"@ ==> avro_type(tree)
            == avro_type(JsonTree::Text(name)),
        entry(tree, "type"@) == Some(JsonTree::Text("enum"@)) ==> avro_type(tree) == Ok::<
            _,
            Failure,
        >((TypeTree::Dictionary(Box::new(TypeTree::Int32), Box::new(TypeTree::Utf8)), false)),
        entry(tree, "type"@) == Some(JsonTree::Text("fixed"@)) ==> {
            let size = unsigned_in(entry(tree, "size"@));
            &&& avro_type(tree) is Ok
            &&& avro_type(tree)->Ok_0.0 is FixedSizeBinary
            &&& !avro_type(tree)->Ok_0.1
            &&& size is None ==> avro_type(tree)->Ok_0.0->FixedSizeBinary_0 == 0
            &&& size is Some && size->0 <= i32::MAX ==> avro_type(
                tree,
            )->Ok_0.0->FixedSizeBinary_0 == size->0
        },
        !(entry(tree, "type"@) matches Some(JsonTree::Text(_))) ==> avro_type(tree) is Err
            && avro_type(tree)->Err_0.kind == FailureKind::Plan,
{
    lemma_avro_names_differ();
}

/// An Avro array is a list of items named `item` with the type of its items, and an Avro map one of
/// entries with a text that is never null for a key and a value of the type of its values; items
/// and values are nullable where those types are. Neither is nullable itself, and the failure of
/// the inner type is the failure of the whole.
pub proof fn law_avro_containers_hold_their_types(tree: JsonTree, inner: JsonTree)
    requires
        goes_by_its_type(tree),
    ensures
        entry(tree, "type"@) == Some(JsonTree::Text("array"@)) && entry(tree, "items"@) == Some(
            inner,
        ) ==> match avro_type(inner) {
            Ok((data_type, nullable)) => {
                &&& avro_type(tree) is Ok
                &&& avro_type(tree)->Ok_0.0 is List
                &&& avro_type(tree)->Ok_0.0->List_0.name == "item"@
                &&& avro_type(tree)->Ok_0.0->List_0.data_type == data_type
                &&& avro_type(tree)->Ok_0.0->List_0.nullable == nullable
                &&& !avro_type(tree)->Ok_0.1
            },
            Err(failure) => avro_type(tree) == Err::<(TypeTree, bool), _>(failure),
        },
        entry(tree, "type"@) == Some(JsonTree::Text("map"@)) && entry(tree, "values"@) == Some(
            inner,
        ) ==> match avro_type(inner) {
            Ok((data_type, nullable)) => {
                &&& avro_type(tree) is Ok
                &&& avro_type(tree)->Ok_0.0 is MapOf
                &&& !avro_type(tree)->Ok_0.0->MapOf_1
                &&& avro_type(tree)->Ok_0.0->MapOf_0.name == "entries"@
                &&& !avro_type(tree)->Ok_0.0->MapOf_0.nullable
                &&& avro_type(tree)->Ok_0.0->MapOf_0.data_type is Struct
                &&& ({
                    let parts = avro_type(tree)->Ok_0.0->MapOf_0.data_type->Struct_0;
                    &&& parts.len() == 2
                    &&& parts[0].name == "key"@
                    &&& parts[0].data_type == TypeTree::Utf8
                    &&& !parts[0].nullable
                    &&& parts[1].name == "value"@
                    &&& parts[1].data_type == data_type
                    &&& parts[1].nullable == nullable
                })
                &&& !avro_type(tree)->Ok_0.1
            },
            Err(failure) => avro_type(tree) == Err::<(TypeTree, bool), _>(failure),
        },
{
    lemma_avro_names_differ();
}

/// A field of a record stands for the column `field`: it has the name of the field, or `unknown`
/// where that has none, and is of its type, nullable where that is.
pub open spec fn is_column_of(field: FieldTree, tree: JsonTree) -> bool {
    &&& match entry(tree, "name"@) {
        Some(JsonTree::Text(name)) => field.name == name,
        _ => field.name == "unknown"@,
    }
    &&& entry(tree, "type"@) is Some
    &&& avro_type(entry(tree, "type"@)->0) == Ok::<_, Failure>((field.data_type, field.nullable))
}

/// A schema becomes a column for each of its fields, in order, and an inner record a structure of
/// them that is not nullable. Either fails where, and only where, there are no fields or one of
/// them has a type that is not accepted.
pub proof fn law_avro_records_have_all_fields(tree: JsonTree, fields: Seq<JsonTree>)
    requires
        entry(tree, "fields"@) == Some(JsonTree::Array(fields)),
    ensures
        avro_schema(tree) is Ok <==> forall|i: int|
            0 <= i < fields.len() ==> entry(#[trigger] fields[i], "type"@) is Some && avro_type(
                entry(fields[i], "type"@)->0,
            ) is Ok,
        avro_schema(tree) is Ok ==> {
            &&& avro_schema(tree)->Ok_0.len() == fields.len()
            &&& forall|i: int|
                0 <= i < fields.len() ==> is_column_of(
                    #[trigger] avro_schema(tree)->Ok_0[i],
                    fields[i],
                )
        },
        goes_by_its_type(tree) && entry(tree, "type"@) == Some(JsonTree::Text("record"@)) ==> match (
        avro_schema(tree)) {
            Ok(inner) => avro_type(tree) == Ok::<_, Failure>((TypeTree::Struct(inner), false)),
            Err(failure) => avro_type(tree) == Err::<(TypeTree, bool), _>(failure),
        },
{
    let list = JsonTree::Array(fields);
    lemma_avro_fields(list, fields.len() as int);
    if avro_schema(tree) is Ok {
        assert forall|i: int| 0 <= i < fields.len() implies is_column_of(
            #[trigger] avro_schema(tree)->Ok_0[i],
            fields[i],
        ) by {
            law_avro_fields_become_columns(list, fields.len() as int, i);
            lemma_avro_column(fields[i]);
        }
    }
    assert forall|i: int| 0 <= i < fields.len() implies (avro_field(#[trigger] fields[i]) is Ok
        <==> entry(fields[i], "type"@) is Some && avro_type(entry(fields[i], "type"@)->0) is Ok) by {
        lemma_avro_column(fields[i]);
    }
}

proof fn lemma_avro_column(tree: JsonTree)
    ensures
        avro_field(tree) is Ok <==> entry(tree, "type"@) is Some && avro_type(
            entry(tree, "type"@)->0,
        ) is Ok,
        avro_field(tree) is Ok ==> is_column_of(avro_field(tree)->Ok_0, tree),
{
    lemma_entry_smaller(tree, "type"@);
}

proof fn lemma_avro_fields(tree: JsonTree, n: int)
    requires
        tree is Array,
        0 <= n <= tree->Array_0.len(),
    ensures
        avro_fields(tree, n) is Ok <==> forall|i: int|
            0 <= i < n ==> avro_field(#[trigger] tree->Array_0[i]) is Ok,
        avro_fields(tree, n) is Ok ==> avro_fields(tree, n)->Ok_0.len() == n,
    decreases n,
{
    if n > 0 {
        lemma_avro_fields(tree, n - 1);
        lemma_item_smaller(tree, n - 1);
    }
}

/// A schema that is no record with a list of fields is not accepted, nor a type that is neither a
/// text, a list nor an object.
pub proof fn law_avro_needs_fields_and_types(tree: JsonTree)
    ensures
        !(entry(tree, "fields"@) matches Some(JsonTree::Array(_))) ==> avro_schema(tree) is Err
            && avro_schema(tree)->Err_0.kind == FailureKind::Plan,
        tree is Null || tree is Bool || tree is Number ==> avro_type(tree) is Err && avro_type(
            tree,
        )->Err_0.kind == FailureKind::Plan,
{
}

/// A union is nullable where, and only where, one of its branches is `"null"`. With exactly one
/// other branch it is of that branch's type, and fails where that does; with none or several it is
/// kept as bytes.
pub proof fn law_avro_unions(branches: Seq<JsonTree>, i: int, j: int)
    requires
        0 <= i < branches.len(),
        0 <= j < branches.len(),
    ensures
        ({
            let null = JsonTree::Text("null"@);
            let union = avro_type(JsonTree::Array(branches));
            let has_null = exists|k: int| 0 <= k < branches.len() && #[trigger] branches[k] == null;
            let only = branches[i] != null && forall|k: int|
                0 <= k < branches.len() && k != i ==> #[trigger] branches[k] == null;
            &&& union is Ok ==> union->Ok_0.1 == has_null
            &&& only ==> match avro_type(branches[i]) {
                Ok((data_type, _)) => union == Ok::<_, Failure>((data_type, has_null)),
                Err(failure) => union == Err::<(TypeTree, bool), _>(failure),
            }
            &&& i != j && branches[i] != null && branches[j] != null ==> union == Ok::<_, Failure>(
                (TypeTree::Binary, has_null),
            )
            &&& (forall|k: int| 0 <= k < branches.len() ==> #[trigger] branches[k] == null)
                ==> union == Ok::<_, Failure>((TypeTree::Binary, true))
        }),
{
    let null = JsonTree::Text("null"@);
    let tree = JsonTree::Array(branches);
    lemma_value_branches(branches);
    lemma_branch_counts(branches, i, j);
    let p = first_value_branch(branches);
    if value_branches(branches).len() == 1 {
        lemma_item_smaller(tree, p);
    }
    if forall|k: int| 0 <= k < branches.len() ==> #[trigger] branches[k] == null {
        assert(branches[i] == null);
    }
}

proof fn lemma_branch_counts(branches: Seq<JsonTree>, i: int, j: int)
    ensures
        ({
            let null = JsonTree::Text("null"@);
            let others = value_branches(branches);
            let p = first_value_branch(branches);
            &&& others.len() < branches.len() <==> exists|k: int|
                0 <= k < branches.len() && #[trigger] branches[k] == null
            &&& 0 <= p < branches.len() ==> branches[p] != null
            &&& 0 <= i < branches.len() && branches[i] != null ==> others.len() >= 1 && p <= i
            &&& 0 <= i < branches.len() && 0 <= j < branches.len() && i != j && branches[i] != null
                && branches[j] != null ==> others.len() >= 2
            &&& 0 <= i < branches.len() && branches[i] != null && (forall|k: int|
                0 <= k < branches.len() && k != i ==> #[trigger] branches[k] == null)
                ==> others.len() == 1 && p == i
            &&& (forall|k: int| 0 <= k < branches.len() ==> #[trigger] branches[k] == null)
                ==> others.len() == 0
        }),
    decreases branches.len(),
{
    let null = JsonTree::Text("null"@);
    lemma_value_branches(branches);
    if branches.len() > 0 {
        let front = branches.drop_last();
        let last = branches.len() - 1;
        lemma_value_branches(front);
        lemma_branch_counts(front, i, j);
        if i == last {
            lemma_branch_counts(front, j, j);
        }
        if j == last {
            lemma_branch_counts(front, i, i);
        }
        assert forall|k: int| 0 <= k < last implies #[trigger] front[k] == branches[k] by {}
        if value_branches(front).len() < front.len() {
            let k = choose|k: int| 0 <= k < front.len() && #[trigger] front[k] == null;
            assert(branches[k] == null);
        }
        if exists|k: int| 0 <= k < branches.len() && #[trigger] branches[k] == null {
            let k = choose|k: int| 0 <= k < branches.len() && #[trigger] branches[k] == null;
            if k < last {
                assert(front[k] == null);
            }
        }
        if 0 <= i < branches.len() && branches[i] != null && (forall|k: int|
            0 <= k < branches.len() && k != i ==> #[trigger] branches[k] == null) {
            if i == last {
                assert forall|k: int| 0 <= k < front.len() implies #[trigger] front[k] == null by {
                    assert(branches[k] == null);
                }
            } else {
                assert forall|k: int| 0 <= k < front.len() && k != i implies #[trigger] front[k]
                    == null by {
                    assert(branches[k] == null);
                }
                assert(branches[last] == null);
            }
        }
        if forall|k: int| 0 <= k < branches.len() ==> #[trigger] branches[k] == null {
            assert forall|k: int| 0 <= k < front.len() implies #[trigger] front[k] == null by {
                assert(branches[k] == null);
            }
            assert(branches[last] == null);
        }
    }
}

/// A record, an array or a map without the entry that its parts stand in is not accepted, and names
/// that entry.
pub proof fn law_avro_types_need_their_parts(tree: JsonTree)
    requires
        goes_by_its_type(tree),
    ensures
        entry(tree, "type"@) == Some(JsonTree::Text("record"@)) && entry(tree, "fields"@) is None
            ==> avro_type(tree) is Err && avro_type(tree)->Err_0.kind == FailureKind::MissingKey
            && avro_type(tree)->Err_0.text == "fields"@,
        entry(tree, "type"@) == Some(JsonTree::Text("record"@)) && entry(tree, "fields"@) is Some
            && !(entry(tree, "fields"@)->0 is Array) ==> avro_type(tree) is Err && avro_type(
            tree,
        )->Err_0.kind == FailureKind::Plan,
        entry(tree, "type"@) == Some(JsonTree::Text("array"@)) && entry(tree, "items"@) is None
            ==> avro_type(tree) is Err && avro_type(tree)->Err_0.kind == FailureKind::MissingKey
            && avro_type(tree)->Err_0.text == "items"@,
        entry(tree, "type"@) == Some(JsonTree::Text("map"@)) && entry(tree, "values"@) is None
            ==> avro_type(tree) is Err && avro_type(tree)->Err_0.kind == FailureKind::MissingKey
            && avro_type(tree)->Err_0.text == "values"@,
{
    lemma_avro_names_differ();
}

/// Whether a name is that of a primitive type other than null.
pub open spec fn is_value_name(name: Seq<char>) -> bool {
    seq![
        "boolean"@,
        "int"@,
        "long"@,
        "float"@,
        "double"@,
        "bytes"@,
        "string"@,
    ].contains(name)
}

/// Whether values of a type plainly take bytes: a union, a primitive type other than null, an
/// enumeration, an array, a map, bytes of a fixed number above zero, or a record with a field of
/// such a primitive type. With `by_name` a type that goes by a name of its own counts as well.
pub open spec fn plainly_sized(tree: JsonTree, by_name: bool) -> bool {
    match tree {
        JsonTree::Array(_) => true,
        JsonTree::Text(name) => is_value_name(name) || by_name && name != "null"@,
        JsonTree::Object(_) => match entry(tree, "type"@) {
            Some(JsonTree::Text(name)) => {
                ||| is_value_name(name)
                ||| name == "enum"@
                ||| name == "array"@
                ||| name == "map"@
                ||| name == "fixed"@ && (unsigned_in(entry(tree, "size"@)) matches Some(n) && n > 0)
                ||| name == "record"@ && (entry(tree, "fields"@) matches Some(JsonTree::Array(fields))
                    && exists|i: int|
                    0 <= i < fields.len() && (entry(#[trigger] fields[i], "type"@) matches Some(
                        JsonTree::Text(inner),
                    ) && is_value_name(inner)))
            },
            _ => false,
        },
        _ => false,
    }
}

/// Whether the items of every array in a schema plainly take bytes.
pub open spec fn plain_arrays(tree: JsonTree, by_name: bool) -> bool
    decreases tree,
{
    match tree {
        JsonTree::Array(items) => forall|i: int|
            #![trigger items[i]]
            0 <= i < items.len() ==> plain_arrays(items[i], by_name),
        JsonTree::Object(entries) => {
            &&& forall|i: int|
                #![trigger entries[i]]
                0 <= i < entries.len() ==> plain_arrays(entries[i].1, by_name)
            &&& entry(tree, "type"@) == Some(JsonTree::Text("array"@)) ==> entry(tree, "items"@)
                is Some && plainly_sized(entry(tree, "items"@)->0, by_name)
        },
        _ => true,
    }
}

/// Whether the values of every record and of all fixed bytes in a schema plainly take bytes.
pub open spec fn plain_names(tree: JsonTree) -> bool
    decreases tree,
{
    match tree {
        JsonTree::Array(items) => forall|i: int|
            #![trigger items[i]]
            0 <= i < items.len() ==> plain_names(items[i]),
        JsonTree::Object(entries) => {
            &&& forall|i: int|
                #![trigger entries[i]]
                0 <= i < entries.len() ==> plain_names(entries[i].1)
            &&& entry(tree, "type"@) == Some(JsonTree::Text("record"@)) || entry(tree, "type"@)
                == Some(JsonTree::Text("fixed"@)) ==> plainly_sized(tree, false)
        },
        _ => true,
    }
}

/// Records can be decoded under a schema whose arrays have items that plainly take bytes, and where
/// all its records and fixed bytes do, arrays may also have items of types that go by a name. Under
/// one with an array of nulls they cannot.
pub proof fn law_plain_arrays_are_sized(tree: JsonTree)
    ensures
        plain_arrays(tree, false) ==> sized_items(tree),
        plain_arrays(tree, true) && plain_names(tree) ==> sized_items(tree),
        entry(tree, "type"@) == Some(JsonTree::Text("array"@)) && entry(tree, "items"@) == Some(
            JsonTree::Text("null"@),
        ) ==> !sized_items(tree),
{
    lemma_avro_names_differ();
    let named = sized_parts(tree, SizedPart::Named);
    if plain_arrays(tree, false) {
        lemma_plain_arrays(tree, false, named);
    }
    if plain_arrays(tree, true) && plain_names(tree) {
        lemma_plain_names(tree);
        lemma_plain_arrays(tree, true, true);
    }
}

proof fn lemma_plainly_sized(tree: JsonTree, by_name: bool, named: bool)
    requires
        plainly_sized(tree, by_name),
        by_name ==> named,
    ensures
        takes_bytes(tree, named),
{
    lemma_avro_names_differ();
    assert forall|name: Seq<char>| #[trigger] is_value_name(name) implies sized_primitive(name) by {
        let names = seq![
            "boolean"@,
            "int"@,
            "long"@,
            "float"@,
            "double"@,
            "bytes"@,
            "string"@,
        ];
        let i = choose|i: int| 0 <= i < names.len() && names[i] == name;
        assert(i == 0 || i == 1 || i == 2 || i == 3 || i == 4 || i == 5 || i == 6);
    }
    if entry(tree, "type"@) == Some(JsonTree::Text("record"@)) && tree is Object {
        lemma_entry_smaller(tree, "fields"@);
        if let Some(JsonTree::Array(fields)) = entry(tree, "fields"@) {
            if !is_value_name("record"@) {
                let i = choose|i: int|
                    0 <= i < fields.len() && (entry(#[trigger] fields[i], "type"@) matches Some(
                        JsonTree::Text(inner),
                    ) && is_value_name(inner));
                lemma_a_field_takes_bytes(JsonTree::Array(fields), fields.len() as int, i, named);
            }
        }
    }
}

proof fn lemma_a_field_takes_bytes(fields: JsonTree, n: int, i: int, named: bool)
    requires
        fields is Array,
        0 <= i < n <= fields->Array_0.len(),
        entry(fields->Array_0[i], "type"@) matches Some(JsonTree::Text(name)) && sized_primitive(
            name,
        ),
    ensures
        a_field_takes_bytes(fields, n, named),
    decreases n,
{
    lemma_item_smaller(fields, n - 1);
    lemma_entry_smaller(fields->Array_0[n - 1], "type"@);
    if i < n - 1 {
        lemma_a_field_takes_bytes(fields, n - 1, i, named);
    } else {
        assert(takes_bytes(entry(fields->Array_0[i], "type"@)->0, named));
    }
}

proof fn lemma_plain_arrays(tree: JsonTree, by_name: bool, named: bool)
    requires
        plain_arrays(tree, by_name),
        by_name ==> named,
    ensures
        sized_parts(tree, SizedPart::Items(named)),
    decreases tree,
{
    match tree {
        JsonTree::Array(items) => {
            assert forall|i: int|
                #![trigger items[i]]
                0 <= i < items.len() implies sized_parts(items[i], SizedPart::Items(named)) by {
                lemma_item_smaller(tree, i);
                lemma_plain_arrays(items[i], by_name, named);
            }
        },
        JsonTree::Object(entries) => {
            assert forall|i: int|
                #![trigger entries[i]]
                0 <= i < entries.len() implies sized_parts(
                entries[i].1,
                SizedPart::Items(named),
            ) by {
                assert(decreases_to!(tree => tree->Object_0));
                assert(decreases_to!(entries => entries[i]));
                assert(decreases_to!(entries[i] => entries[i].1));
                lemma_plain_arrays(entries[i].1, by_name, named);
            }
            if entry(tree, "type"@) == Some(JsonTree::Text("array"@)) {
                lemma_plainly_sized(entry(tree, "items"@)->0, by_name, named);
            }
        },
        _ => {},
    }
}

proof fn lemma_plain_names(tree: JsonTree)
    requires
        plain_names(tree),
    ensures
        sized_parts(tree, SizedPart::Named),
    decreases tree,
{
    match tree {
        JsonTree::Array(items) => {
            assert forall|i: int|
                #![trigger items[i]]
                0 <= i < items.len() implies sized_parts(items[i], SizedPart::Named) by {
                lemma_item_smaller(tree, i);
                lemma_plain_names(items[i]);
            }
        },
        JsonTree::Object(entries) => {
            assert forall|i: int|
                #![trigger entries[i]]
                0 <= i < entries.len() implies sized_parts(entries[i].1, SizedPart::Named) by {
                assert(decreases_to!(tree => tree->Object_0));
                assert(decreases_to!(entries => entries[i]));
                assert(decreases_to!(entries[i] => entries[i].1));
                lemma_plain_names(entries[i].1);
            }
            if entry(tree, "type"@) == Some(JsonTree::Text("record"@)) || entry(tree, "type"@)
                == Some(JsonTree::Text("fixed"@)) {
                lemma_plainly_sized(tree, false, false);
            }
        },
        _ => {},
    }
}

/// A precision or a scale that has no room in eight bits keeps the last eight, and a number of
/// fixed bytes that has none in 32 the last 32.
pub proof fn law_avro_numbers_keep_their_last_bits(tree: JsonTree)
    requires
        tree is Object,
    ensures
        entry(tree, "logicalType"@) == Some(JsonTree::Text("decimal"@)) ==> {
            let data_type = avro_type(tree)->Ok_0.0;
            &&& unsigned_in(entry(tree, "precision"@)) matches Some(n)
                ==> data_type->Decimal128_0 == n % 0x100
            &&& signed_in(entry(tree, "scale"@)) matches Some(n) ==> (data_type->Decimal128_1 - n)
                % 0x100 == 0
        },
        goes_by_its_type(tree) && entry(tree, "type"@) == Some(JsonTree::Text("fixed"@)) ==> {
            let data_type = avro_type(tree)->Ok_0.0;
            unsigned_in(entry(tree, "size"@)) matches Some(n) ==> (data_type->FixedSizeBinary_0 - n)
                % 0x1_0000_0000 == 0
        },
{
    law_avro_logical_types_go_first(tree);
    if goes_by_its_type(tree) {
        law_avro_objects_go_by_their_type(tree, "fixed"@);
    }
    lemma_avro_names_differ();
    if let Some(n) = unsigned_in(entry(tree, "precision"@)) {
        assert(n as u8 == n % 0x100) by (bit_vector);
    }
    if let Some(n) = signed_in(entry(tree, "scale"@)) {
        let m = n as i8;
        assert((m as i64 - n) % 0x100 == 0) by (bit_vector)
            requires
                m == n as i8,
        ;
    }
    if let Some(n) = unsigned_in(entry(tree, "size"@)) {
        let m = n as i32;
        assert((m as int - n as int) % 0x1_0000_0000 == 0) by (bit_vector)
            requires
                m == n as i32,
        ;
    }
}

} // verus!
