//! Columns of a JSON Schema.

use vstd::prelude::*;

use crate::batch::{readable_fields, readable_type};
use crate::error::{plan_error, plan_failure, Failure, FailureKind, ReadError};
use crate::json::{entry, lemma_entry_smaller, text_in, Json, JsonTree};
use crate::schema::{
    column, columns, ColumnField, ColumnType, FieldTree, TableSchema, TypeTree,
};
use crate::text::same_text;

verus! {

/// Whether the schema `tree` lists `name` as required.
pub open spec fn requires_property(tree: JsonTree, name: Seq<char>) -> bool {
    match entry(tree, "required"@) {
        Some(JsonTree::Array(names)) => names.contains(JsonTree::Text(name)),
        _ => false,
    }
}

/// A property of an object is smaller than the object.
pub proof fn lemma_property_smaller(tree: JsonTree, i: int)
    requires
        tree is Object,
        0 <= i < tree->Object_0.len(),
    ensures
        decreases_to!(tree => tree->Object_0[i].1),
{
    let entries = tree->Object_0;
    assert(decreases_to!(tree => tree->Object_0));
    assert(decreases_to!(entries => entries[i]));
    assert(decreases_to!(entries[i] => entries[i].1));
}

/// The column type of a property.
pub open spec fn json_type(tree: JsonTree) -> Result<TypeTree, Failure>
    decreases tree, 1int,
{
    proof {
        lemma_entry_smaller(tree, "items"@);
        lemma_entry_smaller(tree, "properties"@);
    }
    match text_in(entry(tree, "type"@)) {
        Some(name) => if name == "integer"@ {
            Ok(TypeTree::Int64)
        } else if name == "number"@ {
            Ok(TypeTree::Float64)
        } else if name == "boolean"@ {
            Ok(TypeTree::Boolean)
        } else if name == "object"@ {
            match json_schema(tree) {
                Ok(fields) => Ok(TypeTree::Struct(fields)),
                Err(failure) => Err(failure),
            }
        } else if name == "array"@ {
            match entry(tree, "items"@) {
                Some(items) => match json_type(items) {
                    Ok(item) => Ok(TypeTree::List(Box::new(column("item"@, item, true)))),
                    Err(failure) => Err(failure),
                },
                None => Ok(TypeTree::List(Box::new(column("item"@, TypeTree::Utf8, true)))),
            }
        } else {
            Ok(TypeTree::Utf8)
        },
        None => Ok(TypeTree::Utf8),
    }
}

/// The columns of the first `n` entries of `properties`, or the failure of the first that has one.
/// A column that `whole` does not require is nullable.
pub open spec fn json_fields(properties: JsonTree, whole: JsonTree, n: int) -> Result<
    Seq<FieldTree>,
    Failure,
>
    decreases properties, n,
{
    if properties is Object && 0 < n <= properties->Object_0.len() {
        proof {
            lemma_property_smaller(properties, n - 1);
        }
        let (name, property) = properties->Object_0[n - 1];
        match json_fields(properties, whole, n - 1) {
            Ok(done) => match json_type(property) {
                Ok(data_type) => Ok(
                    done.push(column(name, data_type, !requires_property(whole, name))),
                ),
                Err(failure) => Err(failure),
            },
            Err(failure) => Err(failure),
        }
    } else {
        Ok(Seq::empty())
    }
}

/// What a JSON Schema of an object becomes.
pub open spec fn json_schema(tree: JsonTree) -> Result<Seq<FieldTree>, Failure>
    decreases tree, 0int,
{
    proof {
        lemma_entry_smaller(tree, "properties"@);
    }
    match entry(tree, "properties"@) {
        Some(JsonTree::Object(entries)) => json_fields(
            JsonTree::Object(entries),
            tree,
            entries.len() as int,
        ),
        _ => Err(plan_failure("JSON Schema must have 'properties' for object type"@)),
    }
}

/// A failure among the first entries is the failure of all.
proof fn lemma_json_fields_failure(properties: JsonTree, whole: JsonTree, m: int, n: int)
    requires
        properties is Object,
        0 <= m <= n <= properties->Object_0.len(),
        json_fields(properties, whole, m) is Err,
    ensures
        json_fields(properties, whole, n) == json_fields(properties, whole, m),
    decreases n,
{
    if m < n {
        lemma_json_fields_failure(properties, whole, m, n - 1);
    }
}

/// Whether the schema lists `name` as required.
fn is_required(schema: &Json, name: &str) -> (r: bool)
    ensures
        r == requires_property(schema@, name@),
{
    if let Some(Json::Array(names)) = schema.entry("required") {
        let ghost all = entry(schema@, "required"@)->0->Array_0;
        assert(all.len() == names@.len());
        let mut i: usize = 0;
        while i < names.len()
            invariant
                i <= names.len(),
                all.len() == names@.len(),
                all == Json::Array(*names)@->Array_0,
                entry(schema@, "required"@) == Some(JsonTree::Array(all)),
                forall|j: int| 0 <= j < i ==> #[trigger] all[j] != JsonTree::Text(name@),
            decreases names.len() - i,
        {
            assert(all[i as int] == names@[i as int]@);
            if let Json::Text(s) = &names[i] {
                if same_text(s.as_str(), name) {
                    assert(all.contains(JsonTree::Text(name@)));
                    return true;
                }
            }
            i = i + 1;
        }
        false
    } else {
        false
    }
}

/// The column type of a property.
pub fn json_type_to_arrow(property: &Json) -> (r: Result<ColumnType, ReadError>)
    ensures
        match r {
            Ok(data_type) => json_type(property@) == Ok::<_, Failure>(data_type@),
            Err(error) => json_type(property@) == Err::<TypeTree, _>(error@),
        },
    decreases property@, 1int,
{
    match property.text_entry("type") {
        Some(name) => {
            let s: &str = name.as_str();
            if same_text(s, "integer") {
                Ok(ColumnType::Int64)
            } else if same_text(s, "number") {
                Ok(ColumnType::Float64)
            } else if same_text(s, "boolean") {
                Ok(ColumnType::Boolean)
            } else if same_text(s, "object") {
                match json_schema_to_arrow(property) {
                    Ok(schema) => {
                        let data_type = ColumnType::Struct(schema.fields);
                        assert(data_type@->Struct_0 =~= schema@);
                        Ok(data_type)
                    },
                    Err(error) => Err(error),
                }
            } else if same_text(s, "array") {
                proof {
                    lemma_entry_smaller(property@, "items"@);
                }
                match property.entry("items") {
                    Some(items) => match json_type_to_arrow(items) {
                        Ok(item) => Ok(ColumnType::List(Box::new(ColumnField::new("item", item, true)))),
                        Err(error) => Err(error),
                    },
                    None => {
                        let field: ColumnField = ColumnField::new("item", ColumnType::Utf8, true);
                        assert(field@.data_type == TypeTree::Utf8);
                        Ok(ColumnType::List(Box::new(field)))
                    },
                }
            } else {
                Ok(ColumnType::Utf8)
            }
        },
        None => Ok(ColumnType::Utf8),
    }
}

/// The columns of a JSON Schema of an object.
pub fn json_schema_to_arrow(schema: &Json) -> (r: Result<TableSchema, ReadError>)
    ensures
        match r {
            Ok(columns) => json_schema(schema@) == Ok::<_, Failure>(columns@),
            Err(error) => json_schema(schema@) == Err::<Seq<FieldTree>, _>(error@),
        },
    decreases schema@, 0int,
{
    let ghost whole = schema@;
    proof {
        lemma_entry_smaller(whole, "properties"@);
    }
    if let Some(properties) = schema.entry("properties") {
        if let Json::Object(entries) = properties {
            let ghost tree = properties@;
            let mut fields: Vec<ColumnField> = Vec::new();
            let mut i: usize = 0;
            assert(columns(fields@) =~= Seq::<FieldTree>::empty());
            while i < entries.len()
                invariant
                    i <= entries.len(),
                    whole == schema@,
                    *properties == Json::Object(*entries),
                    tree == properties@,
                    decreases_to!(whole => tree),
                    entry(whole, "properties"@) == Some(tree),
                    tree->Object_0.len() == entries@.len(),
                    json_fields(tree, whole, i as int) == Ok::<_, Failure>(columns(fields@)),
                decreases entries.len() - i,
            {
                assert(tree->Object_0[i as int].0 == entries@[i as int].0@);
                assert(tree->Object_0[i as int].1 == entries@[i as int].1@);
                proof {
                    lemma_property_smaller(tree, i as int);
                }
                match json_type_to_arrow(&entries[i].1) {
                    Ok(data_type) => {
                        let name: &str = entries[i].0.as_str();
                        let nullable = !is_required(schema, name);
                        let field: ColumnField = ColumnField::new(name, data_type, nullable);
                        let ghost before = columns(fields@);
                        fields.push(field);
                        assert(columns(fields@) =~= before.push(field@));
                    },
                    Err(error) => {
                        proof {
                            lemma_json_fields_failure(tree, whole, i + 1, entries@.len() as int);
                        }
                        return Err(error);
                    },
                }
                i = i + 1;
            }
            return Ok(TableSchema { fields });
        }
    }
    Err(plan_error("JSON Schema must have 'properties' for object type".to_owned()))
}

/// A JSON Schema becomes a column for each property, under its name and of its type, nullable
/// exactly where the property is not required.
pub proof fn law_properties_become_columns(properties: JsonTree, whole: JsonTree, n: int, i: int)
    requires
        properties is Object,
        0 <= i < n <= properties->Object_0.len(),
        json_fields(properties, whole, n) is Ok,
    ensures
        ({
            let fields = json_fields(properties, whole, n)->Ok_0;
            let (name, property) = properties->Object_0[i];
            &&& fields.len() == n
            &&& fields[i].name == name
            &&& json_type(property) == Ok::<_, Failure>(fields[i].data_type)
            &&& fields[i].nullable == !requires_property(whole, name)
        }),
    decreases n,
{
    if n > 1 {
        if i < n - 1 {
            law_properties_become_columns(properties, whole, n - 1, i);
        } else {
            law_properties_become_columns(properties, whole, n - 1, 0);
        }
    } else {
        assert(json_fields(properties, whole, 0) == Ok::<Seq<FieldTree>, Failure>(Seq::empty()));
    }
}

proof fn lemma_json_type_readable(tree: JsonTree)
    ensures
        json_type(tree) matches Ok(data_type) ==> readable_type(data_type),
    decreases tree, 1int,
{
    lemma_entry_smaller(tree, "items"@);
    match entry(tree, "items"@) {
        Some(items) => {
            lemma_json_type_readable(items);
        },
        None => {},
    }
    law_json_columns_are_readable(tree);
    reveal_with_fuel(readable_type, 2);
}

proof fn lemma_json_fields_readable(properties: JsonTree, whole: JsonTree, n: int)
    ensures
        json_fields(properties, whole, n) matches Ok(fields) ==> readable_fields(fields),
    decreases properties, n,
{
    if properties is Object && 0 < n <= properties->Object_0.len() {
        lemma_property_smaller(properties, n - 1);
        lemma_json_fields_readable(properties, whole, n - 1);
        lemma_json_type_readable(properties->Object_0[n - 1].1);
    }
}

/// The columns of a JSON Schema are such that the values that it describes can be read.
pub proof fn law_json_columns_are_readable(tree: JsonTree)
    ensures
        json_schema(tree) matches Ok(fields) ==> readable_fields(fields),
    decreases tree, 0int,
{
    lemma_entry_smaller(tree, "properties"@);
    match entry(tree, "properties"@) {
        Some(JsonTree::Object(entries)) => {
            lemma_json_fields_readable(JsonTree::Object(entries), tree, entries.len() as int);
        },
        _ => {},
    }
}

/// A number that tells the type names of JSON Schema apart.
spec fn name_number(name: Seq<char>) -> int {
    if name.len() == 5 {
        4
    } else if name.len() == 6 {
        if name[0] == 'n' {
            1
        } else if name[0] == 'o' {
            3
        } else {
            5
        }
    } else if name[0] == 'i' {
        0
    } else {
        2
    }
}

proof fn lemma_json_names_differ()
    ensures
        name_number("integer"@) == 0,
        name_number("number"@) == 1,
        name_number("boolean"@) == 2,
        name_number("object"@) == 3,
        name_number("array"@) == 4,
        name_number("string"@) == 5,
{
    reveal_strlit("integer");
    reveal_strlit("number");
    reveal_strlit("boolean");
    reveal_strlit("object");
    reveal_strlit("array");
    reveal_strlit("string");
}

/// The property types `integer`, `number` and `boolean` have their column types, and every other
/// property that is neither an object nor an array is text, also where it has no type.
pub proof fn law_property_types(property: JsonTree)
    ensures
        ({
            let name = entry(property, "type"@);
            let data_type = json_type(property);
            &&& name == Some(JsonTree::Text("integer"@)) ==> data_type == Ok::<_, Failure>(
                TypeTree::Int64,
            )
            &&& name == Some(JsonTree::Text("number"@)) ==> data_type == Ok::<_, Failure>(
                TypeTree::Float64,
            )
            &&& name == Some(JsonTree::Text("boolean"@)) ==> data_type == Ok::<_, Failure>(
                TypeTree::Boolean,
            )
            &&& name == Some(JsonTree::Text("string"@)) ==> data_type == Ok::<_, Failure>(
                TypeTree::Utf8,
            )
            &&& name != Some(JsonTree::Text("integer"@)) && name != Some(
                JsonTree::Text("number"@),
            ) && name != Some(JsonTree::Text("boolean"@)) && name != Some(
                JsonTree::Text("object"@),
            ) && name != Some(JsonTree::Text("array"@)) ==> data_type == Ok::<_, Failure>(
                TypeTree::Utf8,
            )
        }),
{
    lemma_json_names_differ();
}

/// A property that is an array is a list of nullable items named `item` of the type of its items,
/// of text where they have none; and one that is an object is a structure of the columns that it
/// would become by itself. What fails inside fails as a whole.
pub proof fn law_nested_properties(property: JsonTree)
    ensures
        entry(property, "type"@) == Some(JsonTree::Text("array"@)) ==> {
            let item = match entry(property, "items"@) {
                Some(items) => json_type(items),
                None => Ok(TypeTree::Utf8),
            };
            match item {
                Ok(data_type) => {
                    &&& json_type(property) is Ok
                    &&& json_type(property)->Ok_0 is List
                    &&& json_type(property)->Ok_0->List_0.name == "item"@
                    &&& json_type(property)->Ok_0->List_0.data_type == data_type
                    &&& json_type(property)->Ok_0->List_0.nullable
                },
                Err(failure) => json_type(property) == Err::<TypeTree, _>(failure),
            }
        },
        entry(property, "type"@) == Some(JsonTree::Text("object"@)) ==> match json_schema(
            property,
        ) {
            Ok(fields) => json_type(property) == Ok::<_, Failure>(TypeTree::Struct(fields)),
            Err(failure) => json_type(property) == Err::<TypeTree, _>(failure),
        },
{
    lemma_json_names_differ();
    lemma_entry_smaller(property, "items"@);
}

/// A JSON Schema becomes a column for each of its properties, in order: under the name of the
/// property, of its type, and nullable unless the schema lists the name as required. It is accepted
/// where, and only where, it has properties and the type of each is accepted.
pub proof fn law_schemas_have_all_properties(
    tree: JsonTree,
    properties: Seq<(Seq<char>, JsonTree)>,
    required: Seq<JsonTree>,
)
    requires
        entry(tree, "properties"@) == Some(JsonTree::Object(properties)),
        entry(tree, "required"@) == Some(JsonTree::Array(required)) || (required.len() == 0
            && !(entry(tree, "required"@) matches Some(JsonTree::Array(_)))),
    ensures
        json_schema(tree) is Ok <==> forall|i: int|
            0 <= i < properties.len() ==> json_type((#[trigger] properties[i]).1) is Ok,
        json_schema(tree) is Ok ==> {
            &&& json_schema(tree)->Ok_0.len() == properties.len()
            &&& forall|i: int|
                0 <= i < properties.len() ==> {
                    let field = #[trigger] json_schema(tree)->Ok_0[i];
                    &&& field.name == properties[i].0
                    &&& json_type(properties[i].1) == Ok::<_, Failure>(field.data_type)
                    &&& field.nullable <==> forall|k: int|
                        0 <= k < required.len() ==> #[trigger] required[k] != JsonTree::Text(
                            properties[i].0,
                        )
                }
        },
{
    let object = JsonTree::Object(properties);
    lemma_json_fields(object, tree, properties.len() as int);
    lemma_entry_smaller(tree, "properties"@);
    assert(json_schema(tree) == json_fields(object, tree, properties.len() as int));
    if json_schema(tree) is Ok {
        assert forall|i: int| 0 <= i < properties.len() implies {
            let field = #[trigger] json_schema(tree)->Ok_0[i];
            &&& field.name == properties[i].0
            &&& json_type(properties[i].1) == Ok::<_, Failure>(field.data_type)
            &&& field.nullable == !requires_property(tree, properties[i].0)
        } by {
            law_properties_become_columns(object, tree, properties.len() as int, i);
        }
    }
}

proof fn lemma_json_fields(properties: JsonTree, whole: JsonTree, n: int)
    requires
        properties is Object,
        0 <= n <= properties->Object_0.len(),
    ensures
        json_fields(properties, whole, n) is Ok <==> forall|i: int|
            0 <= i < n ==> json_type((#[trigger] properties->Object_0[i]).1) is Ok,
        json_fields(properties, whole, n) is Ok ==> json_fields(
            properties,
            whole,
            n,
        )->Ok_0.len() == n,
    decreases n,
{
    if n > 0 {
        lemma_json_fields(properties, whole, n - 1);
        lemma_property_smaller(properties, n - 1);
    }
}

/// A JSON Schema without properties is not accepted.
pub proof fn law_schemas_need_properties(tree: JsonTree)
    requires
        !(entry(tree, "properties"@) matches Some(JsonTree::Object(_))),
    ensures
        json_schema(tree) is Err,
        json_schema(tree)->Err_0.kind == FailureKind::Plan,
{
}

} // verus!
