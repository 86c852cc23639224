//! Which types have values that can be compared.

use vstd::prelude::*;

use arrow::datatypes::DataType as ArrowType;

use crate::arrow_schema::{field_data_type, field_of, field_trees, open_type, type_of, TypeParts};
use crate::delta::casts::{any_list, list_field, list_item};
use crate::schema::{FieldTree, TypeTree};

verus! {

/// Whether columns of a type can be compared row by row, or are found not to be: there are no runs,
/// and the values of dictionaries are neither runs nor dictionaries.
pub open spec fn ordered_column(data_type: TypeTree) -> bool {
    match data_type {
        TypeTree::Dictionary(_, value) => !(*value is Dictionary) && !(*value is Runs),
        TypeTree::Runs(_) => false,
        _ => true,
    }
}

/// Whether values of a type that are kept as an array can be compared: by the items of lists, the
/// fields of structures and those of structures within, and the keys of maps.
pub open spec fn ordered_type(data_type: TypeTree) -> bool
    decreases data_type,
{
    match data_type {
        TypeTree::Struct(fields) => forall|i: int|
            #![trigger fields[i]]
            0 <= i < fields.len() ==> if fields[i].data_type is Struct {
                ordered_type(fields[i].data_type)
            } else {
                ordered_column(fields[i].data_type)
            },
        TypeTree::MapOf(entries, _) => match entries.data_type {
            TypeTree::Struct(pair) => pair.len() > 0 ==> ordered_column(pair[0].data_type),
            _ => true,
        },
        _ => match list_item(data_type) {
            Some(item) => ordered_column(item.data_type),
            None => true,
        },
    }
}

fn is_ordered_column(data_type: &ArrowType) -> (r: bool)
    ensures
        r == ordered_column(type_of(*data_type)),
{
    match open_type(data_type) {
        TypeParts::Dictionary(_, value) => match open_type(&value) {
            TypeParts::Dictionary(_, _) => false,
            TypeParts::Runs => false,
            _ => true,
        },
        TypeParts::Runs => false,
        _ => true,
    }
}

/// Whether values of a type that are kept as an array can be compared.
pub(crate) fn is_ordered_type(data_type: &ArrowType) -> (r: bool)
    ensures
        r == ordered_type(type_of(*data_type)),
    decreases type_of(*data_type),
{
    let ghost tree = type_of(*data_type);
    match any_list(data_type) {
        Some(list) => {
            return is_ordered_column(&field_data_type(&list_field(list)));
        },
        None => {},
    }
    match open_type(data_type) {
        TypeParts::Struct(fields) => {
            let ghost all = field_trees(fields@);
            let mut i: usize = 0;
            while i < fields.len()
                invariant
                    i <= fields.len(),
                    all == field_trees(fields@),
                    tree == type_of(*data_type),
                    tree == TypeTree::Struct(all),
                    forall|j: int|
                        #![trigger all[j]]
                        0 <= j < i ==> if all[j].data_type is Struct {
                            ordered_type(all[j].data_type)
                        } else {
                            ordered_column(all[j].data_type)
                        },
                decreases fields.len() - i,
            {
                assert(decreases_to!(tree => tree->Struct_0));
                assert(decreases_to!(all => all[i as int]));
                assert(decreases_to!(all[i as int] => all[i as int].data_type));
                assert(all[i as int] == field_of(fields@[i as int]));
                let part: ArrowType = field_data_type(&fields[i]);
                let fits: bool = match open_type(&part) {
                    TypeParts::Struct(_) => is_ordered_type(&part),
                    _ => is_ordered_column(&part),
                };
                if !fits {
                    return false;
                }
                i = i + 1;
            }
            true
        },
        TypeParts::MapOf(entries, _) => match open_type(&field_data_type(&entries)) {
            TypeParts::Struct(pair) => {
                assert(field_trees(pair@).len() == pair@.len());
                if pair.len() > 0 {
                    assert(field_trees(pair@)[0] == field_of(pair@[0]));
                    is_ordered_column(&field_data_type(&pair[0]))
                } else {
                    true
                }
            },
            _ => true,
        },
        _ => true,
    }
}

/// Columns of any type can be compared but runs, dictionaries of runs and dictionaries of
/// dictionaries; and values that are kept as arrays are compared by the items of lists, the keys of
/// maps and all fields of structures.
pub proof fn law_ordered_types(data_type: TypeTree, fields: Seq<FieldTree>)
    ensures
        ordered_column(data_type) <==> !(data_type is Runs) && (data_type is Dictionary ==> !(
        *data_type->Dictionary_1 is Dictionary) && !(*data_type->Dictionary_1 is Runs)),
        data_type is List ==> (ordered_type(data_type) <==> ordered_column(
            data_type->List_0.data_type,
        )),
        data_type is LargeList ==> (ordered_type(data_type) <==> ordered_column(
            data_type->LargeList_0.data_type,
        )),
        (forall|i: int| 0 <= i < fields.len() ==> !((#[trigger] fields[i]).data_type is Struct))
            ==> (ordered_type(TypeTree::Struct(fields)) <==> forall|i: int|
            0 <= i < fields.len() ==> ordered_column((#[trigger] fields[i]).data_type)),
{
    reveal_with_fuel(ordered_type, 2);
    if ordered_type(TypeTree::Struct(fields)) && (forall|i: int|
        0 <= i < fields.len() ==> !((#[trigger] fields[i]).data_type is Struct)) {
        assert forall|i: int| 0 <= i < fields.len() implies ordered_column(
            (#[trigger] fields[i]).data_type,
        ) by {}
    }
}

} // verus!
