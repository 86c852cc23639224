//! Which values can be cast to which types.

use vstd::prelude::*;

use arrow::datatypes::DataType as ArrowType;
use arrow::datatypes::Field as ArrowField;

use crate::arrow_schema::{
    decimal_in, decimal_of, field_data_type, field_name, field_nullable, field_of, field_trees,
    is_integer_type, is_interval_type, is_text_type, open_list, open_type, same_type, special_type,
    text_type, type_of, unit_in, ListType, SpecialType, TypeParts,
};
use crate::schema::{integer_type, FieldTree, Metadata, TimeUnit, TypeTree};
use crate::text::same_text;

verus! {

/// The field of the items of a list.
pub open spec fn list_item(data_type: TypeTree) -> Option<FieldTree> {
    match data_type {
        TypeTree::List(item) => Some(*item),
        TypeTree::LargeList(item) => Some(*item),
        TypeTree::ListView(item) => Some(*item),
        TypeTree::LargeListView(item) => Some(*item),
        TypeTree::FixedSizeList(item, _) => Some(*item),
        _ => None,
    }
}

/// Whether a type that is a structure has fields, and so have the structures that are its fields.
pub open spec fn filled(data_type: TypeTree) -> bool
    decreases data_type,
{
    match data_type {
        TypeTree::Struct(fields) => fields.len() > 0 && forall|i: int|
            #![trigger fields[i]]
            0 <= i < fields.len() ==> filled(fields[i].data_type),
        _ => true,
    }
}

/// Whether lists of a fixed size have items, and these have fields where they are structures: the
/// rows of other such lists are miscounted.
pub open spec fn counted(data_type: TypeTree) -> bool {
    match data_type {
        TypeTree::FixedSizeList(item, size) => size > 0 && filled(item.data_type),
        _ => true,
    }
}

/// Whether columns can have a type, and columns without values can be made of it: bytes of a fixed
/// size are not fewer than none, lists of a fixed size have items, the keys of dictionaries are
/// whole numbers and their values no dictionaries, entries of maps are pairs, times of day are
/// counted in units that they have room for, and there are no unions or runs.
pub open spec fn valid_type(data_type: TypeTree) -> bool
    decreases data_type,
{
    match data_type {
        TypeTree::FixedSizeBinary(size) => size >= 0,
        TypeTree::Struct(fields) => forall|i: int|
            #![trigger fields[i]]
            0 <= i < fields.len() ==> valid_type(fields[i].data_type),
        TypeTree::List(item) => valid_type(item.data_type),
        TypeTree::LargeList(item) => valid_type(item.data_type),
        TypeTree::ListView(item) => valid_type(item.data_type),
        TypeTree::LargeListView(item) => valid_type(item.data_type),
        TypeTree::FixedSizeList(item, _) => counted(data_type) && valid_type(item.data_type),
        TypeTree::MapOf(entries, _) => valid_type(entries.data_type) && match entries.data_type {
            TypeTree::Struct(pair) => pair.len() == 2,
            _ => false,
        },
        TypeTree::Dictionary(key, value) => integer_type(*key) && !(*value is Dictionary)
            && valid_type(*value),
        TypeTree::Union(_) => false,
        TypeTree::Runs(_) => false,
        TypeTree::Time32(unit) => unit == TimeUnit::Second || unit == TimeUnit::Millisecond,
        TypeTree::Time64(unit) => unit == TimeUnit::Microsecond || unit == TimeUnit::Nanosecond,
        _ => true,
    }
}

/// Whether times of a zone can be told in that zone: at the ends of the calendar they cannot, but
/// in nanoseconds none are so far off.
pub open spec fn steady(unit: TimeUnit, zone: Seq<char>) -> bool {
    unit == TimeUnit::Nanosecond || zone == "UTC"@
}

/// Whether a unit is a second or a millisecond.
pub open spec fn coarse(unit: TimeUnit) -> bool {
    unit == TimeUnit::Second || unit == TimeUnit::Millisecond
}

/// Whether a type is one of decimals with no more digits behind the point than there are.
pub open spec fn plain_decimal(data_type: TypeTree) -> bool {
    decimal_of(data_type) matches Some((_, precision, scale)) && scale <= precision
}

/// Whether values of a type without parts can be written as text: not intervals and spans of time,
/// nor times of a zone where they cannot be told in it.
pub open spec fn shown(data_type: TypeTree) -> bool {
    match data_type {
        TypeTree::Zoned(unit, zone) => steady(unit, zone),
        TypeTree::Interval(_) => false,
        TypeTree::Duration(_) => false,
        _ => decimal_of(data_type) is Some ==> plain_decimal(data_type),
    }
}

/// Whether values of a type without parts can be cast to another, or are found not to be. Left out
/// are intervals, decimals to decimals, texts of what cannot be shown, and what may overflow: dates
/// to finer units, times of day from microseconds to nanoseconds, and times to or from a zone in
/// which they cannot be told.
pub open spec fn leaf_cast(source: TypeTree, target: TypeTree) -> bool {
    source == TypeTree::Null || !(target is Interval) && match source {
        TypeTree::Interval(_) => false,
        TypeTree::Date32 => target matches TypeTree::Zoned(unit, zone) ==> steady(unit, zone),
        TypeTree::Timestamp(_) => target matches TypeTree::Zoned(unit, zone) ==> steady(unit, zone),
        TypeTree::Date64 => match target {
            TypeTree::Timestamp(unit) => coarse(unit),
            TypeTree::Zoned(unit, zone) => coarse(unit) && zone == "UTC"@,
            _ => true,
        },
        TypeTree::Zoned(unit, zone) => text_type(target) || target is Date32 || target is Time32
            || target is Time64 ==> steady(unit, zone),
        TypeTree::Time64(unit) => !(unit == TimeUnit::Microsecond && target == TypeTree::Time64(
            TimeUnit::Nanosecond,
        )),
        TypeTree::Duration(_) => !text_type(target),
        _ => decimal_of(source) is Some ==> decimal_of(target) is None && (text_type(target)
            ==> plain_decimal(source)),
    }
}

/// Whether values of a type can be written as text, with all that is within.
pub open spec fn written(data_type: TypeTree) -> bool
    decreases data_type,
{
    match data_type {
        TypeTree::Struct(fields) => forall|i: int|
            #![trigger fields[i]]
            0 <= i < fields.len() ==> written(fields[i].data_type),
        TypeTree::List(item) => written(item.data_type),
        TypeTree::LargeList(item) => written(item.data_type),
        TypeTree::ListView(item) => written(item.data_type),
        TypeTree::LargeListView(item) => written(item.data_type),
        TypeTree::FixedSizeList(item, _) => written(item.data_type),
        TypeTree::MapOf(entries, _) => written(entries.data_type),
        TypeTree::Dictionary(_, value) => written(*value),
        TypeTree::Union(_) => false,
        TypeTree::Runs(_) => false,
        _ => shown(data_type),
    }
}

/// Whether a type has parts.
pub open spec fn has_parts(data_type: TypeTree) -> bool {
    data_type is Struct || data_type is MapOf || data_type is Dictionary || data_type is Union
        || data_type is Runs || list_item(data_type) is Some
}

/// Whether the cast of a type to another goes through structures by the names of their fields: both
/// are structures, or lists or dictionaries of one kind over such types.
pub open spec fn through_structs(source: TypeTree, target: TypeTree) -> bool
    decreases source,
{
    match (source, target) {
        (TypeTree::Struct(_), TypeTree::Struct(_)) => true,
        (TypeTree::List(a), TypeTree::List(b)) => through_structs(a.data_type, b.data_type),
        (TypeTree::LargeList(a), TypeTree::LargeList(b)) => through_structs(
            a.data_type,
            b.data_type,
        ),
        (TypeTree::ListView(a), TypeTree::ListView(b)) => through_structs(a.data_type, b.data_type),
        (TypeTree::LargeListView(a), TypeTree::LargeListView(b)) => through_structs(
            a.data_type,
            b.data_type,
        ),
        (TypeTree::FixedSizeList(a, m), TypeTree::FixedSizeList(b, n)) => m == n
            && through_structs(a.data_type, b.data_type),
        (TypeTree::Dictionary(_, a), TypeTree::Dictionary(_, b)) => through_structs(*a, *b),
        _ => false,
    }
}

/// Calls `requires_nested_struct_cast`. Claimed: whether the cast goes through structures by the
/// names of their fields.
#[verifier::external_body]
fn goes_through_structs(source: &ArrowType, target: &ArrowType) -> (r: bool)
    ensures
        r == through_structs(type_of(*source), type_of(*target)),
{
    datafusion::common::nested_struct::requires_nested_struct_cast(source, target)
}

/// Whether lists that are kept by offsets can be cast: items that may be null do not become items
/// that may not, where that would be found out too late.
pub open spec fn items_fit(source: TypeTree, target: TypeTree, a: FieldTree, b: FieldTree) -> bool {
    ||| b.nullable
    ||| !a.nullable
    ||| !(source is List && target is List || source is LargeList && target is LargeList)
    ||| !through_structs(a.data_type, b.data_type)
}

/// Whether values of a type can be cast to another, or are found not to be, without a panic. Parts
/// are cast to the parts that they go to, and lists may be written as text. `checked` says whether
/// what may be null was compared before.
pub open spec fn safe_cast(source: TypeTree, target: TypeTree, checked: bool) -> bool
    decreases source, target,
{
    source == target || match (source, target) {
        (TypeTree::Union(_), _) => false,
        (TypeTree::Runs(_), _) => false,
        (_, TypeTree::Union(_)) => false,
        (_, TypeTree::Runs(_)) => false,
        (TypeTree::Dictionary(_, a), TypeTree::Dictionary(_, b)) => safe_cast(*a, *b, checked),
        (TypeTree::Dictionary(_, a), _) => safe_cast(*a, target, checked),
        (_, TypeTree::Dictionary(_, b)) => safe_cast(source, *b, checked),
        (TypeTree::Struct(a), TypeTree::Struct(b)) => forall|i: int, j: int|
            #![trigger a[i], b[j]]
            0 <= i < a.len() && 0 <= j < b.len() && (i == j || a[i].name == b[j].name)
                ==> safe_cast(a[i].data_type, b[j].data_type, true),
        (TypeTree::MapOf(a, _), TypeTree::MapOf(b, _)) => safe_cast(
            a.data_type,
            b.data_type,
            true,
        ),
        _ => match (list_item(source), list_item(target)) {
            (Some(a), Some(b)) => counted(source) && (checked || items_fit(source, target, a, b))
                && safe_cast(a.data_type, b.data_type, checked),
            (Some(a), None) => (text_type(target) ==> written(a.data_type)) && safe_cast(
                a.data_type,
                target,
                checked,
            ),
            (None, Some(b)) => safe_cast(source, b.data_type, checked),
            (None, None) => has_parts(source) || has_parts(target) || leaf_cast(source, target),
        },
    }
}

/// A type is larger than the types that it is made of.
proof fn lemma_parts_smaller(data_type: TypeTree)
    ensures
        list_item(data_type) matches Some(item) ==> decreases_to!(data_type => item.data_type),
        data_type matches TypeTree::MapOf(entries, _) ==> decreases_to!(
            data_type => entries.data_type
        ),
        data_type matches TypeTree::Dictionary(_, value) ==> decreases_to!(data_type => *value),
{
    match data_type {
        TypeTree::List(item) => {
            assert(decreases_to!(data_type => *item));
            assert(decreases_to!(*item => item.data_type));
        },
        TypeTree::LargeList(item) => {
            assert(decreases_to!(data_type => *item));
            assert(decreases_to!(*item => item.data_type));
        },
        TypeTree::ListView(item) => {
            assert(decreases_to!(data_type => *item));
            assert(decreases_to!(*item => item.data_type));
        },
        TypeTree::LargeListView(item) => {
            assert(decreases_to!(data_type => *item));
            assert(decreases_to!(*item => item.data_type));
        },
        TypeTree::FixedSizeList(item, _) => {
            assert(decreases_to!(data_type => *item));
            assert(decreases_to!(*item => item.data_type));
        },
        TypeTree::MapOf(entries, _) => {
            assert(decreases_to!(data_type => *entries));
            assert(decreases_to!(*entries => entries.data_type));
        },
        TypeTree::Dictionary(_, value) => {
            assert(decreases_to!(data_type => *value));
        },
        _ => {},
    }
}

/// The list that a type is, with the field of its items.
pub(crate) enum AnyList {
    Small(ArrowField),
    Large(ArrowField),
    Other(ArrowField),
}

pub(crate) fn any_list(data_type: &ArrowType) -> (r: Option<AnyList>)
    ensures
        match r {
            Some(AnyList::Small(item)) => type_of(*data_type) is List && list_item(
                type_of(*data_type),
            ) == Some(field_of(item)),
            Some(AnyList::Large(item)) => type_of(*data_type) is LargeList && list_item(
                type_of(*data_type),
            ) == Some(field_of(item)),
            Some(AnyList::Other(item)) => !(type_of(*data_type) is List) && !(type_of(
                *data_type,
            ) is LargeList) && list_item(type_of(*data_type)) == Some(field_of(item)),
            None => list_item(type_of(*data_type)) is None,
        },
{
    match open_list(data_type) {
        Some(ListType::Small(item)) => Some(AnyList::Small(item)),
        Some(ListType::Large(item)) => Some(AnyList::Large(item)),
        Some(ListType::View(item)) => Some(AnyList::Other(item)),
        Some(ListType::LargeView(item)) => Some(AnyList::Other(item)),
        None => match open_type(data_type) {
            TypeParts::Sized(item, _) => Some(AnyList::Other(item)),
            _ => None,
        },
    }
}

/// Whether a type that is a structure has fields, and so have the structures that are its fields.
fn is_filled(data_type: &ArrowType) -> (r: bool)
    ensures
        r == filled(type_of(*data_type)),
    decreases type_of(*data_type),
{
    let ghost tree = type_of(*data_type);
    match open_type(data_type) {
        TypeParts::Struct(fields) => {
            let ghost all = field_trees(fields@);
            let mut i: usize = 0;
            while i < fields.len()
                invariant
                    i <= fields.len(),
                    all == field_trees(fields@),
                    tree == type_of(*data_type),
                    tree == TypeTree::Struct(all),
                    forall|j: int| 0 <= j < i ==> filled((#[trigger] all[j]).data_type),
                decreases fields.len() - i,
            {
                assert(decreases_to!(tree => tree->Struct_0));
                assert(decreases_to!(all => all[i as int]));
                assert(decreases_to!(all[i as int] => all[i as int].data_type));
                assert(all[i as int] == field_of(fields@[i as int]));
                if !is_filled(&field_data_type(&fields[i])) {
                    return false;
                }
                i = i + 1;
            }
            assert(all.len() == fields@.len());
            fields.len() > 0
        },
        _ => true,
    }
}

/// Whether lists of a fixed size have items, and these have fields where they are structures.
fn is_counted(data_type: &ArrowType) -> (r: bool)
    ensures
        r == counted(type_of(*data_type)),
{
    match open_type(data_type) {
        TypeParts::Sized(item, size) => size > 0 && is_filled(&field_data_type(&item)),
        _ => true,
    }
}

fn is_coarse(unit: TimeUnit) -> (r: bool)
    ensures
        r == coarse(unit),
{
    unit == TimeUnit::Second || unit == TimeUnit::Millisecond
}

fn is_dictionary(data_type: &ArrowType) -> (r: bool)
    ensures
        r == (type_of(*data_type) is Dictionary),
{
    match open_type(data_type) {
        TypeParts::Dictionary(_, _) => true,
        _ => false,
    }
}

/// Whether columns can have a type, and columns without values can be made of it.
pub fn is_valid_type(data_type: &ArrowType) -> (r: bool)
    ensures
        r == valid_type(type_of(*data_type)),
    decreases type_of(*data_type),
{
    let ghost tree = type_of(*data_type);
    proof {
        lemma_parts_smaller(tree);
    }
    match open_list(data_type) {
        Some(ListType::Small(item)) => {
            return is_valid_type(&field_data_type(&item));
        },
        Some(ListType::Large(item)) => {
            return is_valid_type(&field_data_type(&item));
        },
        Some(ListType::View(item)) => {
            return is_valid_type(&field_data_type(&item));
        },
        Some(ListType::LargeView(item)) => {
            return is_valid_type(&field_data_type(&item));
        },
        None => {},
    }
    match open_type(data_type) {
        TypeParts::Struct(fields) => {
            let ghost all = field_trees(fields@);
            let mut i: usize = 0;
            while i < fields.len()
                invariant
                    i <= fields.len(),
                    all == field_trees(fields@),
                    tree == type_of(*data_type),
                    tree == TypeTree::Struct(all),
                    forall|j: int| 0 <= j < i ==> valid_type((#[trigger] all[j]).data_type),
                decreases fields.len() - i,
            {
                assert(decreases_to!(tree => tree->Struct_0));
                assert(decreases_to!(all => all[i as int]));
                assert(decreases_to!(all[i as int] => all[i as int].data_type));
                assert(all[i as int] == field_of(fields@[i as int]));
                if !is_valid_type(&field_data_type(&fields[i])) {
                    return false;
                }
                i = i + 1;
            }
            true
        },
        TypeParts::Sized(item, _) => is_counted(data_type) && is_valid_type(
            &field_data_type(&item),
        ),
        TypeParts::MapOf(entries, _) => {
            let pair: ArrowType = field_data_type(&entries);
            let two: bool = match open_type(&pair) {
                TypeParts::Struct(fields) => {
                    assert(field_trees(fields@).len() == fields@.len());
                    fields.len() == 2
                },
                _ => false,
            };
            two && is_valid_type(&pair)
        },
        TypeParts::Dictionary(key, value) => is_integer_type(&key) && !is_dictionary(&value)
            && is_valid_type(&value),
        TypeParts::Union => false,
        TypeParts::Runs => false,
        TypeParts::Simple => match special_type(data_type) {
            SpecialType::Bytes(size) => size >= 0,
            SpecialType::Clock(wide) => match unit_in(data_type) {
                Some(unit) => is_coarse(unit) != wide,
                None => false,
            },
            _ => true,
        },
    }
}

fn is_steady(unit: TimeUnit, zone: &str) -> (r: bool)
    ensures
        r == steady(unit, zone@),
{
    unit == TimeUnit::Nanosecond || same_text(zone, "UTC")
}

/// Whether a type is none of times of a zone, or of such as can be told in it.
fn has_steady_zone(data_type: &ArrowType) -> (r: bool)
    ensures
        r == (type_of(*data_type) matches TypeTree::Zoned(unit, zone) ==> steady(unit, zone)),
{
    match (special_type(data_type), unit_in(data_type)) {
        (SpecialType::Point(Some(zone)), Some(unit)) => is_steady(unit, zone.as_str()),
        _ => true,
    }
}

fn is_plain_decimal(data_type: &ArrowType) -> (r: bool)
    ensures
        r == plain_decimal(type_of(*data_type)),
{
    match decimal_in(data_type) {
        Some((_, precision, scale)) => scale as i32 <= precision as i32,
        None => false,
    }
}

fn is_shown(data_type: &ArrowType) -> (r: bool)
    ensures
        r == shown(type_of(*data_type)),
{
    if is_interval_type(data_type) || !has_steady_zone(data_type) {
        return false;
    }
    match special_type(data_type) {
        SpecialType::Span => false,
        _ => match decimal_in(data_type) {
            Some(_) => is_plain_decimal(data_type),
            None => true,
        },
    }
}

/// Whether dates in milliseconds can be cast to a type, or are found not to be.
fn is_date_cast(target: &ArrowType) -> (r: bool)
    ensures
        r == match type_of(*target) {
            TypeTree::Timestamp(unit) => coarse(unit),
            TypeTree::Zoned(unit, zone) => coarse(unit) && zone == "UTC"@,
            _ => true,
        },
{
    match (special_type(target), unit_in(target)) {
        (SpecialType::Point(zone), Some(unit)) => is_coarse(unit) && match zone {
            Some(zone) => same_text(zone.as_str(), "UTC"),
            None => true,
        },
        _ => true,
    }
}

/// Whether values of a type without parts can be cast to another, or are found not to be.
fn is_leaf_cast(source: &ArrowType, target: &ArrowType) -> (r: bool)
    ensures
        r == leaf_cast(type_of(*source), type_of(*target)),
{
    let from: SpecialType = special_type(source);
    match from {
        SpecialType::Null => {
            return true;
        },
        _ => {},
    }
    if is_interval_type(target) || is_interval_type(source) {
        return false;
    }
    match from {
        SpecialType::Day => has_steady_zone(target),
        SpecialType::Date => is_date_cast(target),
        SpecialType::Point(None) => has_steady_zone(target),
        SpecialType::Point(Some(_)) => {
            let told: bool = match special_type(target) {
                SpecialType::Day => true,
                SpecialType::Clock(_) => true,
                _ => is_text_type(target),
            };
            !told || has_steady_zone(source)
        },
        SpecialType::Clock(wide) => {
            let fine: bool = match special_type(target) {
                SpecialType::Clock(wider) => wider && unit_in(target) == Some(TimeUnit::Nanosecond),
                _ => false,
            };
            !(wide && unit_in(source) == Some(TimeUnit::Microsecond) && fine)
        },
        SpecialType::Span => !is_text_type(target),
        _ => match decimal_in(source) {
            Some(_) => decimal_in(target).is_none() && (!is_text_type(target) || is_plain_decimal(
                source,
            )),
            None => true,
        },
    }
}

/// Whether values of a type can be written as text, with all that is within.
fn is_written(data_type: &ArrowType) -> (r: bool)
    ensures
        r == written(type_of(*data_type)),
    decreases type_of(*data_type),
{
    let ghost tree = type_of(*data_type);
    proof {
        lemma_parts_smaller(tree);
    }
    match any_list(data_type) {
        Some(list) => {
            return is_written(&field_data_type(&list_field(list)));
        },
        None => {},
    }
    match open_type(data_type) {
        TypeParts::Struct(fields) => {
            let ghost all = field_trees(fields@);
            let mut i: usize = 0;
            while i < fields.len()
                invariant
                    i <= fields.len(),
                    all == field_trees(fields@),
                    tree == type_of(*data_type),
                    tree == TypeTree::Struct(all),
                    forall|j: int| 0 <= j < i ==> written((#[trigger] all[j]).data_type),
                decreases fields.len() - i,
            {
                assert(decreases_to!(tree => tree->Struct_0));
                assert(decreases_to!(all => all[i as int]));
                assert(decreases_to!(all[i as int] => all[i as int].data_type));
                assert(all[i as int] == field_of(fields@[i as int]));
                if !is_written(&field_data_type(&fields[i])) {
                    return false;
                }
                i = i + 1;
            }
            true
        },
        TypeParts::MapOf(entries, _) => is_written(&field_data_type(&entries)),
        TypeParts::Dictionary(_, value) => is_written(&value),
        TypeParts::Union => false,
        TypeParts::Runs => false,
        TypeParts::Sized(_, _) => true,
        TypeParts::Simple => is_shown(data_type),
    }
}

/// Whether values of a type can be cast to another, or are found not to be, without a panic.
pub fn is_safe_cast(source: &ArrowType, target: &ArrowType, checked: bool) -> (r: bool)
    ensures
        r == safe_cast(type_of(*source), type_of(*target), checked),
    decreases type_of(*source), type_of(*target),
{
    let ghost s = type_of(*source);
    let ghost t = type_of(*target);
    proof {
        lemma_parts_smaller(s);
        lemma_parts_smaller(t);
    }
    if same_type(source, target) {
        return true;
    }
    let from: TypeParts = open_type(source);
    let to: TypeParts = open_type(target);
    match from {
        TypeParts::Union => {
            return false;
        },
        TypeParts::Runs => {
            return false;
        },
        _ => {},
    }
    match to {
        TypeParts::Union => {
            return false;
        },
        TypeParts::Runs => {
            return false;
        },
        _ => {},
    }
    match (from, to) {
        (TypeParts::Dictionary(_, a), TypeParts::Dictionary(_, b)) => is_safe_cast(&a, &b, checked),
        (TypeParts::Dictionary(_, a), _) => is_safe_cast(&a, target, checked),
        (_, TypeParts::Dictionary(_, b)) => is_safe_cast(source, &b, checked),
        (TypeParts::Struct(a), TypeParts::Struct(b)) => {
            let ghost x = field_trees(a@);
            let ghost y = field_trees(b@);
            let mut i: usize = 0;
            while i < a.len()
                invariant
                    i <= a.len(),
                    x == field_trees(a@),
                    y == field_trees(b@),
                    s == type_of(*source),
                    t == type_of(*target),
                    s == TypeTree::Struct(x),
                    t == TypeTree::Struct(y),
                    s != t,
                    forall|k: int, j: int|
                        #![trigger x[k], y[j]]
                        0 <= k < i && 0 <= j < y.len() && (k == j || x[k].name == y[j].name)
                            ==> safe_cast(x[k].data_type, y[j].data_type, true),
                decreases a.len() - i,
            {
                assert(decreases_to!(s => s->Struct_0));
                assert(decreases_to!(x => x[i as int]));
                assert(decreases_to!(x[i as int] => x[i as int].data_type));
                assert(x[i as int] == field_of(a@[i as int]));
                let name: String = field_name(&a[i]);
                let part: ArrowType = field_data_type(&a[i]);
                let mut j: usize = 0;
                while j < b.len()
                    invariant
                        i < a.len(),
                        j <= b.len(),
                        x == field_trees(a@),
                        y == field_trees(b@),
                        s == type_of(*source),
                        t == type_of(*target),
                        s == TypeTree::Struct(x),
                        t == TypeTree::Struct(y),
                        s != t,
                        name@ == x[i as int].name,
                        type_of(part) == x[i as int].data_type,
                        decreases_to!(s => x[i as int].data_type),
                        forall|k: int|
                            #![trigger y[k]]
                            0 <= k < j && (i == k || x[i as int].name == y[k].name) ==> safe_cast(
                                x[i as int].data_type,
                                y[k].data_type,
                                true,
                            ),
                    decreases b.len() - j,
                {
                    assert(y[j as int] == field_of(b@[j as int]));
                    if i == j || same_text(name.as_str(), field_name(&b[j]).as_str()) {
                        if !is_safe_cast(&part, &field_data_type(&b[j]), true) {
                            assert(!safe_cast(x[i as int].data_type, y[j as int].data_type, true));
                            return false;
                        }
                    }
                    j = j + 1;
                }
                i = i + 1;
            }
            true
        },
        (TypeParts::MapOf(a, _), TypeParts::MapOf(b, _)) => is_safe_cast(
            &field_data_type(&a),
            &field_data_type(&b),
            true,
        ),
        (from, to) => match (any_list(source), any_list(target)) {
            (Some(a), Some(b)) => {
                let same: bool = match (&a, &b) {
                    (AnyList::Small(_), AnyList::Small(_)) => true,
                    (AnyList::Large(_), AnyList::Large(_)) => true,
                    _ => false,
                };
                let a: ArrowField = list_field(a);
                let b: ArrowField = list_field(b);
                let from: ArrowType = field_data_type(&a);
                let to: ArrowType = field_data_type(&b);
                let fit: bool = checked || field_nullable(&b) || !field_nullable(&a) || !same
                    || !goes_through_structs(&from, &to);
                is_counted(source) && fit && is_safe_cast(&from, &to, checked)
            },
            (Some(a), None) => {
                let item: ArrowType = field_data_type(&list_field(a));
                (!is_text_type(target) || is_written(&item)) && is_safe_cast(&item, target, checked)
            },
            (None, Some(b)) => is_safe_cast(source, &field_data_type(&list_field(b)), checked),
            (None, None) => {
                let simple: bool = match (from, to) {
                    (TypeParts::Simple, TypeParts::Simple) => true,
                    _ => false,
                };
                !simple || is_leaf_cast(source, target)
            },
        },
    }
}

pub(crate) fn list_field(list: AnyList) -> (r: ArrowField)
    ensures
        match list {
            AnyList::Small(item) => r == item,
            AnyList::Large(item) => r == item,
            AnyList::Other(item) => r == item,
        },
{
    match list {
        AnyList::Small(item) => item,
        AnyList::Large(item) => item,
        AnyList::Other(item) => item,
    }
}

/// The bits, the precision and the scale of a decimal, or of the decimals of a dictionary.
pub open spec fn decimal_within(data_type: TypeTree) -> Option<(u16, u8, i8)> {
    match data_type {
        TypeTree::Dictionary(_, value) => decimal_of(*value),
        _ => decimal_of(data_type),
    }
}

/// How many digits decimals of so many bits have room for.
pub open spec fn most_digits(bits: u16) -> int {
    if bits == 32 {
        9
    } else if bits == 64 {
        18
    } else if bits == 128 {
        38
    } else {
        76
    }
}

/// Whether decimals can be cast to decimals of another precision and scale: no precision is beyond
/// what there is room for, and the scales are not so far apart that their difference overflows.
pub open spec fn decimals_fit(source: TypeTree, target: TypeTree) -> bool {
    match (decimal_within(source), decimal_within(target)) {
        (Some((a, p, s)), Some((b, q, t))) => {
            &&& p <= most_digits(a)
            &&& q <= most_digits(b)
            &&& -127 <= t - s <= 127
            &&& p + (t - s) <= 127
        },
        _ => false,
    }
}

/// Whether a value of the type `source` by itself can be cast to `target`, or is found not to be.
/// To unions there are no casts.
pub open spec fn value_cast(source: TypeTree, target: TypeTree) -> bool {
    ||| valid_type(target) && (safe_cast(source, target, false) || decimals_fit(source, target))
    ||| target is Union && source != TypeTree::Null && !(source is Union) && !(source is Runs)
}

fn decimal_parts(data_type: &ArrowType) -> (r: Option<(u16, u8, i8)>)
    ensures
        r == decimal_within(type_of(*data_type)),
{
    match open_type(data_type) {
        TypeParts::Dictionary(_, value) => decimal_in(&value),
        _ => decimal_in(data_type),
    }
}

fn digits_of(bits: u16) -> (r: u8)
    ensures
        r == most_digits(bits),
{
    if bits == 32 {
        9
    } else if bits == 64 {
        18
    } else if bits == 128 {
        38
    } else {
        76
    }
}

/// Whether a value of the type `source` by itself can be cast to `target`, or is found not to be.
pub fn is_value_cast(source: &ArrowType, target: &ArrowType) -> (r: bool)
    ensures
        r == value_cast(type_of(*source), type_of(*target)),
{
    match open_type(target) {
        TypeParts::Union => {
            let null: bool = match special_type(source) {
                SpecialType::Null => true,
                _ => false,
            };
            return !null && match open_type(source) {
                TypeParts::Union => false,
                TypeParts::Runs => false,
                _ => true,
            };
        },
        _ => {},
    }
    if !is_valid_type(target) {
        return false;
    }
    if is_safe_cast(source, target, false) {
        return true;
    }
    match (decimal_parts(source), decimal_parts(target)) {
        (Some((a, p, s)), Some((b, q, t))) => {
            let apart: i32 = t as i32 - s as i32;
            let reach: i32 = p as i32 + apart;
            p <= digits_of(a) && q <= digits_of(b) && -127 <= apart && apart <= 127 && reach <= 127
        },
        _ => false,
    }
}

/// The type of a value that was cast to a type and is not null: the items of a list have no
/// metadata then.
pub open spec fn cast_type(data_type: TypeTree) -> TypeTree
    decreases data_type,
{
    match data_type {
        TypeTree::List(item) => TypeTree::List(Box::new(bare_item(*item))),
        TypeTree::LargeList(item) => TypeTree::LargeList(Box::new(bare_item(*item))),
        TypeTree::ListView(item) => TypeTree::ListView(Box::new(bare_item(*item))),
        TypeTree::LargeListView(item) => TypeTree::LargeListView(Box::new(bare_item(*item))),
        TypeTree::FixedSizeList(item, size) => TypeTree::FixedSizeList(
            Box::new(bare_item(*item)),
            size,
        ),
        TypeTree::Dictionary(key, value) => TypeTree::Dictionary(
            key,
            Box::new(cast_type(*value)),
        ),
        _ => data_type,
    }
}

/// A field without its metadata.
pub open spec fn bare_item(item: FieldTree) -> FieldTree {
    FieldTree { metadata: Metadata::empty(), ..item }
}

/// Whether a value that was cast to a type is the same after it is cast to that type again: it is
/// of the type, or but for the metadata of the items of a list, which are no structures.
pub open spec fn settling(data_type: TypeTree) -> bool {
    cast_type(data_type) == data_type || !through_structs(cast_type(data_type), data_type)
}

/// A value that was cast to a type can be cast to it again.
pub proof fn lemma_cast_again(target: TypeTree)
    requires
        valid_type(target),
    ensures
        safe_cast(cast_type(target), target, false),
    decreases target,
{
    match target {
        TypeTree::Dictionary(_, value) => {
            lemma_cast_again(*value);
        },
        TypeTree::List(item) => {
            assert(safe_cast(item.data_type, item.data_type, false));
        },
        TypeTree::LargeList(item) => {
            assert(safe_cast(item.data_type, item.data_type, false));
        },
        TypeTree::ListView(item) => {
            assert(safe_cast(item.data_type, item.data_type, false));
        },
        TypeTree::LargeListView(item) => {
            assert(safe_cast(item.data_type, item.data_type, false));
        },
        TypeTree::FixedSizeList(item, _) => {
            assert(safe_cast(item.data_type, item.data_type, false));
        },
        _ => {},
    }
}

/// Whether a type is one of truth values, numbers, texts, bytes, dates in days or times without a
/// zone.
pub open spec fn everyday_type(data_type: TypeTree) -> bool {
    match data_type {
        TypeTree::Boolean => true,
        TypeTree::Int8 => true,
        TypeTree::Int16 => true,
        TypeTree::Int32 => true,
        TypeTree::Int64 => true,
        TypeTree::UInt8 => true,
        TypeTree::UInt16 => true,
        TypeTree::UInt32 => true,
        TypeTree::UInt64 => true,
        TypeTree::Float16 => true,
        TypeTree::Float32 => true,
        TypeTree::Float64 => true,
        TypeTree::Binary => true,
        TypeTree::LargeBinary => true,
        TypeTree::BinaryView => true,
        TypeTree::Utf8 => true,
        TypeTree::LargeUtf8 => true,
        TypeTree::Utf8View => true,
        TypeTree::Date32 => true,
        TypeTree::Timestamp(_) => true,
        _ => false,
    }
}

/// Values of everyday types are cast to each other, by themselves and within dictionaries with
/// whole numbers for keys, and null to each such type.
pub proof fn law_everyday_values_are_cast(source: TypeTree, target: TypeTree, key: TypeTree)
    requires
        everyday_type(source),
        everyday_type(target),
    ensures
        value_cast(source, target),
        value_cast(TypeTree::Null, target),
        value_cast(TypeTree::Dictionary(Box::new(key), Box::new(source)), target),
        integer_type(key) ==> value_cast(
            source,
            TypeTree::Dictionary(Box::new(key), Box::new(target)),
        ),
{
    lemma_everyday_cast(source, target);
    lemma_null_cast(target);
    let kept = TypeTree::Dictionary(Box::new(key), Box::new(source));
    let goal = TypeTree::Dictionary(Box::new(key), Box::new(target));
    assert(safe_cast(kept, target, false)) by {
        assert(safe_cast(source, target, false));
    }
    assert(safe_cast(source, goal, false)) by {
        assert(safe_cast(source, target, false));
    }
    if integer_type(key) {
        assert(valid_type(goal)) by {
            assert(valid_type(target));
        }
    }
}

proof fn lemma_everyday_cast(source: TypeTree, target: TypeTree)
    requires
        everyday_type(source),
        everyday_type(target),
    ensures
        valid_type(target),
        safe_cast(source, target, false),
{
    assert(list_item(source) is None && list_item(target) is None);
    assert(decimal_of(source) is None);
    assert(leaf_cast(source, target));
}

proof fn lemma_null_cast(target: TypeTree)
    requires
        everyday_type(target),
    ensures
        value_cast(TypeTree::Null, target),
{
    assert(list_item(target) is None);
    assert(leaf_cast(TypeTree::Null, target));
    assert(safe_cast(TypeTree::Null, target, false));
}

/// A value is cast to its own type wherever columns can have that, and decimals of 128 bits are
/// cast to those of the same scale.
pub proof fn law_values_are_cast_to_their_own_type(target: TypeTree, p: u8, q: u8, s: i8)
    ensures
        valid_type(target) ==> value_cast(target, target),
        p <= 38 && q <= 38 ==> value_cast(TypeTree::Decimal128(p, s), TypeTree::Decimal128(q, s)),
{
    assert(safe_cast(target, target, false));
    let goal = TypeTree::Decimal128(q, s);
    assert(valid_type(goal));
    if p <= 38 && q <= 38 {
        assert(decimals_fit(TypeTree::Decimal128(p, s), goal));
    }
}

/// Nothing is cast to runs or from them, nor from a union to another type; and no value is cast to
/// a type that columns cannot have, but for unions, where the cast is only found not to be.
pub proof fn law_runs_and_unions_are_not_cast(source: TypeTree, target: TypeTree)
    ensures
        target is Runs ==> !value_cast(source, target),
        source is Runs && source != target && !(target is Union) ==> !value_cast(source, target),
        source is Union && source != target ==> !value_cast(source, target),
        !valid_type(target) && !(target is Union) ==> !value_cast(source, target),
{
    reveal_with_fuel(valid_type, 2);
    reveal_with_fuel(safe_cast, 2);
}

} // verus!
