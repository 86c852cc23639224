//! Single values, as bounds of columns and as values of partitions.

use vstd::prelude::*;

use arrow::array::Array;
use arrow::datatypes::{
    DataType as ArrowType, Decimal128Type, Decimal256Type, Decimal32Type, Decimal64Type,
    DecimalType,
};
use datafusion::common::DataFusionError;
use datafusion::common::ScalarValue;

use crate::arrow_schema::{is_integer_type, open_type, same_type, type_of, TypeParts};
use crate::batch::CellTree;
use crate::delta::casts::{
    cast_type, is_value_cast, lemma_cast_again, settling, valid_type, value_cast,
};
use crate::delta::orders::{is_ordered_type, ordered_type};
use crate::map::Duplicate;
use crate::schema::{integer_type, TypeTree};

verus! {

/// How a value is kept: by itself, as an array of so many rows, as bytes that should be a fixed
/// number, as a decimal that has or has not more digits than it should, or as another value within
/// a dictionary, a union or a run.
pub enum ShapeTree {
    Plain,
    Rows(nat),
    Bytes(i32, Option<nat>),
    Decimal(bool),
    Inner(Box<ScalarTree>),
}

/// A value with its type. `null` says whether there is none, which may hide something in a
/// structure or a list.
pub struct ScalarTree {
    pub data_type: TypeTree,
    pub value: CellTree,
    pub null: bool,
    pub shape: ShapeTree,
}

/// Whether a value is one: where it is kept as an array, that has one row.
pub open spec fn whole(tree: ScalarTree) -> bool
    decreases tree,
{
    match tree.shape {
        ShapeTree::Rows(n) => n == 1,
        ShapeTree::Inner(inner) => whole(*inner),
        _ => true,
    }
}

/// Whether a value can be compared with others of its type.
pub open spec fn ordered(tree: ScalarTree) -> bool
    decreases tree,
{
    match tree.shape {
        ShapeTree::Rows(_) => ordered_type(tree.data_type),
        ShapeTree::Inner(inner) => ordered(*inner),
        _ => true,
    }
}

/// Whether a value is one, and can be compared with others of its type.
pub open spec fn single(tree: ScalarTree) -> bool {
    whole(tree) && ordered(tree)
}

/// Whether a value is what its type says: bytes of a fixed number are that many, a decimal has no
/// more digits than it should, and the keys of a dictionary are whole numbers.
pub open spec fn sound(tree: ScalarTree) -> bool
    decreases tree,
{
    match tree.shape {
        ShapeTree::Bytes(size, len) => size >= 0 && match len {
            Some(n) => n == size,
            None => true,
        },
        ShapeTree::Decimal(fits) => fits,
        ShapeTree::Inner(inner) => sound(*inner) && match tree.data_type {
            TypeTree::Dictionary(key, _) => integer_type(*key),
            _ => true,
        },
        _ => true,
    }
}

/// Whether a value can be cast to a type: it is of that type already, or it is what its own type
/// says and values of that can be cast.
pub open spec fn castable(tree: ScalarTree, target: TypeTree) -> bool {
    tree.data_type == target || (sound(tree) && value_cast(tree.data_type, target))
}

/// A value is larger than the one that is kept within.
proof fn lemma_inner_smaller(tree: ScalarTree)
    ensures
        tree.shape matches ShapeTree::Inner(inner) ==> decreases_to!(tree => *inner),
{
    assert(decreases_to!(tree => tree.shape));
    match tree.shape {
        ShapeTree::Inner(inner) => {
            assert(decreases_to!(tree.shape => *inner));
        },
        _ => {},
    }
}

/// A text.
pub open spec fn text_value(text: Seq<char>) -> ScalarTree {
    ScalarTree {
        data_type: TypeTree::Utf8,
        value: CellTree::Text(text),
        null: false,
        shape: ShapeTree::Plain,
    }
}

/// A number of 64 bits, or none.
pub open spec fn number_value(n: Option<i64>) -> ScalarTree {
    ScalarTree {
        data_type: TypeTree::Int64,
        value: match n {
            Some(n) => CellTree::Integer(n as int),
            None => CellTree::Null,
        },
        null: n is None,
        shape: ShapeTree::Plain,
    }
}

/// The type of values of the type `data_type` that are kept once.
pub open spec fn dictionary_type(data_type: TypeTree) -> TypeTree {
    TypeTree::Dictionary(Box::new(TypeTree::UInt16), Box::new(data_type))
}

/// A value as one of a dictionary.
pub open spec fn in_dictionary(tree: ScalarTree) -> ScalarTree {
    ScalarTree {
        data_type: dictionary_type(tree.data_type),
        value: tree.value,
        null: tree.null,
        shape: ShapeTree::Inner(Box::new(tree)),
    }
}

/// A value of DataFusion.
#[verifier::external_type_specification]
#[verifier::external_body]
pub struct ExScalarValue(datafusion::common::ScalarValue);

/// An error of DataFusion.
#[verifier::external_type_specification]
#[verifier::external_body]
pub struct ExDataFusionError(datafusion::common::DataFusionError);

/// What a value of DataFusion holds.
pub uninterp spec fn scalar_of(value: ScalarValue) -> ScalarTree;

/// What a value becomes when it is cast to a type, where it can be.
pub uninterp spec fn scalar_cast(value: ScalarTree, target: TypeTree) -> Option<ScalarTree>;

/// How two values are ordered, where they are: -1 where the first is less, 1 where it is greater,
/// else 0.
pub uninterp spec fn scalar_order(a: ScalarTree, b: ScalarTree) -> Option<i8>;

/// A single value.
#[derive(Debug, PartialEq)]
pub struct Scalar {
    value: ScalarValue,
}

impl Scalar {
    #[verifier::type_invariant]
    spec fn is_one(self) -> bool {
        single(scalar_of(self.value))
    }
}

impl View for Scalar {
    type V = ScalarTree;

    closed spec fn view(&self) -> ScalarTree {
        scalar_of(self.value)
    }
}

/// The rows of a value that is kept as an array.
pub open spec fn rows_of(tree: ScalarTree) -> Option<nat> {
    match tree.shape {
        ShapeTree::Rows(n) => Some(n),
        _ => None,
    }
}

/// Tells variants of `ScalarValue` apart, and calls `len` of the array in those that have one:
/// lists, structures and maps. Claimed: how many rows the value has that is kept as an array.
#[verifier::external_body]
fn scalar_rows(value: &ScalarValue) -> (r: Option<usize>)
    ensures
        match r {
            Some(n) => rows_of(scalar_of(*value)) == Some(n as nat),
            None => rows_of(scalar_of(*value)) is None,
        },
{
    match value {
        ScalarValue::List(rows) => Some(rows.len()),
        ScalarValue::LargeList(rows) => Some(rows.len()),
        ScalarValue::FixedSizeList(rows) => Some(rows.len()),
        ScalarValue::ListView(rows) => Some(rows.len()),
        ScalarValue::LargeListView(rows) => Some(rows.len()),
        ScalarValue::Struct(rows) => Some(rows.len()),
        ScalarValue::Map(rows) => Some(rows.len()),
        _ => None,
    }
}

/// How a value that is not kept as an array is kept.
enum ScalarShape {
    Plain,
    Bytes(i32, Option<usize>),
    Inner(ScalarValue),
}

/// Tells variants of `ScalarValue` apart. Claimed: which value is kept within a dictionary, a union
/// or a run, and how many bytes there are and should be.
#[verifier::external_body]
fn scalar_shape(value: &ScalarValue) -> (r: ScalarShape)
    ensures
        match r {
            ScalarShape::Plain => !(scalar_of(*value).shape is Bytes) && !(scalar_of(
                *value,
            ).shape is Inner),
            ScalarShape::Bytes(size, Some(n)) => scalar_of(*value).shape == ShapeTree::Bytes(
                size,
                Some(n as nat),
            ),
            ScalarShape::Bytes(size, None) => scalar_of(*value).shape == ShapeTree::Bytes(
                size,
                None,
            ),
            ScalarShape::Inner(inner) => scalar_of(*value).shape == ShapeTree::Inner(
                Box::new(scalar_of(inner)),
            ),
        },
{
    match value {
        ScalarValue::FixedSizeBinary(size, bytes) => {
            ScalarShape::Bytes(*size, bytes.as_ref().map(|bytes| bytes.len()))
        },
        ScalarValue::Dictionary(_, inner) => ScalarShape::Inner(*inner.clone()),
        ScalarValue::RunEndEncoded(_, _, inner) => ScalarShape::Inner(*inner.clone()),
        ScalarValue::Union(Some((_, inner)), _, _) => ScalarShape::Inner(*inner.clone()),
        _ => ScalarShape::Plain,
    }
}

/// Calls `is_valid_decimal_precision` of the type of a decimal. Claimed: whether a decimal has no
/// more digits than it should; all other values are no such decimals.
#[verifier::external_body]
fn decimal_fits(value: &ScalarValue) -> (r: bool)
    ensures
        r == (scalar_of(*value).shape matches ShapeTree::Decimal(fits) ==> fits),
{
    match value {
        ScalarValue::Decimal32(Some(n), p, _) => Decimal32Type::is_valid_decimal_precision(*n, *p),
        ScalarValue::Decimal64(Some(n), p, _) => Decimal64Type::is_valid_decimal_precision(*n, *p),
        ScalarValue::Decimal128(Some(n), p, _) => Decimal128Type::is_valid_decimal_precision(*n, *p),
        ScalarValue::Decimal256(Some(n), p, _) => Decimal256Type::is_valid_decimal_precision(*n, *p),
        _ => true,
    }
}

/// Calls `ScalarValue::data_type`. Claimed: the type of the value.
#[verifier::external_body]
fn scalar_type(value: &ScalarValue) -> (r: ArrowType)
    ensures
        type_of(r) == scalar_of(*value).data_type,
{
    value.data_type()
}

/// Whether a value is one.
fn is_whole(value: &ScalarValue) -> (r: bool)
    ensures
        r == whole(scalar_of(*value)),
    decreases scalar_of(*value),
{
    proof {
        lemma_inner_smaller(scalar_of(*value));
    }
    match scalar_rows(value) {
        Some(n) => n == 1,
        None => match scalar_shape(value) {
            ScalarShape::Inner(inner) => is_whole(&inner),
            _ => true,
        },
    }
}

/// Whether a value can be compared with others of its type.
fn is_ordered(value: &ScalarValue) -> (r: bool)
    ensures
        r == ordered(scalar_of(*value)),
    decreases scalar_of(*value),
{
    proof {
        lemma_inner_smaller(scalar_of(*value));
    }
    match scalar_rows(value) {
        Some(_) => is_ordered_type(&scalar_type(value)),
        None => match scalar_shape(value) {
            ScalarShape::Inner(inner) => is_ordered(&inner),
            _ => true,
        },
    }
}

/// Whether a value is what its type says.
fn is_sound(value: &ScalarValue) -> (r: bool)
    ensures
        r == sound(scalar_of(*value)),
    decreases scalar_of(*value),
{
    proof {
        lemma_inner_smaller(scalar_of(*value));
    }
    match scalar_shape(value) {
        ScalarShape::Plain => decimal_fits(value),
        ScalarShape::Bytes(size, len) => match len {
            Some(n) => size >= 0 && n == size as usize,
            None => size >= 0,
        },
        ScalarShape::Inner(inner) => is_sound(&inner) && match open_type(&scalar_type(value)) {
            TypeParts::Dictionary(key, _) => is_integer_type(&key),
            _ => true,
        },
    }
}

/// Calls `clone` of `ScalarValue`. Claimed: the copy holds the same.
#[verifier::external_body]
fn clone_scalar(value: &ScalarValue) -> (r: ScalarValue)
    ensures
        scalar_of(r) == scalar_of(*value),
{
    value.clone()
}

/// Calls `ScalarValue::is_null`. Claimed: whether the value is null.
#[verifier::external_body]
fn is_null_scalar(value: &ScalarValue) -> (r: bool)
    ensures
        r == scalar_of(*value).null,
{
    value.is_null()
}

/// Calls `ScalarValue::cast_to`. Claimed: whether the value can be cast, and what it becomes,
/// depends on the value and the type alone. A value that is of the type already is cast and stays
/// as it is. Any other becomes a single value that can be compared and is what its type says; that
/// type is the one it was cast to, but for the metadata of the items of a list. Cast to that type
/// again, the value stays as it is, unless it is not of the type and its items are structures,
/// which are put together anew. Left out are values and types on which the cast panics, where types
/// tell, and with them casts of intervals, of unions, and from and to runs.
#[verifier::external_body]
fn cast_scalar(value: &ScalarValue, target: &ArrowType) -> (r: Result<ScalarValue, DataFusionError>)
    requires
        single(scalar_of(*value)),
        castable(scalar_of(*value), type_of(*target)),
    ensures
        match r {
            Ok(cast) => {
                &&& scalar_cast(scalar_of(*value), type_of(*target)) == Some(scalar_of(cast))
                &&& single(scalar_of(cast))
                &&& scalar_of(cast).data_type == type_of(*target) || settling(type_of(*target))
                    ==> scalar_cast(scalar_of(cast), type_of(*target)) == Some(scalar_of(cast))
                &&& scalar_of(*value).data_type == type_of(*target) ==> scalar_of(cast)
                    == scalar_of(*value)
                &&& scalar_of(*value).data_type != type_of(*target) ==> sound(scalar_of(cast)) && (
                scalar_of(cast).data_type == if scalar_of(cast).null {
                    type_of(*target)
                } else {
                    cast_type(type_of(*target))
                })
            },
            Err(_) => scalar_cast(scalar_of(*value), type_of(*target)) is None && scalar_of(
                *value,
            ).data_type != type_of(*target),
        },
{
    value.cast_to(target)
}

/// Compares what `ScalarValue::data_type` gives for two values. Claimed: whether the types differ.
#[verifier::external_body]
fn scalar_types_differ(a: &ScalarValue, b: &ScalarValue) -> (r: bool)
    ensures
        r == (scalar_of(*a).data_type != scalar_of(*b).data_type),
{
    a.data_type() != b.data_type()
}

/// Calls `partial_cmp` of `ScalarValue`. Claimed: the order depends on the two values alone. It
/// panics on lists that are not one row, on maps of more rows, and on structures, lists and maps
/// over dictionaries of dictionaries or runs.
#[verifier::external_body]
fn order_scalars(a: &ScalarValue, b: &ScalarValue) -> (r: Option<i8>)
    requires
        single(scalar_of(*a)),
        single(scalar_of(*b)),
    ensures
        r == scalar_order(scalar_of(*a), scalar_of(*b)),
{
    match a.partial_cmp(b) {
        Some(std::cmp::Ordering::Less) => Some(-1),
        Some(std::cmp::Ordering::Equal) => Some(0),
        Some(std::cmp::Ordering::Greater) => Some(1),
        None => None,
    }
}

/// Makes a `ScalarValue::Utf8`. Claimed: it has type `Utf8` and holds the text.
#[verifier::external_body]
fn text_scalar(text: String) -> (r: ScalarValue)
    ensures
        scalar_of(r) == text_value(text@),
{
    ScalarValue::Utf8(Some(text))
}

/// Makes a `ScalarValue::Int64`. Claimed: it has type `Int64` and holds the number, or null.
#[verifier::external_body]
fn int64_scalar(n: Option<i64>) -> (r: ScalarValue)
    ensures
        scalar_of(r) == number_value(n),
{
    ScalarValue::Int64(n)
}

/// Calls `wrap_partition_value_in_dict`. Claimed: the value is the same, its type a dictionary of
/// the former with keys of type `UInt16`.
#[verifier::external_body]
fn wrap_value(value: ScalarValue) -> (r: ScalarValue)
    ensures
        scalar_of(r) == in_dictionary(scalar_of(value)),
{
    datafusion::datasource::physical_plan::wrap_partition_value_in_dict(value)
}

/// Calls `wrap_partition_type_in_dict`. Claimed: the type is a dictionary of the former with keys
/// of type `UInt16`.
#[verifier::external_body]
pub(crate) fn wrap_type(data_type: ArrowType) -> (r: ArrowType)
    ensures
        type_of(r) == dictionary_type(type_of(data_type)),
{
    datafusion::datasource::physical_plan::wrap_partition_type_in_dict(data_type)
}

impl Duplicate for Scalar {
    fn duplicate(&self) -> (r: Scalar) {
        proof {
            use_type_invariant(self);
        }
        Scalar { value: clone_scalar(&self.value) }
    }
}

impl Scalar {
    /// The value, where it is one and can be compared with others of its type.
    pub fn new(value: ScalarValue) -> (r: Option<Scalar>)
        ensures
            match r {
                Some(scalar) => single(scalar_of(value)) && scalar@ == scalar_of(value),
                None => !single(scalar_of(value)),
            },
    {
        if is_whole(&value) && is_ordered(&value) {
            Some(Scalar { value })
        } else {
            None
        }
    }

    /// A text.
    pub fn text(text: String) -> (r: Scalar)
        ensures
            r@ == text_value(text@),
    {
        Scalar { value: text_scalar(text) }
    }

    /// A number of 64 bits, or none.
    pub fn int64(n: Option<i64>) -> (r: Scalar)
        ensures
            r@ == number_value(n),
    {
        Scalar { value: int64_scalar(n) }
    }

    /// A text as one of a dictionary.
    pub fn text_in_dictionary(text: String) -> (r: Scalar)
        ensures
            r@ == in_dictionary(text_value(text@)),
    {
        reveal_with_fuel(whole, 2);
        reveal_with_fuel(ordered, 2);
        Scalar { value: wrap_value(text_scalar(text)) }
    }

    /// The value as DataFusion has it.
    pub fn value(&self) -> (r: &ScalarValue)
        ensures
            scalar_of(*r) == self@,
    {
        &self.value
    }

    /// Whether there is no value.
    pub fn is_null(&self) -> (r: bool)
        ensures
            r == self@.null,
    {
        is_null_scalar(&self.value)
    }

    /// Whether the value can be cast to a type.
    pub fn can_cast_to(&self, target: &ArrowType) -> (r: bool)
        ensures
            r == castable(self@, type_of(*target)),
    {
        let source: ArrowType = scalar_type(&self.value);
        same_type(&source, target) || (is_sound(&self.value) && is_value_cast(&source, target))
    }

    /// The value as one of another type, where it can be. A value of that type stays as it is; any
    /// other is of that type then, but for the metadata of the items of a list.
    pub fn cast_to(&self, target: &ArrowType) -> (r: Option<Scalar>)
        requires
            castable(self@, type_of(*target)),
        ensures
            match r {
                Some(cast) => {
                    &&& scalar_cast(self@, type_of(*target)) == Some(cast@)
                    &&& castable(cast@, type_of(*target))
                    &&& cast@.data_type == type_of(*target) || cast@.data_type == cast_type(
                        type_of(*target),
                    )
                    &&& cast@.data_type == type_of(*target) || settling(type_of(*target))
                        ==> scalar_cast(cast@, type_of(*target)) == Some(cast@)
                    &&& self@.data_type == type_of(*target) ==> cast@ == self@
                },
                None => scalar_cast(self@, type_of(*target)) is None && self@.data_type != type_of(
                    *target,
                ),
            },
    {
        proof {
            use_type_invariant(self);
            if valid_type(type_of(*target)) {
                lemma_cast_again(type_of(*target));
            }
        }
        match cast_scalar(&self.value, target) {
            Ok(value) => Some(Scalar { value }),
            Err(_) => None,
        }
    }

    /// Whether the types of two values differ.
    pub fn types_differ(&self, other: &Scalar) -> (r: bool)
        ensures
            r == (self@.data_type != other@.data_type),
    {
        scalar_types_differ(&self.value, &other.value)
    }

    /// Whether the value is greater than another.
    pub fn is_greater(&self, other: &Scalar) -> (r: bool)
        ensures
            r == (scalar_order(self@, other@) == Some(1i8)),
    {
        proof {
            use_type_invariant(self);
            use_type_invariant(other);
        }
        order_scalars(&self.value, &other.value) == Some(1)
    }

    /// Whether the value is greater than another or equal to it.
    pub fn is_at_least(&self, other: &Scalar) -> (r: bool)
        ensures
            r == at_least(self@, other@),
    {
        proof {
            use_type_invariant(self);
            use_type_invariant(other);
        }
        match order_scalars(&self.value, &other.value) {
            Some(order) => order >= 0,
            None => false,
        }
    }
}

/// Whether `a` is greater than `b` or equal to it.
pub open spec fn at_least(a: ScalarTree, b: ScalarTree) -> bool {
    scalar_order(a, b) matches Some(order) && order >= 0
}

/// A value that is kept by itself is one and can be compared, and is what its type says. One that
/// is kept as an array is one where, and only where, that has a single row; one within another is
/// what that is.
pub proof fn law_values_are_one_by_their_rows(tree: ScalarTree)
    ensures
        tree.shape is Plain ==> single(tree) && sound(tree),
        tree.shape is Rows ==> (single(tree) <==> tree.shape->Rows_0 == 1 && ordered_type(
            tree.data_type,
        )),
        tree.shape is Inner ==> (single(tree) <==> single(*tree.shape->Inner_0)),
        tree.shape is Decimal ==> single(tree) && (sound(tree) <==> tree.shape->Decimal_0),
        tree.shape is Bytes ==> single(tree),
{
    lemma_inner_smaller(tree);
}

/// A value can be cast to its own type, and where it is what its type says, to every type that
/// values of it are cast to; and to no other.
pub proof fn law_values_can_be_cast(tree: ScalarTree, target: TypeTree)
    ensures
        castable(tree, tree.data_type),
        sound(tree) && value_cast(tree.data_type, target) ==> castable(tree, target),
        tree.data_type != target && (!sound(tree) || !value_cast(tree.data_type, target))
            ==> !castable(tree, target),
{
}

/// Texts and numbers are values of their types that hold what was given; a number that was not
/// given is null. A value of a dictionary holds the same, under the type of that dictionary.
pub proof fn law_values_hold_what_was_given(text: Seq<char>, n: Option<i64>, tree: ScalarTree)
    ensures
        text_value(text).data_type == TypeTree::Utf8,
        text_value(text).value == CellTree::Text(text),
        !text_value(text).null,
        number_value(n).data_type == TypeTree::Int64,
        n is Some ==> number_value(n).value == CellTree::Integer(n->0 as int) && !number_value(
            n,
        ).null,
        n is None ==> number_value(n).null,
        in_dictionary(tree).data_type == TypeTree::Dictionary(
            Box::new(TypeTree::UInt16),
            Box::new(tree.data_type),
        ),
        in_dictionary(tree).value == tree.value,
        in_dictionary(tree).null == tree.null,
        in_dictionary(tree).shape is Inner && *in_dictionary(tree).shape->Inner_0 == tree,
        single(text_value(text)) && single(number_value(n)) && (single(tree) ==> single(
            in_dictionary(tree),
        )),
{
    lemma_inner_smaller(in_dictionary(tree));
}

/// A value is at least another where their order says that it is greater or equal, and nowhere
/// else.
pub proof fn law_at_least_follows_the_order(a: ScalarTree, b: ScalarTree)
    ensures
        scalar_order(a, b) == Some(1i8) ==> at_least(a, b),
        scalar_order(a, b) == Some(0i8) ==> at_least(a, b),
        scalar_order(a, b) == Some(-1i8) ==> !at_least(a, b),
        scalar_order(a, b) is None ==> !at_least(a, b),
{
}

} // verus!
