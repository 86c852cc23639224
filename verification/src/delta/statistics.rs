//! Statistics of files and tables.

use vstd::prelude::*;

use arrow::datatypes::DataType as ArrowType;
use arrow::datatypes::Field as ArrowField;
use arrow::datatypes::Schema as ArrowSchema;

use crate::arrow_schema::{
    field_data_type, field_name, field_of, field_trees, fields_of, schema_fields,
    type_of,
};
use crate::delta::casts::{cast_type, settling};
use crate::delta::scalar::{at_least, castable, scalar_cast, scalar_order, Scalar, ScalarTree};
use crate::map::{Duplicate, StringMap};
use crate::schema::{FieldTree, TypeTree};
use crate::text::same_text;

verus! {

/// What is known of a value.
#[derive(Debug, PartialEq)]
pub enum Precision<T> {
    /// The value itself.
    Exact(T),
    /// A value near to it.
    Inexact(T),
    /// Nothing.
    Absent,
}

impl<T: View> View for Precision<T> {
    type V = Precision<T::V>;

    open spec fn view(&self) -> Precision<T::V> {
        match self {
            Precision::Exact(value) => Precision::Exact(value@),
            Precision::Inexact(value) => Precision::Inexact(value@),
            Precision::Absent => Precision::Absent,
        }
    }
}

/// The value, where one is known.
pub open spec fn known<T>(p: Precision<T>) -> Option<T> {
    match p {
        Precision::Exact(value) => Some(value),
        Precision::Inexact(value) => Some(value),
        Precision::Absent => None,
    }
}

/// What is known of the value `value` that comes of `a` and `b`: it is exact where both are.
pub open spec fn combined<T>(a: Precision<T>, b: Precision<T>, value: T) -> Precision<T> {
    match (a, b) {
        (Precision::Absent, _) => Precision::Absent,
        (_, Precision::Absent) => Precision::Absent,
        (Precision::Exact(_), Precision::Exact(_)) => Precision::Exact(value),
        _ => Precision::Inexact(value),
    }
}

/// The sum of two numbers, at most the largest there is.
pub open spec fn bounded_sum(a: usize, b: usize) -> usize {
    if a + b > usize::MAX {
        usize::MAX
    } else {
        (a + b) as usize
    }
}

/// What is known of the sum of two numbers. It is no longer exact where it does not fit.
pub open spec fn precise_sum(a: Precision<usize>, b: Precision<usize>) -> Precision<usize> {
    match (known(a), known(b)) {
        (Some(x), Some(y)) => if x + y > usize::MAX {
            Precision::Inexact(usize::MAX)
        } else {
            combined(a, b, (x + y) as usize)
        },
        _ => Precision::Absent,
    }
}

/// What is known of the greater of two values.
pub open spec fn precise_max(a: Precision<ScalarTree>, b: Precision<ScalarTree>) -> Precision<
    ScalarTree,
> {
    match (known(a), known(b)) {
        (Some(x), Some(y)) => combined(
            a,
            b,
            if at_least(x, y) {
                x
            } else {
                y
            },
        ),
        _ => Precision::Absent,
    }
}

/// What is known of the lesser of two values.
pub open spec fn precise_min(a: Precision<ScalarTree>, b: Precision<ScalarTree>) -> Precision<
    ScalarTree,
> {
    match (known(a), known(b)) {
        (Some(x), Some(y)) => combined(
            a,
            b,
            if at_least(x, y) {
                y
            } else {
                x
            },
        ),
        _ => Precision::Absent,
    }
}

/// What is known of a value that is no longer exact.
pub open spec fn inexact<T>(p: Precision<T>) -> Precision<T> {
    match p {
        Precision::Exact(value) => Precision::Inexact(value),
        _ => p,
    }
}

impl<T> Precision<T> {
    /// The value, where one is known.
    pub fn get_value(&self) -> (r: Option<&T>)
        ensures
            match r {
                Some(value) => known(*self) == Some(*value),
                None => known(*self) is None,
            },
    {
        match self {
            Precision::Exact(value) => Some(value),
            Precision::Inexact(value) => Some(value),
            Precision::Absent => None,
        }
    }

    /// The value as one that is no longer exact.
    pub fn to_inexact(self) -> (r: Precision<T>)
        ensures
            r == inexact(self),
    {
        match self {
            Precision::Exact(value) => Precision::Inexact(value),
            other => other,
        }
    }
}

impl Precision<usize> {
    /// The sum of two numbers.
    pub fn plus(&self, other: &Precision<usize>) -> (r: Precision<usize>)
        ensures
            r == precise_sum(*self, *other),
    {
        match (self, other) {
            (Precision::Exact(a), Precision::Exact(b)) => match a.checked_add(*b) {
                Some(sum) => Precision::Exact(sum),
                None => Precision::Inexact(usize::MAX),
            },
            (Precision::Absent, _) => Precision::Absent,
            (_, Precision::Absent) => Precision::Absent,
            (Precision::Exact(a), Precision::Inexact(b)) => Precision::Inexact(
                a.saturating_add(*b),
            ),
            (Precision::Inexact(a), Precision::Exact(b)) => Precision::Inexact(
                a.saturating_add(*b),
            ),
            (Precision::Inexact(a), Precision::Inexact(b)) => Precision::Inexact(
                a.saturating_add(*b),
            ),
        }
    }

    /// A number with the same contents.
    pub fn duplicate(&self) -> (r: Precision<usize>)
        ensures
            r == *self,
    {
        match self {
            Precision::Exact(n) => Precision::Exact(*n),
            Precision::Inexact(n) => Precision::Inexact(*n),
            Precision::Absent => Precision::Absent,
        }
    }
}

/// What is known of a value that comes of two: it is exact where both are.
fn combine(a: &Precision<Scalar>, b: &Precision<Scalar>, value: Scalar) -> (r: Precision<Scalar>)
    ensures
        r@ == combined(a@, b@, value@),
{
    match (a, b) {
        (Precision::Absent, _) => Precision::Absent,
        (_, Precision::Absent) => Precision::Absent,
        (Precision::Exact(_), Precision::Exact(_)) => Precision::Exact(value),
        _ => Precision::Inexact(value),
    }
}

impl Precision<Scalar> {
    /// The greater of two values.
    pub fn max(&self, other: &Precision<Scalar>) -> (r: Precision<Scalar>)
        ensures
            r@ == precise_max(self@, other@),
    {
        match (self.get_value(), other.get_value()) {
            (Some(a), Some(b)) => {
                let value: Scalar = if a.is_at_least(b) {
                    a.duplicate()
                } else {
                    b.duplicate()
                };
                combine(self, other, value)
            },
            _ => Precision::Absent,
        }
    }

    /// The lesser of two values.
    pub fn min(&self, other: &Precision<Scalar>) -> (r: Precision<Scalar>)
        ensures
            r@ == precise_min(self@, other@),
    {
        match (self.get_value(), other.get_value()) {
            (Some(a), Some(b)) => {
                let value: Scalar = if a.is_at_least(b) {
                    b.duplicate()
                } else {
                    a.duplicate()
                };
                combine(self, other, value)
            },
            _ => Precision::Absent,
        }
    }

    /// A value with the same contents.
    pub fn duplicate(&self) -> (r: Precision<Scalar>)
        ensures
            r@ == self@,
    {
        match self {
            Precision::Exact(value) => Precision::Exact(value.duplicate()),
            Precision::Inexact(value) => Precision::Inexact(value.duplicate()),
            Precision::Absent => Precision::Absent,
        }
    }
}

/// What is known of a column.
#[derive(Debug, PartialEq)]
pub struct ColumnStatistics {
    pub null_count: Precision<usize>,
    pub max_value: Precision<Scalar>,
    pub min_value: Precision<Scalar>,
    pub sum_value: Precision<Scalar>,
    pub distinct_count: Precision<usize>,
    pub byte_size: Precision<usize>,
}

/// What a `ColumnStatistics` stands for.
pub struct ColumnStatsTree {
    pub null_count: Precision<usize>,
    pub max_value: Precision<ScalarTree>,
    pub min_value: Precision<ScalarTree>,
    pub sum_value: Precision<ScalarTree>,
    pub distinct_count: Precision<usize>,
    pub byte_size: Precision<usize>,
}

impl View for ColumnStatistics {
    type V = ColumnStatsTree;

    open spec fn view(&self) -> ColumnStatsTree {
        ColumnStatsTree {
            null_count: self.null_count,
            max_value: self.max_value@,
            min_value: self.min_value@,
            sum_value: self.sum_value@,
            distinct_count: self.distinct_count,
            byte_size: self.byte_size,
        }
    }
}

/// A column of which nothing is known.
pub open spec fn unknown_column() -> ColumnStatsTree {
    ColumnStatsTree {
        null_count: Precision::Absent,
        max_value: Precision::Absent,
        min_value: Precision::Absent,
        sum_value: Precision::Absent,
        distinct_count: Precision::Absent,
        byte_size: Precision::Absent,
    }
}

impl ColumnStatistics {
    /// A column of which nothing is known.
    pub fn new_unknown() -> (r: ColumnStatistics)
        ensures
            r@ == unknown_column(),
    {
        ColumnStatistics {
            null_count: Precision::Absent,
            max_value: Precision::Absent,
            min_value: Precision::Absent,
            sum_value: Precision::Absent,
            distinct_count: Precision::Absent,
            byte_size: Precision::Absent,
        }
    }

    /// Statistics with the same contents.
    pub fn duplicate(&self) -> (r: ColumnStatistics)
        ensures
            r@ == self@,
    {
        ColumnStatistics {
            null_count: self.null_count.duplicate(),
            max_value: self.max_value.duplicate(),
            min_value: self.min_value.duplicate(),
            sum_value: self.sum_value.duplicate(),
            distinct_count: self.distinct_count.duplicate(),
            byte_size: self.byte_size.duplicate(),
        }
    }
}

/// What is known of a file or a table.
#[derive(Debug, PartialEq)]
pub struct Statistics {
    pub num_rows: Precision<usize>,
    pub total_byte_size: Precision<usize>,
    pub column_statistics: Vec<ColumnStatistics>,
}

/// What a `Statistics` stands for.
pub struct StatsTree {
    pub num_rows: Precision<usize>,
    pub total_byte_size: Precision<usize>,
    pub columns: Seq<ColumnStatsTree>,
}

/// What a list of statistics of columns stands for.
pub open spec fn column_trees(columns: Seq<ColumnStatistics>) -> Seq<ColumnStatsTree> {
    columns.map_values(|c: ColumnStatistics| c@)
}

impl View for Statistics {
    type V = StatsTree;

    open spec fn view(&self) -> StatsTree {
        StatsTree {
            num_rows: self.num_rows,
            total_byte_size: self.total_byte_size,
            columns: column_trees(self.column_statistics@),
        }
    }
}

/// What a list of statistics stands for.
pub open spec fn stats_trees(list: Seq<Statistics>) -> Seq<StatsTree> {
    list.map_values(|s: Statistics| s@)
}

/// A table with `n` columns of which nothing is known.
pub open spec fn unknown_table(n: nat) -> StatsTree {
    StatsTree {
        num_rows: Precision::Absent,
        total_byte_size: Precision::Absent,
        columns: Seq::new(n, |i: int| unknown_column()),
    }
}

fn unknown_columns(n: usize) -> (r: Vec<ColumnStatistics>)
    ensures
        column_trees(r@) == Seq::new(n as nat, |i: int| unknown_column()),
{
    let mut r: Vec<ColumnStatistics> = Vec::new();
    let mut i: usize = 0;
    while i < n
        invariant
            i <= n,
            r@.len() == i,
            forall|j: int| 0 <= j < i ==> (#[trigger] r@[j])@ == unknown_column(),
        decreases n - i,
    {
        r.push(ColumnStatistics::new_unknown());
        i = i + 1;
    }
    assert(column_trees(r@) =~= Seq::new(n as nat, |i: int| unknown_column()));
    r
}

/// Copies of the statistics of columns.
pub fn duplicate_columns(columns: &Vec<ColumnStatistics>) -> (r: Vec<ColumnStatistics>)
    ensures
        column_trees(r@) == column_trees(columns@),
{
    let mut r: Vec<ColumnStatistics> = Vec::new();
    let mut i: usize = 0;
    while i < columns.len()
        invariant
            i <= columns.len(),
            r@.len() == i,
            forall|j: int| 0 <= j < i ==> (#[trigger] r@[j])@ == columns@[j]@,
        decreases columns.len() - i,
    {
        r.push(columns[i].duplicate());
        i = i + 1;
    }
    assert(column_trees(r@) =~= column_trees(columns@));
    r
}

impl Statistics {
    /// A table with `n` columns of which nothing is known.
    pub fn new_unknown(n: usize) -> (r: Statistics)
        ensures
            r@ == unknown_table(n as nat),
    {
        Statistics {
            num_rows: Precision::Absent,
            total_byte_size: Precision::Absent,
            column_statistics: unknown_columns(n),
        }
    }

    /// Statistics with the same contents.
    pub fn duplicate(&self) -> (r: Statistics)
        ensures
            r@ == self@,
    {
        Statistics {
            num_rows: self.num_rows.duplicate(),
            total_byte_size: self.total_byte_size.duplicate(),
            column_statistics: duplicate_columns(&self.column_statistics),
        }
    }
}

/// Whether two known values are of different types.
pub open spec fn mismatched(a: Precision<ScalarTree>, b: Precision<ScalarTree>) -> bool {
    match (known(a), known(b)) {
        (Some(x), Some(y)) => x.data_type != y.data_type,
        _ => false,
    }
}

/// Whether two known values are of different types.
pub fn bounds_have_mismatched_types(a: &Precision<Scalar>, b: &Precision<Scalar>) -> (r: bool)
    ensures
        r == mismatched(a@, b@),
{
    match (a.get_value(), b.get_value()) {
        (Some(x), Some(y)) => x.types_differ(y),
        _ => false,
    }
}

/// The upper bound of two columns together.
pub open spec fn merged_max(a: Precision<ScalarTree>, b: Precision<ScalarTree>) -> Precision<
    ScalarTree,
> {
    if mismatched(a, b) {
        Precision::Absent
    } else {
        precise_max(a, b)
    }
}

/// The lower bound of two columns together.
pub open spec fn merged_min(a: Precision<ScalarTree>, b: Precision<ScalarTree>) -> Precision<
    ScalarTree,
> {
    if mismatched(a, b) {
        Precision::Absent
    } else {
        precise_min(a, b)
    }
}

/// The upper bound of two columns together.
pub fn merge_max_bounds(a: &Precision<Scalar>, b: &Precision<Scalar>) -> (r: Precision<Scalar>)
    ensures
        r@ == merged_max(a@, b@),
{
    if bounds_have_mismatched_types(a, b) {
        Precision::Absent
    } else {
        a.max(b)
    }
}

/// The lower bound of two columns together.
pub fn merge_min_bounds(a: &Precision<Scalar>, b: &Precision<Scalar>) -> (r: Precision<Scalar>)
    ensures
        r@ == merged_min(a@, b@),
{
    if bounds_have_mismatched_types(a, b) {
        Precision::Absent
    } else {
        a.min(b)
    }
}

/// What is known of two parts of a column together.
pub open spec fn added_column(a: ColumnStatsTree, b: ColumnStatsTree) -> ColumnStatsTree {
    ColumnStatsTree {
        null_count: precise_sum(a.null_count, b.null_count),
        max_value: merged_max(a.max_value, b.max_value),
        min_value: merged_min(a.min_value, b.min_value),
        sum_value: Precision::Absent,
        distinct_count: precise_sum(a.distinct_count, b.distinct_count),
        byte_size: precise_sum(a.byte_size, b.byte_size),
    }
}

/// What is known of two parts of a column together.
pub fn add_column_statistics(a: &ColumnStatistics, b: &ColumnStatistics) -> (r: ColumnStatistics)
    ensures
        r@ == added_column(a@, b@),
{
    ColumnStatistics {
        null_count: a.null_count.plus(&b.null_count),
        max_value: merge_max_bounds(&a.max_value, &b.max_value),
        min_value: merge_min_bounds(&a.min_value, &b.min_value),
        sum_value: Precision::Absent,
        distinct_count: a.distinct_count.plus(&b.distinct_count),
        byte_size: a.byte_size.plus(&b.byte_size),
    }
}

/// The number of rows of files together: known where it is known exactly of each.
pub open spec fn added_rows(files: Seq<StatsTree>) -> Precision<usize>
    decreases files.len(),
{
    if files.len() == 0 {
        Precision::Exact(0)
    } else {
        match (added_rows(files.drop_last()), files.last().num_rows) {
            (Precision::Exact(a), Precision::Exact(b)) => Precision::Exact(bounded_sum(a, b)),
            _ => Precision::Absent,
        }
    }
}

/// What is known of the columns `a` together with the columns `b`, as far as there are both; the
/// rest of `a` stays.
pub open spec fn added_columns(a: Seq<ColumnStatsTree>, b: Seq<ColumnStatsTree>) -> Seq<
    ColumnStatsTree,
> {
    Seq::new(
        a.len(),
        |i: int|
            if i < b.len() {
                added_column(a[i], b[i])
            } else {
                a[i]
            },
    )
}

/// What is known of the columns of files together.
pub open spec fn files_columns(files: Seq<StatsTree>) -> Seq<ColumnStatsTree>
    decreases files.len(),
{
    if files.len() == 0 {
        Seq::empty()
    } else if files.len() == 1 {
        files[0].columns
    } else {
        added_columns(files_columns(files.drop_last()), files.last().columns)
    }
}

/// What is known of a table of these files.
pub open spec fn aggregated(files: Seq<StatsTree>) -> StatsTree {
    StatsTree {
        num_rows: added_rows(files),
        total_byte_size: Precision::Absent,
        columns: files_columns(files),
    }
}

/// What is known of a table of these files.
pub fn aggregate_table_stats_from_files(files: &Vec<Statistics>) -> (r: Statistics)
    ensures
        r@ == aggregated(stats_trees(files@)),
{
    let ghost all = stats_trees(files@);
    let mut num_rows: Precision<usize> = Precision::Exact(0);
    let mut columns: Vec<ColumnStatistics> = Vec::new();
    let mut i: usize = 0;
    assert(all.take(0) =~= Seq::<StatsTree>::empty());
    assert(column_trees(columns@) =~= Seq::<ColumnStatsTree>::empty());
    while i < files.len()
        invariant
            i <= files.len(),
            all == stats_trees(files@),
            num_rows == added_rows(all.take(i as int)),
            column_trees(columns@) == files_columns(all.take(i as int)),
        decreases files.len() - i,
    {
        let file: &Statistics = &files[i];
        assert(all.take(i + 1).drop_last() =~= all.take(i as int));
        assert(all.take(i + 1).last() == file@);
        num_rows = match (num_rows, &file.num_rows) {
            (Precision::Exact(a), Precision::Exact(b)) => Precision::Exact(a.saturating_add(*b)),
            _ => Precision::Absent,
        };
        if i == 0 {
            columns = duplicate_columns(&file.column_statistics);
            assert(all.take(1)[0] == file@);
        } else {
            columns = add_all_columns(&columns, &file.column_statistics);
        }
        i = i + 1;
    }
    assert(all.take(all.len() as int) =~= all);
    Statistics { num_rows, total_byte_size: Precision::Absent, column_statistics: columns }
}

/// What is known of columns together with others, as far as there are both.
fn add_all_columns(a: &Vec<ColumnStatistics>, b: &Vec<ColumnStatistics>) -> (r: Vec<
    ColumnStatistics,
>)
    ensures
        column_trees(r@) == added_columns(column_trees(a@), column_trees(b@)),
{
    let mut r: Vec<ColumnStatistics> = Vec::new();
    let mut i: usize = 0;
    while i < a.len()
        invariant
            i <= a.len(),
            r@.len() == i,
            forall|j: int|
                0 <= j < i ==> (#[trigger] r@[j])@ == if j < b@.len() {
                    added_column(a@[j]@, b@[j]@)
                } else {
                    a@[j]@
                },
        decreases a.len() - i,
    {
        if i < b.len() {
            r.push(add_column_statistics(&a[i], &b[i]));
        } else {
            r.push(a[i].duplicate());
        }
        i = i + 1;
    }
    assert(column_trees(r@) =~= added_columns(column_trees(a@), column_trees(b@)));
    r
}

/// A bound as one of the type `data_type`; nothing where it cannot be cast or is null.
pub open spec fn sane_bound(bound: Precision<ScalarTree>, data_type: TypeTree) -> Precision<
    ScalarTree,
> {
    match known(bound) {
        None => Precision::Absent,
        Some(value) => match scalar_cast(value, data_type) {
            None => Precision::Absent,
            Some(cast) => if cast.null {
                Precision::Absent
            } else if bound is Exact {
                Precision::Exact(cast)
            } else {
                Precision::Inexact(cast)
            },
        },
    }
}

/// Whether a bound can be taken as one of the type `data_type`.
pub open spec fn bound_fits(bound: Precision<ScalarTree>, data_type: TypeTree) -> bool {
    known(bound) matches Some(value) ==> castable(value, data_type)
}

/// Whether a bound is of the type `data_type` and not null, where it is known.
pub open spec fn own_bound(bound: Precision<ScalarTree>, data_type: TypeTree) -> bool {
    known(bound) matches Some(value) ==> value.data_type == data_type && !value.null
}

/// Whether a bound is of the type `data_type`, but for the metadata of the items of a list. One
/// that is of that very type, or of any where values settle, stays as it is when it is taken as one
/// of that type again.
pub open spec fn settled_bound(bound: Precision<ScalarTree>, data_type: TypeTree) -> bool {
    known(bound) matches Some(value) ==> {
        &&& castable(value, data_type)
        &&& value.data_type == data_type || value.data_type == cast_type(data_type)
        &&& value.data_type == data_type || settling(data_type) ==> sane_bound(bound, data_type)
            == bound
    }
}

/// A bound as one of the type `data_type`. It is settled then; one that is of that type already and
/// not null stays.
pub fn sanitize_bound_for_type(bound: &Precision<Scalar>, data_type: &ArrowType) -> (r: Precision<
    Scalar,
>)
    requires
        bound_fits(bound@, type_of(*data_type)),
    ensures
        r@ == sane_bound(bound@, type_of(*data_type)),
        settled_bound(r@, type_of(*data_type)),
        own_bound(bound@, type_of(*data_type)) ==> r@ == bound@,
{
    match bound {
        Precision::Absent => Precision::Absent,
        Precision::Exact(value) => match value.cast_to(data_type) {
            Some(cast) => {
                if cast.is_null() {
                    Precision::Absent
                } else {
                    Precision::Exact(cast)
                }
            },
            None => Precision::Absent,
        },
        Precision::Inexact(value) => match value.cast_to(data_type) {
            Some(cast) => {
                if cast.is_null() {
                    Precision::Absent
                } else {
                    Precision::Inexact(cast)
                }
            },
            None => Precision::Absent,
        },
    }
}

/// Whether bounds can stand: where both are known, they are of one type and the lower is not the
/// greater.
pub open spec fn bounds_stand(min: Precision<ScalarTree>, max: Precision<ScalarTree>) -> bool {
    match (known(min), known(max)) {
        (Some(low), Some(high)) => low.data_type == high.data_type && scalar_order(low, high)
            != Some(1i8),
        _ => true,
    }
}

/// What is known of a column of the type `data_type`: bounds of that type, or none where they
/// cannot stand.
pub open spec fn sane_column(column: ColumnStatsTree, data_type: TypeTree) -> ColumnStatsTree {
    let min = sane_bound(column.min_value, data_type);
    let max = sane_bound(column.max_value, data_type);
    if bounds_stand(min, max) {
        ColumnStatsTree { min_value: min, max_value: max, ..column }
    } else {
        ColumnStatsTree { min_value: Precision::Absent, max_value: Precision::Absent, ..column }
    }
}

/// Whether the bounds of a column can be taken as bounds of the type `data_type`.
pub open spec fn bounds_fit(column: ColumnStatsTree, data_type: TypeTree) -> bool {
    bound_fits(column.min_value, data_type) && bound_fits(column.max_value, data_type)
}

/// Whether the bounds of a column are settled for the type `data_type`. Where values settle, taking
/// them as bounds of that type again changes nothing.
pub open spec fn settled_column(column: ColumnStatsTree, data_type: TypeTree) -> bool {
    &&& settled_bound(column.min_value, data_type)
    &&& settled_bound(column.max_value, data_type)
    &&& bounds_stand(column.min_value, column.max_value)
    &&& settling(data_type) ==> sane_column(column, data_type) == column
}

/// Whether the bounds of a column are of the type `data_type` and not null, where they are known,
/// and can stand.
pub open spec fn own_bounds(column: ColumnStatsTree, data_type: TypeTree) -> bool {
    own_bound(column.min_value, data_type) && own_bound(column.max_value, data_type)
        && bounds_stand(column.min_value, column.max_value)
}

/// Takes the bounds of a column as bounds of the type `data_type`. They are settled then; those
/// that are of that type already, not null and in order stay.
pub fn sanitize_column_statistics_for_field(column: &mut ColumnStatistics, data_type: &ArrowType)
    requires
        bounds_fit(old(column)@, type_of(*data_type)),
    ensures
        final(column)@ == sane_column(old(column)@, type_of(*data_type)),
        settled_column(final(column)@, type_of(*data_type)),
        own_bounds(old(column)@, type_of(*data_type)) ==> final(column)@ == old(column)@,
{
    let min: Precision<Scalar> = sanitize_bound_for_type(&column.min_value, data_type);
    let max: Precision<Scalar> = sanitize_bound_for_type(&column.max_value, data_type);
    let stand = match (min.get_value(), max.get_value()) {
        (Some(low), Some(high)) => !low.types_differ(high) && !low.is_greater(high),
        _ => true,
    };
    if stand {
        column.min_value = min;
        column.max_value = max;
    } else {
        column.min_value = Precision::Absent;
        column.max_value = Precision::Absent;
    }
}

/// What is known of columns with the fields `fields`; columns without a field stay.
pub open spec fn sane_columns(columns: Seq<ColumnStatsTree>, fields: Seq<FieldTree>) -> Seq<
    ColumnStatsTree,
> {
    Seq::new(
        columns.len(),
        |i: int|
            if i < fields.len() {
                sane_column(columns[i], fields[i].data_type)
            } else {
                columns[i]
            },
    )
}

/// Whether the bounds of all columns with a field can be taken as bounds of the field's type.
pub open spec fn all_bounds_fit(columns: Seq<ColumnStatsTree>, fields: Seq<FieldTree>) -> bool {
    forall|i: int|
        0 <= i < columns.len() && i < fields.len() ==> bounds_fit(
            #[trigger] columns[i],
            fields[i].data_type,
        )
}

/// Whether values that are cast to the types of fields are of these types: they are, unless the
/// items of a list have metadata.
pub open spec fn types_kept(fields: Seq<FieldTree>) -> bool {
    forall|i: int|
        #![trigger fields[i]]
        0 <= i < fields.len() ==> cast_type(fields[i].data_type) == fields[i].data_type
}

/// Whether values settle in the types of all fields.
pub open spec fn types_settle(fields: Seq<FieldTree>) -> bool {
    forall|i: int|
        #![trigger fields[i]]
        0 <= i < fields.len() ==> settling(fields[i].data_type)
}

/// Whether the bounds of all columns with a field are settled for the field's type.
pub open spec fn settled_columns(columns: Seq<ColumnStatsTree>, fields: Seq<FieldTree>) -> bool {
    &&& types_settle(fields) ==> sane_columns(columns, fields) == columns
    &&& forall|i: int|
        0 <= i < columns.len() && i < fields.len() ==> settled_column(
            #[trigger] columns[i],
            fields[i].data_type,
        )
}

/// Whether columns whose bounds are of the types of their fields already, not null and in order are
/// the same before and after.
pub open spec fn own_columns_stay(
    before: Seq<ColumnStatsTree>,
    after: Seq<ColumnStatsTree>,
    fields: Seq<FieldTree>,
) -> bool {
    forall|i: int|
        0 <= i < before.len() && i < fields.len() && own_bounds(
            #[trigger] before[i],
            fields[i].data_type,
        ) ==> after[i] == before[i]
}

/// Takes the bounds of columns as bounds of the types of fields.
fn sanitize_columns(columns: &mut Vec<ColumnStatistics>, fields: &Vec<ArrowField>)
    requires
        all_bounds_fit(column_trees(old(columns)@), field_trees(fields@)),
    ensures
        column_trees(final(columns)@) == sane_columns(
            column_trees(old(columns)@),
            field_trees(fields@),
        ),
        settled_columns(column_trees(final(columns)@), field_trees(fields@)),
        own_columns_stay(
            column_trees(old(columns)@),
            column_trees(final(columns)@),
            field_trees(fields@),
        ),
{
    let ghost before = columns@;
    let n: usize = columns.len();
    let mut done: Vec<ColumnStatistics> = Vec::new();
    let mut i: usize = 0;
    while i < n
        invariant
            i <= n,
            n == before.len(),
            columns@ == before,
            all_bounds_fit(column_trees(before), field_trees(fields@)),
            done@.len() == i,
            forall|j: int|
                0 <= j < i ==> (#[trigger] done@[j])@ == if j < fields@.len() {
                    sane_column(before[j]@, field_of(fields@[j]).data_type)
                } else {
                    before[j]@
                },
            forall|j: int|
                0 <= j < i && j < fields@.len() ==> settled_column(
                    (#[trigger] done@[j])@,
                    field_of(fields@[j]).data_type,
                ),
            forall|j: int|
                0 <= j < i && j < fields@.len() && own_bounds(
                    before[j]@,
                    field_of(fields@[j]).data_type,
                ) ==> (#[trigger] done@[j])@ == before[j]@,
        decreases n - i,
    {
        let mut column: ColumnStatistics = columns[i].duplicate();
        if i < fields.len() {
            assert(column_trees(before)[i as int] == column@);
            let data_type: ArrowType = field_data_type(&fields[i]);
            sanitize_column_statistics_for_field(&mut column, &data_type);
        }
        done.push(column);
        i = i + 1;
    }
    *columns = done;
    let ghost after = column_trees(columns@);
    assert forall|j: int|
        0 <= j < before.len() && j < fields@.len() && own_bounds(
            #[trigger] column_trees(before)[j],
            field_trees(fields@)[j].data_type,
        ) implies after[j] == column_trees(before)[j] by {
        assert(after[j] == columns@[j]@);
    }
    assert(after =~= sane_columns(column_trees(before), field_trees(fields@)));
    assert forall|j: int| 0 <= j < after.len() && j < fields@.len() implies settled_column(
        #[trigger] after[j],
        field_trees(fields@)[j].data_type,
    ) by {
        assert(after[j] == columns@[j]@);
    }
    proof {
        if types_settle(field_trees(fields@)) {
            assert forall|j: int| 0 <= j < after.len() && j < fields@.len() implies #[trigger] after[j]
                == sane_columns(after, field_trees(fields@))[j] by {
                assert(settling(field_trees(fields@)[j].data_type));
                assert(settled_column(after[j], field_trees(fields@)[j].data_type));
            }
            assert(sane_columns(after, field_trees(fields@)) =~= after);
        }
    }
}

/// Takes the bounds of all columns as bounds of the types in the schema. They are settled for these
/// types then; those that are of them already, not null and in order stay.
pub fn sanitize_statistics_for_schema(schema: &ArrowSchema, stats: &mut Statistics)
    requires
        all_bounds_fit(old(stats)@.columns, fields_of(*schema)),
    ensures
        settled_columns(final(stats)@.columns, fields_of(*schema)),
        all_bounds_fit(final(stats)@.columns, fields_of(*schema)),
        own_columns_stay(old(stats)@.columns, final(stats)@.columns, fields_of(*schema)),
        final(stats)@ == (StatsTree {
            columns: sane_columns(old(stats)@.columns, fields_of(*schema)),
            ..old(stats)@
        }),
{
    let fields: Vec<ArrowField> = schema_fields(schema);
    let mut columns: Vec<ColumnStatistics> = duplicate_columns(&stats.column_statistics);
    let ghost before = stats@.columns;
    sanitize_columns(&mut columns, &fields);
    stats.column_statistics = columns;
    assert forall|i: int|
        0 <= i < stats@.columns.len() && i < fields_of(*schema).len() implies bounds_fit(
        #[trigger] stats@.columns[i],
        fields_of(*schema)[i].data_type,
    ) by {
        assert(bounds_fit(before[i], fields_of(*schema)[i].data_type));
    }
}

/// The position of the first field with the name `name`, or the number of fields where there is
/// none.
pub open spec fn field_position(fields: Seq<FieldTree>, name: Seq<char>) -> int
    decreases fields.len(),
{
    if fields.len() == 0 {
        0
    } else if field_position(fields.drop_last(), name) < fields.len() - 1 {
        field_position(fields.drop_last(), name)
    } else if fields.last().name == name {
        fields.len() - 1
    } else {
        fields.len() as int
    }
}

/// A field's position is where its name first occurs.
pub proof fn lemma_field_position(fields: Seq<FieldTree>, name: Seq<char>)
    ensures
        0 <= field_position(fields, name) <= fields.len(),
        field_position(fields, name) < fields.len() ==> fields[field_position(fields, name)].name
            == name,
        forall|j: int| 0 <= j < field_position(fields, name) ==> (#[trigger] fields[j]).name != name,
    decreases fields.len(),
{
    if fields.len() > 0 {
        let front = fields.drop_last();
        lemma_field_position(front, name);
        assert forall|j: int| 0 <= j < field_position(fields, name) implies (
        #[trigger] fields[j]).name != name by {
            if j < front.len() {
                assert(front[j] == fields[j]);
            }
        }
    }
}

/// The position of the first field with the name `name`, or the number of fields where there is
/// none.
pub fn find_field(fields: &Vec<ArrowField>, name: &str) -> (r: usize)
    ensures
        r == field_position(field_trees(fields@), name@),
{
    let ghost all = field_trees(fields@);
    let mut i: usize = 0;
    while i < fields.len()
        invariant
            i <= fields.len(),
            all == field_trees(fields@),
            forall|j: int| 0 <= j < i ==> (#[trigger] all[j]).name != name@,
        decreases fields.len() - i,
    {
        let found: String = field_name(&fields[i]);
        assert(all[i as int] == field_of(fields@[i as int]));
        if same_text(found.as_str(), name) {
            proof {
                lemma_field_position(all, name@);
            }
            return i;
        }
        i = i + 1;
    }
    proof {
        lemma_field_position(all, name@);
    }
    i
}

/// Names by other names; nothing where none were given.
pub open spec fn names_of(names: Option<&StringMap<String>>) -> Map<Seq<char>, Seq<char>> {
    match names {
        Some(map) => map@,
        None => Map::empty(),
    }
}

/// The position of the column that the field `name` has its statistics from: that with the name
/// that `names` has for it, else that with its own name; the number of fields where there is
/// neither.
pub open spec fn source_position(
    source: Seq<FieldTree>,
    names: Map<Seq<char>, Seq<char>>,
    name: Seq<char>,
) -> int {
    if names.contains_key(name) && field_position(source, names[name]) < source.len() {
        field_position(source, names[name])
    } else {
        field_position(source, name)
    }
}

/// The column that the field `name` has its statistics from; one of which nothing is known where
/// there is none.
pub open spec fn source_column(
    columns: Seq<ColumnStatsTree>,
    source: Seq<FieldTree>,
    names: Map<Seq<char>, Seq<char>>,
    name: Seq<char>,
) -> ColumnStatsTree {
    let i = source_position(source, names, name);
    if i < source.len() && i < columns.len() {
        columns[i]
    } else {
        unknown_column()
    }
}

/// What is known of the column of the field `field`, out of statistics for the fields `source`.
pub open spec fn mapped_column(
    columns: Seq<ColumnStatsTree>,
    source: Seq<FieldTree>,
    names: Map<Seq<char>, Seq<char>>,
    field: FieldTree,
) -> ColumnStatsTree {
    sane_column(source_column(columns, source, names, field.name), field.data_type)
}

/// Whether the bounds that fields have their own from can be taken as bounds of their types.
pub open spec fn mapping_fits(
    stats: StatsTree,
    source: Seq<FieldTree>,
    target: Seq<FieldTree>,
    names: Map<Seq<char>, Seq<char>>,
) -> bool {
    forall|i: int|
        #![trigger target[i]]
        0 <= i < target.len() ==> bounds_fit(
            source_column(stats.columns, source, names, target[i].name),
            target[i].data_type,
        )
}

/// Statistics for the fields `source` as statistics for the fields `target`.
pub open spec fn mapped(
    stats: StatsTree,
    source: Seq<FieldTree>,
    target: Seq<FieldTree>,
    names: Map<Seq<char>, Seq<char>>,
) -> StatsTree {
    StatsTree {
        num_rows: stats.num_rows,
        total_byte_size: stats.total_byte_size,
        columns: target.map_values(
            |f: FieldTree| mapped_column(stats.columns, source, names, f),
        ),
    }
}

/// The position of the column that the field `name` has its statistics from.
fn find_source(from: &Vec<ArrowField>, names: Option<&StringMap<String>>, name: &str) -> (r: usize)
    ensures
        r == source_position(field_trees(from@), names_of(names), name@),
{
    proof {
        lemma_field_position(field_trees(from@), name@);
    }
    if let Some(map) = names {
        if let Some(other) = map.get(name) {
            let position: usize = find_field(from, other.as_str());
            if position < from.len() {
                return position;
            }
        }
    }
    find_field(from, name)
}

fn is_bound_fit(bound: &Precision<Scalar>, data_type: &ArrowType) -> (r: bool)
    ensures
        r == bound_fits(bound@, type_of(*data_type)),
{
    match bound.get_value() {
        Some(value) => value.can_cast_to(data_type),
        None => true,
    }
}

/// Whether the bounds of a column can be taken as bounds of the type `data_type`.
fn is_column_fit(column: &ColumnStatistics, data_type: &ArrowType) -> (r: bool)
    ensures
        r == bounds_fit(column@, type_of(*data_type)),
{
    is_bound_fit(&column.min_value, data_type) && is_bound_fit(&column.max_value, data_type)
}

/// Whether the bounds of all columns with a field can be taken as bounds of the field's type.
pub fn are_bounds_fit(columns: &Vec<ColumnStatistics>, schema: &ArrowSchema) -> (r: bool)
    ensures
        r == all_bounds_fit(column_trees(columns@), fields_of(*schema)),
{
    let fields: Vec<ArrowField> = schema_fields(schema);
    let ghost all = column_trees(columns@);
    let ghost types = fields_of(*schema);
    let mut i: usize = 0;
    while i < columns.len() && i < fields.len()
        invariant
            i <= columns.len(),
            i <= fields.len(),
            all == column_trees(columns@),
            types == field_trees(fields@),
            types == fields_of(*schema),
            forall|j: int| 0 <= j < i ==> bounds_fit(#[trigger] all[j], types[j].data_type),
        decreases fields.len() - i,
    {
        assert(all[i as int] == columns@[i as int]@);
        assert(types[i as int] == field_of(fields@[i as int]));
        if !is_column_fit(&columns[i], &field_data_type(&fields[i])) {
            assert(!bounds_fit(all[i as int], types[i as int].data_type));
            return false;
        }
        i = i + 1;
    }
    true
}

/// Whether the bounds that fields have their own from can be taken as bounds of their types.
pub fn is_mapping_fit(
    statistics: &Statistics,
    source: &ArrowSchema,
    target: &ArrowSchema,
    target_to_source_names: Option<&StringMap<String>>,
) -> (r: bool)
    ensures
        r == mapping_fits(
            statistics@,
            fields_of(*source),
            fields_of(*target),
            names_of(target_to_source_names),
        ),
{
    let ghost names = names_of(target_to_source_names);
    let ghost stats = statistics@;
    let from: Vec<ArrowField> = schema_fields(source);
    let to: Vec<ArrowField> = schema_fields(target);
    let ghost source_fields = fields_of(*source);
    let ghost target_fields = fields_of(*target);
    let mut i: usize = 0;
    while i < to.len()
        invariant
            i <= to.len(),
            names == names_of(target_to_source_names),
            stats == statistics@,
            source_fields == field_trees(from@),
            target_fields == field_trees(to@),
            source_fields == fields_of(*source),
            target_fields == fields_of(*target),
            forall|j: int|
                #![trigger target_fields[j]]
                0 <= j < i ==> bounds_fit(
                    source_column(stats.columns, source_fields, names, target_fields[j].name),
                    target_fields[j].data_type,
                ),
        decreases to.len() - i,
    {
        assert(target_fields[i as int] == field_of(to@[i as int]));
        let name: String = field_name(&to[i]);
        proof {
            lemma_source_position(source_fields, names, name@);
        }
        let position: usize = find_source(&from, target_to_source_names, name.as_str());
        let fit: bool = if position < from.len() && position < statistics.column_statistics.len() {
            is_column_fit(
                &statistics.column_statistics[position],
                &field_data_type(&to[i]),
            )
        } else {
            true
        };
        assert(fit == bounds_fit(
            source_column(stats.columns, source_fields, names, name@),
            target_fields[i as int].data_type,
        ));
        if !fit {
            return false;
        }
        i = i + 1;
    }
    true
}

proof fn lemma_source_position(
    source: Seq<FieldTree>,
    names: Map<Seq<char>, Seq<char>>,
    name: Seq<char>,
)
    ensures
        0 <= source_position(source, names, name) <= source.len(),
{
    lemma_field_position(source, name);
    if names.contains_key(name) {
        lemma_field_position(source, names[name]);
    }
}

/// Statistics for the schema `source` as statistics for the schema `target`.
pub fn map_statistics_to_schema(
    statistics: &Statistics,
    source: &ArrowSchema,
    target: &ArrowSchema,
) -> (r: Statistics)
    requires
        mapping_fits(statistics@, fields_of(*source), fields_of(*target), Map::empty()),
    ensures
        r@ == mapped(statistics@, fields_of(*source), fields_of(*target), Map::empty()),
        settled_columns(r@.columns, fields_of(*target)),
{
    map_statistics_to_schema_with_name_mapping(statistics, source, target, None)
}

/// Statistics for the schema `source` as statistics for the schema `target`, whose fields may go by
/// other names there.
pub fn map_statistics_to_schema_with_name_mapping(
    statistics: &Statistics,
    source: &ArrowSchema,
    target: &ArrowSchema,
    target_to_source_names: Option<&StringMap<String>>,
) -> (r: Statistics)
    requires
        mapping_fits(
            statistics@,
            fields_of(*source),
            fields_of(*target),
            names_of(target_to_source_names),
        ),
    ensures
        r@ == mapped(
            statistics@,
            fields_of(*source),
            fields_of(*target),
            names_of(target_to_source_names),
        ),
        settled_columns(r@.columns, fields_of(*target)),
{
    let ghost names = names_of(target_to_source_names);
    let ghost stats = statistics@;
    let from: Vec<ArrowField> = schema_fields(source);
    let to: Vec<ArrowField> = schema_fields(target);
    let ghost source_fields = fields_of(*source);
    let ghost target_fields = fields_of(*target);
    let mut columns: Vec<ColumnStatistics> = Vec::new();
    let mut i: usize = 0;
    while i < to.len()
        invariant
            i <= to.len(),
            names == names_of(target_to_source_names),
            stats == statistics@,
            source_fields == field_trees(from@),
            target_fields == field_trees(to@),
            mapping_fits(stats, source_fields, target_fields, names),
            columns@.len() == i,
            forall|j: int|
                0 <= j < i ==> settled_column(
                    (#[trigger] columns@[j])@,
                    target_fields[j].data_type,
                ),
            forall|j: int|
                0 <= j < i ==> (#[trigger] columns@[j])@ == mapped_column(
                    stats.columns,
                    source_fields,
                    names,
                    target_fields[j],
                ),
        decreases to.len() - i,
    {
        assert(target_fields[i as int] == field_of(to@[i as int]));
        let name: String = field_name(&to[i]);
        let position: usize = find_source(&from, target_to_source_names, name.as_str());
        let mut column: ColumnStatistics = if position < from.len() && position
            < statistics.column_statistics.len() {
            statistics.column_statistics[position].duplicate()
        } else {
            ColumnStatistics::new_unknown()
        };
        let data_type: ArrowType = field_data_type(&to[i]);
        assert(column@ == source_column(stats.columns, source_fields, names, name@));
        sanitize_column_statistics_for_field(&mut column, &data_type);
        columns.push(column);
        i = i + 1;
    }
    let ghost wanted = mapped(stats, source_fields, target_fields, names);
    let ghost found = column_trees(columns@);
    assert(found =~= wanted.columns);
    assert forall|j: int| 0 <= j < found.len() && j < target_fields.len() implies settled_column(
        #[trigger] found[j],
        target_fields[j].data_type,
    ) by {
        assert(found[j] == columns@[j]@);
    }
    proof {
        if types_settle(target_fields) {
            assert forall|j: int| 0 <= j < found.len() && j < target_fields.len() implies
                #[trigger] found[j] == sane_columns(found, target_fields)[j] by {
                assert(settling(target_fields[j].data_type));
                assert(settled_column(found[j], target_fields[j].data_type));
            }
            assert(sane_columns(found, target_fields) =~= found);
        }
    }
    Statistics {
        num_rows: statistics.num_rows.duplicate(),
        total_byte_size: statistics.total_byte_size.duplicate(),
        column_statistics: columns,
    }
}

/// The greatest value of a column in a file, and the value that it stands for where the column
/// holds times, which are recorded in a coarser unit.
#[derive(Debug, PartialEq)]
pub struct UpperBound {
    pub value: Scalar,
    pub widened: Scalar,
}

impl View for UpperBound {
    type V = (ScalarTree, ScalarTree);

    open spec fn view(&self) -> (ScalarTree, ScalarTree) {
        (self.value@, self.widened@)
    }
}

/// What the log of a table records of a file, by the names of the columns in the file.
#[derive(Debug)]
pub struct FileStats {
    pub num_records: i64,
    /// Whether the bounds are values that occur in the file.
    pub tight_bounds: bool,
    pub min_values: StringMap<Scalar>,
    pub max_values: StringMap<UpperBound>,
    pub null_counts: StringMap<i64>,
}

/// What is known of a value that the log records.
pub open spec fn recorded<T>(tight_bounds: bool, value: T) -> Precision<T> {
    if tight_bounds {
        Precision::Exact(value)
    } else {
        Precision::Inexact(value)
    }
}

/// The lower bound of the column `name`: the value that the log records, unless it is null. Of
/// times it is not exact.
pub open spec fn recorded_min(stats: FileStats, name: Seq<char>, has_time: bool) -> Precision<
    ScalarTree,
> {
    let values = stats.min_values@;
    if values.contains_key(name) && !values[name].null {
        let bound = recorded(stats.tight_bounds, values[name]);
        if has_time {
            inexact(bound)
        } else {
            bound
        }
    } else {
        Precision::Absent
    }
}

/// The upper bound of the column `name`: the value that the log records, unless it is null. Of
/// times it is the widened value, and not exact.
pub open spec fn recorded_max(stats: FileStats, name: Seq<char>, has_time: bool) -> Precision<
    ScalarTree,
> {
    let values = stats.max_values@;
    if values.contains_key(name) && !values[name].0.null {
        if has_time {
            Precision::Inexact(values[name].1)
        } else {
            recorded(stats.tight_bounds, values[name].0)
        }
    } else {
        Precision::Absent
    }
}

/// The number of nulls of the column `name`; a number below zero counts as zero.
pub open spec fn recorded_nulls(stats: FileStats, name: Seq<char>) -> Precision<usize> {
    let counts = stats.null_counts@;
    if counts.contains_key(name) {
        let count: i64 = if counts[name] < 0 {
            0
        } else {
            counts[name]
        };
        recorded(stats.tight_bounds, count as usize)
    } else {
        Precision::Absent
    }
}

/// What is known of the column `name` of a file.
pub open spec fn recorded_column(stats: FileStats, name: Seq<char>, has_time: bool) -> ColumnStatsTree {
    ColumnStatsTree {
        null_count: recorded_nulls(stats, name),
        max_value: recorded_max(stats, name, has_time),
        min_value: recorded_min(stats, name, has_time),
        sum_value: Precision::Absent,
        distinct_count: Precision::Absent,
        byte_size: Precision::Absent,
    }
}

/// What is known of a file with the fields `fields`.
pub open spec fn recorded_stats(
    stats: FileStats,
    fields: Seq<FieldTree>,
    has_time: Seq<bool>,
) -> StatsTree {
    StatsTree {
        num_rows: if stats.num_records >= 0 {
            Precision::Exact(stats.num_records as usize)
        } else {
            Precision::Absent
        },
        total_byte_size: Precision::Absent,
        columns: Seq::new(
            fields.len(),
            |i: int| recorded_column(stats, fields[i].name, has_time[i]),
        ),
    }
}

/// A value that the log records.
fn record(tight_bounds: bool, value: Scalar) -> (r: Precision<Scalar>)
    ensures
        r@ == recorded(tight_bounds, value@),
{
    if tight_bounds {
        Precision::Exact(value)
    } else {
        Precision::Inexact(value)
    }
}

/// What is known of the column `name` of a file.
fn column_for_add(stats: &FileStats, name: &str, has_time: bool) -> (r: ColumnStatistics)
    ensures
        r@ == recorded_column(*stats, name@, has_time),
{
    let tight: bool = stats.tight_bounds;
    let min_value: Precision<Scalar> = match stats.min_values.get(name) {
        Some(value) => {
            if value.is_null() {
                Precision::Absent
            } else if has_time {
                Precision::Inexact(value.duplicate())
            } else {
                record(tight, value.duplicate())
            }
        },
        None => Precision::Absent,
    };
    let max_value: Precision<Scalar> = match stats.max_values.get(name) {
        Some(bound) => {
            if bound.value.is_null() {
                Precision::Absent
            } else if has_time {
                Precision::Inexact(bound.widened.duplicate())
            } else {
                record(tight, bound.value.duplicate())
            }
        },
        None => Precision::Absent,
    };
    let null_count: Precision<usize> = match stats.null_counts.get(name) {
        Some(count) => {
            let count: i64 = if *count < 0 {
                0
            } else {
                *count
            };
            let n: usize = #[verifier::truncate]
            (count as usize);
            if tight {
                Precision::Exact(n)
            } else {
                Precision::Inexact(n)
            }
        },
        None => Precision::Absent,
    };
    ColumnStatistics {
        null_count,
        max_value,
        min_value,
        sum_value: Precision::Absent,
        distinct_count: Precision::Absent,
        byte_size: Precision::Absent,
    }
}

/// What is known of a file, out of what the log records of it; nothing where it records nothing.
/// `has_time` says of each field whether its type contains a timestamp.
pub fn stats_for_add(
    stats: &Option<FileStats>,
    file_schema: &ArrowSchema,
    has_time: &Vec<bool>,
) -> (r: Option<Statistics>)
    requires
        has_time@.len() == fields_of(*file_schema).len(),
    ensures
        match stats {
            Some(stats) => r matches Some(known) && known@ == recorded_stats(
                *stats,
                fields_of(*file_schema),
                has_time@,
            ),
            None => r is None,
        },
{
    let stats: &FileStats = match stats {
        Some(stats) => stats,
        None => {
            return None;
        },
    };
    let fields: Vec<ArrowField> = schema_fields(file_schema);
    let ghost all = fields_of(*file_schema);
    let mut columns: Vec<ColumnStatistics> = Vec::new();
    let mut i: usize = 0;
    while i < fields.len()
        invariant
            i <= fields.len(),
            all == field_trees(fields@),
            has_time@.len() == all.len(),
            columns@.len() == i,
            forall|j: int|
                0 <= j < i ==> (#[trigger] columns@[j])@ == recorded_column(
                    *stats,
                    all[j].name,
                    has_time@[j],
                ),
        decreases fields.len() - i,
    {
        assert(all[i as int] == field_of(fields@[i as int]));
        let name: String = field_name(&fields[i]);
        columns.push(column_for_add(stats, name.as_str(), has_time[i]));
        i = i + 1;
    }
    let num_rows: Precision<usize> = if stats.num_records >= 0 {
        let n: i64 = stats.num_records;
        Precision::Exact(
            #[verifier::truncate]
            (n as usize),
        )
    } else {
        Precision::Absent
    };
    let ghost wanted = recorded_stats(*stats, all, has_time@);
    assert(column_trees(columns@) =~= wanted.columns);
    Some(
        Statistics { num_rows, total_byte_size: Precision::Absent, column_statistics: columns },
    )
}

/// Whether anything but the size is known of a column.
pub open spec fn column_known(column: ColumnStatsTree) -> bool {
    !(column.null_count is Absent && column.max_value is Absent && column.min_value is Absent
        && column.sum_value is Absent && column.distinct_count is Absent)
}

/// Whether anything is known of the columns of a file.
pub open spec fn stats_known(stats: Option<Statistics>) -> bool {
    stats matches Some(stats) && exists|i: int|
        0 <= i < stats@.columns.len() && #[trigger] column_known(stats@.columns[i])
}

fn is_absent<T>(p: &Precision<T>) -> (r: bool)
    ensures
        r == (*p is Absent),
{
    match p {
        Precision::Absent => true,
        _ => false,
    }
}

/// Whether anything is known of the columns of a file.
pub fn has_statistics(stats: &Option<Statistics>) -> (r: bool)
    ensures
        r == stats_known(*stats),
{
    let file: &Statistics = match stats {
        Some(file) => file,
        None => {
            return false;
        },
    };
    let mut i: usize = 0;
    while i < file.column_statistics.len()
        invariant
            i <= file.column_statistics.len(),
            *stats == Some(*file),
            forall|j: int| 0 <= j < i ==> !#[trigger] column_known(file@.columns[j]),
        decreases file.column_statistics.len() - i,
    {
        let column: &ColumnStatistics = &file.column_statistics[i];
        assert(file@.columns[i as int] == column@);
        if !(is_absent(&column.null_count) && is_absent(&column.max_value) && is_absent(
            &column.min_value,
        ) && is_absent(&column.sum_value) && is_absent(&column.distinct_count)) {
            assert(column_known(file@.columns[i as int]));
            return true;
        }
        i = i + 1;
    }
    false
}

/// Bounds that were taken as bounds of a type can stand: none is null, and where both are known
/// they are of one type and the lower is not the greater. The rest of the column stays.
pub proof fn law_sane_bounds_stand(column: ColumnStatsTree, data_type: TypeTree)
    ensures
        ({
            let sane = sane_column(column, data_type);
            &&& bounds_stand(sane.min_value, sane.max_value)
            &&& known(sane.min_value) matches Some(low) ==> !low.null
            &&& known(sane.max_value) matches Some(high) ==> !high.null
            &&& sane.min_value is Exact ==> column.min_value is Exact
            &&& sane.max_value is Exact ==> column.max_value is Exact
            &&& sane.null_count == column.null_count
            &&& sane.sum_value == column.sum_value
            &&& sane.distinct_count == column.distinct_count
            &&& sane.byte_size == column.byte_size
        }),
{
}

/// Taking statistics as those of a schema a second time changes nothing, where they are settled for
/// its fields, as they are after the first time. Left out are fields of lists whose items are
/// structures and have metadata, which a cast does not keep.
pub proof fn law_sanitizing_twice_changes_nothing(stats: StatsTree, fields: Seq<FieldTree>)
    requires
        settled_columns(stats.columns, fields),
        types_settle(fields),
    ensures
        (StatsTree { columns: sane_columns(stats.columns, fields), ..stats }) == stats,
{
}

/// Bounds that are settled for fields are of the types of the fields and in order, where no items
/// of lists have metadata, which a cast does not keep.
pub proof fn law_settled_bounds_have_the_types(stats: StatsTree, fields: Seq<FieldTree>)
    requires
        settled_columns(stats.columns, fields),
        types_kept(fields),
    ensures
        forall|i: int|
            0 <= i < stats.columns.len() && i < fields.len() ==> {
                let column = #[trigger] stats.columns[i];
                &&& known(column.min_value) matches Some(low) ==> low.data_type
                    == fields[i].data_type
                &&& known(column.max_value) matches Some(high) ==> high.data_type
                    == fields[i].data_type
                &&& bounds_stand(column.min_value, column.max_value)
            },
{
    assert forall|i: int| 0 <= i < stats.columns.len() && i < fields.len() implies settled_column(
        #[trigger] stats.columns[i],
        fields[i].data_type,
    ) && cast_type(fields[i].data_type) == fields[i].data_type by {}
}

/// Bounds of different types make no bound together.
pub proof fn law_mismatched_bounds_are_dropped(a: ColumnStatsTree, b: ColumnStatsTree)
    ensures
        mismatched(a.max_value, b.max_value) ==> added_column(a, b).max_value is Absent,
        mismatched(a.min_value, b.min_value) ==> added_column(a, b).min_value is Absent,
{
}

/// The rows of a table are known exactly where those of each file are, and then are their sum, at
/// most the largest number there is; else nothing is known of them.
pub proof fn law_rows_are_the_sum(files: Seq<StatsTree>)
    ensures
        ({
            let all = forall|i: int| 0 <= i < files.len() ==> (#[trigger] files[i]).num_rows is Exact;
            &&& all ==> added_rows(files) == Precision::Exact(
                if rows_total(files) > usize::MAX {
                    usize::MAX
                } else {
                    rows_total(files) as usize
                },
            )
            &&& !all ==> added_rows(files) is Absent
        }),
    decreases files.len(),
{
    if files.len() > 0 {
        let front = files.drop_last();
        law_rows_are_the_sum(front);
        lemma_rows_total_positive(front);
        assert forall|i: int| 0 <= i < front.len() implies front[i] == files[i] by {}
        if forall|i: int| 0 <= i < files.len() ==> (#[trigger] files[i]).num_rows is Exact {
            assert(forall|i: int|
                0 <= i < front.len() ==> (#[trigger] front[i]).num_rows is Exact) by {
                assert forall|i: int| 0 <= i < front.len() implies (
                #[trigger] front[i]).num_rows is Exact by {
                    assert(files[i].num_rows is Exact);
                }
            }
            assert(files[files.len() - 1].num_rows is Exact);
        } else {
            let i = choose|i: int| 0 <= i < files.len() && !((#[trigger] files[i]).num_rows is Exact);
            if i < front.len() {
                assert(!(front[i].num_rows is Exact));
            }
        }
    }
}

/// The sum of the known numbers of rows.
pub open spec fn rows_total(files: Seq<StatsTree>) -> int
    decreases files.len(),
{
    if files.len() == 0 {
        0
    } else {
        rows_total(files.drop_last()) + match known(files.last().num_rows) {
            Some(n) => n as int,
            None => 0,
        }
    }
}

proof fn lemma_rows_total_positive(files: Seq<StatsTree>)
    ensures
        rows_total(files) >= 0,
    decreases files.len(),
{
    if files.len() > 0 {
        lemma_rows_total_positive(files.drop_last());
    }
}

/// Mapped statistics have a column for each target field; a field that goes by no other name and
/// is in the source has what is known of it there, taken as of its own type.
pub proof fn law_mapping_follows_names(
    stats: StatsTree,
    source: Seq<FieldTree>,
    target: Seq<FieldTree>,
    i: int,
    j: int,
)
    requires
        0 <= i < target.len(),
        0 <= j < source.len(),
        stats.columns.len() == source.len(),
        source[j].name == target[i].name,
        forall|k: int| 0 <= k < j ==> (#[trigger] source[k]).name != target[i].name,
    ensures
        ({
            let result = mapped(stats, source, target, Map::empty());
            &&& result.columns.len() == target.len()
            &&& result.columns[i] == sane_column(stats.columns[j], target[i].data_type)
            &&& result.num_rows == stats.num_rows
        }),
{
    lemma_field_position(source, target[i].name);
    let p = field_position(source, target[i].name);
    if p > j {
        assert(source[j].name != target[i].name);
    }
    if p < j {
        assert(source[p].name == target[i].name);
    }
}

/// The numbers of rows add up over all files: where each is known exactly and they fit together,
/// the table has exactly as many rows as its files.
pub proof fn law_table_has_the_rows_of_all_files(files: Seq<StatsTree>, rows: Seq<usize>)
    requires
        rows.len() == files.len(),
        forall|k: int|
            0 <= k < files.len() ==> (#[trigger] files[k]).num_rows == Precision::Exact(rows[k]),
    ensures
        ({
            let total = rows.fold_left(0int, |sum: int, n: usize| sum + n);
            &&& total <= usize::MAX ==> aggregated(files).num_rows == Precision::Exact(
                total as usize,
            )
            &&& total > usize::MAX ==> aggregated(files).num_rows == Precision::Exact(usize::MAX)
            &&& total >= 0
        }),
        aggregated(files).total_byte_size is Absent,
    decreases files.len(),
{
    if files.len() > 0 {
        let front = files.drop_last();
        let fewer = rows.drop_last();
        assert forall|k: int| 0 <= k < front.len() implies (#[trigger] front[k]).num_rows
            == Precision::Exact(fewer[k]) by {
            assert(front[k] == files[k]);
        }
        law_table_has_the_rows_of_all_files(front, fewer);
        assert(files[files.len() - 1].num_rows == Precision::Exact(rows[rows.len() - 1]));
    }
}

/// A table has the columns of its first file. Where the null counts of a column are known exactly
/// in all files and fit together, that of the table is their sum over all files; the same holds of
/// the counts of distinct values and of the sizes.
pub proof fn law_table_has_the_counts_of_all_files(
    files: Seq<StatsTree>,
    i: int,
    counts: Seq<usize>,
)
    requires
        files.len() > 0,
        counts.len() == files.len(),
        0 <= i,
        forall|k: int| 0 <= k < files.len() ==> i < (#[trigger] files[k]).columns.len(),
    ensures
        aggregated(files).columns.len() == files[0].columns.len(),
        ({
            let total = counts.fold_left(0int, |sum: int, n: usize| sum + n);
            let column = aggregated(files).columns[i];
            &&& total >= 0
            &&& total <= usize::MAX && (forall|k: int|
                0 <= k < files.len() ==> (#[trigger] files[k]).columns[i].null_count
                    == Precision::Exact(counts[k])) ==> column.null_count == Precision::Exact(
                total as usize,
            )
            &&& total <= usize::MAX && (forall|k: int|
                0 <= k < files.len() ==> (#[trigger] files[k]).columns[i].distinct_count
                    == Precision::Exact(counts[k])) ==> column.distinct_count == Precision::Exact(
                total as usize,
            )
            &&& total <= usize::MAX && (forall|k: int|
                0 <= k < files.len() ==> (#[trigger] files[k]).columns[i].byte_size
                    == Precision::Exact(counts[k])) ==> column.byte_size == Precision::Exact(
                total as usize,
            )
        }),
    decreases files.len(),
{
    reveal_with_fuel(Seq::fold_left, 3);
    let plus = |sum: int, n: usize| sum + n;
    if files.len() == 1 {
        assert(counts.drop_last() =~= Seq::<usize>::empty());
        assert(counts.fold_left(0int, plus) == counts[0]);
        assert(i < files[0].columns.len());
    } else {
        let front = files.drop_last();
        let fewer = counts.drop_last();
        assert forall|k: int| 0 <= k < front.len() implies i < (
        #[trigger] front[k]).columns.len() by {
            assert(front[k] == files[k]);
        }
        law_table_has_the_counts_of_all_files(front, i, fewer);
        let last = files.len() - 1;
        assert(files[last] == files.last() && i < files[last].columns.len());
        assert(counts.fold_left(0int, plus) == fewer.fold_left(0int, plus) + counts[last]);
        assert(i < files_columns(front).len()) by {
            assert(front[0] == files[0]);
            assert(i < files[0].columns.len());
        }
        let before = files_columns(front)[i];
        let column = aggregated(files).columns[i];
        assert(column == added_column(before, files[last].columns[i]));
        if forall|k: int|
            0 <= k < files.len() ==> (#[trigger] files[k]).columns[i].null_count
                == Precision::Exact(counts[k]) {
            assert forall|k: int| 0 <= k < front.len() implies (
            #[trigger] front[k]).columns[i].null_count == Precision::Exact(fewer[k]) by {
                assert(front[k] == files[k]);
            }
            assert(files[last].columns[i].null_count == Precision::Exact(counts[last]));
        }
        if forall|k: int|
            0 <= k < files.len() ==> (#[trigger] files[k]).columns[i].distinct_count
                == Precision::Exact(counts[k]) {
            assert forall|k: int| 0 <= k < front.len() implies (
            #[trigger] front[k]).columns[i].distinct_count == Precision::Exact(fewer[k]) by {
                assert(front[k] == files[k]);
            }
            assert(files[last].columns[i].distinct_count == Precision::Exact(counts[last]));
        }
        if forall|k: int|
            0 <= k < files.len() ==> (#[trigger] files[k]).columns[i].byte_size
                == Precision::Exact(counts[k]) {
            assert forall|k: int| 0 <= k < front.len() implies (
            #[trigger] front[k]).columns[i].byte_size == Precision::Exact(fewer[k]) by {
                assert(front[k] == files[k]);
            }
            assert(files[last].columns[i].byte_size == Precision::Exact(counts[last]));
        }
    }
}

/// Whether values are in one order: each two can be told to be less, equal or greater, the same way
/// from both sides, and what is no less than a value is no less than those that it is no less than.
pub open spec fn in_one_order(values: Set<ScalarTree>) -> bool {
    &&& forall|a: ScalarTree, b: ScalarTree|
        values.contains(a) && values.contains(b) ==> {
            let order = #[trigger] scalar_order(a, b);
            &&& order == Some(-1i8) || order == Some(0i8) || order == Some(1i8)
            &&& order == Some(1i8) <==> scalar_order(b, a) == Some(-1i8)
        }
    &&& forall|a: ScalarTree, b: ScalarTree, c: ScalarTree|
        values.contains(a) && values.contains(b) && values.contains(c) && #[trigger] scalar_order(
            a,
            b,
        ) != Some(-1i8) && #[trigger] scalar_order(b, c) != Some(-1i8) ==> scalar_order(a, c)
            != Some(-1i8)
}

/// The upper bound of a column of a table is known where, and only where, it is known in all files
/// and all are of one type. It is then the upper bound of one of the files, no upper bound of any
/// file is greater, and it is exact where, and only where, all are.
pub proof fn law_upper_bound_covers_all_files(files: Seq<StatsTree>, i: int)
    requires
        files.len() > 0,
        0 <= i,
        forall|k: int| 0 <= k < files.len() ==> i < (#[trigger] files[k]).columns.len(),
    ensures
        ({
            let bound = aggregated(files).columns[i].max_value;
            &&& !(bound is Absent) <==> forall|k: int|
                0 <= k < files.len() ==> !((#[trigger] files[k]).columns[i].max_value is Absent)
                    && known(files[k].columns[i].max_value)->0.data_type == known(
                    files[0].columns[i].max_value,
                )->0.data_type
            &&& !(bound is Absent) ==> {
                &&& exists|k: int|
                    0 <= k < files.len() && known((#[trigger] files[k]).columns[i].max_value)
                        == known(bound)
                &&& bound is Exact <==> forall|k: int|
                    0 <= k < files.len() ==> (#[trigger] files[k]).columns[i].max_value is Exact
                &&& forall|values: Set<ScalarTree>|
                    #[trigger] in_one_order(values) && (forall|k: int|
                        0 <= k < files.len() ==> values.contains(
                            known((#[trigger] files[k]).columns[i].max_value)->0,
                        )) ==> forall|k: int|
                        0 <= k < files.len() ==> scalar_order(
                            known((#[trigger] files[k]).columns[i].max_value)->0,
                            known(bound)->0,
                        ) != Some(1i8)
            }
        }),
    decreases files.len(),
{
    let bound = aggregated(files).columns[i].max_value;
    assert(i < files[0].columns.len());
    if files.len() == 1 {
        assert(known(files[0].columns[i].max_value) == known(bound));
    } else {
        let front = files.drop_last();
        let last = files.len() - 1;
        assert forall|k: int| 0 <= k < front.len() implies i < (#[trigger] front[k]).columns.len()
            && front[k] == files[k] by {
            assert(i < files[k].columns.len());
        }
        law_upper_bound_covers_all_files(front, i);
        law_table_has_the_counts_of_all_files(front, i, Seq::new(front.len(), |k: int| 0usize));
        let before = aggregated(front).columns[i].max_value;
        let added = files[last].columns[i].max_value;
        assert(i < files[last].columns.len());
        assert(bound == merged_max(before, added));
        if !(bound is Absent) {
            let x = known(before)->0;
            let y = known(added)->0;
            let w = choose|k: int|
                0 <= k < front.len() && known((#[trigger] front[k]).columns[i].max_value) == known(
                    before,
                );
            assert(files[w] == front[w]);
            assert forall|k: int| 0 <= k < files.len() implies !((
            #[trigger] files[k]).columns[i].max_value is Absent) && known(
                files[k].columns[i].max_value,
            )->0.data_type == known(files[0].columns[i].max_value)->0.data_type by {
                assert(front[0] == files[0]);
                assert(front[w].columns[i].max_value == files[w].columns[i].max_value);
                if k < last {
                    assert(front[k] == files[k]);
                }
            }
            assert(known(files[w].columns[i].max_value) == known(bound) || known(
                files[last].columns[i].max_value,
            ) == known(bound));
            if bound is Exact {
                assert forall|k: int| 0 <= k < files.len() implies (
                #[trigger] files[k]).columns[i].max_value is Exact by {
                    if k < last {
                        assert(front[k] == files[k]);
                    }
                }
            }
            if forall|k: int|
                0 <= k < files.len() ==> (#[trigger] files[k]).columns[i].max_value is Exact {
                assert forall|k: int| 0 <= k < front.len() implies (
                #[trigger] front[k]).columns[i].max_value is Exact by {
                    assert(files[k].columns[i].max_value is Exact);
                }
                assert(files[last].columns[i].max_value is Exact);
            }
            assert forall|values: Set<ScalarTree>|
                #[trigger] in_one_order(values) && (forall|k: int|
                    0 <= k < files.len() ==> values.contains(
                        known((#[trigger] files[k]).columns[i].max_value)->0,
                    )) implies forall|k: int|
                0 <= k < files.len() ==> scalar_order(
                    known((#[trigger] files[k]).columns[i].max_value)->0,
                    known(bound)->0,
                ) != Some(1i8) by {
                assert(values.contains(known(files[w].columns[i].max_value)->0));
                assert(values.contains(known(files[last].columns[i].max_value)->0));
                assert forall|k: int| 0 <= k < front.len() implies values.contains(
                    known((#[trigger] front[k]).columns[i].max_value)->0,
                ) by {
                    assert(values.contains(known(files[k].columns[i].max_value)->0));
                }
                assert forall|k: int| 0 <= k < files.len() implies scalar_order(
                    known((#[trigger] files[k]).columns[i].max_value)->0,
                    known(bound)->0,
                ) != Some(1i8) by {
                    let v = known(files[k].columns[i].max_value)->0;
                    let m = known(bound)->0;
                    assert(values.contains(v));
                    assert(scalar_order(x, y) == Some(1i8) <==> scalar_order(y, x) == Some(-1i8));
                    assert(scalar_order(y, x) == Some(1i8) <==> scalar_order(x, y) == Some(-1i8));
                    assert(scalar_order(v, m) == Some(1i8) <==> scalar_order(m, v) == Some(-1i8));
                    assert(scalar_order(y, y) == Some(1i8) <==> scalar_order(y, y) == Some(-1i8));
                    if k < last {
                        assert(front[k] == files[k]);
                        assert(scalar_order(v, x) != Some(1i8));
                        assert(scalar_order(v, x) == Some(1i8) <==> scalar_order(x, v) == Some(
                            -1i8,
                        ));
                    }
                }
            }
        } else if forall|k: int|
            0 <= k < files.len() ==> !((#[trigger] files[k]).columns[i].max_value is Absent)
                && known(files[k].columns[i].max_value)->0.data_type == known(
                files[0].columns[i].max_value,
            )->0.data_type {
            assert forall|k: int| 0 <= k < front.len() implies !((
            #[trigger] front[k]).columns[i].max_value is Absent) && known(
                front[k].columns[i].max_value,
            )->0.data_type == known(front[0].columns[i].max_value)->0.data_type by {
                assert(front[k] == files[k] && front[0] == files[0]);
            }
            assert(!(files[last].columns[i].max_value is Absent));
            let w = choose|k: int|
                0 <= k < front.len() && known((#[trigger] front[k]).columns[i].max_value) == known(
                    before,
                );
            assert(files[w] == front[w]);
        }
    }
}

/// The lower bound of a column of a table is known where, and only where, it is known in all files
/// and all are of one type. It is then the lower bound of one of the files, no lower bound of any
/// file is less, and it is exact where, and only where, all are.
pub proof fn law_lower_bound_covers_all_files(files: Seq<StatsTree>, i: int)
    requires
        files.len() > 0,
        0 <= i,
        forall|k: int| 0 <= k < files.len() ==> i < (#[trigger] files[k]).columns.len(),
    ensures
        ({
            let bound = aggregated(files).columns[i].min_value;
            &&& !(bound is Absent) <==> forall|k: int|
                0 <= k < files.len() ==> !((#[trigger] files[k]).columns[i].min_value is Absent)
                    && known(files[k].columns[i].min_value)->0.data_type == known(
                    files[0].columns[i].min_value,
                )->0.data_type
            &&& !(bound is Absent) ==> {
                &&& exists|k: int|
                    0 <= k < files.len() && known((#[trigger] files[k]).columns[i].min_value)
                        == known(bound)
                &&& bound is Exact <==> forall|k: int|
                    0 <= k < files.len() ==> (#[trigger] files[k]).columns[i].min_value is Exact
                &&& forall|values: Set<ScalarTree>|
                    #[trigger] in_one_order(values) && (forall|k: int|
                        0 <= k < files.len() ==> values.contains(
                            known((#[trigger] files[k]).columns[i].min_value)->0,
                        )) ==> forall|k: int|
                        0 <= k < files.len() ==> scalar_order(
                            known((#[trigger] files[k]).columns[i].min_value)->0,
                            known(bound)->0,
                        ) != Some(-1i8)
            }
        }),
    decreases files.len(),
{
    let bound = aggregated(files).columns[i].min_value;
    assert(i < files[0].columns.len());
    if files.len() == 1 {
        assert(known(files[0].columns[i].min_value) == known(bound));
    } else {
        let front = files.drop_last();
        let last = files.len() - 1;
        assert forall|k: int| 0 <= k < front.len() implies i < (#[trigger] front[k]).columns.len()
            && front[k] == files[k] by {
            assert(i < files[k].columns.len());
        }
        law_lower_bound_covers_all_files(front, i);
        law_table_has_the_counts_of_all_files(front, i, Seq::new(front.len(), |k: int| 0usize));
        let before = aggregated(front).columns[i].min_value;
        let added = files[last].columns[i].min_value;
        assert(i < files[last].columns.len());
        assert(bound == merged_min(before, added));
        if !(bound is Absent) {
            let x = known(before)->0;
            let y = known(added)->0;
            let w = choose|k: int|
                0 <= k < front.len() && known((#[trigger] front[k]).columns[i].min_value) == known(
                    before,
                );
            assert(files[w] == front[w]);
            assert forall|k: int| 0 <= k < files.len() implies !((
            #[trigger] files[k]).columns[i].min_value is Absent) && known(
                files[k].columns[i].min_value,
            )->0.data_type == known(files[0].columns[i].min_value)->0.data_type by {
                assert(front[0] == files[0]);
                assert(front[w].columns[i].min_value == files[w].columns[i].min_value);
                if k < last {
                    assert(front[k] == files[k]);
                }
            }
            assert(known(files[w].columns[i].min_value) == known(bound) || known(
                files[last].columns[i].min_value,
            ) == known(bound));
            if bound is Exact {
                assert forall|k: int| 0 <= k < files.len() implies (
                #[trigger] files[k]).columns[i].min_value is Exact by {
                    if k < last {
                        assert(front[k] == files[k]);
                    }
                }
            }
            if forall|k: int|
                0 <= k < files.len() ==> (#[trigger] files[k]).columns[i].min_value is Exact {
                assert forall|k: int| 0 <= k < front.len() implies (
                #[trigger] front[k]).columns[i].min_value is Exact by {
                    assert(files[k].columns[i].min_value is Exact);
                }
                assert(files[last].columns[i].min_value is Exact);
            }
            assert forall|values: Set<ScalarTree>|
                #[trigger] in_one_order(values) && (forall|k: int|
                    0 <= k < files.len() ==> values.contains(
                        known((#[trigger] files[k]).columns[i].min_value)->0,
                    )) implies forall|k: int|
                0 <= k < files.len() ==> scalar_order(
                    known((#[trigger] files[k]).columns[i].min_value)->0,
                    known(bound)->0,
                ) != Some(-1i8) by {
                assert(values.contains(known(files[w].columns[i].min_value)->0));
                assert(values.contains(known(files[last].columns[i].min_value)->0));
                assert forall|k: int| 0 <= k < front.len() implies values.contains(
                    known((#[trigger] front[k]).columns[i].min_value)->0,
                ) by {
                    assert(values.contains(known(files[k].columns[i].min_value)->0));
                }
                assert forall|k: int| 0 <= k < files.len() implies scalar_order(
                    known((#[trigger] files[k]).columns[i].min_value)->0,
                    known(bound)->0,
                ) != Some(-1i8) by {
                    let v = known(files[k].columns[i].min_value)->0;
                    let m = known(bound)->0;
                    assert(values.contains(v));
                    assert(scalar_order(x, y) == Some(1i8) <==> scalar_order(y, x) == Some(-1i8));
                    assert(scalar_order(y, x) == Some(1i8) <==> scalar_order(x, y) == Some(-1i8));
                    assert(scalar_order(v, m) == Some(1i8) <==> scalar_order(m, v) == Some(-1i8));
                    assert(scalar_order(y, y) == Some(1i8) <==> scalar_order(y, y) == Some(-1i8));
                    if k < last {
                        assert(front[k] == files[k]);
                        assert(scalar_order(v, x) != Some(-1i8));
                        assert(scalar_order(v, x) == Some(1i8) <==> scalar_order(x, v) == Some(
                            -1i8,
                        ));
                    }
                }
            }
        } else if forall|k: int|
            0 <= k < files.len() ==> !((#[trigger] files[k]).columns[i].min_value is Absent)
                && known(files[k].columns[i].min_value)->0.data_type == known(
                files[0].columns[i].min_value,
            )->0.data_type {
            assert forall|k: int| 0 <= k < front.len() implies !((
            #[trigger] front[k]).columns[i].min_value is Absent) && known(
                front[k].columns[i].min_value,
            )->0.data_type == known(front[0].columns[i].min_value)->0.data_type by {
                assert(front[k] == files[k] && front[0] == files[0]);
            }
            assert(!(files[last].columns[i].min_value is Absent));
            let w = choose|k: int|
                0 <= k < front.len() && known((#[trigger] front[k]).columns[i].min_value) == known(
                    before,
                );
            assert(files[w] == front[w]);
        }
    }
}

/// A file that lacks a column leaves what is known of it as it is, and a table of one file has the
/// columns of that file.
pub proof fn law_missing_columns_change_nothing(files: Seq<StatsTree>, file: StatsTree, i: int)
    requires
        files.len() > 0,
        file.columns.len() <= i < files[0].columns.len(),
    ensures
        aggregated(files.push(file)).columns.len() == files[0].columns.len(),
        aggregated(files.push(file)).columns[i] == aggregated(files).columns[i],
        aggregated(seq![file]).columns == file.columns,
{
    assert(files.push(file).drop_last() =~= files);
    assert(files.push(file).last() == file);
    lemma_columns_of_the_first_file(files);
}

proof fn lemma_columns_of_the_first_file(files: Seq<StatsTree>)
    requires
        files.len() > 0,
    ensures
        files_columns(files).len() == files[0].columns.len(),
    decreases files.len(),
{
    if files.len() > 1 {
        lemma_columns_of_the_first_file(files.drop_last());
        assert(files.drop_last()[0] == files[0]);
    }
}

/// What is known of a value is that very value, exact or not; one that is no longer exact is the
/// same value; and nothing is known where nothing was.
pub proof fn law_known_values_are_kept<T>(value: T)
    ensures
        known(Precision::Exact(value)) == Some(value),
        known(Precision::Inexact(value)) == Some(value),
        known(Precision::<T>::Absent) is None,
        inexact(Precision::Exact(value)) == Precision::Inexact(value),
        inexact(Precision::Inexact(value)) == Precision::Inexact(value),
        inexact(Precision::<T>::Absent) is Absent,
{
}

/// A sum is known where, and only where, both numbers are. It is exact where both are and it fits;
/// one that does not fit is the largest number there is.
pub proof fn law_sums_are_known_where_both_are(a: Precision<usize>, b: Precision<usize>)
    ensures
        precise_sum(a, b) == precise_sum(b, a),
        precise_sum(a, b) is Absent <==> a is Absent || b is Absent,
        forall|x: usize, y: usize|
            #![trigger known(a), known(b), x + y]
            known(a) == Some(x) && known(b) == Some(y) ==> {
                &&& x + y <= usize::MAX ==> known(precise_sum(a, b)) == Some((x + y) as usize)
                &&& x + y > usize::MAX ==> precise_sum(a, b) == Precision::Inexact(usize::MAX)
                &&& precise_sum(a, b) is Exact <==> a is Exact && b is Exact && x + y <= usize::MAX
            },
{
}

/// The bounds of two parts of a column together: each is one of the two, exact where both are, and
/// none where one is not known or they are of different types. The greater of two upper bounds is
/// taken and the lesser of two lower ones.
pub proof fn law_bounds_of_two_parts(a: ColumnStatsTree, b: ColumnStatsTree)
    ensures
        ({
            let max = added_column(a, b).max_value;
            let min = added_column(a, b).min_value;
            &&& a.max_value is Absent || b.max_value is Absent ==> max is Absent
            &&& a.min_value is Absent || b.min_value is Absent ==> min is Absent
            &&& max is Exact ==> a.max_value is Exact && b.max_value is Exact
            &&& min is Exact ==> a.min_value is Exact && b.min_value is Exact
            &&& added_column(a, b).sum_value is Absent
            &&& added_column(a, b).null_count == precise_sum(a.null_count, b.null_count)
            &&& added_column(a, b).distinct_count == precise_sum(a.distinct_count, b.distinct_count)
            &&& added_column(a, b).byte_size == precise_sum(a.byte_size, b.byte_size)
        }),
        forall|x: ScalarTree, y: ScalarTree|
            #![trigger scalar_order(x, y)]
            known(a.max_value) == Some(x) && known(b.max_value) == Some(y) ==> {
                let max = added_column(a, b).max_value;
                &&& x.data_type != y.data_type ==> max is Absent
                &&& x.data_type == y.data_type ==> {
                    &&& scalar_order(x, y) == Some(1i8) ==> known(max) == Some(x)
                    &&& scalar_order(x, y) == Some(0i8) ==> known(max) == Some(x)
                    &&& scalar_order(x, y) == Some(-1i8) ==> known(max) == Some(y)
                    &&& a.max_value is Exact && b.max_value is Exact ==> max is Exact
                }
            },
        forall|x: ScalarTree, y: ScalarTree|
            #![trigger scalar_order(x, y)]
            known(a.min_value) == Some(x) && known(b.min_value) == Some(y) ==> {
                let min = added_column(a, b).min_value;
                &&& x.data_type != y.data_type ==> min is Absent
                &&& x.data_type == y.data_type ==> {
                    &&& scalar_order(x, y) == Some(1i8) ==> known(min) == Some(y)
                    &&& scalar_order(x, y) == Some(0i8) ==> known(min) == Some(y)
                    &&& scalar_order(x, y) == Some(-1i8) ==> known(min) == Some(x)
                    &&& a.min_value is Exact && b.min_value is Exact ==> min is Exact
                }
            },
{
}

/// Statistics stand for what they hold: the numbers, and for each column its own.
pub proof fn law_statistics_stand_for_their_fields(stats: Statistics)
    ensures
        stats@.num_rows == stats.num_rows,
        stats@.total_byte_size == stats.total_byte_size,
        stats@.columns.len() == stats.column_statistics@.len(),
        forall|i: int|
            0 <= i < stats.column_statistics@.len() ==> {
                let tree = #[trigger] stats@.columns[i];
                let column = stats.column_statistics@[i];
                &&& tree.null_count == column.null_count
                &&& tree.distinct_count == column.distinct_count
                &&& tree.byte_size == column.byte_size
                &&& tree.max_value == match column.max_value {
                    Precision::Exact(value) => Precision::Exact(value@),
                    Precision::Inexact(value) => Precision::Inexact(value@),
                    Precision::Absent => Precision::Absent,
                }
                &&& tree.min_value == match column.min_value {
                    Precision::Exact(value) => Precision::Exact(value@),
                    Precision::Inexact(value) => Precision::Inexact(value@),
                    Precision::Absent => Precision::Absent,
                }
                &&& tree.sum_value == match column.sum_value {
                    Precision::Exact(value) => Precision::Exact(value@),
                    Precision::Inexact(value) => Precision::Inexact(value@),
                    Precision::Absent => Precision::Absent,
                }
            },
{
}

/// Statistics of which nothing is known have as many columns as asked for, and of none of them
/// anything is known.
pub proof fn law_unknown_statistics_say_nothing(n: nat)
    ensures
        unknown_table(n).num_rows is Absent,
        unknown_table(n).total_byte_size is Absent,
        unknown_table(n).columns.len() == n,
        forall|i: int|
            0 <= i < n ==> {
                let column = #[trigger] unknown_table(n).columns[i];
                &&& column.null_count is Absent
                &&& column.max_value is Absent
                &&& column.min_value is Absent
                &&& column.sum_value is Absent
                &&& column.distinct_count is Absent
                &&& column.byte_size is Absent
            },
{
}

/// Taking columns as those of fields gives each column with a field the casts of its own bounds to
/// the type of that field, as exact as they were. A bound goes where its cast fails or is null, and
/// both go where the casts are of different types or the lower is the greater; else both stay.
pub proof fn law_sane_bounds_are_the_casts(
    columns: Seq<ColumnStatsTree>,
    fields: Seq<FieldTree>,
    i: int,
)
    requires
        0 <= i < columns.len(),
    ensures
        sane_columns(columns, fields).len() == columns.len(),
        i >= fields.len() ==> sane_columns(columns, fields)[i] == columns[i],
        i < fields.len() ==> {
            let sane = sane_columns(columns, fields)[i];
            let low = match known(columns[i].min_value) {
                Some(value) => scalar_cast(value, fields[i].data_type),
                None => None,
            };
            let high = match known(columns[i].max_value) {
                Some(value) => scalar_cast(value, fields[i].data_type),
                None => None,
            };
            let has_low = low is Some && !low->0.null;
            let has_high = high is Some && !high->0.null;
            let at_odds = has_low && has_high && (low->0.data_type != high->0.data_type
                || scalar_order(low->0, high->0) == Some(1i8));
            &&& sane.min_value is Absent <==> !has_low || at_odds
            &&& sane.max_value is Absent <==> !has_high || at_odds
            &&& !(sane.min_value is Absent) ==> known(sane.min_value) == low && (
            sane.min_value is Exact <==> columns[i].min_value is Exact)
            &&& !(sane.max_value is Absent) ==> known(sane.max_value) == high && (
            sane.max_value is Exact <==> columns[i].max_value is Exact)
            &&& sane.null_count == columns[i].null_count
            &&& sane.sum_value == columns[i].sum_value
            &&& sane.distinct_count == columns[i].distinct_count
            &&& sane.byte_size == columns[i].byte_size
        },
{
}

/// A target field that goes by another name in the source has what is known of the column with that
/// name, wherever there is one; without it that of its own name; and nothing is known of one that
/// is not in the source under either, or has no statistics there.
pub proof fn law_mapping_follows_other_names(
    stats: StatsTree,
    source: Seq<FieldTree>,
    target: Seq<FieldTree>,
    names: Map<Seq<char>, Seq<char>>,
    i: int,
    j: int,
)
    requires
        0 <= i < target.len(),
    ensures
        ({
            let result = mapped(stats, source, target, names);
            let name = target[i].name;
            let column = result.columns[i];
            let is_first = |name: Seq<char>|
                0 <= j < source.len() && source[j].name == name && forall|k: int|
                    0 <= k < j ==> (#[trigger] source[k]).name != name;
            let found = if 0 <= j < stats.columns.len() {
                column == sane_column(stats.columns[j], target[i].data_type)
            } else {
                column == unknown_column()
            };
            let is_there = |name: Seq<char>|
                exists|k: int| 0 <= k < source.len() && (#[trigger] source[k]).name == name;
            &&& result.columns.len() == target.len()
            &&& result.num_rows == stats.num_rows
            &&& result.total_byte_size == stats.total_byte_size
            &&& names.contains_key(name) && is_first(names[name]) ==> found
            &&& !(names.contains_key(name) && is_there(names[name])) && is_first(name) ==> found
            &&& !(names.contains_key(name) && is_there(names[name])) && !is_there(name) ==> {
                &&& column.null_count is Absent
                &&& column.max_value is Absent
                &&& column.min_value is Absent
                &&& column.sum_value is Absent
                &&& column.distinct_count is Absent
                &&& column.byte_size is Absent
            }
        }),
{
    let name = target[i].name;
    lemma_first_field(source, name, j);
    if names.contains_key(name) {
        lemma_first_field(source, names[name], j);
    }
}

proof fn lemma_first_field(fields: Seq<FieldTree>, name: Seq<char>, j: int)
    ensures
        0 <= j < fields.len() && fields[j].name == name && (forall|k: int|
            0 <= k < j ==> (#[trigger] fields[k]).name != name) ==> field_position(fields, name)
            == j,
        field_position(fields, name) < fields.len() <==> exists|k: int|
            0 <= k < fields.len() && (#[trigger] fields[k]).name == name,
{
    lemma_field_position(fields, name);
    let p = field_position(fields, name);
    if p < fields.len() {
        assert(fields[p].name == name);
    }
    if 0 <= j < fields.len() && fields[j].name == name {
        assert(p <= j);
    }
}

/// What the log records of a file is what is known of it: its rows unless their number is below
/// zero, and for each field what is recorded under its name. Bounds and null counts are exact where
/// the bounds are tight; bounds that are null are left out; a number of nulls below zero is none;
/// and bounds of times are never exact, the upper one being the widened one.
pub proof fn law_recorded_statistics_are_known(
    stats: FileStats,
    fields: Seq<FieldTree>,
    has_time: Seq<bool>,
    i: int,
)
    requires
        has_time.len() == fields.len(),
        0 <= i < fields.len(),
    ensures
        ({
            let result = recorded_stats(stats, fields, has_time);
            let column = result.columns[i];
            let name = fields[i].name;
            let tight = stats.tight_bounds;
            let min = stats.min_values@;
            let max = stats.max_values@;
            let nulls = stats.null_counts@;
            let has_min = min.contains_key(name) && !min[name].null;
            let has_max = max.contains_key(name) && !max[name].0.null;
            &&& result.columns.len() == fields.len()
            &&& result.total_byte_size is Absent
            &&& stats.num_records < 0 ==> result.num_rows is Absent
            &&& 0 <= stats.num_records <= usize::MAX ==> result.num_rows == Precision::Exact(
                stats.num_records as usize,
            )
            &&& !has_min <==> column.min_value is Absent
            &&& has_min ==> known(column.min_value) == Some(min[name])
            &&& column.min_value is Exact <==> has_min && tight && !has_time[i]
            &&& !has_max <==> column.max_value is Absent
            &&& has_max && !has_time[i] ==> known(column.max_value) == Some(max[name].0)
            &&& has_max && has_time[i] ==> known(column.max_value) == Some(max[name].1)
            &&& column.max_value is Exact <==> has_max && tight && !has_time[i]
            &&& !nulls.contains_key(name) <==> column.null_count is Absent
            &&& column.null_count is Exact <==> nulls.contains_key(name) && tight
            &&& nulls.contains_key(name) && nulls[name] < 0 ==> known(column.null_count) == Some(
                0usize,
            )
            &&& nulls.contains_key(name) && 0 <= nulls[name] <= usize::MAX ==> known(
                column.null_count,
            ) == Some(nulls[name] as usize)
            &&& column.sum_value is Absent
            &&& column.distinct_count is Absent
            &&& column.byte_size is Absent
        }),
{
}

/// An upper bound stands for its value and the widened one, in this order.
pub proof fn law_upper_bounds_stand_for_their_values(bound: UpperBound)
    ensures
        bound@.0 == bound.value@,
        bound@.1 == bound.widened@,
{
}

/// Statistics say something where, and only where, some column has a count of nulls or of distinct
/// values, a bound or a sum.
pub proof fn law_statistics_say_something(stats: Option<Statistics>)
    ensures
        stats is None ==> !stats_known(stats),
        stats is Some ==> (stats_known(stats) <==> exists|i: int|
            0 <= i < stats->0.column_statistics@.len() && {
                let column = #[trigger] stats->0.column_statistics@[i];
                ||| !(column.null_count is Absent)
                ||| !(column.max_value is Absent)
                ||| !(column.min_value is Absent)
                ||| !(column.sum_value is Absent)
                ||| !(column.distinct_count is Absent)
            }),
{
    if let Some(file) = stats {
        if stats_known(stats) {
            let i = choose|i: int|
                0 <= i < file@.columns.len() && #[trigger] column_known(file@.columns[i]);
            assert(file@.columns[i] == file.column_statistics@[i]@);
        }
        assert forall|i: int|
            0 <= i < file.column_statistics@.len() && {
                let column = #[trigger] file.column_statistics@[i];
                ||| !(column.null_count is Absent)
                ||| !(column.max_value is Absent)
                ||| !(column.min_value is Absent)
                ||| !(column.sum_value is Absent)
                ||| !(column.distinct_count is Absent)
            } implies stats_known(stats) by {
            assert(column_known(file@.columns[i]));
        }
    }
}

/// Bounds can be taken as those of a type where they are not known, or can be cast to it; and other
/// names are those of the map that is given, and none without one.
pub proof fn law_unknown_bounds_fit(bound: Precision<ScalarTree>, data_type: TypeTree)
    ensures
        bound is Absent ==> bound_fits(bound, data_type),
        forall|value: ScalarTree|
            #![trigger castable(value, data_type)]
            (bound == Precision::Exact(value) || bound == Precision::Inexact(value)) ==> (
            bound_fits(bound, data_type) <==> castable(value, data_type)),
        names_of(None) == Map::<Seq<char>, Seq<char>>::empty(),
        forall|map: StringMap<String>| #[trigger] names_of(Some(&map)) == map@,
{
}

/// Statistics can be taken as those of other fields where, and only where, the bounds of each
/// column that a field has its statistics from can be cast to the type of that field, or are not
/// known.
pub proof fn law_mapped_bounds_have_to_fit(
    stats: StatsTree,
    source: Seq<FieldTree>,
    target: Seq<FieldTree>,
    names: Map<Seq<char>, Seq<char>>,
)
    ensures
        mapping_fits(stats, source, target, names) <==> forall|i: int|
            #![trigger target[i]]
            0 <= i < target.len() ==> {
                let column = source_column(stats.columns, source, names, target[i].name);
                &&& column.min_value is Absent || castable(
                    known(column.min_value)->0,
                    target[i].data_type,
                )
                &&& column.max_value is Absent || castable(
                    known(column.max_value)->0,
                    target[i].data_type,
                )
            },
        all_bounds_fit(stats.columns, source) <==> forall|i: int|
            0 <= i < stats.columns.len() && i < source.len() ==> {
                let column = #[trigger] stats.columns[i];
                &&& column.min_value is Absent || castable(
                    known(column.min_value)->0,
                    source[i].data_type,
                )
                &&& column.max_value is Absent || castable(
                    known(column.max_value)->0,
                    source[i].data_type,
                )
            },
{
}

/// A list of statistics stands for those of each, in order.
pub proof fn law_lists_of_statistics_stand_for_each(list: Seq<Statistics>)
    ensures
        stats_trees(list).len() == list.len(),
        forall|i: int| 0 <= i < list.len() ==> #[trigger] stats_trees(list)[i] == list[i]@,
{
}

} // verus!
