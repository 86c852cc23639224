//! The plan of a scan of a Delta table.

use vstd::prelude::*;

use arrow::datatypes::DataType as ArrowType;
use arrow::datatypes::Field as ArrowField;
use arrow::datatypes::Schema as ArrowSchema;
use object_store::path::Path;

use crate::arrow_schema::{
    clone_field, field_data_type, field_name, field_of, field_trees, fields_of, new_field,
    new_schema, renamed_field, retyped_field, schema_fields, to_arrow_type, type_of,
};
use crate::batch::CellTree;
use crate::delta::paths::{file_location, path_text_of, rewrite_data_file_location};
use crate::delta::scalar::{
    dictionary_type, in_dictionary, number_value, text_value, wrap_type, Scalar, ScalarTree,
};
use crate::delta::statistics::{
    aggregate_table_stats_from_files, aggregated, all_bounds_fit, are_bounds_fit, bounds_fit,
    column_trees, field_position, find_field, has_statistics, is_mapping_fit,
    law_table_has_the_rows_of_all_files, lemma_field_position,
    map_statistics_to_schema_with_name_mapping, mapped, mapped_column, mapping_fits, recorded_stats,
    sane_column, sane_columns, sanitize_statistics_for_schema, stats_for_add, stats_trees,
    unknown_column, unknown_table, ColumnStatistics, ColumnStatsTree, FileStats, Precision,
    Statistics, StatsTree,
};
use crate::error::{plan_error, plan_failure, Failure, FailureKind, ReadError};
use crate::map::StringMap;
use crate::schema::{column, ColumnType, FieldTree, TypeTree};
use crate::text::{joined, same_text, texts};

verus! {

/// Where the statistics of a scanned table come from.
#[derive(Debug, Clone, Copy, PartialEq, Eq, Structural)]
pub enum TableStatsMode {
    /// From the snapshot, for the files of the scan.
    Snapshot,
    /// From the files of the scan alone.
    AddsOnly,
    /// From nowhere.
    Unknown,
}

/// How columns are found in files.
#[derive(Debug, Clone, Copy, PartialEq, Eq, Structural)]
pub enum ColumnMappingMode {
    /// By their names.
    Unmapped,
    /// By names of their own.
    Name,
    /// By numbers.
    Id,
}

/// By what the fields of structures are matched.
#[derive(Debug, Clone, Copy, PartialEq, Eq, Structural)]
pub enum StructFieldMatching {
    Name,
    PhysicalName,
    FieldId,
}

/// A field of a table, with the name that it has in files. `marked` is the field with the extension
/// of variants where its storage is marked as one.
#[derive(Debug)]
pub struct LogicalField {
    pub field: ArrowField,
    pub marked: ArrowField,
    pub physical_name: String,
}

/// A column that a table is partitioned by.
#[derive(Debug)]
pub struct PartitionColumn {
    pub logical_name: String,
    pub physical_name: String,
}

/// What a scan needs to know of a version of a table.
#[derive(Debug)]
pub struct DeltaSnapshot {
    pub fields: Vec<LogicalField>,
    pub partition_columns: Vec<PartitionColumn>,
    pub column_mapping: ColumnMappingMode,
}

/// How a table is scanned.
#[derive(Debug)]
pub struct DeltaScanConfig {
    /// The fields to take in place of those of the table.
    pub schema: Option<Vec<LogicalField>>,
    pub file_column_name: Option<String>,
    pub commit_version_column_name: Option<String>,
    pub commit_timestamp_column_name: Option<String>,
    pub wrap_partition_values: bool,
    pub enable_parquet_pushdown: bool,
}

/// The logical fields as Arrow has them.
pub open spec fn logical_trees(fields: Seq<LogicalField>) -> Seq<FieldTree> {
    fields.map_values(|f: LogicalField| field_of(f.field))
}

/// The names of the first `n` fields by their names in files; of two with the same name in files
/// the first counts.
pub open spec fn logical_names_until(fields: Seq<LogicalField>, n: int) -> Map<
    Seq<char>,
    Seq<char>,
>
    decreases n,
{
    if n <= 0 {
        Map::empty()
    } else {
        let front = logical_names_until(fields, n - 1);
        let physical = fields[n - 1].physical_name@;
        if front.contains_key(physical) {
            front
        } else {
            front.insert(physical, field_of(fields[n - 1].field).name)
        }
    }
}

/// The names of fields by their names in files.
pub open spec fn logical_names(fields: Seq<LogicalField>) -> Map<Seq<char>, Seq<char>> {
    logical_names_until(fields, fields.len() as int)
}

/// The names of fields by their names in files; of two with the same name in files the first
/// counts.
pub fn physical_to_logical_name_map(snapshot: &DeltaSnapshot) -> (r: StringMap<String>)
    ensures
        r@ == logical_names(snapshot.fields@),
{
    let mut r: StringMap<String> = StringMap::new();
    let mut i: usize = 0;
    while i < snapshot.fields.len()
        invariant
            i <= snapshot.fields.len(),
            r@ == logical_names_until(snapshot.fields@, i as int),
        decreases snapshot.fields.len() - i,
    {
        let field: &LogicalField = &snapshot.fields[i];
        if !r.contains_key(field.physical_name.as_str()) {
            r.insert(field.physical_name.clone(), field_name(&field.field));
        }
        i = i + 1;
    }
    r
}

/// The name of a field of files: that which the table has for it, else its own.
pub open spec fn scan_name(names: Map<Seq<char>, Seq<char>>, name: Seq<char>) -> Seq<char> {
    if names.contains_key(name) {
        names[name]
    } else {
        name
    }
}

/// The texts of an optional string: one or none.
pub open spec fn optional_name(name: Option<String>) -> Seq<Seq<char>> {
    match name {
        Some(name) => seq![name@],
        None => Seq::empty(),
    }
}

/// The names of the columns of a scan: those of the files, the columns that the table is
/// partitioned by, and the columns that the scan adds.
pub open spec fn scan_names(
    snapshot: DeltaSnapshot,
    config: DeltaScanConfig,
    file_fields: Seq<FieldTree>,
) -> Seq<Seq<char>> {
    file_fields.map_values(|f: FieldTree| scan_name(logical_names(snapshot.fields@), f.name))
        + snapshot.partition_columns@.map_values(|c: PartitionColumn| c.logical_name@)
        + optional_name(config.file_column_name) + optional_name(config.commit_version_column_name)
        + optional_name(config.commit_timestamp_column_name)
}

/// Adds an optional name.
fn push_name(names: &mut Vec<String>, name: &Option<String>)
    ensures
        texts(final(names)@) == texts(old(names)@) + optional_name(*name),
{
    let ghost before = texts(names@);
    match name {
        Some(name) => {
            names.push(name.clone());
            assert(texts(names@) =~= before + seq![name@]);
        },
        None => {
            assert(before + Seq::<Seq<char>>::empty() =~= before);
        },
    }
}

/// The names of the columns of a scan.
pub fn file_scan_logical_names(
    snapshot: &DeltaSnapshot,
    config: &DeltaScanConfig,
    file_schema: &ArrowSchema,
) -> (r: Vec<String>)
    ensures
        texts(r@) == scan_names(*snapshot, *config, fields_of(*file_schema)),
{
    let map: StringMap<String> = physical_to_logical_name_map(snapshot);
    let fields: Vec<ArrowField> = schema_fields(file_schema);
    let ghost file_fields = fields_of(*file_schema);
    let ghost in_files = file_fields.map_values(
        |f: FieldTree| scan_name(logical_names(snapshot.fields@), f.name),
    );
    let mut names: Vec<String> = Vec::new();
    let mut i: usize = 0;
    while i < fields.len()
        invariant
            i <= fields.len(),
            file_fields == field_trees(fields@),
            map@ == logical_names(snapshot.fields@),
            in_files == file_fields.map_values(
                |f: FieldTree| scan_name(logical_names(snapshot.fields@), f.name),
            ),
            names@.len() == i,
            forall|j: int| 0 <= j < i ==> (#[trigger] names@[j])@ == in_files[j],
        decreases fields.len() - i,
    {
        assert(file_fields[i as int] == field_of(fields@[i as int]));
        let name: String = field_name(&fields[i]);
        match map.get(name.as_str()) {
            Some(logical) => {
                names.push(logical.clone());
            },
            None => {
                names.push(name);
            },
        }
        i = i + 1;
    }
    assert(texts(names@) =~= in_files);
    let ghost partitions = snapshot.partition_columns@.map_values(
        |c: PartitionColumn| c.logical_name@,
    );
    let mut k: usize = 0;
    assert(in_files + partitions.take(0) =~= in_files);
    while k < snapshot.partition_columns.len()
        invariant
            k <= snapshot.partition_columns.len(),
            partitions == snapshot.partition_columns@.map_values(
                |c: PartitionColumn| c.logical_name@,
            ),
            texts(names@) == in_files + partitions.take(k as int),
        decreases snapshot.partition_columns.len() - k,
    {
        let ghost before = texts(names@);
        names.push(snapshot.partition_columns[k].logical_name.clone());
        assert(texts(names@) =~= before.push(partitions[k as int]));
        assert(in_files + partitions.take(k + 1) =~= before.push(partitions[k as int]));
        k = k + 1;
    }
    assert(partitions.take(partitions.len() as int) =~= partitions);
    push_name(&mut names, &config.file_column_name);
    push_name(&mut names, &config.commit_version_column_name);
    push_name(&mut names, &config.commit_timestamp_column_name);
    names
}

/// The position of the first text equal to `name`, or the number of texts where there is none.
pub open spec fn name_position(names: Seq<Seq<char>>, name: Seq<char>) -> int
    decreases names.len(),
{
    if names.len() == 0 {
        0
    } else if name_position(names.drop_last(), name) < names.len() - 1 {
        name_position(names.drop_last(), name)
    } else if names.last() == name {
        names.len() - 1
    } else {
        names.len() as int
    }
}

proof fn lemma_name_position(names: Seq<Seq<char>>, name: Seq<char>)
    ensures
        0 <= name_position(names, name) <= names.len(),
        name_position(names, name) < names.len() ==> names[name_position(names, name)] == name,
        forall|j: int| 0 <= j < name_position(names, name) ==> #[trigger] names[j] != name,
    decreases names.len(),
{
    if names.len() > 0 {
        let front = names.drop_last();
        lemma_name_position(front, name);
        assert forall|j: int| 0 <= j < name_position(names, name) implies #[trigger] names[j]
            != name by {
            if j < front.len() {
                assert(front[j] == names[j]);
            }
        }
    }
}

/// The positions of the first `n` fields among `names`, or the failure of the first that is not
/// there.
pub open spec fn projection(names: Seq<Seq<char>>, fields: Seq<FieldTree>, n: int) -> Result<
    Seq<int>,
    Failure,
>
    decreases n,
{
    if n <= 0 {
        Ok(Seq::empty())
    } else {
        match projection(names, fields, n - 1) {
            Err(failure) => Err(failure),
            Ok(done) => {
                let name = fields[n - 1].name;
                if name_position(names, name) < names.len() {
                    Ok(done.push(name_position(names, name)))
                } else {
                    Err(
                        plan_failure(
                            "Column '"@ + name + "' is not available in Delta file scan schema"@,
                        ),
                    )
                }
            },
        }
    }
}

proof fn lemma_projection_failure(names: Seq<Seq<char>>, fields: Seq<FieldTree>, m: int, n: int)
    requires
        m <= n,
        projection(names, fields, m) is Err,
    ensures
        projection(names, fields, n) == projection(names, fields, m),
    decreases n,
{
    if m < n && n > 0 {
        lemma_projection_failure(names, fields, m, n - 1);
    }
}

/// The numbers of a list.
pub open spec fn indices(list: Seq<usize>) -> Seq<int> {
    list.map_values(|n: usize| n as int)
}

/// The positions of the fields of `output_schema` among the columns of a scan.
pub fn file_scan_projection_for_schema(
    snapshot: &DeltaSnapshot,
    config: &DeltaScanConfig,
    file_schema: &ArrowSchema,
    output_schema: &ArrowSchema,
) -> (r: Result<Vec<usize>, ReadError>)
    ensures
        ({
            let names = scan_names(*snapshot, *config, fields_of(*file_schema));
            let fields = fields_of(*output_schema);
            let wanted = projection(names, fields, fields.len() as int);
            match r {
                Ok(list) => wanted == Ok::<_, Failure>(indices(list@)),
                Err(error) => wanted == Err::<Seq<int>, _>(error@),
            }
        }),
{
    let names: Vec<String> = file_scan_logical_names(snapshot, config, file_schema);
    let fields: Vec<ArrowField> = schema_fields(output_schema);
    let ghost all = texts(names@);
    let ghost wanted = fields_of(*output_schema);
    let mut r: Vec<usize> = Vec::new();
    let mut i: usize = 0;
    assert(indices(r@) =~= Seq::<int>::empty());
    while i < fields.len()
        invariant
            i <= fields.len(),
            all == texts(names@),
            all == scan_names(*snapshot, *config, fields_of(*file_schema)),
            wanted == field_trees(fields@),
            wanted == fields_of(*output_schema),
            wanted.len() == fields@.len(),
            projection(all, wanted, i as int) == Ok::<_, Failure>(indices(r@)),
        decreases fields.len() - i,
    {
        assert(wanted[i as int] == field_of(fields@[i as int]));
        let name: String = field_name(&fields[i]);
        let mut j: usize = 0;
        while j < names.len() && !same_text(names[j].as_str(), name.as_str())
            invariant
                j <= names.len(),
                all == texts(names@),
                forall|k: int| 0 <= k < j ==> #[trigger] all[k] != name@,
            decreases names.len() - j,
        {
            assert(all[j as int] == names@[j as int]@);
            j = j + 1;
        }
        proof {
            lemma_name_position(all, name@);
            if j < names@.len() {
                assert(all[j as int] == names@[j as int]@);
            }
        }
        assert(j == name_position(all, name@));
        if j >= names.len() {
            proof {
                lemma_projection_failure(all, wanted, i + 1, fields@.len() as int);
            }
            let mut text: String = joined("Column '", name.as_str());
            text.append("' is not available in Delta file scan schema");
            return Err(plan_error(text));
        }
        let ghost before = indices(r@);
        r.push(j);
        assert(indices(r@) =~= before.push(j as int));
        i = i + 1;
    }
    Ok(r)
}

/// The position of the last field with the name `name` in files, or -1 where there is none.
pub open spec fn last_physical(fields: Seq<LogicalField>, name: Seq<char>) -> int
    decreases fields.len(),
{
    if fields.len() == 0 {
        -1
    } else if fields.last().physical_name@ == name {
        fields.len() - 1
    } else {
        last_physical(fields.drop_last(), name)
    }
}

proof fn lemma_last_physical(fields: Seq<LogicalField>, name: Seq<char>)
    ensures
        -1 <= last_physical(fields, name) < fields.len(),
        last_physical(fields, name) >= 0 ==> fields[last_physical(fields, name)].physical_name@
            == name,
        forall|j: int|
            last_physical(fields, name) < j < fields.len() ==> (#[trigger] fields[j]).physical_name@
                != name,
    decreases fields.len(),
{
    if fields.len() > 0 {
        lemma_last_physical(fields.drop_last(), name);
        assert forall|j: int| last_physical(fields, name) < j < fields.len() implies (
        #[trigger] fields[j]).physical_name@ != name by {
            if j < fields.len() - 1 {
                assert(fields.drop_last()[j] == fields[j]);
            }
        }
    }
}

/// A field of files as the table has it, under its name in files; a field that the table does not
/// have stays.
pub open spec fn logical_file_field(logical: Seq<LogicalField>, field: FieldTree) -> FieldTree {
    let i = last_physical(logical, field.name);
    if i >= 0 {
        FieldTree { name: field.name, ..field_of(logical[i].marked) }
    } else {
        field
    }
}

/// The fields of files as the table has them.
pub open spec fn logical_file_fields(
    logical: Seq<LogicalField>,
    physical: Seq<FieldTree>,
) -> Seq<FieldTree> {
    physical.map_values(|f: FieldTree| logical_file_field(logical, f))
}

/// The metadata of a schema.
pub uninterp spec fn metadata_of(schema: ArrowSchema) -> Map<Seq<char>, Seq<char>>;

/// Calls `Schema::new_with_metadata` with the metadata of another schema. Claimed: the schema has
/// the fields in the order given, and the metadata of the other.
#[verifier::external_body]
fn schema_like(fields: Vec<ArrowField>, other: &ArrowSchema) -> (r: ArrowSchema)
    ensures
        fields_of(r) == field_trees(fields@),
        metadata_of(r) == metadata_of(*other),
{
    ArrowSchema::new_with_metadata(fields, other.metadata().clone())
}

/// The schema of files as the table has it.
pub fn logical_file_schema_for_scan(physical: &ArrowSchema, logical: &Vec<LogicalField>) -> (r:
    ArrowSchema)
    ensures
        fields_of(r) == logical_file_fields(logical@, fields_of(*physical)),
        metadata_of(r) == metadata_of(*physical),
{
    let fields: Vec<ArrowField> = schema_fields(physical);
    let ghost all = fields_of(*physical);
    let mut list: Vec<ArrowField> = Vec::new();
    let mut i: usize = 0;
    while i < fields.len()
        invariant
            i <= fields.len(),
            all == field_trees(fields@),
            list@.len() == i,
            forall|j: int|
                0 <= j < i ==> field_of(#[trigger] list@[j]) == logical_file_field(
                    logical@,
                    all[j],
                ),
        decreases fields.len() - i,
    {
        assert(all[i as int] == field_of(fields@[i as int]));
        let name: String = field_name(&fields[i]);
        proof {
            lemma_last_physical(logical@, name@);
        }
        let mut k: usize = logical.len();
        while k > 0 && !same_text(logical[k - 1].physical_name.as_str(), name.as_str())
            invariant
                k <= logical.len(),
                forall|j: int| k <= j < logical@.len() ==> (#[trigger] logical@[j]).physical_name@
                    != name@,
            decreases k,
        {
            k = k - 1;
        }
        if k > 0 {
            assert(k - 1 == last_physical(logical@, name@));
            list.push(renamed_field(clone_field(&logical[k - 1].marked), name.as_str()));
        } else {
            list.push(clone_field(&fields[i]));
        }
        i = i + 1;
    }
    assert(field_trees(list@) =~= logical_file_fields(logical@, all));
    schema_like(list, physical)
}

/// The number of groups that `count` files are spread over: as many as there are targets or files,
/// but at least one.
pub open spec fn group_count(count: nat, target: usize) -> nat {
    let wanted: nat = if target == 0 {
        1
    } else {
        target as nat
    };
    let bounded = if wanted < count {
        wanted
    } else {
        count
    };
    if bounded <= 1 {
        1
    } else {
        bounded
    }
}

/// The files of the group `g` of `groups`: every file whose position leaves `g` when divided by the
/// number of groups, in order.
pub open spec fn group_files<T>(files: Seq<T>, groups: nat, g: nat) -> Seq<T>
    decreases files.len(),
{
    if files.len() == 0 {
        Seq::empty()
    } else {
        let front = group_files(files.drop_last(), groups, g);
        if (files.len() - 1) as nat % groups == g {
            front.push(files.last())
        } else {
            front
        }
    }
}

/// What a list of groups holds.
pub open spec fn group_views<T>(groups: Seq<Vec<T>>) -> Seq<Seq<T>> {
    groups.map_values(|g: Vec<T>| g@)
}

/// The groups that files are spread over in turn.
pub open spec fn spread<T>(files: Seq<T>, target: usize) -> Seq<Seq<T>> {
    let n = group_count(files.len(), target);
    Seq::new(n, |g: int| group_files(files, n, g as nat))
}

proof fn lemma_one_group<T>(files: Seq<T>)
    ensures
        group_files(files, 1, 0) == files,
    decreases files.len(),
{
    if files.len() > 0 {
        lemma_one_group(files.drop_last());
        assert((files.len() - 1) as nat % 1 == 0);
        assert(files.drop_last().push(files.last()) =~= files);
    }
}

/// Spreads files over up to `target_partitions` groups, in turn and in order. There is always at
/// least one group.
pub fn split_files_into_groups<T>(files: Vec<T>, target_partitions: usize) -> (r: Vec<Vec<T>>)
    ensures
        group_views(r@) == spread(files@, target_partitions),
{
    let total: usize = files.len();
    let wanted: usize = if target_partitions == 0 {
        1
    } else {
        target_partitions
    };
    let n: usize = if wanted < total {
        wanted
    } else {
        total
    };
    let ghost all = files@;
    if n <= 1 {
        let mut r: Vec<Vec<T>> = Vec::new();
        r.push(files);
        proof {
            lemma_one_group(all);
            assert(group_views(r@) =~= spread(all, target_partitions));
        }
        return r;
    }
    let mut groups: Vec<Vec<T>> = Vec::new();
    let mut g: usize = 0;
    while g < n
        invariant
            g <= n,
            groups@.len() == g,
            forall|j: int| 0 <= j < g ==> (#[trigger] groups@[j])@ == Seq::<T>::empty(),
        decreases n - g,
    {
        groups.push(Vec::new());
        g = g + 1;
    }
    let mut rest: Vec<T> = crate::map::reversed(files);
    let ghost back = rest@;
    let mut index: usize = 0;
    assert(all.take(0) =~= Seq::<T>::empty());
    while rest.len() > 0
        invariant
            n > 1,
            back == all.reverse(),
            rest@ == back.take(rest@.len() as int),
            index + rest@.len() == all.len(),
            total == all.len(),
            groups@.len() == n,
            forall|j: int|
                0 <= j < n ==> (#[trigger] groups@[j])@ == group_files(
                    all.take(index as int),
                    n as nat,
                    j as nat,
                ),
        decreases rest.len(),
    {
        let file: T = rest.pop().unwrap();
        assert(file == all[index as int]);
        let k: usize = index % n;
        let ghost before = groups@;
        let mut group: Vec<T> = Vec::new();
        std::mem::swap(&mut group, &mut groups[k]);
        group.push(file);
        groups.set(k, group);
        assert(all.take(index + 1).drop_last() =~= all.take(index as int));
        assert(all.take(index + 1).last() == file);
        assert forall|j: int| 0 <= j < n implies (#[trigger] groups@[j])@ == group_files(
            all.take(index + 1),
            n as nat,
            j as nat,
        ) by {
            assert(before[j]@ == group_files(all.take(index as int), n as nat, j as nat));
        }
        index = index + 1;
    }
    assert(all.take(all.len() as int) =~= all);
    assert(group_views(groups@) =~= spread(all, target_partitions));
    groups
}

/// The number of groups follows the target, whatever the files are: it is the target, unless there
/// are fewer files, and at least one.
pub proof fn law_group_count_follows_the_target<T>(files: Seq<T>, target: usize)
    ensures
        spread(files, target).len() >= 1,
        files.len() >= target && target >= 1 ==> spread(files, target).len() == target,
        1 <= files.len() < target ==> spread(files, target).len() == files.len(),
        files.len() == 0 ==> spread(files, target).len() == 1,
{
}

/// Every file is in exactly one group: the file at `i` is in the group that its position leaves,
/// at the place that its position is a multiple of the number of groups. So no file is lost and
/// none is scanned twice.
pub proof fn law_every_file_is_in_one_group<T>(files: Seq<T>, target: usize, i: int)
    requires
        0 <= i < files.len(),
    ensures
        ({
            let n = group_count(files.len(), target) as int;
            let groups = spread(files, target);
            &&& 0 <= i % n < groups.len()
            &&& i / n < groups[i % n].len()
            &&& groups[i % n][i / n] == files[i]
        }),
{
    let n = group_count(files.len(), target);
    let k = i % n as int;
    lemma_group_files(files, n, k as nat);
    assert(0 <= k < n);
    let place = i / n as int;
    assert(place * n + k == i) by (nonlinear_arith)
        requires
            n > 0,
            k == i % n as int,
            place == i / n as int,
    ;
    assert(group_files(files, n, k as nat).len() == group_size(files.len() as int, n as int, k));
    lemma_group_size(files.len() as int, n as int, k, place);
    assert(position_of(n as int, k, place) == i);
}

/// How many of the first `count` positions leave `k` when divided by `n`.
pub open spec fn group_size(count: int, n: int, k: int) -> int {
    if count <= k {
        0
    } else {
        (count - k - 1) / n + 1
    }
}

proof fn lemma_group_size(count: int, n: int, k: int, place: int)
    requires
        0 <= k < n,
        0 <= place,
    ensures
        place * n + k < count <==> place < group_size(count, n, k),
{
    assert(place * n >= 0) by (nonlinear_arith)
        requires
            place >= 0,
            n > 0,
    ;
    if count > k {
        let q = (count - k - 1) / n;
        let d = count - k - 1;
        assert(place * n <= d <==> place <= q) by (nonlinear_arith)
            requires
                n > 0,
                d >= 0,
                place >= 0,
                q == d / n,
        ;
    }
}

/// The position of the file at `place` in the group `k` of `n`.
pub open spec fn position_of(n: int, k: int, place: int) -> int {
    place * n + k
}

/// Whether `group` has the files whose positions leave `k` when divided by `n`, in order.
pub open spec fn in_turn<T>(files: Seq<T>, n: int, k: int, group: Seq<T>) -> bool {
    forall|place: int|
        0 <= place < group.len() ==> #[trigger] position_of(n, k, place) < files.len()
            && group[place] == files[position_of(n, k, place)]
}

/// The files of a group are those whose positions leave its number, in order.
proof fn lemma_group_files<T>(files: Seq<T>, n: nat, k: nat)
    requires
        0 < n,
        k < n,
    ensures
        group_files(files, n, k).len() == group_size(files.len() as int, n as int, k as int),
        in_turn(files, n as int, k as int, group_files(files, n, k)),
    decreases files.len(),
{
    if files.len() > 0 {
        let front = files.drop_last();
        lemma_group_files(front, n, k);
        let count = files.len() as int;
        let last = count - 1;
        let before = group_files(front, n, k);
        let after = group_files(files, n, k);
        let m = n as int;
        let r = k as int;
        if last % m == r {
            let q = last / m;
            assert(q * m + r == last && q >= 0) by (nonlinear_arith)
                requires
                    m > 0,
                    last >= 0,
                    r == last % m,
                    q == last / m,
            ;
            lemma_group_size(last, m, r, q);
            lemma_group_size(count, m, r, q);
            if q > 0 {
                assert((q - 1) * m + r < last) by (nonlinear_arith)
                    requires
                        q * m + r == last,
                        m > 0,
                ;
                lemma_group_size(last, m, r, q - 1);
            }
            assert((q + 1) * m + r > last) by (nonlinear_arith)
                requires
                    q * m + r == last,
                    m > 0,
            ;
            lemma_group_size(count, m, r, q + 1);
            assert(before.len() == q);
            assert(group_size(count, m, r) == q + 1);
            assert(after =~= before.push(files.last()));
            assert forall|place: int| 0 <= place < after.len() implies #[trigger] position_of(
                m,
                r,
                place,
            ) < files.len() && after[place] == files[position_of(m, r, place)] by {
                if place < before.len() {
                    assert(position_of(m, r, place) < front.len());
                    assert(0 <= place * m) by (nonlinear_arith)
                        requires
                            0 <= place,
                            0 < m,
                    ;
                }
            }
        } else {
            let s = group_size(last, m, r);
            let t = group_size(count, m, r);
            assert(s == t) by {
                assert(s >= 0) by (nonlinear_arith)
                    requires
                        m > 0,
                        s == group_size(last, m, r),
                        group_size(last, m, r) == if last <= r {
                            0
                        } else {
                            (last - r - 1) / m + 1
                        },
                ;
                lemma_group_size(last, m, r, s);
                assert(s * m + r >= last);
                assert(s * m + r != last) by (nonlinear_arith)
                    requires
                        m > 0,
                        0 <= r < m,
                        last % m != r,
                        s >= 0,
                ;
                lemma_group_size(count, m, r, s);
                assert(t <= s);
                if s > 0 {
                    lemma_group_size(last, m, r, s - 1);
                    lemma_group_size(count, m, r, s - 1);
                }
            }
            assert(after == before);
            assert forall|place: int| 0 <= place < after.len() implies #[trigger] position_of(
                m,
                r,
                place,
            ) < files.len() && after[place] == files[position_of(m, r, place)] by {
                assert(position_of(m, r, place) < front.len());
                assert(0 <= place * m) by (nonlinear_arith)
                    requires
                        0 <= place,
                        0 < m,
                ;
            }
        }
    }
}

/// The sizes of two groups differ by at most one.
pub proof fn law_groups_are_even<T>(files: Seq<T>, target: usize, a: int, b: int)
    requires
        0 <= a < spread(files, target).len(),
        0 <= b < spread(files, target).len(),
    ensures
        spread(files, target)[a].len() <= spread(files, target)[b].len() + 1,
{
    let n = group_count(files.len(), target);
    lemma_group_files(files, n, a as nat);
    lemma_group_files(files, n, b as nat);
    let m = n as int;
    let count = files.len() as int;
    let s = group_size(count, m, b);
    assert(s >= 0) by (nonlinear_arith)
        requires
            m > 0,
            s == group_size(count, m, b),
            group_size(count, m, b) == if count <= b {
                0
            } else {
                (count - b - 1) / m + 1
            },
    ;
    lemma_group_size(count, m, b, s);
    assert((s + 1) * m + a >= s * m + b) by (nonlinear_arith)
        requires
            0 <= a,
            b < m,
    ;
    lemma_group_size(count, m, a, s + 1);
}

/// A file of a table as its log has it: where it is, the values of the columns that the table is
/// partitioned by, the commit that added it, and what is recorded of its contents.
#[derive(Debug)]
pub struct ScanFile {
    pub path: String,
    pub location: Path,
    pub partition_values: Vec<Scalar>,
    pub commit_version: Option<i64>,
    pub commit_timestamp: Option<i64>,
    pub stats: Option<FileStats>,
}

/// A file to scan: its position in the list of files, where it is, the values of the columns that
/// it has no data for, and what is known of it.
#[derive(Debug)]
pub struct PlannedFile {
    pub index: usize,
    pub location: Path,
    pub partition_values: Vec<Scalar>,
    pub statistics: Option<Statistics>,
}

/// What a `PlannedFile` stands for.
pub struct PlannedTree {
    pub index: usize,
    pub location: Seq<char>,
    pub partition_values: Seq<ScalarTree>,
    pub statistics: Option<StatsTree>,
}

/// What a list of values stands for.
pub open spec fn scalar_trees(values: Seq<Scalar>) -> Seq<ScalarTree> {
    values.map_values(|v: Scalar| v@)
}

/// What optional statistics stand for.
pub open spec fn optional_stats(stats: Option<Statistics>) -> Option<StatsTree> {
    match stats {
        Some(stats) => Some(stats@),
        None => None,
    }
}

impl View for PlannedFile {
    type V = PlannedTree;

    open spec fn view(&self) -> PlannedTree {
        PlannedTree {
            index: self.index,
            location: path_text_of(self.location),
            partition_values: scalar_trees(self.partition_values@),
            statistics: optional_stats(self.statistics),
        }
    }
}

/// What a list of files to scan stands for.
pub open spec fn planned_trees(files: Seq<PlannedFile>) -> Seq<PlannedTree> {
    files.map_values(|f: PlannedFile| f@)
}

/// The value of the column with the path of a file.
pub open spec fn path_value(path: Seq<char>, wrap: bool) -> ScalarTree {
    if wrap {
        in_dictionary(text_value(path))
    } else {
        text_value(path)
    }
}

/// The value `value` where a column is asked for by a name.
pub open spec fn where_asked(name: Option<String>, value: ScalarTree) -> Seq<ScalarTree> {
    if name is Some {
        seq![value]
    } else {
        Seq::empty()
    }
}

/// The values of the columns that a file has no data for: those that the table is partitioned by,
/// then those that the scan adds.
pub open spec fn file_values(file: ScanFile, config: DeltaScanConfig) -> Seq<ScalarTree> {
    scalar_trees(file.partition_values@) + where_asked(
        config.file_column_name,
        path_value(file.path@, config.wrap_partition_values),
    ) + where_asked(config.commit_version_column_name, number_value(file.commit_version))
        + where_asked(config.commit_timestamp_column_name, number_value(file.commit_timestamp))
}

/// What is known of a file with the fields `fields`.
pub open spec fn file_stats(
    file: ScanFile,
    fields: Seq<FieldTree>,
    has_time: Seq<bool>,
) -> Option<StatsTree> {
    match file.stats {
        Some(stats) => Some(recorded_stats(stats, fields, has_time)),
        None => None,
    }
}

/// The file at `index` as a file to scan.
pub open spec fn planned_file(
    file: ScanFile,
    index: int,
    config: DeltaScanConfig,
    root: Seq<char>,
    fields: Seq<FieldTree>,
    has_time: Seq<bool>,
) -> PlannedTree {
    PlannedTree {
        index: index as usize,
        location: file_location(root, path_text_of(file.location)),
        partition_values: file_values(file, config),
        statistics: file_stats(file, fields, has_time),
    }
}

/// All files as files to scan.
pub open spec fn planned_files(
    files: Seq<ScanFile>,
    config: DeltaScanConfig,
    root: Seq<char>,
    fields: Seq<FieldTree>,
    has_time: Seq<bool>,
) -> Seq<PlannedTree> {
    Seq::new(
        files.len(),
        |i: int| planned_file(files[i], i, config, root, fields, has_time),
    )
}

/// Adds a value.
fn push_value(values: &mut Vec<Scalar>, value: Scalar)
    ensures
        scalar_trees(final(values)@) == scalar_trees(old(values)@) + seq![value@],
{
    let ghost before = scalar_trees(values@);
    values.push(value);
    assert(scalar_trees(values@) =~= before + seq![value@]);
}

/// A file as a file to scan.
fn plan_file(
    file: ScanFile,
    index: usize,
    config: &DeltaScanConfig,
    root: &Path,
    file_schema: &ArrowSchema,
    has_time: &Vec<bool>,
) -> (r: PlannedFile)
    requires
        has_time@.len() == fields_of(*file_schema).len(),
    ensures
        r@ == planned_file(
            file,
            index as int,
            *config,
            path_text_of(*root),
            fields_of(*file_schema),
            has_time@,
        ),
{
    let statistics: Option<Statistics> = stats_for_add(&file.stats, file_schema, has_time);
    let mut values: Vec<Scalar> = file.partition_values;
    let ghost given = scalar_trees(values@);
    if config.file_column_name.is_some() {
        if config.wrap_partition_values {
            push_value(&mut values, Scalar::text_in_dictionary(file.path));
        } else {
            push_value(&mut values, Scalar::text(file.path));
        }
    }
    if config.commit_version_column_name.is_some() {
        push_value(&mut values, Scalar::int64(file.commit_version));
    }
    if config.commit_timestamp_column_name.is_some() {
        push_value(&mut values, Scalar::int64(file.commit_timestamp));
    }
    assert(scalar_trees(values@) =~= file_values(file, *config));
    PlannedFile {
        index,
        location: rewrite_data_file_location(root, file.location),
        partition_values: values,
        statistics,
    }
}

/// All files as files to scan.
fn plan_files(
    files: Vec<ScanFile>,
    config: &DeltaScanConfig,
    root: &Path,
    file_schema: &ArrowSchema,
    has_time: &Vec<bool>,
) -> (r: Vec<PlannedFile>)
    requires
        has_time@.len() == fields_of(*file_schema).len(),
    ensures
        planned_trees(r@) == planned_files(
            files@,
            *config,
            path_text_of(*root),
            fields_of(*file_schema),
            has_time@,
        ),
{
    let ghost all = files@;
    let ghost fields = fields_of(*file_schema);
    let mut rest: Vec<ScanFile> = crate::map::reversed(files);
    let ghost back = rest@;
    let mut r: Vec<PlannedFile> = Vec::new();
    while rest.len() > 0
        invariant
            has_time@.len() == fields.len(),
            fields == fields_of(*file_schema),
            back == all.reverse(),
            rest@ == back.take(rest@.len() as int),
            r@.len() + rest@.len() == all.len(),
            forall|j: int|
                0 <= j < r@.len() ==> (#[trigger] r@[j])@ == planned_file(
                    all[j],
                    j,
                    *config,
                    path_text_of(*root),
                    fields,
                    has_time@,
                ),
        decreases rest.len(),
    {
        let index: usize = r.len();
        let file: ScanFile = rest.pop().unwrap();
        assert(file == all[index as int]);
        r.push(plan_file(file, index, config, root, file_schema, has_time));
    }
    assert(planned_trees(r@) =~= planned_files(
        all,
        *config,
        path_text_of(*root),
        fields,
        has_time@,
    ));
    r
}

/// The types of columns that a table may be partitioned by, as far as they are told apart.
enum PartitionKind {
    Utf8,
    LargeUtf8,
    Binary,
    LargeBinary,
    Other,
}

spec fn kind_of(data_type: TypeTree) -> PartitionKind {
    match data_type {
        TypeTree::Utf8 => PartitionKind::Utf8,
        TypeTree::LargeUtf8 => PartitionKind::LargeUtf8,
        TypeTree::Binary => PartitionKind::Binary,
        TypeTree::LargeBinary => PartitionKind::LargeBinary,
        _ => PartitionKind::Other,
    }
}

/// Tells variants of `arrow::datatypes::DataType` apart. Claimed: the variant that the type is, as
/// far as it is one of the four.
#[verifier::external_body]
fn partition_kind(data_type: &ArrowType) -> (r: PartitionKind)
    ensures
        r == kind_of(type_of(*data_type)),
{
    match data_type {
        ArrowType::Utf8 => PartitionKind::Utf8,
        ArrowType::LargeUtf8 => PartitionKind::LargeUtf8,
        ArrowType::Binary => PartitionKind::Binary,
        ArrowType::LargeBinary => PartitionKind::LargeBinary,
        _ => PartitionKind::Other,
    }
}

/// Whether values of a type are kept once where partition values are wrapped: texts and bytes are.
pub open spec fn wrapped_in_dictionary(data_type: TypeTree) -> bool {
    data_type == TypeTree::Utf8 || data_type == TypeTree::LargeUtf8 || data_type
        == TypeTree::Binary || data_type == TypeTree::LargeBinary
}

/// The field of a column that the table is partitioned by, under its name in files.
pub open spec fn partition_field(
    column: PartitionColumn,
    fields: Seq<FieldTree>,
    wrap: bool,
) -> Result<FieldTree, Failure> {
    let i = field_position(fields, column.logical_name@);
    if i < fields.len() {
        let data_type = fields[i].data_type;
        Ok(
            FieldTree {
                name: column.physical_name@,
                data_type: if wrap && wrapped_in_dictionary(data_type) {
                    dictionary_type(data_type)
                } else {
                    data_type
                },
                ..fields[i]
            },
        )
    } else {
        Err(
            plan_failure(
                "Partition column "@ + column.logical_name@ + " not found in schema"@,
            ),
        )
    }
}

/// The fields of the first `n` columns that the table is partitioned by, or the failure of the
/// first that the schema lacks.
pub open spec fn partition_fields(
    columns: Seq<PartitionColumn>,
    fields: Seq<FieldTree>,
    wrap: bool,
    n: int,
) -> Result<Seq<FieldTree>, Failure>
    decreases n,
{
    if n <= 0 {
        Ok(Seq::empty())
    } else {
        match partition_fields(columns, fields, wrap, n - 1) {
            Err(failure) => Err(failure),
            Ok(done) => match partition_field(columns[n - 1], fields, wrap) {
                Ok(field) => Ok(done.push(field)),
                Err(failure) => Err(failure),
            },
        }
    }
}

proof fn lemma_partition_failure(
    columns: Seq<PartitionColumn>,
    fields: Seq<FieldTree>,
    wrap: bool,
    m: int,
    n: int,
)
    requires
        m <= n,
        partition_fields(columns, fields, wrap, m) is Err,
    ensures
        partition_fields(columns, fields, wrap, n) == partition_fields(columns, fields, wrap, m),
    decreases n,
{
    if m < n && n > 0 {
        lemma_partition_failure(columns, fields, wrap, m, n - 1);
    }
}

/// The field of a column with the name `name`, where one is asked for.
pub open spec fn asked_field(name: Option<String>, data_type: TypeTree) -> Seq<FieldTree> {
    match name {
        Some(name) => seq![column(name@, data_type, true)],
        None => Seq::empty(),
    }
}

/// The fields of the columns that a scan adds.
pub open spec fn added_fields(config: DeltaScanConfig) -> Seq<FieldTree> {
    asked_field(
        config.file_column_name,
        if config.wrap_partition_values {
            dictionary_type(TypeTree::Utf8)
        } else {
            TypeTree::Utf8
        },
    ) + asked_field(config.commit_version_column_name, TypeTree::Int64) + asked_field(
        config.commit_timestamp_column_name,
        TypeTree::Int64,
    )
}

/// The fields of the columns that files have no data for.
pub open spec fn virtual_fields(
    columns: Seq<PartitionColumn>,
    fields: Seq<FieldTree>,
    config: DeltaScanConfig,
) -> Result<Seq<FieldTree>, Failure> {
    match partition_fields(columns, fields, config.wrap_partition_values, columns.len() as int) {
        Ok(list) => Ok(list + added_fields(config)),
        Err(failure) => Err(failure),
    }
}

/// The type `Utf8` of Arrow.
fn utf8_type() -> (r: ArrowType)
    ensures
        type_of(r) == TypeTree::Utf8,
{
    to_arrow_type(&ColumnType::Utf8)
}

/// Adds the field of a column with the name `name`, where one is asked for.
fn push_asked(list: &mut Vec<ArrowField>, name: &Option<String>, data_type: ArrowType)
    ensures
        field_trees(final(list)@) == field_trees(old(list)@) + asked_field(
            *name,
            type_of(data_type),
        ),
{
    let ghost before = field_trees(list@);
    match name {
        Some(name) => {
            let field: ArrowField = new_field(name.as_str(), data_type, true);
            list.push(field);
            assert(field_trees(list@) =~= before + seq![field_of(field)]);
        },
        None => {
            assert(before + Seq::<FieldTree>::empty() =~= before);
        },
    }
}

/// The fields of the columns that files have no data for.
fn plan_virtual_fields(
    columns: &Vec<PartitionColumn>,
    fields: &Vec<ArrowField>,
    config: &DeltaScanConfig,
) -> (r: Result<Vec<ArrowField>, ReadError>)
    ensures
        ({
            let wanted = virtual_fields(columns@, field_trees(fields@), *config);
            match r {
                Ok(list) => wanted == Ok::<_, Failure>(field_trees(list@)),
                Err(error) => wanted == Err::<Seq<FieldTree>, _>(error@),
            }
        }),
{
    let ghost all = field_trees(fields@);
    let wrap: bool = config.wrap_partition_values;
    let mut list: Vec<ArrowField> = Vec::new();
    let mut i: usize = 0;
    assert(field_trees(list@) =~= Seq::<FieldTree>::empty());
    while i < columns.len()
        invariant
            i <= columns.len(),
            wrap == config.wrap_partition_values,
            all == field_trees(fields@),
            partition_fields(columns@, all, wrap, i as int) == Ok::<_, Failure>(
                field_trees(list@),
            ),
        decreases columns.len() - i,
    {
        let column: &PartitionColumn = &columns[i];
        let k: usize = find_field(fields, column.logical_name.as_str());
        if k >= fields.len() {
            proof {
                lemma_partition_failure(columns@, all, wrap, i + 1, columns@.len() as int);
            }
            let mut text: String = joined("Partition column ", column.logical_name.as_str());
            text.append(" not found in schema");
            return Err(plan_error(text));
        }
        assert(all[k as int] == field_of(fields@[k as int]));
        let data_type: ArrowType = field_data_type(&fields[k]);
        let corrected: ArrowType = if wrap {
            match partition_kind(&data_type) {
                PartitionKind::Other => data_type,
                _ => wrap_type(data_type),
            }
        } else {
            data_type
        };
        let renamed: ArrowField = renamed_field(
            clone_field(&fields[k]),
            column.physical_name.as_str(),
        );
        let field: ArrowField = retyped_field(renamed, corrected);
        let ghost before = field_trees(list@);
        list.push(field);
        assert(field_trees(list@) =~= before.push(field_of(field)));
        i = i + 1;
    }
    let ghost listed = field_trees(list@);
    let path_type: ArrowType = if wrap {
        wrap_type(utf8_type())
    } else {
        utf8_type()
    };
    push_asked(&mut list, &config.file_column_name, path_type);
    push_asked(
        &mut list,
        &config.commit_version_column_name,
        to_arrow_type(&ColumnType::Int64),
    );
    push_asked(
        &mut list,
        &config.commit_timestamp_column_name,
        to_arrow_type(&ColumnType::Int64),
    );
    assert(field_trees(list@) =~= listed + added_fields(*config));
    Ok(list)
}

/// The columns in the number `n`: columns of which nothing is known are added, or the last are left
/// out.
pub open spec fn resized(columns: Seq<ColumnStatsTree>, n: nat) -> Seq<ColumnStatsTree> {
    Seq::new(
        n,
        |i: int|
            if i < columns.len() {
                columns[i]
            } else {
                unknown_column()
            },
    )
}

/// Brings the columns to the number `n`.
fn resize_columns(columns: &mut Vec<ColumnStatistics>, n: usize)
    ensures
        column_trees(final(columns)@) == resized(column_trees(old(columns)@), n as nat),
{
    let ghost before = column_trees(columns@);
    let mut r: Vec<ColumnStatistics> = Vec::new();
    let mut i: usize = 0;
    while i < n
        invariant
            i <= n,
            before == column_trees(columns@),
            r@.len() == i,
            forall|j: int|
                0 <= j < i ==> (#[trigger] r@[j])@ == if j < before.len() {
                    before[j]
                } else {
                    unknown_column()
                },
        decreases n - i,
    {
        if i < columns.len() {
            assert(before[i as int] == columns@[i as int]@);
            r.push(columns[i].duplicate());
        } else {
            r.push(ColumnStatistics::new_unknown());
        }
        i = i + 1;
    }
    *columns = r;
    assert(column_trees(columns@) =~= resized(before, n as nat));
}

/// What is known of each file, where something is known of each.
pub open spec fn all_stats(files: Seq<PlannedTree>) -> Seq<StatsTree> {
    files.map_values(|f: PlannedTree| f.statistics->0)
}

/// What is known of a table before it is fitted to the schema: what the snapshot has, or what the
/// files have together where all of them have statistics; else nothing.
pub open spec fn source_stats(
    mode: TableStatsMode,
    snapshot_stats: Option<StatsTree>,
    snapshot_fields: Seq<LogicalField>,
    table_fields: Seq<FieldTree>,
    files: Seq<PlannedTree>,
) -> StatsTree {
    match mode {
        TableStatsMode::Snapshot => match snapshot_stats {
            Some(stats) => mapped(
                stats,
                logical_trees(snapshot_fields),
                table_fields,
                logical_names(snapshot_fields),
            ),
            None => unknown_table(table_fields.len()),
        },
        TableStatsMode::AddsOnly => if forall|i: int|
            0 <= i < files.len() ==> (#[trigger] files[i]).statistics is Some {
            aggregated(all_stats(files))
        } else {
            unknown_table(table_fields.len())
        },
        TableStatsMode::Unknown => unknown_table(table_fields.len()),
    }
}

/// What is known of a table: a column for each field, with bounds of the field's type.
pub open spec fn table_stats(source: StatsTree, table_fields: Seq<FieldTree>) -> StatsTree {
    StatsTree {
        columns: sane_columns(resized(source.columns, table_fields.len()), table_fields),
        ..source
    }
}

/// The statistics of the files, where all of them have any.
fn collect_stats(files: &Vec<PlannedFile>) -> (r: Option<Vec<Statistics>>)
    ensures
        ({
            let all = planned_trees(files@);
            match r {
                Some(list) => stats_trees(list@) == all_stats(all) && forall|i: int|
                    0 <= i < all.len() ==> (#[trigger] all[i]).statistics is Some,
                None => !(forall|i: int|
                    0 <= i < all.len() ==> (#[trigger] all[i]).statistics is Some),
            }
        }),
{
    let ghost all = planned_trees(files@);
    let mut list: Vec<Statistics> = Vec::new();
    let mut i: usize = 0;
    while i < files.len()
        invariant
            i <= files.len(),
            all == planned_trees(files@),
            list@.len() == i,
            forall|j: int| 0 <= j < i ==> (#[trigger] all[j]).statistics is Some,
            forall|j: int| 0 <= j < i ==> (#[trigger] list@[j])@ == all[j].statistics->0,
        decreases files.len() - i,
    {
        assert(all[i as int] == files@[i as int]@);
        match &files[i].statistics {
            Some(stats) => {
                list.push(stats.duplicate());
            },
            None => {
                return None;
            },
        }
        i = i + 1;
    }
    assert(stats_trees(list@) =~= all_stats(all));
    Some(list)
}

/// Whether the bounds that the statistics of a table come from can be taken as bounds of the types
/// of its fields.
pub open spec fn statistics_fit(
    mode: TableStatsMode,
    snapshot_stats: Option<StatsTree>,
    snapshot_fields: Seq<LogicalField>,
    table_fields: Seq<FieldTree>,
    files: Seq<PlannedTree>,
) -> bool {
    match mode {
        TableStatsMode::Snapshot => match snapshot_stats {
            Some(stats) => mapping_fits(
                stats,
                logical_trees(snapshot_fields),
                table_fields,
                logical_names(snapshot_fields),
            ),
            None => true,
        },
        TableStatsMode::AddsOnly => (forall|i: int|
            0 <= i < files.len() ==> (#[trigger] files[i]).statistics is Some) ==> all_bounds_fit(
            aggregated(all_stats(files)).columns,
            table_fields,
        ),
        TableStatsMode::Unknown => true,
    }
}

/// What is known of the scanned table; nothing where bounds cannot be taken as bounds of the types
/// of its fields.
fn plan_statistics(
    mode: TableStatsMode,
    snapshot_stats: &Option<Statistics>,
    snapshot: &DeltaSnapshot,
    table_schema: &ArrowSchema,
    files: &Vec<PlannedFile>,
) -> (r: Option<Statistics>)
    ensures
        ({
            let known = optional_stats(*snapshot_stats);
            let fields = fields_of(*table_schema);
            let planned = planned_trees(files@);
            &&& r is Some == statistics_fit(mode, known, snapshot.fields@, fields, planned)
            &&& r matches Some(stats) ==> stats@ == table_stats(
                source_stats(mode, known, snapshot.fields@, fields, planned),
                fields,
            )
        }),
{
    let ghost table_fields = fields_of(*table_schema);
    let n: usize = schema_fields(table_schema).len();
    let mut stats: Statistics = match mode {
        TableStatsMode::Snapshot => match snapshot_stats {
            Some(stats) => {
                let names: StringMap<String> = physical_to_logical_name_map(snapshot);
                let mut fields: Vec<ArrowField> = Vec::new();
                let mut i: usize = 0;
                while i < snapshot.fields.len()
                    invariant
                        i <= snapshot.fields.len(),
                        fields@.len() == i,
                        forall|j: int|
                            0 <= j < i ==> field_of(#[trigger] fields@[j]) == field_of(
                                snapshot.fields@[j].field,
                            ),
                    decreases snapshot.fields.len() - i,
                {
                    fields.push(clone_field(&snapshot.fields[i].field));
                    i = i + 1;
                }
                assert(field_trees(fields@) =~= logical_trees(snapshot.fields@));
                let snapshot_schema: ArrowSchema = new_schema(fields);
                if !is_mapping_fit(stats, &snapshot_schema, table_schema, Some(&names)) {
                    return None;
                }
                let mapped_stats: Statistics = map_statistics_to_schema_with_name_mapping(
                    stats,
                    &snapshot_schema,
                    table_schema,
                    Some(&names),
                );
                assert forall|i: int|
                    0 <= i < mapped_stats@.columns.len() && i < table_fields.len() implies bounds_fit(
                    #[trigger] mapped_stats@.columns[i],
                    table_fields[i].data_type,
                ) by {
                    let field = table_fields[i];
                    assert(mapped_stats@.columns[i] == mapped_column(
                        stats@.columns,
                        logical_trees(snapshot.fields@),
                        names@,
                        field,
                    ));
                }
                mapped_stats
            },
            None => Statistics::new_unknown(n),
        },
        TableStatsMode::AddsOnly => match collect_stats(files) {
            Some(list) => {
                let known: Statistics = aggregate_table_stats_from_files(&list);
                if !are_bounds_fit(&known.column_statistics, table_schema) {
                    return None;
                }
                known
            },
            None => Statistics::new_unknown(n),
        },
        TableStatsMode::Unknown => Statistics::new_unknown(n),
    };
    let ghost source = stats@;
    assert(all_bounds_fit(source.columns, table_fields));
    assert(table_fields.len() == n);
    resize_columns(&mut stats.column_statistics, n);
    sanitize_statistics_for_schema(table_schema, &mut stats);
    assert(stats@ == table_stats(source, table_fields));
    Some(stats)
}

/// What a scan is asked for.
#[derive(Debug)]
pub struct FileScanParams {
    pub projection: Option<Vec<usize>>,
    pub limit: Option<usize>,
    /// Whether there is a filter that may be pushed down.
    pub has_filter: bool,
    /// Whether the rows have to come in an order.
    pub has_sort_order: bool,
    pub table_stats_mode: TableStatsMode,
    pub target_partitions: usize,
}

/// How the files of a scan are grouped.
#[derive(Debug)]
pub enum FileGroups {
    /// By the bounds of their columns, so that an order is kept.
    ByStatistics(Vec<PlannedFile>),
    /// These groups.
    Spread(Vec<Vec<PlannedFile>>),
}

/// What a `FileGroups` stands for.
pub enum GroupsTree {
    ByStatistics(Seq<PlannedTree>),
    Spread(Seq<Seq<PlannedTree>>),
}

impl View for FileGroups {
    type V = GroupsTree;

    open spec fn view(&self) -> GroupsTree {
        match self {
            FileGroups::ByStatistics(files) => GroupsTree::ByStatistics(planned_trees(files@)),
            FileGroups::Spread(groups) => GroupsTree::Spread(
                groups@.map_values(|g: Vec<PlannedFile>| planned_trees(g@)),
            ),
        }
    }
}

/// Whether anything is known of the columns of a file.
pub open spec fn planned_known(file: PlannedTree) -> bool {
    file.statistics matches Some(stats) && exists|i: int|
        0 <= i < stats.columns.len() && #[trigger] crate::delta::statistics::column_known(
            stats.columns[i],
        )
}

/// How files are grouped: where an order is asked for and something is known of every file, by what
/// is known; else they are spread over the targets.
pub open spec fn grouped(
    files: Seq<PlannedTree>,
    has_sort_order: bool,
    target: usize,
) -> GroupsTree {
    if has_sort_order && forall|i: int|
        0 <= i < files.len() ==> planned_known(#[trigger] files[i]) {
        GroupsTree::ByStatistics(files)
    } else {
        GroupsTree::Spread(spread(files, target))
    }
}

proof fn lemma_group_files_map(files: Seq<PlannedFile>, n: nat, k: nat)
    ensures
        planned_trees(group_files(files, n, k)) == group_files(planned_trees(files), n, k),
    decreases files.len(),
{
    let trees = planned_trees(files);
    if files.len() > 0 {
        lemma_group_files_map(files.drop_last(), n, k);
        assert(planned_trees(files.drop_last()) =~= trees.drop_last());
        let before = group_files(files.drop_last(), n, k);
        assert(planned_trees(before.push(files.last())) =~= planned_trees(before).push(
            files.last()@,
        ));
    } else {
        assert(planned_trees(group_files(files, n, k)) =~= Seq::<PlannedTree>::empty());
    }
}

/// Groups the files of a scan.
fn group_planned_files(files: Vec<PlannedFile>, has_sort_order: bool, target: usize) -> (r:
    FileGroups)
    ensures
        r@ == grouped(planned_trees(files@), has_sort_order, target),
{
    let ghost all = planned_trees(files@);
    let mut known: bool = true;
    let mut i: usize = 0;
    while i < files.len()
        invariant
            i <= files.len(),
            all == planned_trees(files@),
            known == (forall|j: int| 0 <= j < i ==> planned_known(#[trigger] all[j])),
        decreases files.len() - i,
    {
        assert(all[i as int] == files@[i as int]@);
        let one: bool = has_statistics(&files[i].statistics);
        assert(one == planned_known(all[i as int]));
        if !one {
            known = false;
        }
        i = i + 1;
    }
    if has_sort_order && known {
        return FileGroups::ByStatistics(files);
    }
    let ghost listed = files@;
    let groups: Vec<Vec<PlannedFile>> = split_files_into_groups(files, target);
    let ghost n = group_count(listed.len(), target);
    proof {
        let trees = groups@.map_values(|g: Vec<PlannedFile>| planned_trees(g@));
        assert(group_views(groups@).len() == n);
        assert(groups@.len() == n);
        assert forall|g: int| 0 <= g < n implies #[trigger] trees[g] == spread(all, target)[g] by {
            assert(group_views(groups@)[g] == group_files(listed, n, g as nat));
            assert(group_views(groups@)[g] == groups@[g]@);
            assert(trees[g] == planned_trees(groups@[g]@));
            lemma_group_files_map(listed, n, g as nat);
        }
        assert(trees =~= spread(all, target));
    }
    FileGroups::Spread(groups)
}

/// The plan of a scan.
#[derive(Debug)]
pub struct FileScanConfig {
    /// The schema of the files as the table has it.
    pub file_schema: ArrowSchema,
    /// The fields of the columns that files have no data for.
    pub partition_fields: Vec<ArrowField>,
    pub statistics: Statistics,
    pub file_groups: FileGroups,
    pub projection: Option<Vec<usize>>,
    pub limit: Option<usize>,
    /// Whether the filter is pushed down.
    pub use_filter: bool,
    pub struct_matching: StructFieldMatching,
}

/// By what the fields of structures are matched in a table.
pub open spec fn matching_of(mode: ColumnMappingMode) -> StructFieldMatching {
    match mode {
        ColumnMappingMode::Unmapped => StructFieldMatching::Name,
        ColumnMappingMode::Name => StructFieldMatching::PhysicalName,
        ColumnMappingMode::Id => StructFieldMatching::FieldId,
    }
}

/// The fields of a scan: those that were given in place of the table's, or the table's.
pub open spec fn complete_fields(snapshot: DeltaSnapshot, config: DeltaScanConfig) -> Seq<
    LogicalField,
> {
    match config.schema {
        Some(fields) => fields@,
        None => snapshot.fields@,
    }
}

/// What a plan is made of: all that a scan is asked with.
pub struct ScanRequest {
    pub snapshot: DeltaSnapshot,
    pub table_root: Path,
    pub files: Seq<ScanFile>,
    pub config: DeltaScanConfig,
    pub params: FileScanParams,
    pub file_schema: ArrowSchema,
    pub has_time: Seq<bool>,
    pub snapshot_stats: Option<Statistics>,
}

impl ScanRequest {
    /// The fields of the files, as the table has them.
    pub open spec fn file_fields(self) -> Seq<FieldTree> {
        logical_file_fields(
            complete_fields(self.snapshot, self.config),
            fields_of(self.file_schema),
        )
    }

    /// The fields of the columns that files have no data for, or why there are none.
    pub open spec fn added_fields(self) -> Result<Seq<FieldTree>, Failure> {
        virtual_fields(
            self.snapshot.partition_columns@,
            logical_trees(complete_fields(self.snapshot, self.config)),
            self.config,
        )
    }

    /// The files to scan.
    pub open spec fn planned(self) -> Seq<PlannedTree> {
        planned_files(
            self.files,
            self.config,
            path_text_of(self.table_root),
            fields_of(self.file_schema),
            self.has_time,
        )
    }

    /// Whether bounds can be taken as bounds of the types of the fields that have them.
    pub open spec fn bounds_fit(self) -> bool {
        self.added_fields() matches Ok(added) ==> statistics_fit(
            self.params.table_stats_mode,
            optional_stats(self.snapshot_stats),
            self.snapshot.fields@,
            self.file_fields() + added,
            self.planned(),
        )
    }

    /// What a scan is answered: a plan, or why there is none.
    pub open spec fn answered(self, r: Result<FileScanConfig, ReadError>) -> bool {
        match r {
            Err(error) => self.added_fields() == Err::<Seq<FieldTree>, _>(error@),
            Ok(plan) => {
                let added = field_trees(plan.partition_fields@);
                &&& self.added_fields() == Ok::<_, Failure>(added)
                &&& fields_of(plan.file_schema) == self.file_fields()
                &&& metadata_of(plan.file_schema) == metadata_of(self.file_schema)
                &&& plan.file_groups@ == grouped(
                    self.planned(),
                    self.params.has_sort_order,
                    self.params.target_partitions,
                )
                &&& plan.statistics@ == table_stats(
                    source_stats(
                        self.params.table_stats_mode,
                        optional_stats(self.snapshot_stats),
                        self.snapshot.fields@,
                        self.file_fields() + added,
                        self.planned(),
                    ),
                    self.file_fields() + added,
                )
                &&& plan.projection == self.params.projection
                &&& plan.limit == self.params.limit
                &&& plan.use_filter == (self.params.has_filter
                    && self.config.enable_parquet_pushdown)
                &&& plan.struct_matching == matching_of(self.snapshot.column_mapping)
            },
        }
    }
}

/// The plan of a scan of `files`. `snapshot_stats` is what the snapshot knows of them together, and
/// `has_time` says of each field of the files whether its type contains a timestamp.
pub fn build_file_scan_config(
    snapshot: &DeltaSnapshot,
    table_root: &Path,
    files: Vec<ScanFile>,
    config: &DeltaScanConfig,
    params: FileScanParams,
    file_schema: &ArrowSchema,
    has_time: &Vec<bool>,
    snapshot_stats: &Option<Statistics>,
) -> (r: Result<FileScanConfig, ReadError>)
    requires
        has_time@.len() == fields_of(*file_schema).len(),
        (ScanRequest {
            snapshot: *snapshot,
            table_root: *table_root,
            files: files@,
            config: *config,
            params,
            file_schema: *file_schema,
            has_time: has_time@,
            snapshot_stats: *snapshot_stats,
        }).bounds_fit(),
    ensures
        (ScanRequest {
            snapshot: *snapshot,
            table_root: *table_root,
            files: files@,
            config: *config,
            params,
            file_schema: *file_schema,
            has_time: has_time@,
            snapshot_stats: *snapshot_stats,
        }).answered(r),
{
    try_build_file_scan_config(
        snapshot,
        table_root,
        files,
        config,
        params,
        file_schema,
        has_time,
        snapshot_stats,
    ).unwrap()
}

/// The plan of a scan of `files`; nothing where bounds cannot be taken as bounds of the types of
/// the fields that have them.
pub fn try_build_file_scan_config(
    snapshot: &DeltaSnapshot,
    table_root: &Path,
    files: Vec<ScanFile>,
    config: &DeltaScanConfig,
    params: FileScanParams,
    file_schema: &ArrowSchema,
    has_time: &Vec<bool>,
    snapshot_stats: &Option<Statistics>,
) -> (r: Option<Result<FileScanConfig, ReadError>>)
    requires
        has_time@.len() == fields_of(*file_schema).len(),
    ensures
        ({
            let request = ScanRequest {
                snapshot: *snapshot,
                table_root: *table_root,
                files: files@,
                config: *config,
                params,
                file_schema: *file_schema,
                has_time: has_time@,
                snapshot_stats: *snapshot_stats,
            };
            &&& r is Some == request.bounds_fit()
            &&& r matches Some(answer) ==> request.answered(answer)
        }),
{
    let logical: &Vec<LogicalField> = match &config.schema {
        Some(fields) => fields,
        None => &snapshot.fields,
    };
    let logical_schema: ArrowSchema = logical_file_schema_for_scan(file_schema, logical);
    let planned: Vec<PlannedFile> = plan_files(files, config, table_root, file_schema, has_time);
    let mut complete: Vec<ArrowField> = Vec::new();
    let mut i: usize = 0;
    while i < logical.len()
        invariant
            i <= logical.len(),
            complete@.len() == i,
            forall|j: int|
                0 <= j < i ==> field_of(#[trigger] complete@[j]) == field_of(logical@[j].field),
        decreases logical.len() - i,
    {
        complete.push(clone_field(&logical[i].field));
        i = i + 1;
    }
    assert(field_trees(complete@) =~= logical_trees(logical@));
    let partition_fields: Vec<ArrowField> = match plan_virtual_fields(
        &snapshot.partition_columns,
        &complete,
        config,
    ) {
        Ok(list) => list,
        Err(error) => {
            return Some(Err(error));
        },
    };
    let mut table_fields: Vec<ArrowField> = schema_fields(&logical_schema);
    let ghost file_fields = field_trees(table_fields@);
    let mut k: usize = 0;
    assert(file_fields + field_trees(partition_fields@).take(0) =~= file_fields);
    while k < partition_fields.len()
        invariant
            k <= partition_fields.len(),
            field_trees(table_fields@) == file_fields + field_trees(partition_fields@).take(
                k as int,
            ),
        decreases partition_fields.len() - k,
    {
        let field: ArrowField = clone_field(&partition_fields[k]);
        let ghost before = field_trees(table_fields@);
        table_fields.push(field);
        assert(field_trees(table_fields@) =~= before.push(field_of(field)));
        assert(file_fields + field_trees(partition_fields@).take(k + 1) =~= before.push(
            field_trees(partition_fields@)[k as int],
        ));
        k = k + 1;
    }
    assert(field_trees(partition_fields@).take(partition_fields@.len() as int) =~= field_trees(
        partition_fields@,
    ));
    let table_schema: ArrowSchema = new_schema(table_fields);
    let statistics: Statistics = match plan_statistics(
        params.table_stats_mode,
        snapshot_stats,
        snapshot,
        &table_schema,
        &planned,
    ) {
        Some(statistics) => statistics,
        None => {
            return None;
        },
    };
    let struct_matching: StructFieldMatching = match snapshot.column_mapping {
        ColumnMappingMode::Unmapped => StructFieldMatching::Name,
        ColumnMappingMode::Name => StructFieldMatching::PhysicalName,
        ColumnMappingMode::Id => StructFieldMatching::FieldId,
    };
    Some(
        Ok(
            FileScanConfig {
                file_schema: logical_schema,
                partition_fields,
                statistics,
                file_groups: group_planned_files(
                    planned,
                    params.has_sort_order,
                    params.target_partitions,
                ),
                projection: params.projection,
                limit: params.limit,
                use_filter: params.has_filter && config.enable_parquet_pushdown,
                struct_matching,
            },
        ),
    )
}

/// The statistics of a table have a column for each field of the scan.
pub proof fn law_statistics_cover_the_schema(source: StatsTree, table_fields: Seq<FieldTree>)
    ensures
        table_stats(source, table_fields).columns.len() == table_fields.len(),
        table_stats(source, table_fields).num_rows == source.num_rows,
{
}

/// Where a file lacks statistics, nothing is claimed of the rows of a table out of its files.
pub proof fn law_partial_statistics_are_not_used(
    snapshot_stats: Option<StatsTree>,
    snapshot_fields: Seq<LogicalField>,
    table_fields: Seq<FieldTree>,
    files: Seq<PlannedTree>,
    i: int,
)
    requires
        0 <= i < files.len(),
        files[i].statistics is None,
    ensures
        source_stats(
            TableStatsMode::AddsOnly,
            snapshot_stats,
            snapshot_fields,
            table_fields,
            files,
        ) == unknown_table(table_fields.len()),
{
    assert(!(files[i].statistics is Some));
}

/// A file has a value for each column that it has no data for: as many values as there are fields,
/// where it has one for each column that the table is partitioned by.
pub proof fn law_values_go_with_the_fields(
    file: ScanFile,
    columns: Seq<PartitionColumn>,
    fields: Seq<FieldTree>,
    config: DeltaScanConfig,
)
    requires
        file.partition_values@.len() == columns.len(),
        virtual_fields(columns, fields, config) is Ok,
    ensures
        file_values(file, config).len() == virtual_fields(columns, fields, config)->Ok_0.len(),
{
    lemma_partition_fields_len(columns, fields, config.wrap_partition_values, columns.len() as int);
}

proof fn lemma_partition_fields_len(
    columns: Seq<PartitionColumn>,
    fields: Seq<FieldTree>,
    wrap: bool,
    n: int,
)
    requires
        0 <= n,
        partition_fields(columns, fields, wrap, n) is Ok,
    ensures
        partition_fields(columns, fields, wrap, n)->Ok_0.len() == n,
    decreases n,
{
    if n > 0 {
        lemma_partition_fields_len(columns, fields, wrap, n - 1);
    }
}

/// A projection has a position for each field, and the column at that position has its name.
pub proof fn law_projection_finds_the_names(
    names: Seq<Seq<char>>,
    fields: Seq<FieldTree>,
    n: int,
    i: int,
)
    requires
        0 <= i < n,
        n <= fields.len(),
        projection(names, fields, n) is Ok,
    ensures
        ({
            let list = projection(names, fields, n)->Ok_0;
            &&& list.len() == n
            &&& 0 <= list[i] < names.len()
            &&& names[list[i]] == fields[i].name
        }),
    decreases n,
{
    lemma_name_position(names, fields[n - 1].name);
    if n > 1 {
        if i < n - 1 {
            law_projection_finds_the_names(names, fields, n - 1, i);
        } else {
            law_projection_finds_the_names(names, fields, n - 1, 0);
        }
    } else {
        assert(projection(names, fields, 0) == Ok::<Seq<int>, Failure>(Seq::empty()));
    }
}

/// A file's name for a column leads back to the table's: where no two fields of a table have one
/// name in files, each field is found by it.
pub proof fn law_physical_names_lead_back(fields: Seq<LogicalField>, n: int, i: int)
    requires
        0 <= i < n <= fields.len(),
        forall|a: int, b: int|
            0 <= a < b < fields.len() ==> (#[trigger] fields[a]).physical_name@ != (
            #[trigger] fields[b]).physical_name@,
    ensures
        logical_names_until(fields, n).contains_key(fields[i].physical_name@),
        logical_names_until(fields, n)[fields[i].physical_name@] == field_of(fields[i].field).name,
    decreases n,
{
    if i < n - 1 {
        law_physical_names_lead_back(fields, n - 1, i);
    } else if logical_names_until(fields, n - 1).contains_key(fields[i].physical_name@) {
        lemma_names_come_from_fields(fields, n - 1, fields[i].physical_name@);
    }
}

proof fn lemma_names_come_from_fields(fields: Seq<LogicalField>, n: int, name: Seq<char>)
    requires
        0 <= n <= fields.len(),
        logical_names_until(fields, n).contains_key(name),
    ensures
        exists|j: int| 0 <= j < n && (#[trigger] fields[j]).physical_name@ == name,
    decreases n,
{
    if n > 0 {
        if logical_names_until(fields, n - 1).contains_key(name) {
            lemma_names_come_from_fields(fields, n - 1, name);
        } else {
            assert(fields[n - 1].physical_name@ == name);
        }
    }
}

/// Where no target is given there is one group with all files in order; and whatever the target is,
/// a group holds nothing but files that are its turn: its file at `place` is the one so many rounds
/// after its first.
pub proof fn law_groups_hold_their_files_only<T>(files: Seq<T>, target: usize, g: int, place: int)
    ensures
        target <= 1 ==> spread(files, target) == seq![files],
        0 <= g < spread(files, target).len() && 0 <= place < spread(files, target)[g].len() ==> {
            let at = place * spread(files, target).len() + g;
            &&& at < files.len()
            &&& spread(files, target)[g][place] == files[at]
        },
{
    let n = group_count(files.len(), target);
    if target <= 1 {
        lemma_one_group(files);
        assert(spread(files, target) =~= seq![files]);
    }
    if 0 <= g < n {
        lemma_group_files(files, n, g as nat);
        if 0 <= place < spread(files, target)[g].len() {
            assert(position_of(n as int, g, place) < files.len());
        }
    }
}

/// A plan scans every file once: spread over groups, the file at `i` is in the group that is its
/// turn; grouped by statistics, it is at its own place. There are no more than the files.
pub proof fn law_plan_scans_every_file(request: ScanRequest, plan: FileScanConfig, i: int)
    requires
        request.answered(Ok(plan)),
        0 <= i < request.files.len(),
    ensures
        request.planned().len() == request.files.len(),
        match plan.file_groups@ {
            GroupsTree::ByStatistics(files) => files == request.planned(),
            GroupsTree::Spread(groups) => {
                let n = groups.len() as int;
                &&& n >= 1
                &&& request.params.target_partitions <= 1 ==> n == 1
                &&& request.params.target_partitions > 1 ==> n <= request.params.target_partitions
                    && n <= request.files.len()
                &&& request.params.target_partitions <= request.files.len()
                    && request.params.target_partitions > 1 ==> n
                    == request.params.target_partitions
                &&& i / n < groups[i % n].len()
                &&& groups[i % n][i / n] == request.planned()[i]
            },
        },
{
    let files = request.planned();
    let target = request.params.target_partitions;
    law_every_file_is_in_one_group(files, target, i);
    law_group_count_follows_the_target(files, target);
    law_groups_hold_their_files_only(files, target, 0, 0);
}

/// Files are grouped by their statistics where, and only where, an order is asked for and each file
/// has a column with a count of nulls or of distinct values, a bound or a sum.
pub proof fn law_known_files_keep_the_order(request: ScanRequest, plan: FileScanConfig)
    requires
        request.answered(Ok(plan)),
    ensures
        plan.file_groups@ is ByStatistics <==> request.params.has_sort_order && forall|i: int|
            0 <= i < request.files.len() ==> {
                let stats = (#[trigger] request.planned()[i]).statistics;
                stats is Some && exists|c: int|
                    0 <= c < stats->0.columns.len() && {
                        let column = #[trigger] stats->0.columns[c];
                        ||| !(column.null_count is Absent)
                        ||| !(column.max_value is Absent)
                        ||| !(column.min_value is Absent)
                        ||| !(column.sum_value is Absent)
                        ||| !(column.distinct_count is Absent)
                    }
            },
{
    let files = request.planned();
    assert forall|file: PlannedTree| #[trigger] planned_known(file) <==> file.statistics is Some
        && exists|c: int|
        0 <= c < file.statistics->0.columns.len() && {
            let column = #[trigger] file.statistics->0.columns[c];
            ||| !(column.null_count is Absent)
            ||| !(column.max_value is Absent)
            ||| !(column.min_value is Absent)
            ||| !(column.sum_value is Absent)
            ||| !(column.distinct_count is Absent)
        } by {
        if planned_known(file) {
            let columns = file.statistics->0.columns;
            let c = choose|c: int|
                0 <= c < columns.len() && #[trigger] crate::delta::statistics::column_known(
                    columns[c],
                );
            let column = file.statistics->0.columns[c];
        }
        if file.statistics is Some && exists|c: int|
            0 <= c < file.statistics->0.columns.len() && {
                let column = #[trigger] file.statistics->0.columns[c];
                ||| !(column.null_count is Absent)
                ||| !(column.max_value is Absent)
                ||| !(column.min_value is Absent)
                ||| !(column.sum_value is Absent)
                ||| !(column.distinct_count is Absent)
            } {
            let c = choose|c: int|
                0 <= c < file.statistics->0.columns.len() && {
                    let column = #[trigger] file.statistics->0.columns[c];
                    ||| !(column.null_count is Absent)
                    ||| !(column.max_value is Absent)
                    ||| !(column.min_value is Absent)
                    ||| !(column.sum_value is Absent)
                    ||| !(column.distinct_count is Absent)
                };
            assert(crate::delta::statistics::column_known(file.statistics->0.columns[c]));
        }
    }
    if plan.file_groups@ is ByStatistics {
        assert forall|i: int| 0 <= i < request.files.len() implies planned_known(
            #[trigger] request.planned()[i],
        ) by {}
    } else if request.params.has_sort_order {
        let i = choose|i: int| 0 <= i < files.len() && !planned_known(#[trigger] files[i]);
        assert(!planned_known(request.planned()[i]));
    }
}

/// A plan takes the projection and the limit that it is asked with. A filter is pushed down where
/// there is one and that is allowed, and the fields of structures are matched by what the table
/// maps its columns by.
pub proof fn law_plan_does_as_asked(request: ScanRequest, plan: FileScanConfig)
    requires
        request.answered(Ok(plan)),
    ensures
        plan.projection == request.params.projection,
        plan.limit == request.params.limit,
        plan.use_filter <==> request.params.has_filter && request.config.enable_parquet_pushdown,
        request.snapshot.column_mapping == ColumnMappingMode::Unmapped ==> plan.struct_matching
            == StructFieldMatching::Name,
        request.snapshot.column_mapping == ColumnMappingMode::Name ==> plan.struct_matching
            == StructFieldMatching::PhysicalName,
        request.snapshot.column_mapping == ColumnMappingMode::Id ==> plan.struct_matching
            == StructFieldMatching::FieldId,
        metadata_of(plan.file_schema) == metadata_of(request.file_schema),
{
}

/// A planned file has the position of the file, lies where that does, and has its values of the
/// columns that the table is partitioned by, in order. Behind them stand the path, the version and
/// the time of the commit, each where a column is asked for it.
pub proof fn law_planned_files_are_those_given(request: ScanRequest, i: int)
    requires
        0 <= i < request.files.len() <= usize::MAX,
    ensures
        ({
            let file = request.files[i];
            let planned = request.planned()[i];
            let values = planned.partition_values;
            let n = file.partition_values@.len() as int;
            let a = if request.config.file_column_name is Some {
                1int
            } else {
                0
            };
            let b = if request.config.commit_version_column_name is Some {
                1int
            } else {
                0
            };
            let c = if request.config.commit_timestamp_column_name is Some {
                1int
            } else {
                0
            };
            &&& planned.index == i
            &&& planned.location == file_location(
                path_text_of(request.table_root),
                path_text_of(file.location),
            )
            &&& values.len() == n + a + b + c
            &&& forall|k: int| 0 <= k < n ==> #[trigger] values[k] == file.partition_values@[k]@
            &&& a == 1 ==> {
                &&& values[n].value == CellTree::Text(file.path@)
                &&& !values[n].null
                &&& request.config.wrap_partition_values ==> values[n].data_type
                    == TypeTree::Dictionary(Box::new(TypeTree::UInt16), Box::new(TypeTree::Utf8))
                &&& !request.config.wrap_partition_values ==> values[n].data_type == TypeTree::Utf8
            }
            &&& b == 1 ==> {
                &&& values[n + a].data_type == TypeTree::Int64
                &&& values[n + a].value == match file.commit_version {
                    Some(version) => CellTree::Integer(version as int),
                    None => CellTree::Null,
                }
                &&& values[n + a].null <==> file.commit_version is None
            }
            &&& c == 1 ==> {
                &&& values[n + a + b].data_type == TypeTree::Int64
                &&& values[n + a + b].value == match file.commit_timestamp {
                    Some(time) => CellTree::Integer(time as int),
                    None => CellTree::Null,
                }
                &&& values[n + a + b].null <==> file.commit_timestamp is None
            }
            &&& file.stats is None <==> planned.statistics is None
            &&& file.stats is Some ==> planned.statistics->0 == recorded_stats(
                file.stats->0,
                fields_of(request.file_schema),
                request.has_time,
            )
        }),
{
}

/// A planned file stands for what it holds, and so do groups of them.
pub proof fn law_planned_files_stand_for_their_fields(file: PlannedFile, groups: FileGroups)
    ensures
        file@.index == file.index,
        file@.location == path_text_of(file.location),
        file@.partition_values.len() == file.partition_values@.len(),
        forall|i: int|
            0 <= i < file.partition_values@.len() ==> #[trigger] file@.partition_values[i]
                == file.partition_values@[i]@,
        file@.statistics == match file.statistics {
            Some(stats) => Some(stats@),
            None => None,
        },
        match groups {
            FileGroups::ByStatistics(files) => {
                &&& groups@ is ByStatistics
                &&& groups@->ByStatistics_0.len() == files@.len()
                &&& forall|i: int|
                    0 <= i < files@.len() ==> #[trigger] groups@->ByStatistics_0[i] == files@[i]@
            },
            FileGroups::Spread(lists) => {
                &&& groups@ is Spread
                &&& groups@->Spread_0.len() == lists@.len()
                &&& forall|g: int, i: int|
                    #![trigger groups@->Spread_0[g][i]]
                    0 <= g < lists@.len() && 0 <= i < lists@[g]@.len()
                        ==> groups@->Spread_0[g].len() == lists@[g]@.len()
                        && groups@->Spread_0[g][i] == lists@[g]@[i]@
            },
        },
{
}

/// The schema of the files has a field for each field of the files, under the name that it has
/// there. Where fields of the scan go by that name in files, it has the type of the last of them,
/// and else its own; the fields of the scan are those that were given, else those of the table.
pub proof fn law_file_fields_are_those_of_the_table(
    request: ScanRequest,
    fields: Seq<LogicalField>,
    i: int,
    k: int,
)
    requires
        match request.config.schema {
            Some(given) => fields == given@,
            None => fields == request.snapshot.fields@,
        },
        0 <= i < fields_of(request.file_schema).len(),
    ensures
        ({
            let own = fields_of(request.file_schema)[i];
            let field = request.file_fields()[i];
            &&& request.file_fields().len() == fields_of(request.file_schema).len()
            &&& field.name == own.name
            &&& 0 <= k < fields.len() && fields[k].physical_name@ == own.name && (forall|j: int|
                k < j < fields.len() ==> (#[trigger] fields[j]).physical_name@ != own.name) ==> {
                &&& field.data_type == field_of(fields[k].marked).data_type
                &&& field.nullable == field_of(fields[k].marked).nullable
                &&& field.metadata == field_of(fields[k].marked).metadata
            }
            &&& (forall|j: int|
                0 <= j < fields.len() ==> (#[trigger] fields[j]).physical_name@ != own.name)
                ==> field == own
        }),
{
    let name = fields_of(request.file_schema)[i].name;
    lemma_last_physical(fields, name);
    let p = last_physical(fields, name);
    if 0 <= k < fields.len() && fields[k].physical_name@ == name {
        assert(p >= k);
    }
    if p >= 0 {
        assert(fields[p].physical_name@ == name);
    }
}

/// The columns that files have no data for are those that the table is partitioned by, in order,
/// then those of the path, the version and the time of the commit that are asked for. Each of the
/// first has its name in files and the type of the field that it is in the scan, kept once where
/// that is asked for and the type is one of texts or bytes. There is a failure where, and only
/// where, the scan lacks one of them.
pub proof fn law_added_fields_are_the_virtual_columns(
    request: ScanRequest,
    scan: Seq<LogicalField>,
    k: int,
)
    requires
        match request.config.schema {
            Some(given) => scan == given@,
            None => scan == request.snapshot.fields@,
        },
    ensures
        ({
            let columns = request.snapshot.partition_columns@;
            let wrap = request.config.wrap_partition_values;
            let n = columns.len() as int;
            let a = if request.config.file_column_name is Some {
                1int
            } else {
                0
            };
            let b = if request.config.commit_version_column_name is Some {
                1int
            } else {
                0
            };
            let c = if request.config.commit_timestamp_column_name is Some {
                1int
            } else {
                0
            };
            let added = request.added_fields();
            &&& added is Err <==> exists|i: int|
                0 <= i < n && forall|j: int|
                    0 <= j < scan.len() ==> field_of((#[trigger] scan[j]).field).name != (
                    #[trigger] columns[i]).logical_name@
            &&& added is Err ==> added->Err_0.kind == FailureKind::Plan
            &&& added is Ok ==> {
                let fields = added->Ok_0;
                &&& fields.len() == n + a + b + c
                &&& 0 <= k < n ==> {
                    &&& fields[k].name == columns[k].physical_name@
                    &&& exists|j: int|
                        0 <= j < scan.len() && {
                            let own = field_of((#[trigger] scan[j]).field);
                            let once = own.data_type == TypeTree::Utf8 || own.data_type
                                == TypeTree::LargeUtf8 || own.data_type == TypeTree::Binary
                                || own.data_type == TypeTree::LargeBinary;
                            &&& own.name == columns[k].logical_name@
                            &&& fields[k].nullable == own.nullable
                            &&& wrap && once ==> fields[k].data_type == TypeTree::Dictionary(
                                Box::new(TypeTree::UInt16),
                                Box::new(own.data_type),
                            )
                            &&& !wrap || !once ==> fields[k].data_type == own.data_type
                        }
                }
                &&& a == 1 ==> {
                    &&& fields[n].name == request.config.file_column_name->0@
                    &&& wrap ==> fields[n].data_type == TypeTree::Dictionary(
                        Box::new(TypeTree::UInt16),
                        Box::new(TypeTree::Utf8),
                    )
                    &&& !wrap ==> fields[n].data_type == TypeTree::Utf8
                    &&& fields[n].nullable
                }
                &&& b == 1 ==> {
                    &&& fields[n + a].name == request.config.commit_version_column_name->0@
                    &&& fields[n + a].data_type == TypeTree::Int64
                    &&& fields[n + a].nullable
                }
                &&& c == 1 ==> {
                    &&& fields[n + a + b].name == request.config.commit_timestamp_column_name->0@
                    &&& fields[n + a + b].data_type == TypeTree::Int64
                    &&& fields[n + a + b].nullable
                }
            }
        }),
{
    let columns = request.snapshot.partition_columns@;
    let fields = logical_trees(scan);
    let wrap = request.config.wrap_partition_values;
    lemma_partition_fields(columns, fields, wrap, columns.len() as int);
    assert forall|i: int|
        #![trigger columns[i]]
        0 <= i < columns.len() implies (partition_field(columns[i], fields, wrap) is Err
        <==> forall|j: int|
        0 <= j < scan.len() ==> field_of((#[trigger] scan[j]).field).name
            != columns[i].logical_name@) by {
        lemma_field_position(fields, columns[i].logical_name@);
        let p = field_position(fields, columns[i].logical_name@);
        if p < fields.len() {
            assert(field_of(scan[p].field).name == columns[i].logical_name@);
        }
        assert forall|j: int| 0 <= j < scan.len() implies fields[j] == field_of(
            (#[trigger] scan[j]).field,
        ) by {}
    }
    if request.added_fields() is Ok && 0 <= k < columns.len() {
        lemma_field_position(fields, columns[k].logical_name@);
        let p = field_position(fields, columns[k].logical_name@);
        let own = field_of(scan[p].field);
        assert(fields[p] == own);
    }
}

proof fn lemma_partition_fields(
    columns: Seq<PartitionColumn>,
    fields: Seq<FieldTree>,
    wrap: bool,
    n: int,
)
    requires
        0 <= n <= columns.len(),
    ensures
        partition_fields(columns, fields, wrap, n) is Err <==> exists|i: int|
            0 <= i < n && partition_field(#[trigger] columns[i], fields, wrap) is Err,
        partition_fields(columns, fields, wrap, n) matches Err(failure) ==> failure.kind
            == FailureKind::Plan,
        partition_fields(columns, fields, wrap, n) is Ok ==> {
            let list = partition_fields(columns, fields, wrap, n)->Ok_0;
            &&& list.len() == n
            &&& forall|i: int|
                0 <= i < n ==> partition_field(#[trigger] columns[i], fields, wrap) == Ok::<
                    _,
                    Failure,
                >(list[i])
        },
    decreases n,
{
    if n > 0 {
        lemma_partition_fields(columns, fields, wrap, n - 1);
        assert(columns[n - 1] == columns[n - 1]);
    }
}

/// The statistics of a plan have a column for each field of the files and for each that is added.
/// The numbers of rows and of bytes are those of the snapshot where the snapshot is asked, and else
/// the bytes are not known. Out of the files the number of rows is the sum over all of them, where
/// each records its number; and where none of the two is asked, or the snapshot has no statistics,
/// or a file has none, nothing is known.
pub proof fn law_plan_counts_the_rows_of_all_files(
    request: ScanRequest,
    plan: FileScanConfig,
    rows: Seq<usize>,
)
    requires
        request.answered(Ok(plan)),
        rows.len() == request.files.len(),
    ensures
        plan.statistics@.columns.len() == fields_of(request.file_schema).len()
            + plan.partition_fields@.len(),
        request.params.table_stats_mode == TableStatsMode::Unknown
            ==> plan.statistics@.num_rows is Absent,
        request.params.table_stats_mode == TableStatsMode::Snapshot
            ==> match request.snapshot_stats {
            Some(stats) => plan.statistics@.num_rows == stats.num_rows
                && plan.statistics@.total_byte_size == stats.total_byte_size,
            None => plan.statistics@.num_rows is Absent && plan.statistics@.total_byte_size
                is Absent,
        },
        request.params.table_stats_mode != TableStatsMode::Snapshot
            ==> plan.statistics@.total_byte_size is Absent,
        request.params.table_stats_mode == TableStatsMode::AddsOnly && (exists|i: int|
            0 <= i < request.files.len() && (#[trigger] request.files[i]).stats is None)
            ==> plan.statistics@.num_rows is Absent,
        request.params.table_stats_mode == TableStatsMode::AddsOnly && (forall|i: int|
            0 <= i < request.files.len() ==> (#[trigger] request.files[i]).stats is Some
                && request.files[i].stats->0.num_records == rows[i]) ==> {
            let total = rows.fold_left(0int, |sum: int, n: usize| sum + n);
            &&& total <= usize::MAX ==> plan.statistics@.num_rows == Precision::Exact(
                total as usize,
            )
            &&& total > usize::MAX ==> plan.statistics@.num_rows == Precision::Exact(usize::MAX)
        },
{
    let files = request.planned();
    assert forall|i: int| 0 <= i < request.files.len() implies (#[trigger] files[i]).statistics
        is Some == (request.files[i].stats is Some) by {}
    if exists|i: int| 0 <= i < request.files.len() && (#[trigger] request.files[i]).stats is None {
        let i = choose|i: int|
            0 <= i < request.files.len() && (#[trigger] request.files[i]).stats is None;
        assert(!(files[i].statistics is Some));
    }
    if forall|i: int|
        0 <= i < request.files.len() ==> (#[trigger] request.files[i]).stats is Some
            && request.files[i].stats->0.num_records == rows[i] {
        let stats = all_stats(files);
        assert forall|i: int| 0 <= i < files.len() implies (#[trigger] files[i]).statistics
            is Some by {
            assert(request.files[i].stats is Some);
        }
        assert forall|i: int| 0 <= i < stats.len() implies (#[trigger] stats[i]).num_rows
            == Precision::Exact(rows[i]) by {
            assert(request.files[i].stats->0.num_records == rows[i]);
            assert(files[i].statistics is Some);
        }
        law_table_has_the_rows_of_all_files(stats, rows);
    }
}

/// The columns of the statistics of a plan are, for each field in order, what the source has for
/// it, taken as of the type of the field; nothing is known of those that the source lacks. Out of
/// the files the source is what is known of all of them together, and out of the snapshot what that
/// has for the fields by their names, where those in files lead to those of the table.
pub proof fn law_plan_statistics_come_from_their_source(
    request: ScanRequest,
    plan: FileScanConfig,
    i: int,
)
    requires
        request.answered(Ok(plan)),
        0 <= i < fields_of(request.file_schema).len() + plan.partition_fields@.len(),
    ensures
        ({
            let fields = request.file_fields() + field_trees(plan.partition_fields@);
            let nothing = ColumnStatsTree {
                null_count: Precision::Absent,
                max_value: Precision::Absent,
                min_value: Precision::Absent,
                sum_value: Precision::Absent,
                distinct_count: Precision::Absent,
                byte_size: Precision::Absent,
            };
            let column = plan.statistics@.columns[i];
            let all_known = forall|k: int|
                0 <= k < request.files.len() ==> (#[trigger] request.files[k]).stats is Some;
            &&& i < fields.len()
            &&& match request.params.table_stats_mode {
                TableStatsMode::Unknown => column == nothing,
                TableStatsMode::Snapshot => match request.snapshot_stats {
                    Some(stats) => column == sane_column(
                        mapped(
                            stats@,
                            logical_trees(request.snapshot.fields@),
                            fields,
                            logical_names(request.snapshot.fields@),
                        ).columns[i],
                        fields[i].data_type,
                    ),
                    None => column == nothing,
                },
                TableStatsMode::AddsOnly => if all_known {
                    let known = aggregated(all_stats(request.planned()));
                    &&& i < known.columns.len() ==> column == sane_column(
                        known.columns[i],
                        fields[i].data_type,
                    )
                    &&& i >= known.columns.len() ==> column == nothing
                } else {
                    column == nothing
                },
            }
        }),
{
    let files = request.planned();
    let fields = request.file_fields() + field_trees(plan.partition_fields@);
    assert(fields.len() == request.file_fields().len() + plan.partition_fields@.len());
    assert forall|k: int| 0 <= k < request.files.len() implies (#[trigger] files[k]).statistics
        is Some == (request.files[k].stats is Some) by {}
    let all_known = forall|k: int|
        0 <= k < request.files.len() ==> (#[trigger] request.files[k]).stats is Some;
    if all_known {
        assert forall|k: int| 0 <= k < files.len() implies (#[trigger] files[k]).statistics
            is Some by {
            assert(request.files[k].stats is Some);
        }
    } else {
        let k = choose|k: int|
            0 <= k < request.files.len() && !((#[trigger] request.files[k]).stats is Some);
        assert(!(files[k].statistics is Some));
    }
    assert(sane_column(unknown_column(), fields[i].data_type) == unknown_column());
}

/// A name in files leads to the name of the first field of the table that goes by it, and to none
/// where no field does.
pub proof fn law_names_in_files_lead_to_the_first_field(fields: Seq<LogicalField>, i: int)
    requires
        0 <= i < fields.len(),
        forall|j: int|
            0 <= j < i ==> (#[trigger] fields[j]).physical_name@ != fields[i].physical_name@,
    ensures
        logical_names(fields).contains_key(fields[i].physical_name@),
        logical_names(fields)[fields[i].physical_name@] == field_of(fields[i].field).name,
        forall|name: Seq<char>| #[trigger]
            logical_names(fields).contains_key(name) ==> exists|j: int|
                0 <= j < fields.len() && (#[trigger] fields[j]).physical_name@ == name,
{
    lemma_first_physical(fields, fields.len() as int, i);
    assert forall|name: Seq<char>| #[trigger] logical_names(fields).contains_key(
        name,
    ) implies exists|j: int|
        0 <= j < fields.len() && (#[trigger] fields[j]).physical_name@ == name by {
        lemma_names_come_from_fields(fields, fields.len() as int, name);
    }
}

proof fn lemma_first_physical(fields: Seq<LogicalField>, n: int, i: int)
    requires
        0 <= i < n <= fields.len(),
        forall|j: int|
            0 <= j < i ==> (#[trigger] fields[j]).physical_name@ != fields[i].physical_name@,
    ensures
        logical_names_until(fields, n).contains_key(fields[i].physical_name@),
        logical_names_until(fields, n)[fields[i].physical_name@] == field_of(fields[i].field).name,
    decreases n,
{
    if i < n - 1 {
        lemma_first_physical(fields, n - 1, i);
    } else if logical_names_until(fields, n - 1).contains_key(fields[i].physical_name@) {
        lemma_names_come_from_fields(fields, n - 1, fields[i].physical_name@);
    }
}

/// The columns of a scan are named in order: those of the files by the names that the table has for
/// them, else by their own; those that the table is partitioned by; and those that are added, where
/// they are asked for.
pub proof fn law_scan_names(
    snapshot: DeltaSnapshot,
    config: DeltaScanConfig,
    file_fields: Seq<FieldTree>,
    i: int,
)
    ensures
        ({
            let names = scan_names(snapshot, config, file_fields);
            let known = logical_names(snapshot.fields@);
            let f = file_fields.len() as int;
            let n = f + snapshot.partition_columns@.len();
            let a = if config.file_column_name is Some {
                1int
            } else {
                0
            };
            let b = if config.commit_version_column_name is Some {
                1int
            } else {
                0
            };
            let c = if config.commit_timestamp_column_name is Some {
                1int
            } else {
                0
            };
            &&& names.len() == n + a + b + c
            &&& 0 <= i < f && known.contains_key(file_fields[i].name) ==> names[i]
                == known[file_fields[i].name]
            &&& 0 <= i < f && !known.contains_key(file_fields[i].name) ==> names[i]
                == file_fields[i].name
            &&& f <= i < n ==> names[i] == snapshot.partition_columns@[i - f].logical_name@
            &&& a == 1 ==> names[n] == config.file_column_name->0@
            &&& b == 1 ==> names[n + a] == config.commit_version_column_name->0@
            &&& c == 1 ==> names[n + a + b] == config.commit_timestamp_column_name->0@
        }),
{
}

/// A projection finds the first column with the name of each field, and fails where, and only
/// where, a field is not among the columns.
pub proof fn law_projection_takes_the_first(names: Seq<Seq<char>>, fields: Seq<FieldTree>, i: int)
    ensures
        ({
            let found = projection(names, fields, fields.len() as int);
            &&& found is Err <==> exists|k: int|
                0 <= k < fields.len() && !names.contains((#[trigger] fields[k]).name)
            &&& found is Err ==> found->Err_0.kind == FailureKind::Plan
            &&& found is Ok ==> found->Ok_0.len() == fields.len()
            &&& found is Ok && 0 <= i < fields.len() ==> {
                let at = found->Ok_0[i];
                &&& 0 <= at < names.len()
                &&& names[at] == fields[i].name
                &&& forall|j: int| 0 <= j < at ==> #[trigger] names[j] != fields[i].name
            }
        }),
{
    lemma_projection(names, fields, fields.len() as int, i);
}

proof fn lemma_projection(names: Seq<Seq<char>>, fields: Seq<FieldTree>, n: int, i: int)
    requires
        0 <= n <= fields.len(),
    ensures
        ({
            let found = projection(names, fields, n);
            &&& found is Err <==> exists|k: int|
                0 <= k < n && !names.contains((#[trigger] fields[k]).name)
            &&& found is Err ==> found->Err_0.kind == FailureKind::Plan
            &&& found is Ok ==> found->Ok_0.len() == n
            &&& found is Ok && 0 <= i < n ==> {
                let at = found->Ok_0[i];
                &&& 0 <= at < names.len()
                &&& names[at] == fields[i].name
                &&& forall|j: int| 0 <= j < at ==> #[trigger] names[j] != fields[i].name
            }
        }),
    decreases n,
{
    if n > 0 {
        lemma_projection(names, fields, n - 1, i);
        let name = fields[n - 1].name;
        lemma_name_position(names, name);
        let p = name_position(names, name);
        if p < names.len() {
            assert(names[p] == name);
            assert(names.contains(name));
        } else {
            assert(!names.contains(name));
        }
    }
}

/// Where fields are missing among the columns of a scan, the failure names the first that is.
pub proof fn law_missing_column_is_named(names: Seq<Seq<char>>, fields: Seq<FieldTree>, k: int)
    requires
        0 <= k < fields.len(),
        !names.contains(fields[k].name),
        forall|j: int| 0 <= j < k ==> names.contains((#[trigger] fields[j]).name),
    ensures
        ({
            let found = projection(names, fields, fields.len() as int);
            &&& found is Err
            &&& found->Err_0.text == "Column '"@ + fields[k].name
                + "' is not available in Delta file scan schema"@
        }),
{
    lemma_projection(names, fields, k, 0);
    lemma_name_position(names, fields[k].name);
    let p = name_position(names, fields[k].name);
    if p < names.len() {
        assert(names[p] == fields[k].name);
    }
    assert(projection(names, fields, k + 1) is Err);
    lemma_projection_failure(names, fields, k + 1, fields.len() as int);
}

/// Where columns that the table is partitioned by are missing in the scan, the failure names the
/// first that is.
pub proof fn law_missing_partition_column_is_named(
    columns: Seq<PartitionColumn>,
    fields: Seq<FieldTree>,
    config: DeltaScanConfig,
    k: int,
)
    requires
        0 <= k < columns.len(),
        forall|i: int|
            0 <= i < fields.len() ==> (#[trigger] fields[i]).name != columns[k].logical_name@,
        forall|j: int|
            0 <= j < k ==> partition_field(
                #[trigger] columns[j],
                fields,
                config.wrap_partition_values,
            ) is Ok,
    ensures
        ({
            let found = virtual_fields(columns, fields, config);
            &&& found is Err
            &&& found->Err_0.text == "Partition column "@ + columns[k].logical_name@
                + " not found in schema"@
        }),
{
    let wrap = config.wrap_partition_values;
    lemma_partition_fields(columns, fields, wrap, k);
    lemma_field_position(fields, columns[k].logical_name@);
    let p = field_position(fields, columns[k].logical_name@);
    if p < fields.len() {
        assert(fields[p].name == columns[k].logical_name@);
    }
    assert(partition_fields(columns, fields, wrap, k + 1) is Err);
    lemma_partition_failure(columns, fields, wrap, k + 1, columns.len() as int);
}

/// A plan is owed wherever no bounds have to be taken as those of other types: where no statistics
/// are asked for, where the snapshot has none, and where a file has none.
pub proof fn law_scans_without_bounds_are_planned(request: ScanRequest)
    ensures
        request.params.table_stats_mode == TableStatsMode::Unknown ==> request.bounds_fit(),
        request.params.table_stats_mode == TableStatsMode::Snapshot && request.snapshot_stats is None
            ==> request.bounds_fit(),
        request.params.table_stats_mode == TableStatsMode::AddsOnly && (exists|i: int|
            0 <= i < request.files.len() && (#[trigger] request.files[i]).stats is None)
            ==> request.bounds_fit(),
        request.added_fields() is Err ==> request.bounds_fit(),
{
    if exists|i: int| 0 <= i < request.files.len() && (#[trigger] request.files[i]).stats is None {
        let i = choose|i: int|
            0 <= i < request.files.len() && (#[trigger] request.files[i]).stats is None;
        assert(!(request.planned()[i].statistics is Some));
    }
}

/// With statistics, a plan is owed where, and only where, the bounds that are taken as those of the
/// fields of the scan can be: those of the snapshot, or those of all files together.
pub proof fn law_scans_with_fitting_bounds_are_planned(
    request: ScanRequest,
    added: Seq<FieldTree>,
)
    requires
        request.added_fields() == Ok::<_, Failure>(added),
    ensures
        request.params.table_stats_mode == TableStatsMode::Snapshot && request.snapshot_stats is Some
            ==> (request.bounds_fit() <==> mapping_fits(
            request.snapshot_stats->0@,
            logical_trees(request.snapshot.fields@),
            request.file_fields() + added,
            logical_names(request.snapshot.fields@),
        )),
        request.params.table_stats_mode == TableStatsMode::AddsOnly && (forall|i: int|
            0 <= i < request.files.len() ==> (#[trigger] request.files[i]).stats is Some) ==> (
        request.bounds_fit() <==> all_bounds_fit(
            aggregated(all_stats(request.planned())).columns,
            request.file_fields() + added,
        )),
{
    if forall|i: int|
        0 <= i < request.files.len() ==> (#[trigger] request.files[i]).stats is Some {
        assert forall|i: int| 0 <= i < request.planned().len() implies (
        #[trigger] request.planned()[i]).statistics is Some by {
            assert(request.files[i].stats is Some);
        }
    }
}

/// Lists of files, of groups, of numbers and of fields stand for each of them, in order.
pub proof fn law_lists_stand_for_each<T>(
    files: Seq<PlannedFile>,
    groups: Seq<Vec<T>>,
    list: Seq<usize>,
    fields: Seq<LogicalField>,
)
    ensures
        planned_trees(files).len() == files.len(),
        forall|i: int| 0 <= i < files.len() ==> #[trigger] planned_trees(files)[i] == files[i]@,
        group_views(groups).len() == groups.len(),
        forall|i: int| 0 <= i < groups.len() ==> #[trigger] group_views(groups)[i] == groups[i]@,
        indices(list).len() == list.len(),
        forall|i: int| 0 <= i < list.len() ==> #[trigger] indices(list)[i] == list[i],
        logical_trees(fields).len() == fields.len(),
        forall|i: int|
            0 <= i < fields.len() ==> #[trigger] logical_trees(fields)[i] == field_of(
                fields[i].field,
            ),
{
}

} // verus!
