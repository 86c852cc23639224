//! Column types and schemas.

use vstd::prelude::*;

verus! {

/// The unit of a timestamp.
#[derive(Debug, Clone, Copy, PartialEq, Eq, Structural)]
pub enum TimeUnit {
    Second,
    Millisecond,
    Microsecond,
    Nanosecond,
}

/// The type of a column.
#[derive(Debug)]
pub enum ColumnType {
    Null,
    Boolean,
    Int8,
    Int16,
    Int32,
    Int64,
    UInt8,
    UInt16,
    UInt32,
    UInt64,
    Float32,
    Float64,
    Binary,
    LargeBinary,
    Utf8,
    LargeUtf8,
    /// Days since the epoch.
    Date32,
    /// A point in time without a time zone.
    Timestamp(TimeUnit),
    /// A decimal number with a precision and a scale.
    Decimal128(u8, i8),
    /// Bytes of a fixed number.
    FixedSizeBinary(i32),
    Struct(Vec<ColumnField>),
    List(Box<ColumnField>),
    /// A map by the field of its entries, and whether its keys are sorted.
    MapOf(Box<ColumnField>, bool),
    /// Values kept once, by the type of the keys and the type of the values.
    Dictionary(Box<ColumnType>, Box<ColumnType>),
}

/// A named column.
#[derive(Debug)]
pub struct ColumnField {
    pub name: String,
    pub data_type: ColumnType,
    pub nullable: bool,
}

/// The columns of a table.
#[derive(Debug)]
pub struct TableSchema {
    pub fields: Vec<ColumnField>,
}

/// What a type of columns stands for. `Zoned` is a point in time with a time zone. Intervals, unions
/// and runs go by a text that tells them apart.
pub enum TypeTree {
    Null,
    Boolean,
    Int8,
    Int16,
    Int32,
    Int64,
    UInt8,
    UInt16,
    UInt32,
    UInt64,
    Float16,
    Float32,
    Float64,
    Binary,
    LargeBinary,
    BinaryView,
    Utf8,
    LargeUtf8,
    Utf8View,
    Date32,
    Date64,
    Timestamp(TimeUnit),
    Zoned(TimeUnit, Seq<char>),
    Time32(TimeUnit),
    Time64(TimeUnit),
    Duration(TimeUnit),
    Interval(Seq<char>),
    Decimal32(u8, i8),
    Decimal64(u8, i8),
    Decimal128(u8, i8),
    Decimal256(u8, i8),
    FixedSizeBinary(i32),
    Struct(Seq<FieldTree>),
    List(Box<FieldTree>),
    LargeList(Box<FieldTree>),
    ListView(Box<FieldTree>),
    LargeListView(Box<FieldTree>),
    FixedSizeList(Box<FieldTree>, i32),
    MapOf(Box<FieldTree>, bool),
    Dictionary(Box<TypeTree>, Box<TypeTree>),
    Union(Seq<char>),
    Runs(Seq<char>),
}

/// Texts by the names under which they are kept.
pub type Metadata = Map<Seq<char>, Seq<char>>;

/// What a field stands for: a named column, and the texts that are kept beside it.
pub struct FieldTree {
    pub name: Seq<char>,
    pub data_type: TypeTree,
    pub nullable: bool,
    pub metadata: Metadata,
}

/// The column `name` of the type `data_type`, with nothing kept beside it.
pub open spec fn column(name: Seq<char>, data_type: TypeTree, nullable: bool) -> FieldTree {
    FieldTree { name, data_type, nullable, metadata: Metadata::empty() }
}

/// Whether a type is one of whole numbers.
pub open spec fn integer_type(data_type: TypeTree) -> bool {
    match data_type {
        TypeTree::Int8 => true,
        TypeTree::Int16 => true,
        TypeTree::Int32 => true,
        TypeTree::Int64 => true,
        TypeTree::UInt8 => true,
        TypeTree::UInt16 => true,
        TypeTree::UInt32 => true,
        TypeTree::UInt64 => true,
        _ => false,
    }
}

impl ColumnType {
    /// The type that `self` stands for.
    pub open spec fn tree(self) -> TypeTree
        decreases self,
    {
        match self {
            ColumnType::Null => TypeTree::Null,
            ColumnType::Boolean => TypeTree::Boolean,
            ColumnType::Int8 => TypeTree::Int8,
            ColumnType::Int16 => TypeTree::Int16,
            ColumnType::Int32 => TypeTree::Int32,
            ColumnType::Int64 => TypeTree::Int64,
            ColumnType::UInt8 => TypeTree::UInt8,
            ColumnType::UInt16 => TypeTree::UInt16,
            ColumnType::UInt32 => TypeTree::UInt32,
            ColumnType::UInt64 => TypeTree::UInt64,
            ColumnType::Float32 => TypeTree::Float32,
            ColumnType::Float64 => TypeTree::Float64,
            ColumnType::Binary => TypeTree::Binary,
            ColumnType::LargeBinary => TypeTree::LargeBinary,
            ColumnType::Utf8 => TypeTree::Utf8,
            ColumnType::LargeUtf8 => TypeTree::LargeUtf8,
            ColumnType::Date32 => TypeTree::Date32,
            ColumnType::Timestamp(unit) => TypeTree::Timestamp(unit),
            ColumnType::Decimal128(precision, scale) => TypeTree::Decimal128(precision, scale),
            ColumnType::FixedSizeBinary(size) => TypeTree::FixedSizeBinary(size),
            ColumnType::Struct(fields) => TypeTree::Struct(
                Seq::new(
                    fields@.len(),
                    |i: int|
                        if 0 <= i < fields@.len() {
                            fields@[i].tree()
                        } else {
                            arbitrary()
                        },
                ),
            ),
            ColumnType::List(field) => TypeTree::List(Box::new(field.tree())),
            ColumnType::MapOf(field, sorted) => TypeTree::MapOf(Box::new(field.tree()), sorted),
            ColumnType::Dictionary(key, value) => TypeTree::Dictionary(
                Box::new(key.tree()),
                Box::new(value.tree()),
            ),
        }
    }
}

impl ColumnField {
    /// The column that `self` stands for.
    pub open spec fn tree(self) -> FieldTree
        decreases self,
    {
        column(self.name@, self.data_type.tree(), self.nullable)
    }
}

impl View for ColumnType {
    type V = TypeTree;

    open spec fn view(&self) -> TypeTree {
        self.tree()
    }
}

impl View for ColumnField {
    type V = FieldTree;

    open spec fn view(&self) -> FieldTree {
        self.tree()
    }
}

/// The columns that a list of fields stands for.
pub open spec fn columns(fields: Seq<ColumnField>) -> Seq<FieldTree> {
    fields.map_values(|f: ColumnField| f.tree())
}

impl View for TableSchema {
    type V = Seq<FieldTree>;

    open spec fn view(&self) -> Seq<FieldTree> {
        columns(self.fields@)
    }
}

impl ColumnType {
    /// A type with the same contents.
    pub fn duplicate(&self) -> (r: ColumnType)
        ensures
            r@ == self@,
        decreases self,
    {
        match self {
            ColumnType::Null => ColumnType::Null,
            ColumnType::Boolean => ColumnType::Boolean,
            ColumnType::Int8 => ColumnType::Int8,
            ColumnType::Int16 => ColumnType::Int16,
            ColumnType::Int32 => ColumnType::Int32,
            ColumnType::Int64 => ColumnType::Int64,
            ColumnType::UInt8 => ColumnType::UInt8,
            ColumnType::UInt16 => ColumnType::UInt16,
            ColumnType::UInt32 => ColumnType::UInt32,
            ColumnType::UInt64 => ColumnType::UInt64,
            ColumnType::Float32 => ColumnType::Float32,
            ColumnType::Float64 => ColumnType::Float64,
            ColumnType::Binary => ColumnType::Binary,
            ColumnType::LargeBinary => ColumnType::LargeBinary,
            ColumnType::Utf8 => ColumnType::Utf8,
            ColumnType::LargeUtf8 => ColumnType::LargeUtf8,
            ColumnType::Date32 => ColumnType::Date32,
            ColumnType::Timestamp(unit) => ColumnType::Timestamp(*unit),
            ColumnType::Decimal128(precision, scale) => ColumnType::Decimal128(*precision, *scale),
            ColumnType::FixedSizeBinary(size) => ColumnType::FixedSizeBinary(*size),
            ColumnType::Struct(fields) => {
                let mut copies: Vec<ColumnField> = Vec::new();
                let mut i: usize = 0;
                while i < fields.len()
                    invariant
                        i <= fields.len(),
                        *self == ColumnType::Struct(*fields),
                        copies@.len() == i,
                        forall|j: int|
                            0 <= j < i ==> (#[trigger] copies@[j]).tree() == fields@[j].tree(),
                    decreases fields.len() - i,
                {
                    assert(decreases_to!(*self => self->Struct_0));
                    assert(decreases_to!(self->Struct_0 => fields@));
                    assert(decreases_to!(fields@ => fields@[i as int]));
                    copies.push(fields[i].duplicate());
                    i = i + 1;
                }
                let r = ColumnType::Struct(copies);
                assert(r@->Struct_0 =~= self@->Struct_0);
                r
            },
            ColumnType::List(field) => ColumnType::List(Box::new(field.duplicate())),
            ColumnType::MapOf(field, sorted) => ColumnType::MapOf(Box::new(field.duplicate()), *sorted),
            ColumnType::Dictionary(key, value) => ColumnType::Dictionary(
                Box::new(key.duplicate()),
                Box::new(value.duplicate()),
            ),
        }
    }
}

impl ColumnField {
    /// The column `name`.
    pub fn new(name: &str, data_type: ColumnType, nullable: bool) -> (r: ColumnField)
        ensures
            r@ == column(name@, data_type@, nullable),
    {
        ColumnField { name: name.to_owned(), data_type, nullable }
    }

    /// A field with the same contents.
    pub fn duplicate(&self) -> (r: ColumnField)
        ensures
            r@ == self@,
        decreases self,
    {
        ColumnField {
            name: self.name.clone(),
            data_type: self.data_type.duplicate(),
            nullable: self.nullable,
        }
    }
}

impl TableSchema {
    /// A schema with the same columns.
    pub fn duplicate(&self) -> (r: TableSchema)
        ensures
            r@ == self@,
    {
        let mut fields: Vec<ColumnField> = Vec::new();
        let mut i: usize = 0;
        while i < self.fields.len()
            invariant
                i <= self.fields.len(),
                columns(fields@) == self@.take(i as int),
            decreases self.fields.len() - i,
        {
            let field: ColumnField = self.fields[i].duplicate();
            let ghost before = columns(fields@);
            fields.push(field);
            assert(columns(fields@) =~= before.push(field@));
            assert(self@.take(i + 1) =~= self@.take(i as int).push(self@[i as int]));
            i = i + 1;
        }
        assert(self@.take(self@.len() as int) =~= self@);
        TableSchema { fields }
    }
}

/// A schema stands for its columns in order, each with its own name, type and whether it is
/// nullable, and nothing beside it.
pub proof fn law_schemas_stand_for_their_columns(schema: TableSchema)
    ensures
        schema@.len() == schema.fields@.len(),
        forall|i: int|
            0 <= i < schema.fields@.len() ==> {
                let field = #[trigger] schema@[i];
                &&& field.name == schema.fields@[i].name@
                &&& field.data_type == schema.fields@[i].data_type@
                &&& field.nullable == schema.fields@[i].nullable
                &&& field.metadata == Map::<Seq<char>, Seq<char>>::empty()
            },
{
}

/// A type stands for the type of its own name, with the same parameters and parts.
pub proof fn law_types_stand_for_themselves(data_type: ColumnType)
    ensures
        match data_type {
            ColumnType::Null => data_type@ is Null,
            ColumnType::Boolean => data_type@ is Boolean,
            ColumnType::Int8 => data_type@ is Int8,
            ColumnType::Int16 => data_type@ is Int16,
            ColumnType::Int32 => data_type@ is Int32,
            ColumnType::Int64 => data_type@ is Int64,
            ColumnType::UInt8 => data_type@ is UInt8,
            ColumnType::UInt16 => data_type@ is UInt16,
            ColumnType::UInt32 => data_type@ is UInt32,
            ColumnType::UInt64 => data_type@ is UInt64,
            ColumnType::Float32 => data_type@ is Float32,
            ColumnType::Float64 => data_type@ is Float64,
            ColumnType::Binary => data_type@ is Binary,
            ColumnType::LargeBinary => data_type@ is LargeBinary,
            ColumnType::Utf8 => data_type@ is Utf8,
            ColumnType::LargeUtf8 => data_type@ is LargeUtf8,
            ColumnType::Date32 => data_type@ is Date32,
            ColumnType::Timestamp(unit) => data_type@ == TypeTree::Timestamp(unit),
            ColumnType::Decimal128(p, s) => data_type@ == TypeTree::Decimal128(p, s),
            ColumnType::FixedSizeBinary(size) => data_type@ == TypeTree::FixedSizeBinary(size),
            ColumnType::Struct(fields) => data_type@ is Struct && data_type@->Struct_0.len()
                == fields@.len() && forall|i: int|
                0 <= i < fields@.len() ==> #[trigger] data_type@->Struct_0[i] == fields@[i]@,
            ColumnType::List(item) => data_type@ is List && *data_type@->List_0 == item@,
            ColumnType::MapOf(entries, sorted) => data_type@ is MapOf && *data_type@->MapOf_0
                == entries@ && data_type@->MapOf_1 == sorted,
            ColumnType::Dictionary(key, value) => data_type@ is Dictionary
                && *data_type@->Dictionary_0 == key@ && *data_type@->Dictionary_1 == value@,
        },
{
}

} // verus!
