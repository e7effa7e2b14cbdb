//! Schema type mapper: deterministic, table-driven translation of
//! relational column type names into the destination table format's
//! primitive and array type system.
//!
//! A name ending in the array suffix `[]` recurses on the base name and
//! wraps the result in a nullable array type.  Fixed-precision numerics
//! map to a hard-coded default precision and scale regardless of the
//! source's precision hints (a documented lossy default).  Any
//! unrecognized base name maps to the string type: a deliberate lenient
//! fallback rather than a hard failure.

use vstd::prelude::*;
use vstd::string::StringSliceAdditionalSpecFns;

verus! {

/// The destination table format's column types.
#[derive(Debug)]
pub enum LakeType {
    Short,
    Integer,
    Long,
    Float,
    Double,
    Boolean,
    Text,
    Date,
    TimestampNtz,
    Timestamp,
    Decimal { precision: u8, scale: u8 },
    Binary,
    Array(Box<LakeType>),
}

/// The default precision every fixed-precision numeric column maps to.
pub const DECIMAL_PRECISION: u8 = 38;

/// The default scale every fixed-precision numeric column maps to.
pub const DECIMAL_SCALE: u8 = 10;

/// Whether a type name ends in the array suffix `[]`.
pub open spec fn has_array_suffix(name: Seq<u8>) -> bool {
    name.len() >= 2 && name[name.len() - 2] == ('[' as u8) && name[name.len() - 1] == (']' as u8)
}

/// The base name of an array-suffixed type name.
pub open spec fn array_base(name: Seq<u8>) -> Seq<u8> {
    name.take(name.len() - 2)
}

/// Whether a type name is one of the directly mapped relational names.
pub open spec fn recognized(name: Seq<u8>) -> bool {
    ||| name == "smallint".spec_bytes()
    ||| name == "integer".spec_bytes()
    ||| name == "bigint".spec_bytes()
    ||| name == "real".spec_bytes()
    ||| name == "double precision".spec_bytes()
    ||| name == "boolean".spec_bytes()
    ||| name == "character varying".spec_bytes()
    ||| name == "text".spec_bytes()
    ||| name == "date".spec_bytes()
    ||| name == "timestamp without time zone".spec_bytes()
    ||| name == "timestamp with time zone".spec_bytes()
    ||| name == "time without time zone".spec_bytes()
    ||| name == "time with time zone".spec_bytes()
    ||| name == "numeric".spec_bytes()
    ||| name == "decimal".spec_bytes()
    ||| name == "bytea".spec_bytes()
}

/// The mapping from a relational type name to the destination type.
pub open spec fn spec_map_type(name: Seq<u8>) -> LakeType
    decreases name.len(),
{
    if has_array_suffix(name) {
        LakeType::Array(Box::new(spec_map_type(array_base(name))))
    } else if name == "smallint".spec_bytes() {
        LakeType::Short
    } else if name == "integer".spec_bytes() {
        LakeType::Integer
    } else if name == "bigint".spec_bytes() {
        LakeType::Long
    } else if name == "real".spec_bytes() {
        LakeType::Float
    } else if name == "double precision".spec_bytes() {
        LakeType::Double
    } else if name == "boolean".spec_bytes() {
        LakeType::Boolean
    } else if name == "character varying".spec_bytes() || name == "text".spec_bytes() {
        LakeType::Text
    } else if name == "date".spec_bytes() {
        LakeType::Date
    } else if name == "timestamp without time zone".spec_bytes() {
        LakeType::TimestampNtz
    } else if name == "timestamp with time zone".spec_bytes() {
        LakeType::Timestamp
    } else if name == "time without time zone".spec_bytes() || name
        == "time with time zone".spec_bytes() {
        LakeType::Text
    } else if name == "numeric".spec_bytes() || name == "decimal".spec_bytes() {
        LakeType::Decimal { precision: DECIMAL_PRECISION, scale: DECIMAL_SCALE }
    } else if name == "bytea".spec_bytes() {
        LakeType::Binary
    } else {
        LakeType::Text
    }
}

/// Structural equality of two mapped types.
pub fn lake_type_eq(a: &LakeType, b: &LakeType) -> (r: bool)
    ensures
        r == (a == b),
    decreases *a,
{
    match (a, b) {
        (LakeType::Short, LakeType::Short) => true,
        (LakeType::Integer, LakeType::Integer) => true,
        (LakeType::Long, LakeType::Long) => true,
        (LakeType::Float, LakeType::Float) => true,
        (LakeType::Double, LakeType::Double) => true,
        (LakeType::Boolean, LakeType::Boolean) => true,
        (LakeType::Text, LakeType::Text) => true,
        (LakeType::Date, LakeType::Date) => true,
        (LakeType::TimestampNtz, LakeType::TimestampNtz) => true,
        (LakeType::Timestamp, LakeType::Timestamp) => true,
        (
            LakeType::Decimal { precision: pa, scale: sa },
            LakeType::Decimal { precision: pb, scale: sb },
        ) => pa == pb && sa == sb,
        (LakeType::Binary, LakeType::Binary) => true,
        (LakeType::Array(xa), LakeType::Array(xb)) => lake_type_eq(xa, xb),
        _ => false,
    }
}

/// Whether a type name, held as bytes, equals the given literal name.
fn name_is(name: &[u8], lit: &str) -> (r: bool)
    ensures
        r == (name@ == lit.spec_bytes()),
{
    crate::bytes_eq(name, lit.as_bytes())
}

/// Maps one relational type name to the destination type.
pub fn map_type(name: &[u8]) -> (t: LakeType)
    ensures
        t == spec_map_type(name@),
    decreases name@.len(),
{
    if name.len() >= 2 && name[name.len() - 2] == ('[' as u8) && name[name.len() - 1] == (
    ']' as u8) {
        let base = vstd::slice::slice_subrange(name, 0, name.len() - 2);
        LakeType::Array(Box::new(map_type(base)))
    } else if name_is(name, "smallint") {
        LakeType::Short
    } else if name_is(name, "integer") {
        LakeType::Integer
    } else if name_is(name, "bigint") {
        LakeType::Long
    } else if name_is(name, "real") {
        LakeType::Float
    } else if name_is(name, "double precision") {
        LakeType::Double
    } else if name_is(name, "boolean") {
        LakeType::Boolean
    } else if name_is(name, "character varying") || name_is(name, "text") {
        LakeType::Text
    } else if name_is(name, "date") {
        LakeType::Date
    } else if name_is(name, "timestamp without time zone") {
        LakeType::TimestampNtz
    } else if name_is(name, "timestamp with time zone") {
        LakeType::Timestamp
    } else if name_is(name, "time without time zone") || name_is(name, "time with time zone") {
        LakeType::Text
    } else if name_is(name, "numeric") || name_is(name, "decimal") {
        LakeType::Decimal { precision: DECIMAL_PRECISION, scale: DECIMAL_SCALE }
    } else if name_is(name, "bytea") {
        LakeType::Binary
    } else {
        LakeType::Text
    }
}

/// Appending the array suffix to any base name maps to the array of the
/// base name's mapping.
pub proof fn lemma_map_type_array(base: Seq<u8>)
    ensures
        spec_map_type(base + "[]".spec_bytes()) == LakeType::Array(
            Box::new(spec_map_type(base)),
        ),
{
    reveal_strlit("[]");
    broadcast use vstd::string::is_ascii_spec_bytes;

    assert(vstd::string::is_ascii("[]"));
    let suffix = "[]".spec_bytes();
    assert(suffix.len() == 2);
    assert(suffix[0] == '[' as u8);
    assert(suffix[1] == ']' as u8);
    let name = base + suffix;
    assert(has_array_suffix(name));
    assert(array_base(name) =~= base);
}

/// Every unrecognized name without the array suffix maps to the string
/// type: the lenient fallback never fails.
pub proof fn lemma_unrecognized_maps_to_text(name: Seq<u8>)
    requires
        !recognized(name),
        !has_array_suffix(name),
    ensures
        spec_map_type(name) == LakeType::Text,
{
}

/// One source column: its name and its relational type name.
#[derive(Clone, Debug, PartialEq, Eq)]
pub struct ColumnSpec {
    pub name: Vec<u8>,
    pub relational_type: Vec<u8>,
}

/// One destination column: its name, its mapped type, and nullability.
#[derive(Debug)]
pub struct LakeColumn {
    pub name: Vec<u8>,
    pub lake_type: LakeType,
    pub nullable: bool,
}

/// The mathematical model of a destination column.
#[verifier::ext_equal]
pub struct LakeColumnModel {
    pub name: Seq<u8>,
    pub lake_type: LakeType,
    pub nullable: bool,
}

impl View for LakeColumn {
    type V = LakeColumnModel;

    open spec fn view(&self) -> LakeColumnModel {
        LakeColumnModel { name: self.name@, lake_type: self.lake_type, nullable: self.nullable }
    }
}

/// The model of mapping one source column: the name is kept, the type is
/// mapped, and the column is nullable.
pub open spec fn spec_map_column(name: Seq<u8>, relational_type: Seq<u8>) -> LakeColumnModel {
    LakeColumnModel { name, lake_type: spec_map_type(relational_type), nullable: true }
}

/// Maps an ordered list of source columns, one to one and order
/// preserving, into the destination format's column list; every mapped
/// column is nullable.
pub fn map_columns(cols: &Vec<ColumnSpec>) -> (out: Vec<LakeColumn>)
    ensures
        out@.len() == cols@.len(),
        forall|i: int|
            0 <= i < cols@.len() ==> #[trigger] out@[i]@ == spec_map_column(
                cols@[i].name@,
                cols@[i].relational_type@,
            ),
{
    let mut out: Vec<LakeColumn> = Vec::new();
    let mut i: usize = 0;
    while i < cols.len()
        invariant
            i <= cols@.len(),
            out@.len() == i,
            forall|j: int|
                0 <= j < i ==> #[trigger] out@[j]@ == spec_map_column(
                    cols@[j].name@,
                    cols@[j].relational_type@,
                ),
        decreases cols@.len() - i,
    {
        let c = &cols[i];
        let lake_type = map_type(c.relational_type.as_slice());
        out.push(LakeColumn { name: c.name.clone(), lake_type, nullable: true });
        i = i + 1;
    }
    out
}

} // verus!
