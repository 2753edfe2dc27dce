//! Reader for Unreal `.usmap` mappings files: the positional property schema
//! that unversioned cooked packages leave out of their payloads.
//!
//! ```text
//! u16 magic (0x30C4) | u8 version | u8 compression | u32 compressed | u32 decompressed
//! u32 nameCount   ; each: u8 length + UTF-8 bytes
//! u32 enumCount   ; each: i32 nameIdx, i32 entryCount, entryCount * i32 nameIdx
//! u32 structCount ; each: i32 nameIdx, i32 superIdx (-1 = none),
//!                         u16 propCount, u16 serializablePropCount,
//!                         each: u16 schemaIdx, u8 arraySize, i32 nameIdx, PropertyType
//! ```
//!
//! Only version 0 (`Initial`) with compression method 0 (none) is read.

use vstd::prelude::*;

use crate::assoc::{as_map, StrMap, StrSet};
use crate::data::uasset::{at_i32, at_take, at_u16, at_u32, at_u8, strings_v, Reader, ReaderView, UassetError};
use crate::text::{from_utf8_lossy, str_eq, utf8_lossy};

verus! {

/// The first two bytes of every `.usmap`.
pub const USMAP_MAGIC: u16 = 0x30C4;

/// `EUsmapVersion::Initial`; later versions change the name and enum
/// encodings.
pub const SUPPORTED_VERSION: u8 = 0;

/// Why a `.usmap` could not be read.
#[derive(Debug, Clone, Copy, PartialEq, Eq, Structural)]
#[allow(inconsistent_fields)]
pub enum UsmapError {
    /// The file does not start with [`USMAP_MAGIC`].
    BadMagic { found: u16 },
    /// A version other than [`SUPPORTED_VERSION`].
    UnsupportedVersion(u8),
    /// A compressed body.
    Compressed(u8),
    /// The body length differs from the one the header declares.
    SizeMismatch { declared: u32, actual: usize },
    /// A name index outside the name table.
    BadNameIndex { index: i32, count: usize },
    /// A property type tag this reader does not know.
    UnknownPropertyType(u8),
    /// A negative element count.
    NegativeCount(i32),
    /// The bytes ran out or were malformed.
    Read(UassetError),
}

/// A property's type, as the schema describes it.
#[derive(Debug, PartialEq, Eq)]
pub enum PropertyType {
    Byte,
    Bool,
    Int,
    Float,
    Object,
    Name,
    Delegate,
    Double,
    Array(Box<PropertyType>),
    Struct(String),
    Str,
    Text,
    Interface,
    MulticastDelegate,
    WeakObject,
    LazyObject,
    AssetObject,
    SoftObject,
    UInt64,
    UInt32,
    UInt16,
    Int64,
    Int16,
    Int8,
    MapOf { key: Box<PropertyType>, value: Box<PropertyType> },
    SetOf(Box<PropertyType>),
    /// An enum stored as `inner` (usually a byte), named by `enum_name`.
    Enum { inner: Box<PropertyType>, enum_name: String },
    FieldPath,
    Optional(Box<PropertyType>),
    Utf8Str,
    AnsiStr,
}

/// [`PropertyType`] with its names seen as characters.
pub enum TypeV {
    Byte,
    Bool,
    Int,
    Float,
    Object,
    Name,
    Delegate,
    Double,
    Array(Box<TypeV>),
    Struct(Seq<char>),
    Str,
    Text,
    Interface,
    MulticastDelegate,
    WeakObject,
    LazyObject,
    AssetObject,
    SoftObject,
    UInt64,
    UInt32,
    UInt16,
    Int64,
    Int16,
    Int8,
    MapOf { key: Box<TypeV>, value: Box<TypeV> },
    SetOf(Box<TypeV>),
    Enum { inner: Box<TypeV>, enum_name: Seq<char> },
    FieldPath,
    Optional(Box<TypeV>),
    Utf8Str,
    AnsiStr,
}

pub open spec fn type_v(t: PropertyType) -> TypeV
    decreases t,
{
    match t {
        PropertyType::Byte => TypeV::Byte,
        PropertyType::Bool => TypeV::Bool,
        PropertyType::Int => TypeV::Int,
        PropertyType::Float => TypeV::Float,
        PropertyType::Object => TypeV::Object,
        PropertyType::Name => TypeV::Name,
        PropertyType::Delegate => TypeV::Delegate,
        PropertyType::Double => TypeV::Double,
        PropertyType::Array(i) => TypeV::Array(Box::new(type_v(*i))),
        PropertyType::Struct(n) => TypeV::Struct(n@),
        PropertyType::Str => TypeV::Str,
        PropertyType::Text => TypeV::Text,
        PropertyType::Interface => TypeV::Interface,
        PropertyType::MulticastDelegate => TypeV::MulticastDelegate,
        PropertyType::WeakObject => TypeV::WeakObject,
        PropertyType::LazyObject => TypeV::LazyObject,
        PropertyType::AssetObject => TypeV::AssetObject,
        PropertyType::SoftObject => TypeV::SoftObject,
        PropertyType::UInt64 => TypeV::UInt64,
        PropertyType::UInt32 => TypeV::UInt32,
        PropertyType::UInt16 => TypeV::UInt16,
        PropertyType::Int64 => TypeV::Int64,
        PropertyType::Int16 => TypeV::Int16,
        PropertyType::Int8 => TypeV::Int8,
        PropertyType::MapOf { key, value } => TypeV::MapOf {
            key: Box::new(type_v(*key)),
            value: Box::new(type_v(*value)),
        },
        PropertyType::SetOf(i) => TypeV::SetOf(Box::new(type_v(*i))),
        PropertyType::Enum { inner, enum_name } => TypeV::Enum {
            inner: Box::new(type_v(*inner)),
            enum_name: enum_name@,
        },
        PropertyType::FieldPath => TypeV::FieldPath,
        PropertyType::Optional(i) => TypeV::Optional(Box::new(type_v(*i))),
        PropertyType::Utf8Str => TypeV::Utf8Str,
        PropertyType::AnsiStr => TypeV::AnsiStr,
    }
}

impl View for PropertyType {
    type V = TypeV;

    open spec fn view(&self) -> TypeV {
        type_v(*self)
    }
}

/// The type a tag names by itself, for the tags that carry nothing more.
pub open spec fn leaf_type(tag: u8) -> Option<TypeV> {
    if tag == 0 {
        Some(TypeV::Byte)
    } else if tag == 1 {
        Some(TypeV::Bool)
    } else if tag == 2 {
        Some(TypeV::Int)
    } else if tag == 3 {
        Some(TypeV::Float)
    } else if tag == 4 {
        Some(TypeV::Object)
    } else if tag == 5 {
        Some(TypeV::Name)
    } else if tag == 6 {
        Some(TypeV::Delegate)
    } else if tag == 7 {
        Some(TypeV::Double)
    } else if tag == 10 {
        Some(TypeV::Str)
    } else if tag == 11 {
        Some(TypeV::Text)
    } else if tag == 12 {
        Some(TypeV::Interface)
    } else if tag == 13 {
        Some(TypeV::MulticastDelegate)
    } else if tag == 14 {
        Some(TypeV::WeakObject)
    } else if tag == 15 {
        Some(TypeV::LazyObject)
    } else if tag == 16 {
        Some(TypeV::AssetObject)
    } else if tag == 17 {
        Some(TypeV::SoftObject)
    } else if tag == 18 {
        Some(TypeV::UInt64)
    } else if tag == 19 {
        Some(TypeV::UInt32)
    } else if tag == 20 {
        Some(TypeV::UInt16)
    } else if tag == 21 {
        Some(TypeV::Int64)
    } else if tag == 22 {
        Some(TypeV::Int16)
    } else if tag == 23 {
        Some(TypeV::Int8)
    } else if tag == 27 {
        Some(TypeV::FieldPath)
    } else if tag == 29 {
        Some(TypeV::Utf8Str)
    } else if tag == 30 {
        Some(TypeV::AnsiStr)
    } else {
        None
    }
}

/// The `EPropertyType` number of a type's outermost kind, in the engine's
/// own order.
pub open spec fn type_tag(t: TypeV) -> u8 {
    match t {
        TypeV::Byte => 0,
        TypeV::Bool => 1,
        TypeV::Int => 2,
        TypeV::Float => 3,
        TypeV::Object => 4,
        TypeV::Name => 5,
        TypeV::Delegate => 6,
        TypeV::Double => 7,
        TypeV::Array(_) => 8,
        TypeV::Struct(_) => 9,
        TypeV::Str => 10,
        TypeV::Text => 11,
        TypeV::Interface => 12,
        TypeV::MulticastDelegate => 13,
        TypeV::WeakObject => 14,
        TypeV::LazyObject => 15,
        TypeV::AssetObject => 16,
        TypeV::SoftObject => 17,
        TypeV::UInt64 => 18,
        TypeV::UInt32 => 19,
        TypeV::UInt16 => 20,
        TypeV::Int64 => 21,
        TypeV::Int16 => 22,
        TypeV::Int8 => 23,
        TypeV::MapOf { .. } => 24,
        TypeV::SetOf(_) => 25,
        TypeV::Enum { .. } => 26,
        TypeV::FieldPath => 27,
        TypeV::Optional(_) => 28,
        TypeV::Utf8Str => 29,
        TypeV::AnsiStr => 30,
    }
}

/// A property type read from a `.usmap` is the one its tag byte numbers in
/// `EPropertyType`: tag 3 a float, tag 7 a double, and so on.
pub proof fn lemma_type_follows_tag(d: Seq<u8>, pos: int, names: Seq<Seq<char>>)
    requires
        0 <= pos,
    ensures
        type_at(d, pos, names) matches Ok((t, _)) ==> pos < d.len() && type_tag(t) == d[pos],
{
    if pos < d.len() {
        assert(d.subrange(pos, pos + 1)[0] == d[pos]);
    }
}

/// A reader result with its error carried as a `.usmap` error.
pub open spec fn lift<T>(r: Result<(T, int), UassetError>) -> Result<(T, int), UsmapError> {
    match r {
        Ok(x) => Ok(x),
        Err(e) => Err(UsmapError::Read(e)),
    }
}

/// A read from `before` that expected `expected`: on success the value and
/// position are the expected ones; on failure the error is. The bytes never
/// change.
pub open spec fn ustep<T>(
    before: ReaderView,
    after: ReaderView,
    expected: Result<(T, int), UsmapError>,
    r: Result<T, UsmapError>,
) -> bool {
    after.data == before.data && match expected {
        Ok((v, p)) => r == Ok::<T, UsmapError>(v) && after.pos == p,
        Err(e) => r == Err::<T, UsmapError>(e),
    }
}

/// The element count an `i32` declares.
pub open spec fn count_of(n: i32) -> Result<nat, UsmapError> {
    if n < 0 {
        Err(UsmapError::NegativeCount(n))
    } else {
        Ok(n as nat)
    }
}

/// The name at `index` in the name table.
pub open spec fn name_of(names: Seq<Seq<char>>, index: i32) -> Result<Seq<char>, UsmapError> {
    if 0 <= index < names.len() {
        Ok(names[index as int])
    } else {
        Err(UsmapError::BadNameIndex { index, count: names.len() as usize })
    }
}

/// The property type encoded at `pos`: a tag byte, then for the compound
/// types their element types and, for structs and enums, a name index.
pub open spec fn type_at(d: Seq<u8>, pos: int, names: Seq<Seq<char>>) -> Result<(TypeV, int), UsmapError>
    decreases d.len() - pos,
{
    match at_u8(d, pos) {
        Err(e) => Err(UsmapError::Read(e)),
        Ok((tag, p)) => if tag == 8 {
            match type_at(d, p, names) {
                Err(e) => Err(e),
                Ok((t, q)) => Ok((TypeV::Array(Box::new(t)), q)),
            }
        } else if tag == 25 {
            match type_at(d, p, names) {
                Err(e) => Err(e),
                Ok((t, q)) => Ok((TypeV::SetOf(Box::new(t)), q)),
            }
        } else if tag == 28 {
            match type_at(d, p, names) {
                Err(e) => Err(e),
                Ok((t, q)) => Ok((TypeV::Optional(Box::new(t)), q)),
            }
        } else if tag == 9 {
            match lift(at_i32(d, p)) {
                Err(e) => Err(e),
                Ok((i, q)) => match name_of(names, i) {
                    Err(e) => Err(e),
                    Ok(n) => Ok((TypeV::Struct(n), q)),
                },
            }
        } else if tag == 24 {
            match type_at(d, p, names) {
                Err(e) => Err(e),
                Ok((k, q)) => if q < p || q > d.len() {
                    Err(UsmapError::Read(UassetError::Truncated { offset: q as usize }))
                } else {
                    match type_at(d, q, names) {
                        Err(e) => Err(e),
                        Ok((v, q2)) => Ok((TypeV::MapOf { key: Box::new(k), value: Box::new(v) }, q2)),
                    }
                },
            }
        } else if tag == 26 {
            match type_at(d, p, names) {
                Err(e) => Err(e),
                Ok((t, q)) => match lift(at_i32(d, q)) {
                    Err(e) => Err(e),
                    Ok((i, q2)) => match name_of(names, i) {
                        Err(e) => Err(e),
                        Ok(n) => Ok((TypeV::Enum { inner: Box::new(t), enum_name: n }, q2)),
                    },
                },
            }
        } else {
            match leaf_type(tag) {
                Some(t) => Ok((t, p)),
                None => Err(UsmapError::UnknownPropertyType(tag)),
            }
        },
    }
}

fn rd_u8(r: &mut Reader) -> (res: Result<u8, UsmapError>)
    ensures
        ustep(old(r)@, final(r)@, lift(at_u8(old(r)@.data, old(r)@.pos as int)), res),
        res is Ok ==> old(r)@.pos < final(r)@.pos <= final(r)@.data.len(),
{
    match r.u8() {
        Ok(x) => Ok(x),
        Err(e) => Err(UsmapError::Read(e)),
    }
}

fn rd_u16(r: &mut Reader) -> (res: Result<u16, UsmapError>)
    ensures
        ustep(old(r)@, final(r)@, lift(at_u16(old(r)@.data, old(r)@.pos as int)), res),
        res is Ok ==> old(r)@.pos < final(r)@.pos <= final(r)@.data.len(),
{
    match r.u16() {
        Ok(x) => Ok(x),
        Err(e) => Err(UsmapError::Read(e)),
    }
}

fn rd_u32(r: &mut Reader) -> (res: Result<u32, UsmapError>)
    ensures
        ustep(old(r)@, final(r)@, lift(at_u32(old(r)@.data, old(r)@.pos as int)), res),
        res is Ok ==> old(r)@.pos < final(r)@.pos <= final(r)@.data.len(),
{
    match r.u32() {
        Ok(x) => Ok(x),
        Err(e) => Err(UsmapError::Read(e)),
    }
}

fn rd_i32(r: &mut Reader) -> (res: Result<i32, UsmapError>)
    ensures
        ustep(old(r)@, final(r)@, lift(at_i32(old(r)@.data, old(r)@.pos as int)), res),
        res is Ok ==> old(r)@.pos < final(r)@.pos <= final(r)@.data.len(),
{
    match r.i32() {
        Ok(x) => Ok(x),
        Err(e) => Err(UsmapError::Read(e)),
    }
}

/// The name at `index`, copied out of the table.
fn name_at(names: &Vec<String>, index: i32) -> (r: Result<String, UsmapError>)
    ensures
        match name_of(strings_v(names@), index) {
            Ok(n) => r matches Ok(s) && s@ == n,
            Err(e) => r == Err::<String, UsmapError>(e),
        },
{
    if index >= 0 && (index as usize) < names.len() {
        Ok(names[index as usize].clone())
    } else {
        Err(UsmapError::BadNameIndex { index, count: names.len() })
    }
}

/// Read one property type.
fn parse_type(r: &mut Reader, names: &Vec<String>) -> (res: Result<PropertyType, UsmapError>)
    ensures
        final(r)@.data == old(r)@.data,
        match type_at(old(r)@.data, old(r)@.pos as int, strings_v(names@)) {
            Ok((t, q)) => res matches Ok(x) && x@ == t && final(r)@.pos == q,
            Err(e) => res == Err::<PropertyType, UsmapError>(e),
        },
        res is Ok ==> old(r)@.pos < final(r)@.pos <= final(r)@.data.len(),
    decreases old(r)@.data.len() - old(r)@.pos,
{
    let ghost d = r@.data;
    let ghost pos = r@.pos as int;
    let ghost ns = strings_v(names@);
    let tag = rd_u8(r)?;
    if tag == 8 {
        let t = parse_type(r, names)?;
        Ok(PropertyType::Array(Box::new(t)))
    } else if tag == 25 {
        let t = parse_type(r, names)?;
        Ok(PropertyType::SetOf(Box::new(t)))
    } else if tag == 28 {
        let t = parse_type(r, names)?;
        Ok(PropertyType::Optional(Box::new(t)))
    } else if tag == 9 {
        let i = rd_i32(r)?;
        let n = name_at(names, i)?;
        Ok(PropertyType::Struct(n))
    } else if tag == 24 {
        let key = parse_type(r, names)?;
        let value = parse_type(r, names)?;
        Ok(PropertyType::MapOf { key: Box::new(key), value: Box::new(value) })
    } else if tag == 26 {
        let inner = parse_type(r, names)?;
        let i = rd_i32(r)?;
        let n = name_at(names, i)?;
        Ok(PropertyType::Enum { inner: Box::new(inner), enum_name: n })
    } else {
        let t = if tag == 0 {
            PropertyType::Byte
        } else if tag == 1 {
            PropertyType::Bool
        } else if tag == 2 {
            PropertyType::Int
        } else if tag == 3 {
            PropertyType::Float
        } else if tag == 4 {
            PropertyType::Object
        } else if tag == 5 {
            PropertyType::Name
        } else if tag == 6 {
            PropertyType::Delegate
        } else if tag == 7 {
            PropertyType::Double
        } else if tag == 10 {
            PropertyType::Str
        } else if tag == 11 {
            PropertyType::Text
        } else if tag == 12 {
            PropertyType::Interface
        } else if tag == 13 {
            PropertyType::MulticastDelegate
        } else if tag == 14 {
            PropertyType::WeakObject
        } else if tag == 15 {
            PropertyType::LazyObject
        } else if tag == 16 {
            PropertyType::AssetObject
        } else if tag == 17 {
            PropertyType::SoftObject
        } else if tag == 18 {
            PropertyType::UInt64
        } else if tag == 19 {
            PropertyType::UInt32
        } else if tag == 20 {
            PropertyType::UInt16
        } else if tag == 21 {
            PropertyType::Int64
        } else if tag == 22 {
            PropertyType::Int16
        } else if tag == 23 {
            PropertyType::Int8
        } else if tag == 27 {
            PropertyType::FieldPath
        } else if tag == 29 {
            PropertyType::Utf8Str
        } else if tag == 30 {
            PropertyType::AnsiStr
        } else {
            return Err(UsmapError::UnknownPropertyType(tag));
        };
        Ok(t)
    }
}

/// One serializable property in a struct's schema.
#[derive(Debug)]
pub struct Property {
    /// Position in the owning struct's schema, which is how unversioned data
    /// refers to it.
    pub index: u16,
    /// Number of elements for a C-style fixed array (`Thing[4]`); 1 normally.
    pub array_size: u8,
    pub name: String,
    pub ty: PropertyType,
}

/// A struct or class layout.
#[derive(Debug)]
pub struct Struct {
    pub name: String,
    /// Parent struct or class, whose properties follow this one's in the
    /// flattened schema; see [`Usmap::flat_schema`].
    pub super_name: Option<String>,
    /// Total schema slots, including any this file has no entry for.
    pub property_count: u16,
    pub properties: Vec<Property>,
}

/// [`Property`] with its names seen as characters.
pub struct PropertyV {
    pub index: u16,
    pub array_size: u8,
    pub name: Seq<char>,
    pub ty: TypeV,
}

/// [`Struct`] with its names seen as characters.
pub struct StructV {
    pub name: Seq<char>,
    pub super_name: Option<Seq<char>>,
    pub property_count: u16,
    pub properties: Seq<PropertyV>,
}

impl View for Property {
    type V = PropertyV;

    open spec fn view(&self) -> PropertyV {
        PropertyV { index: self.index, array_size: self.array_size, name: self.name@, ty: self.ty@ }
    }
}

/// An optional string seen as characters.
pub open spec fn opt_string_v(o: Option<String>) -> Option<Seq<char>> {
    match o {
        Some(s) => Some(s@),
        None => None,
    }
}

/// Properties seen through their views.
pub open spec fn props_v(ps: Seq<Property>) -> Seq<PropertyV> {
    ps.map_values(|p: Property| p@)
}

impl View for Struct {
    type V = StructV;

    open spec fn view(&self) -> StructV {
        StructV {
            name: self.name@,
            super_name: opt_string_v(self.super_name),
            property_count: self.property_count,
            properties: props_v(self.properties@),
        }
    }
}

/// A parsed `.usmap`: its name table, enums by name, and struct layouts by
/// name.
#[derive(Debug)]
pub struct Usmap {
    names: Vec<String>,
    enums: StrMap<Vec<String>>,
    structs: StrMap<Struct>,
}

/// Enum entry lists seen as characters.
pub open spec fn enums_v(m: Map<Seq<char>, Vec<String>>) -> Map<Seq<char>, Seq<Seq<char>>> {
    m.map_values(|v: Vec<String>| strings_v(v@))
}

/// Struct layouts seen through their views.
pub open spec fn structs_v(m: Map<Seq<char>, Struct>) -> Map<Seq<char>, StructV> {
    m.map_values(|s: Struct| s@)
}

/// What a [`Usmap`] holds.
pub struct UsmapV {
    pub names: Seq<Seq<char>>,
    pub enums: Map<Seq<char>, Seq<Seq<char>>>,
    pub structs: Map<Seq<char>, StructV>,
}

impl View for Usmap {
    type V = UsmapV;

    closed spec fn view(&self) -> UsmapV {
        UsmapV {
            names: strings_v(self.names@),
            enums: enums_v(self.enums@),
            structs: structs_v(self.structs@),
        }
    }
}

/// `n` items read one after another from `pos`, each by `step` at the
/// position the previous one ended; with the position after the last.
pub open spec fn repeat_at<T>(
    pos: int,
    n: nat,
    step: spec_fn(int) -> Result<(T, int), UsmapError>,
) -> Result<(Seq<T>, int), UsmapError>
    decreases n,
{
    if n == 0 {
        Ok((Seq::empty(), pos))
    } else {
        match repeat_at(pos, (n - 1) as nat, step) {
            Err(e) => Err(e),
            Ok((xs, p)) => match step(p) {
                Err(e) => Err(e),
                Ok((x, q)) => Ok((xs.push(x), q)),
            },
        }
    }
}

/// Once a repetition fails, longer ones fail the same way.
pub proof fn lemma_repeat_error_persists<T>(
    pos: int,
    i: nat,
    j: nat,
    step: spec_fn(int) -> Result<(T, int), UsmapError>,
)
    requires
        i <= j,
        repeat_at(pos, i, step) is Err,
    ensures
        repeat_at(pos, j, step) == repeat_at(pos, i, step),
    decreases j,
{
    if j > i {
        lemma_repeat_error_persists(pos, i, (j - 1) as nat, step);
    }
}

/// A name-table entry: a length byte and that many bytes of UTF-8.
pub open spec fn name_entry_step(d: Seq<u8>) -> spec_fn(int) -> Result<(Seq<char>, int), UsmapError> {
    |p: int|
        match lift(at_u8(d, p)) {
            Err(e) => Err(e),
            Ok((len, q)) => match lift(at_take(d, q, len as int)) {
                Err(e) => Err(e),
                Ok((raw, q2)) => Ok((utf8_lossy(raw), q2)),
            },
        }
}

/// A name given by its `i32` index into the table.
pub open spec fn name_ref_step(d: Seq<u8>, names: Seq<Seq<char>>) -> spec_fn(int) -> Result<(Seq<char>, int), UsmapError> {
    |p: int|
        match lift(at_i32(d, p)) {
            Err(e) => Err(e),
            Ok((i, q)) => match name_of(names, i) {
                Err(e) => Err(e),
                Ok(n) => Ok((n, q)),
            },
        }
}

/// An enum: its name, then its entry count and entry names.
pub open spec fn enum_step(d: Seq<u8>, names: Seq<Seq<char>>) -> spec_fn(int) -> Result<
    ((Seq<char>, Seq<Seq<char>>), int),
    UsmapError,
> {
    |p: int|
        match name_ref_step(d, names)(p) {
            Err(e) => Err(e),
            Ok((name, q)) => match lift(at_i32(d, q)) {
                Err(e) => Err(e),
                Ok((c, q2)) => match count_of(c) {
                    Err(e) => Err(e),
                    Ok(n) => match repeat_at(q2, n, name_ref_step(d, names)) {
                        Err(e) => Err(e),
                        Ok((entries, q3)) => Ok(((name, entries), q3)),
                    },
                },
            },
        }
}

/// One property of a struct layout.
pub open spec fn property_step(d: Seq<u8>, names: Seq<Seq<char>>) -> spec_fn(int) -> Result<(PropertyV, int), UsmapError> {
    |p: int|
        match lift(at_u16(d, p)) {
            Err(e) => Err(e),
            Ok((index, p1)) => match lift(at_u8(d, p1)) {
                Err(e) => Err(e),
                Ok((array_size, p2)) => match name_ref_step(d, names)(p2) {
                    Err(e) => Err(e),
                    Ok((name, p3)) => match type_at(d, p3, names) {
                        Err(e) => Err(e),
                        Ok((ty, p4)) => Ok((PropertyV { index, array_size, name, ty }, p4)),
                    },
                },
            },
        }
}

/// A struct layout: name, optional super, slot count, and its serializable
/// properties.
pub open spec fn struct_step(d: Seq<u8>, names: Seq<Seq<char>>) -> spec_fn(int) -> Result<(StructV, int), UsmapError> {
    |p: int|
        match name_ref_step(d, names)(p) {
            Err(e) => Err(e),
            Ok((name, p1)) => match lift(at_i32(d, p1)) {
                Err(e) => Err(e),
                Ok((sup, p2)) => match (if sup < 0 {
                    Ok(None)
                } else {
                    match name_of(names, sup) {
                        Err(e) => Err(e),
                        Ok(n) => Ok(Some(n)),
                    }
                }) {
                    Err(e) => Err(e),
                    Ok(super_name) => match lift(at_u16(d, p2)) {
                        Err(e) => Err(e),
                        Ok((property_count, p3)) => match lift(at_u16(d, p3)) {
                            Err(e) => Err(e),
                            Ok((serializable, p4)) => match repeat_at(
                                p4,
                                serializable as nat,
                                property_step(d, names),
                            ) {
                                Err(e) => Err(e),
                                Ok((properties, p5)) => Ok(
                                    (StructV { name, super_name, property_count, properties }, p5),
                                ),
                            },
                        },
                    },
                },
            },
        }
}

/// Where the body starts, once the header has been checked: the magic, the
/// supported version, no compression, and a body exactly as long as declared.
pub open spec fn body_start(d: Seq<u8>) -> Result<int, UsmapError> {
    match lift(at_u16(d, 0)) {
        Err(e) => Err(e),
        Ok((magic, p1)) => if magic != USMAP_MAGIC {
            Err(UsmapError::BadMagic { found: magic })
        } else {
            match lift(at_u8(d, p1)) {
                Err(e) => Err(e),
                Ok((version, p2)) => if version != SUPPORTED_VERSION {
                    Err(UsmapError::UnsupportedVersion(version))
                } else {
                    match lift(at_u8(d, p2)) {
                        Err(e) => Err(e),
                        Ok((compression, p3)) => if compression != 0 {
                            Err(UsmapError::Compressed(compression))
                        } else {
                            match lift(at_u32(d, p3)) {
                                Err(e) => Err(e),
                                Ok((_, p4)) => match lift(at_u32(d, p4)) {
                                    Err(e) => Err(e),
                                    Ok((declared, p5)) => if d.len() - p5 != declared {
                                        Err(
                                            UsmapError::SizeMismatch {
                                                declared,
                                                actual: (d.len() - p5) as usize,
                                            },
                                        )
                                    } else {
                                        Ok(p5)
                                    },
                                },
                            }
                        },
                    }
                },
            }
        },
    }
}

/// A counted list at `pos`: an `i32` count, then that many items.
pub open spec fn counted_at<T>(d: Seq<u8>, pos: int, step: spec_fn(int) -> Result<(T, int), UsmapError>) -> Result<
    (Seq<T>, int),
    UsmapError,
> {
    match lift(at_i32(d, pos)) {
        Err(e) => Err(e),
        Ok((c, p)) => match count_of(c) {
            Err(e) => Err(e),
            Ok(n) => repeat_at(p, n, step),
        },
    }
}

/// Struct layouts keyed by their names.
pub open spec fn keyed(ss: Seq<StructV>) -> Seq<(Seq<char>, StructV)> {
    ss.map_values(|s: StructV| (s.name, s))
}

/// The whole `.usmap`: names, then enums, then structs. A later enum or
/// struct of the same name replaces an earlier one.
pub open spec fn usmap_at(d: Seq<u8>) -> Result<UsmapV, UsmapError> {
    match body_start(d) {
        Err(e) => Err(e),
        Ok(p0) => match counted_at(d, p0, name_entry_step(d)) {
            Err(e) => Err(e),
            Ok((names, p1)) => match counted_at(d, p1, enum_step(d, names)) {
                Err(e) => Err(e),
                Ok((enums, p2)) => match counted_at(d, p2, struct_step(d, names)) {
                    Err(e) => Err(e),
                    Ok((structs, _)) => Ok(
                        UsmapV { names, enums: as_map(enums), structs: as_map(keyed(structs)) },
                    ),
                },
            },
        },
    }
}

/// Read a counted list of name-table entries.
#[verifier::loop_isolation(false)]
fn read_name_table(r: &mut Reader) -> (res: Result<Vec<String>, UsmapError>)
    ensures
        final(r)@.data == old(r)@.data,
        match counted_at(old(r)@.data, old(r)@.pos as int, name_entry_step(old(r)@.data)) {
            Ok((ns, q)) => res matches Ok(v) && strings_v(v@) == ns && final(r)@.pos == q,
            Err(e) => res == Err::<Vec<String>, UsmapError>(e),
        },
{
    let ghost d = r@.data;
    let c = rd_i32(r)?;
    if c < 0 {
        return Err(UsmapError::NegativeCount(c));
    }
    let ghost p = r@.pos as int;
    let mut names: Vec<String> = Vec::new();
    proof {
        assert(strings_v(names@) =~= Seq::<Seq<char>>::empty());
    }
    let mut i: i32 = 0;
    while i < c
        invariant
            0 <= i <= c,
            r@.data == d,
            repeat_at(p, i as nat, name_entry_step(d)) == Ok::<(Seq<Seq<char>>, int), UsmapError>(
                (strings_v(names@), r@.pos as int),
            ),
        decreases c - i,
    {
        let len = match rd_u8(r) {
            Ok(x) => x,
            Err(e) => {
                proof {
                    lemma_repeat_error_persists(p, (i + 1) as nat, c as nat, name_entry_step(d));
                }
                return Err(e);
            },
        };
        let raw = match r.take(len as usize) {
            Ok(b) => b,
            Err(e) => {
                proof {
                    lemma_repeat_error_persists(p, (i + 1) as nat, c as nat, name_entry_step(d));
                }
                return Err(UsmapError::Read(e));
            },
        };
        let s = from_utf8_lossy(raw);
        proof {
            assert(strings_v(names@.push(s)) =~= strings_v(names@).push(s@));
        }
        names.push(s);
        i += 1;
    }
    Ok(names)
}

/// Read a name given by its index.
fn read_name_ref(r: &mut Reader, names: &Vec<String>) -> (res: Result<String, UsmapError>)
    ensures
        final(r)@.data == old(r)@.data,
        match name_ref_step(old(r)@.data, strings_v(names@))(old(r)@.pos as int) {
            Ok((n, q)) => res matches Ok(s) && s@ == n && final(r)@.pos == q,
            Err(e) => res == Err::<String, UsmapError>(e),
        },
        res is Ok ==> old(r)@.pos < final(r)@.pos <= final(r)@.data.len(),
{
    let i = rd_i32(r)?;
    name_at(names, i)
}

/// Read one enum and its entry names.
#[verifier::loop_isolation(false)]
fn read_enum(r: &mut Reader, names: &Vec<String>) -> (res: Result<(String, Vec<String>), UsmapError>)
    ensures
        final(r)@.data == old(r)@.data,
        match enum_step(old(r)@.data, strings_v(names@))(old(r)@.pos as int) {
            Ok(((n, es), q)) => res matches Ok((x, v)) && x@ == n && strings_v(v@) == es
                && final(r)@.pos == q,
            Err(e) => res == Err::<(String, Vec<String>), UsmapError>(e),
        },
{
    let ghost d = r@.data;
    let ghost ns = strings_v(names@);
    let name = read_name_ref(r, names)?;
    let c = rd_i32(r)?;
    if c < 0 {
        return Err(UsmapError::NegativeCount(c));
    }
    let ghost p = r@.pos as int;
    let mut entries: Vec<String> = Vec::new();
    proof {
        assert(strings_v(entries@) =~= Seq::<Seq<char>>::empty());
    }
    let mut i: i32 = 0;
    while i < c
        invariant
            0 <= i <= c,
            r@.data == d,
            ns == strings_v(names@),
            repeat_at(p, i as nat, name_ref_step(d, ns)) == Ok::<(Seq<Seq<char>>, int), UsmapError>(
                (strings_v(entries@), r@.pos as int),
            ),
        decreases c - i,
    {
        let e = match read_name_ref(r, names) {
            Ok(x) => x,
            Err(e) => {
                proof {
                    lemma_repeat_error_persists(p, (i + 1) as nat, c as nat, name_ref_step(d, ns));
                }
                return Err(e);
            },
        };
        proof {
            assert(strings_v(entries@.push(e)) =~= strings_v(entries@).push(e@));
        }
        entries.push(e);
        i += 1;
    }
    Ok((name, entries))
}

/// Read one property of a struct layout.
fn read_property(r: &mut Reader, names: &Vec<String>) -> (res: Result<Property, UsmapError>)
    ensures
        final(r)@.data == old(r)@.data,
        match property_step(old(r)@.data, strings_v(names@))(old(r)@.pos as int) {
            Ok((pv, q)) => res matches Ok(x) && x@ == pv && final(r)@.pos == q,
            Err(e) => res == Err::<Property, UsmapError>(e),
        },
{
    let index = rd_u16(r)?;
    let array_size = rd_u8(r)?;
    let name = read_name_ref(r, names)?;
    let ty = parse_type(r, names)?;
    Ok(Property { index, array_size, name, ty })
}

/// Read one struct layout.
#[verifier::loop_isolation(false)]
fn read_layout(r: &mut Reader, names: &Vec<String>) -> (res: Result<Struct, UsmapError>)
    ensures
        final(r)@.data == old(r)@.data,
        match struct_step(old(r)@.data, strings_v(names@))(old(r)@.pos as int) {
            Ok((sv, q)) => res matches Ok(x) && x@ == sv && final(r)@.pos == q,
            Err(e) => res == Err::<Struct, UsmapError>(e),
        },
{
    let ghost d = r@.data;
    let ghost ns = strings_v(names@);
    let name = read_name_ref(r, names)?;
    let super_index = rd_i32(r)?;
    let super_name = if super_index < 0 {
        None
    } else {
        Some(name_at(names, super_index)?)
    };
    let property_count = rd_u16(r)?;
    let serializable = rd_u16(r)?;
    let ghost p = r@.pos as int;
    let mut properties: Vec<Property> = Vec::new();
    proof {
        assert(props_v(properties@) =~= Seq::<PropertyV>::empty());
    }
    let mut i: u16 = 0;
    while i < serializable
        invariant
            i <= serializable,
            r@.data == d,
            ns == strings_v(names@),
            repeat_at(p, i as nat, property_step(d, ns)) == Ok::<(Seq<PropertyV>, int), UsmapError>(
                (props_v(properties@), r@.pos as int),
            ),
        decreases serializable - i,
    {
        let prop = match read_property(r, names) {
            Ok(x) => x,
            Err(e) => {
                proof {
                    lemma_repeat_error_persists(p, (i + 1) as nat, serializable as nat, property_step(d, ns));
                }
                return Err(e);
            },
        };
        proof {
            assert(props_v(properties@.push(prop)) =~= props_v(properties@).push(prop@));
        }
        properties.push(prop);
        i += 1;
    }
    Ok(Struct { name, super_name, property_count, properties })
}

impl Usmap {
    /// Parse a `.usmap` file's bytes.
    #[verifier::loop_isolation(false)]
    pub fn parse(bytes: &[u8]) -> (res: Result<Usmap, UsmapError>)
        ensures
            match usmap_at(bytes@) {
                Ok(u) => res matches Ok(m) && m@ == u,
                Err(e) => res matches Err(x) && x == e,
            },
    {
        let ghost d = bytes@;
        let mut r = Reader::new(bytes);
        let magic = rd_u16(&mut r)?;
        if magic != USMAP_MAGIC {
            return Err(UsmapError::BadMagic { found: magic });
        }
        let version = rd_u8(&mut r)?;
        if version != SUPPORTED_VERSION {
            return Err(UsmapError::UnsupportedVersion(version));
        }
        let compression = rd_u8(&mut r)?;
        if compression != 0 {
            return Err(UsmapError::Compressed(compression));
        }
        let _compressed_size = rd_u32(&mut r)?;
        let decompressed_size = rd_u32(&mut r)?;
        let body_len = bytes.len() - r.pos();
        if body_len != decompressed_size as usize {
            return Err(UsmapError::SizeMismatch { declared: decompressed_size, actual: body_len });
        }
        assert(body_start(d) == Ok::<int, UsmapError>(r@.pos as int));

        let names = read_name_table(&mut r)?;
        let ghost ns = strings_v(names@);

        let enum_count = rd_i32(&mut r)?;
        if enum_count < 0 {
            return Err(UsmapError::NegativeCount(enum_count));
        }
        let ghost p = r@.pos as int;
        let ghost mut es: Seq<(Seq<char>, Seq<Seq<char>>)> = Seq::empty();
        let mut enums: StrMap<Vec<String>> = StrMap::new();
        proof {
            assert(enums_v(enums@) =~= as_map(es));
        }
        let mut i: i32 = 0;
        while i < enum_count
            invariant
                0 <= i <= enum_count,
                r@.data == d,
                repeat_at(p, i as nat, enum_step(d, ns)) == Ok::<(Seq<(Seq<char>, Seq<Seq<char>>)>, int), UsmapError>(
                    (es, r@.pos as int),
                ),
                enums_v(enums@) == as_map(es),
            decreases enum_count - i,
        {
            let (name, entries) = match read_enum(&mut r, &names) {
                Ok(x) => x,
                Err(e) => {
                    proof {
                        lemma_repeat_error_persists(p, (i + 1) as nat, enum_count as nat, enum_step(d, ns));
                    }
                    return Err(e);
                },
            };
            proof {
                let x = (name@, strings_v(entries@));
                assert(es.push(x).drop_last() =~= es);
                assert(enums_v(enums@.insert(name@, entries)) =~= as_map(es).insert(x.0, x.1));
                es = es.push(x);
            }
            enums.insert(name, entries);
            i += 1;
        }

        let struct_count = rd_i32(&mut r)?;
        if struct_count < 0 {
            return Err(UsmapError::NegativeCount(struct_count));
        }
        let ghost p2 = r@.pos as int;
        let ghost mut ss: Seq<StructV> = Seq::empty();
        let mut structs: StrMap<Struct> = StrMap::new();
        proof {
            assert(structs_v(structs@) =~= as_map(keyed(ss)));
        }
        let mut j: i32 = 0;
        while j < struct_count
            invariant
                0 <= j <= struct_count,
                r@.data == d,
                repeat_at(p2, j as nat, struct_step(d, ns)) == Ok::<(Seq<StructV>, int), UsmapError>(
                    (ss, r@.pos as int),
                ),
                structs_v(structs@) == as_map(keyed(ss)),
            decreases struct_count - j,
        {
            let layout = match read_layout(&mut r, &names) {
                Ok(x) => x,
                Err(e) => {
                    proof {
                        lemma_repeat_error_persists(p2, (j + 1) as nat, struct_count as nat, struct_step(d, ns));
                    }
                    return Err(e);
                },
            };
            let key = layout.name.clone();
            proof {
                let sv = layout@;
                assert(keyed(ss.push(sv)) =~= keyed(ss).push((sv.name, sv)));
                assert(keyed(ss.push(sv)).drop_last() =~= keyed(ss));
                assert(structs_v(structs@.insert(key@, layout)) =~= as_map(keyed(ss)).insert(sv.name, sv));
                ss = ss.push(sv);
            }
            structs.insert(key, layout);
            j += 1;
        }
        let m = Usmap { names, enums, structs };
        proof {
            assert(m@.enums == as_map(es));
        }
        Ok(m)
    }
}

/// The first property listed for schema slot `i`.
pub open spec fn first_with_index(ps: Seq<PropertyV>, i: int) -> Option<PropertyV>
    decreases ps.len(),
{
    if ps.len() == 0 {
        None
    } else if ps[0].index == i {
        Some(ps[0])
    } else {
        first_with_index(ps.drop_first(), i)
    }
}

/// A struct's own schema slots, each the property listed for it if any.
pub open spec fn slots_of(s: StructV) -> Seq<Option<PropertyV>> {
    Seq::new(s.property_count as nat, |i: int| first_with_index(s.properties, i))
}

/// `chain` is the super chain of `start` in `structs`: it starts at `start`,
/// each next name is the previous struct's super, no name repeats, and it
/// stops where the super is absent, unknown, or already in the chain.
pub open spec fn is_super_chain(structs: Map<Seq<char>, StructV>, start: Seq<char>, chain: Seq<Seq<char>>) -> bool {
    &&& chain.len() > 0 ==> chain[0] == start
    &&& forall|i: int| 0 <= i < chain.len() ==> structs.contains_key(#[trigger] chain[i])
    &&& forall|i: int|
        0 <= i < chain.len() - 1 ==> structs[#[trigger] chain[i]].super_name == Some(chain[i + 1])
    &&& chain.no_duplicates()
    &&& if chain.len() == 0 {
        !structs.contains_key(start)
    } else {
        match structs[chain.last()].super_name {
            None => true,
            Some(n) => !structs.contains_key(n) || chain.contains(n),
        }
    }
}

/// The slots of every struct in `chain`, in chain order.
pub open spec fn flatten_slots(structs: Map<Seq<char>, StructV>, chain: Seq<Seq<char>>) -> Seq<Option<PropertyV>>
    decreases chain.len(),
{
    if chain.len() == 0 {
        Seq::empty()
    } else {
        flatten_slots(structs, chain.drop_last()) + slots_of(structs[chain.last()])
    }
}

/// Two super chains of the same start agree up to where both reach.
proof fn lemma_chain_prefix(
    structs: Map<Seq<char>, StructV>,
    start: Seq<char>,
    c1: Seq<Seq<char>>,
    c2: Seq<Seq<char>>,
    i: int,
)
    requires
        is_super_chain(structs, start, c1),
        is_super_chain(structs, start, c2),
        0 <= i < c1.len(),
        i < c2.len(),
    ensures
        c1[i] == c2[i],
    decreases i,
{
    if i > 0 {
        lemma_chain_prefix(structs, start, c1, c2, i - 1);
        assert(structs[c1[i - 1]].super_name == Some(c1[i]));
        assert(structs[c2[i - 1]].super_name == Some(c2[i]));
    }
}

/// A super chain is never shorter than another of the same start.
proof fn lemma_chain_len(
    structs: Map<Seq<char>, StructV>,
    start: Seq<char>,
    c1: Seq<Seq<char>>,
    c2: Seq<Seq<char>>,
)
    requires
        is_super_chain(structs, start, c1),
        is_super_chain(structs, start, c2),
    ensures
        c1.len() >= c2.len(),
{
    if c1.len() < c2.len() {
        if c1.len() == 0 {
            assert(structs.contains_key(c2[0]));
        } else {
            let k = c1.len() - 1;
            lemma_chain_prefix(structs, start, c1, c2, k);
            assert(structs[c2[k]].super_name == Some(c2[k + 1]));
            assert(structs.contains_key(c2[k + 1]));
            assert(c1.contains(c2[k + 1]));
            let j = choose|j: int| 0 <= j < c1.len() && c1[j] == c2[k + 1];
            lemma_chain_prefix(structs, start, c1, c2, j);
            assert(c2[j] == c2[k + 1]);
        }
    }
}

/// The super chain of a start is unique.
pub proof fn lemma_chain_unique(
    structs: Map<Seq<char>, StructV>,
    start: Seq<char>,
    c1: Seq<Seq<char>>,
    c2: Seq<Seq<char>>,
)
    requires
        is_super_chain(structs, start, c1),
        is_super_chain(structs, start, c2),
    ensures
        c1 == c2,
{
    lemma_chain_len(structs, start, c1, c2);
    lemma_chain_len(structs, start, c2, c1);
    assert forall|i: int| 0 <= i < c1.len() implies c1[i] == c2[i] by {
        lemma_chain_prefix(structs, start, c1, c2, i);
    }
    assert(c1 =~= c2);
}

/// The flattened schema of `name`: the slots along its super chain.
pub open spec fn schema_of(structs: Map<Seq<char>, StructV>, name: Seq<char>) -> Seq<Option<PropertyV>> {
    flatten_slots(structs, choose|c: Seq<Seq<char>>| is_super_chain(structs, name, c))
}

/// Optional property references seen through their views.
pub open spec fn opt_props_v(v: Seq<Option<&Property>>) -> Seq<Option<PropertyV>> {
    v.map_values(
        |o: Option<&Property>|
            match o {
                Some(p) => Some(p@),
                None => None,
            },
    )
}

/// The first property of `props` for schema slot `index`.
fn find_slot(props: &Vec<Property>, index: u16) -> (r: Option<&Property>)
    ensures
        match r {
            Some(p) => first_with_index(props_v(props@), index as int) == Some(p@),
            None => first_with_index(props_v(props@), index as int) is None,
        },
{
    let ghost ps = props_v(props@);
    proof {
        assert(ps.skip(0) =~= ps);
    }
    let mut i: usize = 0;
    while i < props.len()
        invariant
            ps == props_v(props@),
            i <= props@.len(),
            first_with_index(ps.skip(i as int), index as int) == first_with_index(ps, index as int),
        decreases props@.len() - i,
    {
        proof {
            assert(ps.skip(i as int)[0] == props@[i as int]@);
            assert(ps.skip(i as int).drop_first() =~= ps.skip(i + 1));
        }
        if props[i].index == index {
            return Some(&props[i]);
        }
        i += 1;
    }
    proof {
        assert(ps.skip(i as int).len() == 0);
    }
    None
}

impl Usmap {
    pub fn name_count(&self) -> (n: usize)
        ensures
            n == self@.names.len(),
    {
        self.names.len()
    }

    pub fn enum_count(&self) -> (n: usize)
        ensures
            n == self@.enums.dom().len(),
    {
        proof {
            assert(self@.enums.dom() =~= self.enums@.dom());
        }
        self.enums.len()
    }

    pub fn struct_count(&self) -> (n: usize)
        ensures
            n == self@.structs.dom().len(),
    {
        proof {
            assert(self@.structs.dom() =~= self.structs@.dom());
        }
        self.structs.len()
    }

    /// Whether the name table holds `name`.
    pub fn contains_name(&self, name: &str) -> (b: bool)
        ensures
            b == self@.names.contains(name@),
    {
        let ghost ns = self@.names;
        let mut i: usize = 0;
        while i < self.names.len()
            invariant
                ns == strings_v(self.names@),
                i <= self.names@.len(),
                forall|k: int| 0 <= k < i ==> ns[k] != name@,
            decreases self.names@.len() - i,
        {
            if str_eq(self.names[i].as_str(), name) {
                proof {
                    assert(ns[i as int] == name@);
                }
                return true;
            }
            i += 1;
        }
        false
    }

    /// The layout of the struct called `name`.
    pub fn get_struct(&self, name: &str) -> (r: Option<&Struct>)
        ensures
            match r {
                Some(s) => self@.structs.contains_key(name@) && s@ == self@.structs[name@],
                None => !self@.structs.contains_key(name@),
            },
    {
        self.structs.get(name)
    }

    /// Resolve an enum entry by its stored integer value.
    pub fn enum_value(&self, enum_name: &str, value: usize) -> (r: Option<&str>)
        ensures
            match r {
                Some(s) => self@.enums.contains_key(enum_name@) && value < self@.enums[enum_name@].len()
                    && s@ == self@.enums[enum_name@][value as int],
                None => !(self@.enums.contains_key(enum_name@) && value < self@.enums[enum_name@].len()),
            },
    {
        match self.enums.get(enum_name) {
            Some(entries) => if value < entries.len() {
                Some(entries[value].as_str())
            } else {
                None
            },
            None => None,
        }
    }

    /// The entry names of the enum called `enum_name`.
    pub fn enum_entries(&self, enum_name: &str) -> (r: Option<&[String]>)
        ensures
            match r {
                Some(v) => self@.enums.contains_key(enum_name@) && strings_v(v@) == self@.enums[enum_name@],
                None => !self@.enums.contains_key(enum_name@),
            },
    {
        match self.enums.get(enum_name) {
            Some(entries) => Some(entries.as_slice()),
            None => None,
        }
    }

    /// The schema an unversioned payload indexes into: this struct's own
    /// slots first, then its super's, and so on up the chain. Slots the file
    /// lists no property for are `None`, so that indices still line up; a
    /// super chain that loops is followed once round.
    #[verifier::loop_isolation(false)]
    pub fn flat_schema(&self, struct_name: &str) -> (out: Vec<Option<&Property>>)
        ensures
            opt_props_v(out@) == schema_of(self@.structs, struct_name@),
            exists|chain: Seq<Seq<char>>| #[trigger] is_super_chain(self@.structs, struct_name@, chain),
    {
        let ghost structs = self@.structs;
        let _ = self.structs.entry_count();
        proof {
            crate::assoc::lemma_as_map_len(self.structs.pairs());
            assert(structs.dom() =~= self.structs@.dom());
        }
        let mut out: Vec<Option<&Property>> = Vec::new();
        let mut current: Option<String> = Some(struct_name.to_owned());
        let mut seen = StrSet::new();
        let ghost mut chain: Seq<Seq<char>> = Seq::empty();
        proof {
            assert(opt_props_v(out@) =~= flatten_slots(structs, chain));
            assert(seen@ =~= chain.to_set());
        }
        loop
            invariant
                structs == self@.structs,
                structs.dom().finite(),
                forall|i: int| 0 <= i < chain.len() ==> structs.contains_key(#[trigger] chain[i]),
                forall|i: int|
                    0 <= i < chain.len() - 1 ==> structs[#[trigger] chain[i]].super_name == Some(chain[i + 1]),
                chain.no_duplicates(),
                chain.len() > 0 ==> chain[0] == struct_name@,
                chain.len() == 0 ==> (current matches Some(x) && x@ == struct_name@),
                chain.len() > 0 ==> opt_string_v(current) == structs[chain.last()].super_name,
                seen@ == chain.to_set(),
                opt_props_v(out@) == flatten_slots(structs, chain),
                chain.len() <= structs.dom().len(),
            decreases structs.dom().len() - chain.len(),
        {
            let name = match current {
                Some(n) => n,
                None => {
                    proof {
                        assert(is_super_chain(structs, struct_name@, chain));
                        let c = choose|c: Seq<Seq<char>>| is_super_chain(structs, struct_name@, c);
                        lemma_chain_unique(structs, struct_name@, chain, c);
                    }
                    break;
                },
            };
            if !seen.insert(name.clone()) {
                proof {
                    assert(chain.to_set().contains(name@));
                    assert(is_super_chain(structs, struct_name@, chain));
                    let c = choose|c: Seq<Seq<char>>| is_super_chain(structs, struct_name@, c);
                    lemma_chain_unique(structs, struct_name@, chain, c);
                }
                break;
            }
            let s = match self.structs.get(name.as_str()) {
                Some(s) => s,
                None => {
                    proof {
                        assert(is_super_chain(structs, struct_name@, chain));
                        let c = choose|c: Seq<Seq<char>>| is_super_chain(structs, struct_name@, c);
                        lemma_chain_unique(structs, struct_name@, chain, c);
                    }
                    break;
                },
            };
            let ghost before = opt_props_v(out@);
            let mut index: u16 = 0;
            while index < s.property_count
                invariant
                    index <= s.property_count,
                    opt_props_v(out@) == before + slots_of(s@).take(index as int),
                decreases s.property_count - index,
            {
                let slot = find_slot(&s.properties, index);
                proof {
                    assert(slots_of(s@).take(index + 1) =~= slots_of(s@).take(index as int).push(
                        slots_of(s@)[index as int],
                    ));
                    assert(opt_props_v(out@.push(slot)) =~= opt_props_v(out@).push(
                        match slot {
                            Some(p) => Some(p@),
                            None => None,
                        },
                    ));
                }
                out.push(slot);
                index += 1;
            }
            proof {
                assert(slots_of(s@).take(s.property_count as int) =~= slots_of(s@));
                let c2 = chain.push(name@);
                assert(c2.drop_last() =~= chain);
                assert(structs[name@] == s@);
                assert forall|i: int, j: int|
                    0 <= i < c2.len() && 0 <= j < c2.len() && i != j implies c2[i] != c2[j] by {
                    if i == chain.len() as int {
                        assert(chain.contains(c2[j]));
                    } else if j == chain.len() as int {
                        assert(chain.contains(c2[i]));
                    }
                }
                assert forall|x: Seq<char>| seen@.contains(x) <==> c2.to_set().contains(x) by {
                    if chain.contains(x) {
                        let i = choose|i: int| 0 <= i < chain.len() && chain[i] == x;
                        assert(c2[i] == x);
                    }
                    if x == name@ {
                        assert(c2[chain.len() as int] == x);
                    }
                    if c2.contains(x) {
                        let i = choose|i: int| 0 <= i < c2.len() && c2[i] == x;
                        if i < chain.len() {
                            assert(chain[i] == x);
                        }
                    }
                }
                assert(seen@ =~= c2.to_set());
                c2.unique_seq_to_set();
                assert(c2.to_set().subset_of(structs.dom()));
                vstd::set_lib::lemma_len_subset(c2.to_set(), structs.dom());
                chain = c2;
            }
            current = match &s.super_name {
                Some(n) => Some(n.clone()),
                None => None,
            };
        }
        out
    }
}

impl Default for Usmap {
    /// An empty schema: no names, enums or structs.
    fn default() -> (m: Self)
        ensures
            m@.names == Seq::<Seq<char>>::empty(),
            m@.enums == Map::<Seq<char>, Seq<Seq<char>>>::empty(),
            m@.structs == Map::<Seq<char>, StructV>::empty(),
    {
        let m = Usmap { names: Vec::new(), enums: StrMap::new(), structs: StrMap::new() };
        proof {
            assert(m@.names =~= Seq::<Seq<char>>::empty());
            assert(m@.enums =~= Map::<Seq<char>, Seq<Seq<char>>>::empty());
            assert(m@.structs =~= Map::<Seq<char>, StructV>::empty());
        }
        m
    }
}

} // verus!
