//! The tagged-property list format that follows the [`crate::gvas::header::Header`].
//!
//! Every property is a self-describing tag:
//!
//! ```text
//! name: FString              ("None" terminates the list)
//! prop_type: FString
//! size: i64                  byte length of `value`, below
//! [type-specific extra]      see `TypeExtra`
//! has_property_guid: bool
//! [property_guid: 16 bytes]  present iff has_property_guid
//! value: `size` bytes
//! ```
//!
//! `size` always covers exactly the value bytes, so after decoding a value the
//! reader jumps to `value_start + size` for the next tag. A property type or
//! nested struct this reader does not understand degrades to [`Value::Raw`]
//! instead of corrupting everything after it.
//!
//! Floating-point values are kept as their IEEE-754 bit patterns.

use vstd::prelude::*;

use crate::bytes::copy_bytes;
use crate::gvas::cursor::{
    bool_at, bytes_at, eof_at, fstring_at, i32_at, i64_at, u32_at, u64_at, u8_at, Cursor,
};
use crate::gvas::{GvasError, GvasErrorV};
use crate::text::str_eq;
use crate::gvas::lemmas::{
    lemma_elems_empty, lemma_elems_error_persists, lemma_elems_step, lemma_pairs_empty,
    lemma_pairs_error_persists, lemma_pairs_step, lemma_prop_list_unfold, lemma_set_unfold, lemma_value_unfold, lemma_struct_unfold, lemma_array_unfold, lemma_map_unfold, lemma_struct_elems_empty,
    lemma_struct_elems_error_persists, lemma_struct_elems_step,
};

verus! {

/// Upper bound on a single property's declared value length. Real values top
/// out around 7.5 MB; this rejects a clearly corrupt length before any
/// allocation.
pub const MAX_VALUE_LEN: i64 = 536870912;

#[derive(Debug, PartialEq)]
pub struct Property {
    pub name: String,
    pub value: Value,
}

/// A decoded property value. `Float` and `Double` hold the value's bit
/// pattern (`f32::to_bits` / `f64::to_bits`).
#[derive(Debug, PartialEq)]
#[allow(inconsistent_fields)]
pub enum Value {
    Int(i32),
    Int64(i64),
    UInt32(u32),
    Float(u32),
    Double(u64),
    Bool(bool),
    Str(String),
    Name(String),
    Enum { enum_type: String, value: String },
    Byte { enum_type: Option<String>, value: ByteValue },
    Struct { struct_name: String, value: StructValue },
    Array(Vec<Value>),
    Mapping(Vec<(Value, Value)>),
    Members(Vec<Value>),
    /// Bytes this reader does not decode further: `ArrayProperty<ByteProperty>`
    /// payloads (Palworld's `RawData` blobs), and the fallback for any property
    /// type or struct it does not understand.
    Raw(Vec<u8>),
}

#[derive(Debug, Clone, PartialEq, Eq)]
pub enum ByteValue {
    Raw(u8),
    Enum(String),
}

#[derive(Debug, PartialEq)]
pub enum StructValue {
    Guid([u8; 16]),
    /// Ticks since the .NET epoch, for both `DateTime` and `Timespan`.
    DateTime(i64),
    Properties(Vec<Property>),
    Raw(Vec<u8>),
}

/// [`Value`] with strings as characters and collections as sequences.
#[allow(inconsistent_fields)]
pub enum ValueV {
    Int(i32),
    Int64(i64),
    UInt32(u32),
    Float(u32),
    Double(u64),
    Bool(bool),
    Str(Seq<char>),
    Name(Seq<char>),
    Enum { enum_type: Seq<char>, value: Seq<char> },
    Byte { enum_type: Option<Seq<char>>, value: ByteValueV },
    Struct { struct_name: Seq<char>, value: StructValueV },
    Array(Seq<ValueV>),
    Mapping(Seq<(ValueV, ValueV)>),
    Members(Seq<ValueV>),
    Raw(Seq<u8>),
}

pub enum ByteValueV {
    Raw(u8),
    Enum(Seq<char>),
}

pub enum StructValueV {
    Guid(Seq<u8>),
    DateTime(i64),
    Properties(Seq<PropertyV>),
    Raw(Seq<u8>),
}

pub struct PropertyV {
    pub name: Seq<char>,
    pub value: ValueV,
}

pub open spec fn byte_v(b: ByteValue) -> ByteValueV {
    match b {
        ByteValue::Raw(x) => ByteValueV::Raw(x),
        ByteValue::Enum(s) => ByteValueV::Enum(s@),
    }
}

pub open spec fn opt_str_v(o: Option<String>) -> Option<Seq<char>> {
    match o {
        Some(s) => Some(s@),
        None => None,
    }
}

pub open spec fn value_v(v: Value) -> ValueV
    decreases v,
{
    match v {
        Value::Int(x) => ValueV::Int(x),
        Value::Int64(x) => ValueV::Int64(x),
        Value::UInt32(x) => ValueV::UInt32(x),
        Value::Float(x) => ValueV::Float(x),
        Value::Double(x) => ValueV::Double(x),
        Value::Bool(x) => ValueV::Bool(x),
        Value::Str(s) => ValueV::Str(s@),
        Value::Name(s) => ValueV::Name(s@),
        Value::Enum { enum_type, value } => ValueV::Enum { enum_type: enum_type@, value: value@ },
        Value::Byte { enum_type, value } => ValueV::Byte {
            enum_type: opt_str_v(enum_type),
            value: byte_v(value),
        },
        Value::Struct { struct_name, value } => ValueV::Struct {
            struct_name: struct_name@,
            value: struct_v(value),
        },
        Value::Array(items) => ValueV::Array(values_v(items@)),
        Value::Mapping(entries) => ValueV::Mapping(pairs_v(entries@)),
        Value::Members(items) => ValueV::Members(values_v(items@)),
        Value::Raw(b) => ValueV::Raw(b@),
    }
}

pub open spec fn struct_v(s: StructValue) -> StructValueV
    decreases s,
{
    match s {
        StructValue::Guid(g) => StructValueV::Guid(g@),
        StructValue::DateTime(t) => StructValueV::DateTime(t),
        StructValue::Properties(ps) => StructValueV::Properties(props_v(ps@)),
        StructValue::Raw(b) => StructValueV::Raw(b@),
    }
}

pub open spec fn values_v(s: Seq<Value>) -> Seq<ValueV>
    decreases s,
{
    if s.len() == 0 {
        Seq::empty()
    } else {
        values_v(s.drop_last()).push(value_v(s.last()))
    }
}

pub open spec fn pairs_v(s: Seq<(Value, Value)>) -> Seq<(ValueV, ValueV)>
    decreases s,
{
    if s.len() == 0 {
        Seq::empty()
    } else {
        pairs_v(s.drop_last()).push((value_v(s.last().0), value_v(s.last().1)))
    }
}

pub open spec fn props_v(s: Seq<Property>) -> Seq<PropertyV>
    decreases s,
{
    if s.len() == 0 {
        Seq::empty()
    } else {
        props_v(s.drop_last()).push(PropertyV { name: s.last().name@, value: value_v(s.last().value) })
    }
}

impl View for Value {
    type V = ValueV;

    open spec fn view(&self) -> ValueV {
        value_v(*self)
    }
}

impl View for StructValue {
    type V = StructValueV;

    open spec fn view(&self) -> StructValueV {
        struct_v(*self)
    }
}

impl View for Property {
    type V = PropertyV;

    open spec fn view(&self) -> PropertyV {
        PropertyV { name: self.name@, value: value_v(self.value) }
    }
}

/// Values seen through their views, one more pushed.
pub proof fn lemma_values_push(s: Seq<Value>, v: Value)
    ensures
        values_v(s.push(v)) == values_v(s).push(value_v(v)),
{
    assert(s.push(v).drop_last() =~= s);
}

/// Map entries seen through their views, one more pushed.
pub proof fn lemma_pairs_push(s: Seq<(Value, Value)>, v: (Value, Value))
    ensures
        pairs_v(s.push(v)) == pairs_v(s).push((value_v(v.0), value_v(v.1))),
{
    assert(s.push(v).drop_last() =~= s);
}

/// Properties seen through their views, one more pushed.
pub proof fn lemma_props_push(s: Seq<Property>, p: Property)
    ensures
        props_v(s.push(p)) == props_v(s).push(p@),
{
    assert(s.push(p).drop_last() =~= s);
}

/// The type-specific header fields between a tag's `size` and its
/// `has_property_guid` byte.
pub enum TypeExtra {
    Plain,
    Struct { struct_name: String },
    Enum { enum_name: String },
    Byte { enum_name: String },
    Array { inner_type: String },
    Members { inner_type: String },
    Mapping { key_type: String, value_type: String },
}

pub enum ExtraV {
    Plain,
    Struct(Seq<char>),
    Enum(Seq<char>),
    Byte(Seq<char>),
    Array(Seq<char>),
    Members(Seq<char>),
    Mapping(Seq<char>, Seq<char>),
}

impl View for TypeExtra {
    type V = ExtraV;

    open spec fn view(&self) -> ExtraV {
        match self {
            TypeExtra::Plain => ExtraV::Plain,
            TypeExtra::Struct { struct_name } => ExtraV::Struct(struct_name@),
            TypeExtra::Enum { enum_name } => ExtraV::Enum(enum_name@),
            TypeExtra::Byte { enum_name } => ExtraV::Byte(enum_name@),
            TypeExtra::Array { inner_type } => ExtraV::Array(inner_type@),
            TypeExtra::Members { inner_type } => ExtraV::Members(inner_type@),
            TypeExtra::Mapping { key_type, value_type } => ExtraV::Mapping(key_type@, value_type@),
        }
    }
}

/// The extra header fields for a property of type `t` at `pos`.
#[verifier::opaque]
pub open spec fn extra_at(d: Seq<u8>, pos: int, t: Seq<char>) -> Result<(ExtraV, int), GvasErrorV> {
    if t == "StructProperty"@ {
        match fstring_at(d, pos) {
            Err(e) => Err(e),
            Ok((name, p1)) => match bytes_at(d, p1, 16) {
                Err(e) => Err(e),
                Ok((_, p2)) => Ok((ExtraV::Struct(name), p2)),
            },
        }
    } else if t == "EnumProperty"@ {
        match fstring_at(d, pos) {
            Err(e) => Err(e),
            Ok((name, p1)) => Ok((ExtraV::Enum(name), p1)),
        }
    } else if t == "ByteProperty"@ {
        match fstring_at(d, pos) {
            Err(e) => Err(e),
            Ok((name, p1)) => Ok((ExtraV::Byte(name), p1)),
        }
    } else if t == "ArrayProperty"@ {
        match fstring_at(d, pos) {
            Err(e) => Err(e),
            Ok((name, p1)) => Ok((ExtraV::Array(name), p1)),
        }
    } else if t == "SetProperty"@ {
        match fstring_at(d, pos) {
            Err(e) => Err(e),
            Ok((name, p1)) => Ok((ExtraV::Members(name), p1)),
        }
    } else if t == "MapProperty"@ {
        match fstring_at(d, pos) {
            Err(e) => Err(e),
            Ok((k, p1)) => match fstring_at(d, p1) {
                Err(e) => Err(e),
                Ok((v, p2)) => Ok((ExtraV::Mapping(k, v), p2)),
            },
        }
    } else {
        Ok((ExtraV::Plain, pos))
    }
}

/// A property tag: the end-of-list marker, a complete `BoolProperty` (whose
/// value sits inline in the tag), or the header of any other property.
pub enum TagV {
    End,
    Bool { name: Seq<char>, value: bool },
    Tagged { name: Seq<char>, prop_type: Seq<char>, extra: ExtraV, size: int },
}

/// The optional 16-byte property GUID behind a `has_property_guid` flag.
pub open spec fn guid_flag_at(d: Seq<u8>, pos: int) -> Result<((), int), GvasErrorV> {
    match bool_at(d, pos) {
        Err(e) => Err(e),
        Ok((has, p1)) => if has {
            match bytes_at(d, p1, 16) {
                Err(e) => Err(e),
                Ok((_, p2)) => Ok(((), p2)),
            }
        } else {
            Ok(((), p1))
        },
    }
}

#[verifier::opaque]
pub open spec fn tag_at(d: Seq<u8>, pos: int) -> Result<(TagV, int), GvasErrorV> {
    match fstring_at(d, pos) {
        Err(e) => Err(e),
        Ok((name, p1)) => if name == "None"@ {
            Ok((TagV::End, p1))
        } else {
            match fstring_at(d, p1) {
                Err(e) => Err(e),
                Ok((t, p2)) => match i64_at(d, p2) {
                    Err(e) => Err(e),
                    Ok((size, p3)) => if size < 0 || size > MAX_VALUE_LEN {
                        Err(GvasErrorV::ImplausibleLength { declared: size, property: name })
                    } else if t == "BoolProperty"@ {
                        match bool_at(d, p3) {
                            Err(e) => Err(e),
                            Ok((b, p4)) => match guid_flag_at(d, p4) {
                                Err(e) => Err(e),
                                Ok((_, p5)) => Ok((TagV::Bool { name, value: b }, p5)),
                            },
                        }
                    } else {
                        match extra_at(d, p3, t) {
                            Err(e) => Err(e),
                            Ok((extra, p4)) => match guid_flag_at(d, p4) {
                                Err(e) => Err(e),
                                Ok((_, p5)) => Ok(
                                    (TagV::Tagged { name, prop_type: t, extra, size: size as int }, p5),
                                ),
                            },
                        }
                    },
                },
            }
        },
    }
}

/// Every `FString` consumes its four-byte length prefix.
pub proof fn lemma_fstring_advances(d: Seq<u8>, pos: int)
    ensures
        fstring_at(d, pos) matches Ok((_, p)) ==> p >= pos + 4 && p <= d.len(),
{
}

/// Every tag consumes at least its name.
pub proof fn lemma_tag_advances(d: Seq<u8>, pos: int)
    ensures
        tag_at(d, pos) matches Ok((_, p)) ==> p >= pos + 4 && p <= d.len(),
        tag_at(d, pos) matches Ok((TagV::Tagged { .. }, p)) ==> p >= pos + 17,
        tag_at(d, pos) matches Ok((TagV::Tagged { size, .. }, _)) ==> 0 <= size <= MAX_VALUE_LEN,
{
    reveal(tag_at);
    reveal(extra_at);
    lemma_fstring_advances(d, pos);
    if let Ok((name, p1)) = fstring_at(d, pos) {
        lemma_fstring_advances(d, p1);
        if let Ok((t, p2)) = fstring_at(d, p1) {
            if let Ok((_, p3)) = i64_at(d, p2) {
                if let Ok((_, p4)) = extra_at(d, p3, t) {
                    lemma_fstring_advances(d, p3);
                    if let Ok((k, q)) = fstring_at(d, p3) {
                        lemma_fstring_advances(d, q);
                    }
                }
            }
        }
    }
}

/// The value bytes `[pos, pos + size)` kept undecoded; the cursor does not move.
pub open spec fn raw_at(d: Seq<u8>, pos: int, size: int) -> Result<(ValueV, int), GvasErrorV> {
    if pos + size > d.len() {
        Err(eof_at(d, pos, size))
    } else {
        Ok((ValueV::Raw(d.subrange(pos, pos + size)), pos))
    }
}

/// The scalar value of type `t` at `pos`, for a tag with no extra fields.
#[verifier::opaque]
pub open spec fn scalar_at(d: Seq<u8>, pos: int, t: Seq<char>, size: int) -> Result<
    (ValueV, int),
    GvasErrorV,
> {
    if t == "IntProperty"@ {
        match i32_at(d, pos) {
            Err(e) => Err(e),
            Ok((v, p)) => Ok((ValueV::Int(v), p)),
        }
    } else if t == "Int64Property"@ {
        match i64_at(d, pos) {
            Err(e) => Err(e),
            Ok((v, p)) => Ok((ValueV::Int64(v), p)),
        }
    } else if t == "UInt32Property"@ {
        match u32_at(d, pos) {
            Err(e) => Err(e),
            Ok((v, p)) => Ok((ValueV::UInt32(v), p)),
        }
    } else if t == "FloatProperty"@ {
        match u32_at(d, pos) {
            Err(e) => Err(e),
            Ok((v, p)) => Ok((ValueV::Float(v), p)),
        }
    } else if t == "DoubleProperty"@ {
        match u64_at(d, pos) {
            Err(e) => Err(e),
            Ok((v, p)) => Ok((ValueV::Double(v), p)),
        }
    } else if t == "StrProperty"@ {
        match fstring_at(d, pos) {
            Err(e) => Err(e),
            Ok((s, p)) => Ok((ValueV::Str(s), p)),
        }
    } else if t == "NameProperty"@ {
        match fstring_at(d, pos) {
            Err(e) => Err(e),
            Ok((s, p)) => Ok((ValueV::Name(s), p)),
        }
    } else {
        raw_at(d, pos, size)
    }
}

/// A property list that ends at `pe`, with `head` before it.
pub open spec fn prepend(head: Seq<PropertyV>, rest: Result<(Seq<PropertyV>, int), GvasErrorV>) -> Result<
    (Seq<PropertyV>, int),
    GvasErrorV,
> {
    match rest {
        Err(e) => Err(e),
        Ok((ps, pe)) => Ok((head + ps, pe)),
    }
}

/// A `None`-terminated property list at `pos`, with the position after the
/// terminator.
pub open spec fn prop_list_at(d: Seq<u8>, pos: nat) -> Result<(Seq<PropertyV>, int), GvasErrorV>
    decreases d.len(), 5nat, 0nat, d.len() - pos,
    via prop_list_decreases
{
    match tag_at(d, pos as int) {
        Err(e) => Err(e),
        Ok((TagV::End, p1)) => Ok((Seq::empty(), p1)),
        Ok((TagV::Bool { name, value }, p1)) => prepend(
            seq![PropertyV { name, value: ValueV::Bool(value) }],
            prop_list_at(d, p1 as nat),
        ),
        Ok((TagV::Tagged { name, prop_type, extra, size }, q)) => match value_at(
            d,
            q as nat,
            prop_type,
            extra,
            size,
        ) {
            Err(e) => Err(e),
            Ok((v, pv)) => if q + size > d.len() {
                Err(eof_at(d, pv, q + size - pv))
            } else {
                prepend(seq![PropertyV { name, value: v }], prop_list_at(d, (q + size) as nat))
            },
        },
    }
}

/// Each step of [`prop_list_at`] moves past a whole tag.
#[via_fn]
proof fn prop_list_decreases(d: Seq<u8>, pos: nat) {
    lemma_tag_advances(d, pos as int);
}

/// One property at `pos`: `None` for the list terminator, with the position
/// after it.
#[verifier::opaque]
pub open spec fn property_at(d: Seq<u8>, pos: nat) -> Result<(Option<PropertyV>, int), GvasErrorV> {
    match tag_at(d, pos as int) {
        Err(e) => Err(e),
        Ok((TagV::End, p1)) => Ok((None, p1)),
        Ok((TagV::Bool { name, value }, p1)) => Ok(
            (Some(PropertyV { name, value: ValueV::Bool(value) }), p1),
        ),
        Ok((TagV::Tagged { name, prop_type, extra, size }, q)) => match value_at(
            d,
            q as nat,
            prop_type,
            extra,
            size,
        ) {
            Err(e) => Err(e),
            Ok((v, pv)) => if q + size > d.len() {
                Err(eof_at(d, pv, q + size - pv))
            } else {
                Ok((Some(PropertyV { name, value: v }), q + size))
            },
        },
    }
}

/// The value of a property tagged `t` with `extra`, whose bytes start at
/// `pos` and span `size`; with where the cursor ends up.
#[verifier::opaque]
pub open spec fn value_at(d: Seq<u8>, pos: nat, t: Seq<char>, extra: ExtraV, size: int) -> Result<
    (ValueV, int),
    GvasErrorV,
>
    decreases d.len(), 3nat, 0nat, 0int,
    when pos > 0
{
    match extra {
        ExtraV::Struct(sn) => match struct_at(d, pos, sn, size) {
            Err(e) => Err(e),
            Ok((sv, p)) => Ok((ValueV::Struct { struct_name: sn, value: sv }, p)),
        },
        ExtraV::Enum(en) => match fstring_at(d, pos as int) {
            Err(e) => Err(e),
            Ok((s, p)) => Ok((ValueV::Enum { enum_type: en, value: s }, p)),
        },
        ExtraV::Byte(en) => if en == "None"@ {
            match u8_at(d, pos as int) {
                Err(e) => Err(e),
                Ok((b, p)) => Ok((ValueV::Byte { enum_type: None, value: ByteValueV::Raw(b) }, p)),
            }
        } else {
            match fstring_at(d, pos as int) {
                Err(e) => Err(e),
                Ok((s, p)) => Ok(
                    (ValueV::Byte { enum_type: Some(en), value: ByteValueV::Enum(s) }, p),
                ),
            }
        },
        ExtraV::Array(it) => array_at(d, pos, it, size),
        ExtraV::Members(it) => set_at(d, pos, it, size),
        ExtraV::Mapping(kt, vt) => map_at(d, pos, kt, vt, size),
        ExtraV::Plain => scalar_at(d, pos as int, t, size),
    }
}

/// A struct value named `sn`: compact `Guid`, `DateTime` and `Timespan`
/// encodings, otherwise a nested property list bounded to `size` bytes that
/// degrades to raw bytes when it does not parse.
#[verifier::opaque]
pub open spec fn struct_at(d: Seq<u8>, pos: nat, sn: Seq<char>, size: int) -> Result<
    (StructValueV, int),
    GvasErrorV,
>
    decreases d.len(), 2nat, 0nat, 0int,
    when pos > 0
{
    if sn == "Guid"@ {
        match bytes_at(d, pos as int, 16) {
            Err(e) => Err(e),
            Ok((g, p)) => Ok((StructValueV::Guid(g), p)),
        }
    } else if sn == "DateTime"@ || sn == "Timespan"@ {
        match i64_at(d, pos as int) {
            Err(e) => Err(e),
            Ok((t, p)) => Ok((StructValueV::DateTime(t), p)),
        }
    } else if pos + size > d.len() || size < 0 {
        Err(eof_at(d, pos as int, size))
    } else {
        let sub = d.subrange(pos as int, pos + size);
        match prop_list_at(sub, 0) {
            Ok((ps, _)) => Ok((StructValueV::Properties(ps), pos as int)),
            Err(_) => Ok((StructValueV::Raw(sub), pos as int)),
        }
    }
}

/// An array value: `ArrayProperty<ByteProperty>` is kept as its payload;
/// anything else is decoded, falling back to raw bytes when it does not parse.
#[verifier::opaque]
pub open spec fn array_at(d: Seq<u8>, pos: nat, it: Seq<char>, size: int) -> Result<
    (ValueV, int),
    GvasErrorV,
>
    decreases d.len(), 2nat, 0nat, 0int,
    when pos > 0
{
    if it == "ByteProperty"@ {
        if pos + size > d.len() || size < 0 {
            Err(eof_at(d, pos as int, size))
        } else {
            let sub = d.subrange(pos as int, pos + size);
            match u32_at(sub, 0) {
                Err(e) => Err(e),
                Ok((_, p1)) => Ok((ValueV::Raw(sub.subrange(4, size)), pos as int)),
            }
        }
    } else {
        match try_array_at(d, pos, it, size) {
            Ok(v) => Ok(v),
            Err(_) => raw_at(d, pos as int, size),
        }
    }
}

#[verifier::opaque]
pub open spec fn try_array_at(d: Seq<u8>, pos: nat, it: Seq<char>, size: int) -> Result<
    (ValueV, int),
    GvasErrorV,
>
    decreases d.len(), 1nat, 0nat, 0int,
    when pos > 0
{
    if pos + size > d.len() || size < 0 {
        Err(eof_at(d, pos as int, size))
    } else {
        let sub = d.subrange(pos as int, pos + size);
        match u32_at(sub, 0) {
            Err(e) => Err(e),
            Ok((count, p1)) => if it == "StructProperty"@ {
                match fstring_at(sub, p1) {
                    Err(e) => Err(e),
                    Ok((_, p2)) => match fstring_at(sub, p2) {
                        Err(e) => Err(e),
                        Ok((dummy_type, p3)) => match i64_at(sub, p3) {
                            Err(e) => Err(e),
                            Ok((dummy_size, p4)) => if dummy_type != "StructProperty"@ || dummy_size
                                < 0 {
                                Err(GvasErrorV::UnsupportedCollectionElement(it))
                            } else {
                                match fstring_at(sub, p4) {
                                    Err(e) => Err(e),
                                    Ok((sn, p5)) => match bytes_at(sub, p5, 16) {
                                        Err(e) => Err(e),
                                        Ok((_, p6)) => match guid_flag_at(sub, p6) {
                                            Err(e) => Err(e),
                                            Ok((_, p7)) => match struct_elems_at(
                                                sub,
                                                p7 as nat,
                                                sn,
                                                count as nat,
                                            ) {
                                                Err(e) => Err(e),
                                                Ok((vs, _)) => Ok((ValueV::Array(vs), pos as int)),
                                            },
                                        },
                                    },
                                }
                            },
                        },
                    },
                }
            } else {
                match elems_at(sub, p1 as nat, it, count as nat) {
                    Err(e) => Err(e),
                    Ok((vs, _)) => Ok((ValueV::Array(vs), pos as int)),
                }
            },
        }
    }
}

#[verifier::opaque]
pub open spec fn set_at(d: Seq<u8>, pos: nat, it: Seq<char>, size: int) -> Result<
    (ValueV, int),
    GvasErrorV,
>
    decreases d.len(), 2nat, 0nat, 0int,
    when pos > 0
{
    match try_set_at(d, pos, it, size) {
        Ok(v) => Ok(v),
        Err(_) => raw_at(d, pos as int, size),
    }
}

#[verifier::opaque]
pub open spec fn try_set_at(d: Seq<u8>, pos: nat, it: Seq<char>, size: int) -> Result<
    (ValueV, int),
    GvasErrorV,
>
    decreases d.len(), 1nat, 0nat, 0int,
    when pos > 0
{
    if pos + size > d.len() || size < 0 {
        Err(eof_at(d, pos as int, size))
    } else {
        let sub = d.subrange(pos as int, pos + size);
        match u32_at(sub, 0) {
            Err(e) => Err(e),
            Ok((_, p1)) => match u32_at(sub, p1) {
                Err(e) => Err(e),
                Ok((count, p2)) => match elems_at(sub, p2 as nat, it, count as nat) {
                    Err(e) => Err(e),
                    Ok((vs, _)) => Ok((ValueV::Members(vs), pos as int)),
                },
            },
        }
    }
}

#[verifier::opaque]
pub open spec fn map_at(d: Seq<u8>, pos: nat, kt: Seq<char>, vt: Seq<char>, size: int) -> Result<
    (ValueV, int),
    GvasErrorV,
>
    decreases d.len(), 2nat, 0nat, 0int,
    when pos > 0
{
    match try_map_at(d, pos, kt, vt, size) {
        Ok(v) => Ok(v),
        Err(_) => raw_at(d, pos as int, size),
    }
}

#[verifier::opaque]
pub open spec fn try_map_at(d: Seq<u8>, pos: nat, kt: Seq<char>, vt: Seq<char>, size: int) -> Result<
    (ValueV, int),
    GvasErrorV,
>
    decreases d.len(), 1nat, 0nat, 0int,
    when pos > 0
{
    if pos + size > d.len() || size < 0 {
        Err(eof_at(d, pos as int, size))
    } else {
        let sub = d.subrange(pos as int, pos + size);
        match u32_at(sub, 0) {
            Err(e) => Err(e),
            Ok((_, p1)) => match u32_at(sub, p1) {
                Err(e) => Err(e),
                Ok((count, p2)) => match pairs_at(sub, p2 as nat, kt, vt, count as nat) {
                    Err(e) => Err(e),
                    Ok((es, _)) => Ok((ValueV::Mapping(es), pos as int)),
                },
            },
        }
    }
}

/// One map/set/array element of type `t` at `pos`. Struct elements are plain
/// property lists with no struct name of their own.
#[verifier::opaque]
pub open spec fn element_at(d: Seq<u8>, pos: nat, t: Seq<char>) -> Result<(ValueV, int), GvasErrorV>
    decreases d.len(), 6nat, 0nat, 0int,
{
    if t == "StructProperty"@ {
        match prop_list_at(d, pos) {
            Err(e) => Err(e),
            Ok((ps, p)) => Ok(
                (
                    ValueV::Struct {
                        struct_name: Seq::empty(),
                        value: StructValueV::Properties(ps),
                    },
                    p,
                ),
            ),
        }
    } else if t == "BoolProperty"@ {
        match bool_at(d, pos as int) {
            Err(e) => Err(e),
            Ok((b, p)) => Ok((ValueV::Bool(b), p)),
        }
    } else if t == "ByteProperty"@ {
        match u8_at(d, pos as int) {
            Err(e) => Err(e),
            Ok((b, p)) => Ok((ValueV::Byte { enum_type: None, value: ByteValueV::Raw(b) }, p)),
        }
    } else if t == "EnumProperty"@ {
        match fstring_at(d, pos as int) {
            Err(e) => Err(e),
            Ok((s, p)) => Ok((ValueV::Enum { enum_type: Seq::empty(), value: s }, p)),
        }
    } else if t == "IntProperty"@ || t == "Int64Property"@ || t == "UInt32Property"@ || t
        == "FloatProperty"@ || t == "DoubleProperty"@ || t == "StrProperty"@ || t
        == "NameProperty"@ {
        scalar_at(d, pos as int, t, 0)
    } else {
        Err(GvasErrorV::UnsupportedCollectionElement(t))
    }
}

/// `count` elements of type `t` from `pos`.
#[verifier::opaque]
pub open spec fn elems_at(d: Seq<u8>, pos: nat, t: Seq<char>, count: nat) -> Result<
    (Seq<ValueV>, int),
    GvasErrorV,
>
    decreases d.len(), 7nat, count, 0int,
{
    if count == 0 {
        Ok((Seq::empty(), pos as int))
    } else {
        match elems_at(d, pos, t, (count - 1) as nat) {
            Err(e) => Err(e),
            Ok((vs, p1)) => match element_at(d, p1 as nat, t) {
                Err(e) => Err(e),
                Ok((v, p2)) => Ok((vs.push(v), p2)),
            },
        }
    }
}

/// `count` struct elements named `sn` from `pos`, each a property list.
#[verifier::opaque]
pub open spec fn struct_elems_at(d: Seq<u8>, pos: nat, sn: Seq<char>, count: nat) -> Result<
    (Seq<ValueV>, int),
    GvasErrorV,
>
    decreases d.len(), 7nat, count, 0int,
{
    if count == 0 {
        Ok((Seq::empty(), pos as int))
    } else {
        match struct_elems_at(d, pos, sn, (count - 1) as nat) {
            Err(e) => Err(e),
            Ok((vs, p1)) => match prop_list_at(d, p1 as nat) {
                Err(e) => Err(e),
                Ok((ps, p2)) => Ok(
                    (
                        vs.push(
                            ValueV::Struct { struct_name: sn, value: StructValueV::Properties(ps) },
                        ),
                        p2,
                    ),
                ),
            },
        }
    }
}

/// `count` key/value pairs from `pos`.
#[verifier::opaque]
pub open spec fn pairs_at(d: Seq<u8>, pos: nat, kt: Seq<char>, vt: Seq<char>, count: nat) -> Result<
    (Seq<(ValueV, ValueV)>, int),
    GvasErrorV,
>
    decreases d.len(), 7nat, count, 0int,
{
    if count == 0 {
        Ok((Seq::empty(), pos as int))
    } else {
        match pairs_at(d, pos, kt, vt, (count - 1) as nat) {
            Err(e) => Err(e),
            Ok((es, p1)) => match element_at(d, p1 as nat, kt) {
                Err(e) => Err(e),
                Ok((k, p2)) => match element_at(d, p2 as nat, vt) {
                    Err(e) => Err(e),
                    Ok((v, p3)) => Ok((es.push((k, v)), p3)),
                },
            },
        }
    }
}


/// A decoding step from `before`: on success the decoded value's view is the
/// expected one and the cursor sits at the expected position; on failure the
/// error is the expected one. The slice never changes.
pub open spec fn decoded<T, V>(
    before: crate::gvas::cursor::CursorView,
    after: crate::gvas::cursor::CursorView,
    expected: Result<(V, int), GvasErrorV>,
    r: Result<T, GvasError>,
    view: spec_fn(T) -> V,
) -> bool {
    after.data == before.data && match (expected, r) {
        (Ok((v, p)), Ok(x)) => view(x) == v && after.pos == p,
        (Err(e), Err(x)) => x@ == e,
        _ => false,
    }
}

/// One property tag, as read.
pub enum Tag {
    End,
    Bool { name: String, value: bool },
    Tagged { name: String, prop_type: String, extra: TypeExtra, size: usize },
}

impl View for Tag {
    type V = TagV;

    open spec fn view(&self) -> TagV {
        match self {
            Tag::End => TagV::End,
            Tag::Bool { name, value } => TagV::Bool { name: name@, value: *value },
            Tag::Tagged { name, prop_type, extra, size } => TagV::Tagged {
                name: name@,
                prop_type: prop_type@,
                extra: extra@,
                size: *size as int,
            },
        }
    }
}

fn read_guid_flag(cursor: &mut Cursor) -> (r: Result<(), GvasError>)
    ensures
        decoded(old(cursor)@, final(cursor)@, guid_flag_at(old(cursor)@.data, old(cursor)@.pos as int), r, |x: ()| ()),
{
    let has = cursor.bool()?;
    if has {
        cursor.guid()?;
    }
    Ok(())
}

fn read_extra(cursor: &mut Cursor, t: &str) -> (r: Result<TypeExtra, GvasError>)
    ensures
        decoded(old(cursor)@, final(cursor)@, extra_at(old(cursor)@.data, old(cursor)@.pos as int, t@), r, |x: TypeExtra| x@),
{
    proof {
        reveal(extra_at);
    }
    if str_eq(t, "StructProperty") {
        let struct_name = cursor.fstring()?;
        // The struct GUID: zero on every real property observed.
        cursor.guid()?;
        Ok(TypeExtra::Struct { struct_name })
    } else if str_eq(t, "EnumProperty") {
        Ok(TypeExtra::Enum { enum_name: cursor.fstring()? })
    } else if str_eq(t, "ByteProperty") {
        Ok(TypeExtra::Byte { enum_name: cursor.fstring()? })
    } else if str_eq(t, "ArrayProperty") {
        Ok(TypeExtra::Array { inner_type: cursor.fstring()? })
    } else if str_eq(t, "SetProperty") {
        Ok(TypeExtra::Members { inner_type: cursor.fstring()? })
    } else if str_eq(t, "MapProperty") {
        let key_type = cursor.fstring()?;
        let value_type = cursor.fstring()?;
        Ok(TypeExtra::Mapping { key_type, value_type })
    } else {
        Ok(TypeExtra::Plain)
    }
}

fn read_tag(cursor: &mut Cursor) -> (r: Result<Tag, GvasError>)
    ensures
        decoded(old(cursor)@, final(cursor)@, tag_at(old(cursor)@.data, old(cursor)@.pos as int), r, |x: Tag| x@),
{
    proof {
        reveal(tag_at);
    }
    let name = cursor.fstring()?;
    if str_eq(name.as_str(), "None") {
        return Ok(Tag::End);
    }
    let prop_type = cursor.fstring()?;
    let size = cursor.i64()?;
    if size < 0 || size > MAX_VALUE_LEN {
        return Err(GvasError::ImplausibleLength { declared: size, property: name });
    }
    let size = size as usize;
    // BoolProperty is the one type whose value sits inline before
    // HasPropertyGuid, with a size of 0.
    if str_eq(prop_type.as_str(), "BoolProperty") {
        let value = cursor.bool()?;
        read_guid_flag(cursor)?;
        return Ok(Tag::Bool { name, value });
    }
    let extra = read_extra(cursor, prop_type.as_str())?;
    read_guid_flag(cursor)?;
    Ok(Tag::Tagged { name, prop_type, extra, size })
}

/// The `size` bytes at the cursor, copied out without moving it.
fn raw_bytes(cursor: &Cursor, size: usize) -> (r: Result<Vec<u8>, GvasError>)
    ensures
        decoded(cursor@, cursor@, raw_at(cursor@.data, cursor@.pos as int, size as int), r, |x: Vec<u8>| ValueV::Raw(x@)),
{
    let sub = cursor.sub_cursor(size)?;
    Ok(copy_bytes(sub.all()))
}

fn decode_scalar(cursor: &mut Cursor, t: &str, size: usize) -> (r: Result<Value, GvasError>)
    ensures
        decoded(old(cursor)@, final(cursor)@, scalar_at(old(cursor)@.data, old(cursor)@.pos as int, t@, size as int), r, |x: Value| x@),
{
    proof {
        reveal(scalar_at);
    }
    if str_eq(t, "IntProperty") {
        Ok(Value::Int(cursor.i32()?))
    } else if str_eq(t, "Int64Property") {
        Ok(Value::Int64(cursor.i64()?))
    } else if str_eq(t, "UInt32Property") {
        Ok(Value::UInt32(cursor.u32()?))
    } else if str_eq(t, "FloatProperty") {
        Ok(Value::Float(cursor.u32()?))
    } else if str_eq(t, "DoubleProperty") {
        Ok(Value::Double(cursor.u64()?))
    } else if str_eq(t, "StrProperty") {
        Ok(Value::Str(cursor.fstring()?))
    } else if str_eq(t, "NameProperty") {
        Ok(Value::Name(cursor.fstring()?))
    } else {
        Ok(Value::Raw(raw_bytes(cursor, size)?))
    }
}

/// Parse a `None`-terminated list of property tags: the `GVAS` body after
/// the header, and the contents of every generic struct.
#[verifier::spinoff_prover]
#[verifier::rlimit(50)]
#[verifier::loop_isolation(false)]
pub fn parse_property_list(cursor: &mut Cursor) -> (r: Result<Vec<Property>, GvasError>)
    ensures
        decoded(old(cursor)@, final(cursor)@, prop_list_at(old(cursor)@.data, old(cursor)@.pos as nat), r, |x: Vec<Property>| props_v(x@)),
    decreases old(cursor)@.data.len(), 5nat, 0nat, 0int,
{
    let ghost d = cursor@.data;
    let ghost start = cursor@.pos as int;
    let _ = cursor.pos();
    let mut props: Vec<Property> = Vec::new();
    loop
        invariant
            cursor@.data == d,
            start <= cursor@.pos <= d.len(),
            prop_list_at(d, start as nat) == prepend(props_v(props@), prop_list_at(d, cursor@.pos as nat)),
            d == old(cursor)@.data,
        decreases d.len() - cursor@.pos as int,
    {
        let ghost here = cursor@.pos as int;
        proof {
            lemma_prop_list_unfold(d, here as nat);
            lemma_property_advances(d, here as nat);
        }
        match parse_property(cursor) {
            Err(e) => {
                return Err(e);
            },
            Ok(None) => {
                proof {
                    assert(props_v(props@) + Seq::<PropertyV>::empty() =~= props_v(props@));
                }
                return Ok(props);
            },
            Ok(Some(p)) => {
                proof {
                    lemma_props_push(props@, p);
                    let ghost rest = prop_list_at(d, cursor@.pos as nat);
                    if let Ok((ps, pe)) = rest {
                        assert(props_v(props@) + (seq![p@] + ps) =~= props_v(props@).push(p@) + ps);
                    }
                }
                props.push(p);
            },
        }
    }
}


/// A property that is not the terminator moves the position forward and
/// stays within the slice.
pub proof fn lemma_property_advances(d: Seq<u8>, pos: nat)
    ensures
        property_at(d, pos) matches Ok((_, p)) ==> pos < p <= d.len(),
{
    reveal(property_at);
    lemma_tag_advances(d, pos as int);
    lemma_tag_advances(d, pos as int);
}

/// A tagged property ends exactly where its declared size says, however much
/// of those bytes its value's decoding read: the next tag starts `size`
/// bytes after the value began, so an unfamiliar value cannot desync the
/// walk.
pub proof fn lemma_property_spans_declared_size(d: Seq<u8>, pos: nat)
    ensures
        tag_at(d, pos as int) matches Ok((TagV::Tagged { size, .. }, q)) ==> (property_at(d, pos) matches Ok((_, p))
            ==> p == q + size),
{
    reveal(property_at);
}

#[verifier::spinoff_prover]
#[verifier::rlimit(50)]
fn parse_property(cursor: &mut Cursor) -> (r: Result<Option<Property>, GvasError>)
    ensures
        decoded(old(cursor)@, final(cursor)@, property_at(old(cursor)@.data, old(cursor)@.pos as nat), r, |x: Option<Property>| match x { Some(p) => Some(p@), None => None::<PropertyV> }),
    decreases old(cursor)@.data.len(), 4nat, 0nat, 0int,
{
    reveal(property_at);
    let ghost d = cursor@.data;
    let ghost start = cursor@.pos as int;
    proof {
        lemma_tag_advances(d, start);
    }
    let tag = match read_tag(cursor) {
        Ok(t) => t,
        Err(e) => {
            assert(tag_at(d, start) == Err::<(TagV, int), GvasErrorV>(e@));
            assert(property_at(d, start as nat) == Err::<(Option<PropertyV>, int), GvasErrorV>(e@));
            assert(cursor@.data == d);
            return Err(e);
        },
    };
    match tag {
        Tag::End => Ok(None),
        Tag::Bool { name, value } => Ok(Some(Property { name, value: Value::Bool(value) })),
        Tag::Tagged { name, prop_type, extra, size } => {
            let q = cursor.pos();
            let value = match decode_value(cursor, prop_type.as_str(), &extra, size) {
                Ok(v) => v,
                Err(e) => {
                    return Err(e);
                },
            };
            // Unconditional resync: the next tag starts exactly `size` bytes
            // after the value began, whatever the decoder consumed.
            let here = cursor.pos();
            if size > cursor.len() - q {
                return Err(
                    GvasError::UnexpectedEof {
                        offset: here,
                        needed: (#[verifier::truncate] (((q as u128) + (size as u128) - (here as u128)) as usize)),
                        available: cursor.len() - here,
                    },
                );
            }
            cursor.set_pos(q + size)?;
            Ok(Some(Property { name, value }))
        },
    }
}


fn decode_value(cursor: &mut Cursor, t: &str, extra: &TypeExtra, size: usize) -> (r: Result<Value, GvasError>)
    requires
        old(cursor)@.pos > 0,
    ensures
        decoded(old(cursor)@, final(cursor)@, value_at(old(cursor)@.data, old(cursor)@.pos as nat, t@, extra@, size as int), r, |x: Value| x@),
    decreases old(cursor)@.data.len(), 3nat, 0nat, 0int,
{
    proof {
        lemma_value_unfold(old(cursor)@.data, old(cursor)@.pos as nat, t@, extra@, size as int);
    }
    match extra {
        TypeExtra::Struct { struct_name } => {
            let value = decode_struct(cursor, struct_name.as_str(), size)?;
            Ok(Value::Struct { struct_name: struct_name.clone(), value })
        },
        TypeExtra::Enum { enum_name } => {
            Ok(Value::Enum { enum_type: enum_name.clone(), value: cursor.fstring()? })
        },
        TypeExtra::Byte { enum_name } => {
            if str_eq(enum_name.as_str(), "None") {
                Ok(Value::Byte { enum_type: None, value: ByteValue::Raw(cursor.u8()?) })
            } else {
                Ok(
                    Value::Byte {
                        enum_type: Some(enum_name.clone()),
                        value: ByteValue::Enum(cursor.fstring()?),
                    },
                )
            }
        },
        TypeExtra::Array { inner_type } => decode_array(cursor, inner_type.as_str(), size),
        TypeExtra::Members { inner_type } => decode_set(cursor, inner_type.as_str(), size),
        TypeExtra::Mapping { key_type, value_type } => decode_map(
            cursor,
            key_type.as_str(),
            value_type.as_str(),
            size,
        ),
        TypeExtra::Plain => decode_scalar(cursor, t, size),
    }
}

fn decode_struct(cursor: &mut Cursor, struct_name: &str, size: usize) -> (r: Result<StructValue, GvasError>)
    requires
        old(cursor)@.pos > 0,
    ensures
        decoded(old(cursor)@, final(cursor)@, struct_at(old(cursor)@.data, old(cursor)@.pos as nat, struct_name@, size as int), r, |x: StructValue| x@),
    decreases old(cursor)@.data.len(), 2nat, 0nat, 0int,
{
    proof {
        lemma_struct_unfold(old(cursor)@.data, old(cursor)@.pos as nat, struct_name@, size as int);
    }
    if str_eq(struct_name, "Guid") {
        Ok(StructValue::Guid(cursor.guid()?))
    } else if str_eq(struct_name, "DateTime") || str_eq(struct_name, "Timespan") {
        Ok(StructValue::DateTime(cursor.i64()?))
    } else {
        let mut sub = cursor.sub_cursor(size)?;
        match parse_property_list(&mut sub) {
            Ok(props) => Ok(StructValue::Properties(props)),
            Err(_) => Ok(StructValue::Raw(copy_bytes(sub.all()))),
        }
    }
}

fn decode_array(cursor: &mut Cursor, inner_type: &str, size: usize) -> (r: Result<Value, GvasError>)
    requires
        old(cursor)@.pos > 0,
    ensures
        decoded(old(cursor)@, final(cursor)@, array_at(old(cursor)@.data, old(cursor)@.pos as nat, inner_type@, size as int), r, |x: Value| x@),
    decreases old(cursor)@.data.len(), 2nat, 0nat, 0int,
{
    proof {
        lemma_array_unfold(old(cursor)@.data, old(cursor)@.pos as nat, inner_type@, size as int);
    }
    if str_eq(inner_type, "ByteProperty") {
        // RawData and friends: keep the payload, drop the redundant count.
        let mut sub = cursor.sub_cursor(size)?;
        let _count = sub.u32()?;
        let rest = sub.len() - sub.pos();
        let payload = sub.bytes(rest)?;
        return Ok(Value::Raw(copy_bytes(payload)));
    }
    match try_decode_array(cursor, inner_type, size) {
        Ok(v) => Ok(v),
        Err(_) => Ok(Value::Raw(raw_bytes(cursor, size)?)),
    }
}

#[verifier::spinoff_prover]
#[verifier::rlimit(50)]
#[verifier::loop_isolation(false)]
fn try_decode_array(cursor: &Cursor, inner_type: &str, size: usize) -> (r: Result<Value, GvasError>)
    requires
        cursor@.pos > 0,
    ensures
        decoded(cursor@, cursor@, try_array_at(cursor@.data, cursor@.pos as nat, inner_type@, size as int), r, |x: Value| x@),
    decreases cursor@.data.len(), 1nat, 0nat, 0int,
{
    proof {
        reveal_with_fuel(try_array_at, 1);
    }
    let mut sub = cursor.sub_cursor(size)?;
    let ghost sd = sub@.data;
    let count = sub.u32()?;
    let mut items: Vec<Value> = Vec::new();
    if str_eq(inner_type, "StructProperty") {
        // Arrays of structs carry one leading dummy tag naming the struct type
        // shared by every element, down to its own has_property_guid byte.
        let _dummy_name = sub.fstring()?;
        let dummy_type = sub.fstring()?;
        let dummy_size = sub.i64()?;
        if !str_eq(dummy_type.as_str(), "StructProperty") || dummy_size < 0 {
            return Err(GvasError::UnsupportedCollectionElement(inner_type.to_owned()));
        }
        let struct_name = sub.fstring()?;
        sub.guid()?;
        read_guid_flag(&mut sub)?;
        let ghost first = sub@.pos as int;
        proof {
            lemma_struct_elems_empty(sd, first as nat, struct_name@);
        }
        let mut i: u32 = 0;
        while i < count
            invariant
                i <= count,
                sub@.data == sd,
                sd.len() < cursor@.data.len(),
                struct_elems_at(sd, first as nat, struct_name@, i as nat) matches Ok((vs, p))
                    && vs == values_v(items@) && sub@.pos == p,
            decreases count - i,
        {
            proof {
                lemma_struct_elems_step(sd, first as nat, struct_name@, i as nat);
            }
            let props = match parse_property_list(&mut sub) {
                Ok(ps) => ps,
                Err(e) => {
                    proof {
                        lemma_struct_elems_error_persists(sd, first as nat, struct_name@, (i + 1) as nat, count as nat);
                    }
                    return Err(e);
                },
            };
            let v = Value::Struct {
                struct_name: struct_name.clone(),
                value: StructValue::Properties(props),
            };
            proof {
                lemma_values_push(items@, v);
            }
            items.push(v);
            i += 1;
        }
        return Ok(Value::Array(items));
    }
    let ghost first = sub@.pos as int;
    proof {
        lemma_elems_empty(sd, first as nat, inner_type@);
    }
    let mut i: u32 = 0;
    while i < count
        invariant
            i <= count,
            sub@.data == sd,
            sd.len() < cursor@.data.len(),
            elems_at(sd, first as nat, inner_type@, i as nat) matches Ok((vs, p)) && vs
                == values_v(items@) && sub@.pos == p,
        decreases count - i,
    {
        proof {
            lemma_elems_step(sd, first as nat, inner_type@, i as nat);
        }
        let v = match decode_collection_element(&mut sub, inner_type) {
            Ok(v) => v,
            Err(e) => {
                proof {
                    lemma_elems_error_persists(sd, first as nat, inner_type@, (i + 1) as nat, count as nat);
                }
                return Err(e);
            },
        };
        proof {
            lemma_values_push(items@, v);
        }
        items.push(v);
        i += 1;
    }
    Ok(Value::Array(items))
}

fn decode_set(cursor: &mut Cursor, inner_type: &str, size: usize) -> (r: Result<Value, GvasError>)
    requires
        old(cursor)@.pos > 0,
    ensures
        decoded(old(cursor)@, final(cursor)@, set_at(old(cursor)@.data, old(cursor)@.pos as nat, inner_type@, size as int), r, |x: Value| x@),
    decreases old(cursor)@.data.len(), 2nat, 0nat, 0int,
{
    let ghost d = cursor@.data;
    let ghost pos = cursor@.pos;
    proof {
        lemma_set_unfold(d, pos, inner_type@, size as int);
    }
    match try_decode_set(cursor, inner_type, size) {
        Ok(v) => {
            assert(cursor@.data == d && cursor@.pos == pos);
            Ok(v)
        },
        Err(_) => Ok(Value::Raw(raw_bytes(cursor, size)?)),
    }
}

#[verifier::spinoff_prover]
#[verifier::rlimit(50)]
#[verifier::loop_isolation(false)]
fn try_decode_set(cursor: &Cursor, inner_type: &str, size: usize) -> (r: Result<Value, GvasError>)
    requires
        cursor@.pos > 0,
    ensures
        decoded(cursor@, cursor@, try_set_at(cursor@.data, cursor@.pos as nat, inner_type@, size as int), r, |x: Value| x@),
    decreases cursor@.data.len(), 1nat, 0nat, 0int,
{
    proof {
        reveal_with_fuel(try_set_at, 1);
    }
    let mut sub = cursor.sub_cursor(size)?;
    let ghost sd = sub@.data;
    let _removed = sub.u32()?;
    let count = sub.u32()?;
    let ghost first = sub@.pos as int;
    proof {
        lemma_elems_empty(sd, first as nat, inner_type@);
    }
    let mut items: Vec<Value> = Vec::new();
    let mut i: u32 = 0;
    while i < count
        invariant
            i <= count,
            sub@.data == sd,
            sd.len() < cursor@.data.len(),
            elems_at(sd, first as nat, inner_type@, i as nat) matches Ok((vs, p)) && vs
                == values_v(items@) && sub@.pos == p,
        decreases count - i,
    {
        proof {
            lemma_elems_step(sd, first as nat, inner_type@, i as nat);
        }
        let v = match decode_collection_element(&mut sub, inner_type) {
            Ok(v) => v,
            Err(e) => {
                proof {
                    lemma_elems_error_persists(sd, first as nat, inner_type@, (i + 1) as nat, count as nat);
                }
                return Err(e);
            },
        };
        proof {
            lemma_values_push(items@, v);
        }
        items.push(v);
        i += 1;
    }
    Ok(Value::Members(items))
}

fn decode_map(cursor: &mut Cursor, key_type: &str, value_type: &str, size: usize) -> (r: Result<Value, GvasError>)
    requires
        old(cursor)@.pos > 0,
    ensures
        decoded(old(cursor)@, final(cursor)@, map_at(old(cursor)@.data, old(cursor)@.pos as nat, key_type@, value_type@, size as int), r, |x: Value| x@),
    decreases old(cursor)@.data.len(), 2nat, 0nat, 0int,
{
    proof {
        lemma_map_unfold(old(cursor)@.data, old(cursor)@.pos as nat, key_type@, value_type@, size as int);
    }
    match try_decode_map(cursor, key_type, value_type, size) {
        Ok(v) => Ok(v),
        Err(_) => Ok(Value::Raw(raw_bytes(cursor, size)?)),
    }
}

#[verifier::spinoff_prover]
#[verifier::rlimit(50)]
#[verifier::loop_isolation(false)]
fn try_decode_map(cursor: &Cursor, key_type: &str, value_type: &str, size: usize) -> (r: Result<Value, GvasError>)
    requires
        cursor@.pos > 0,
    ensures
        decoded(cursor@, cursor@, try_map_at(cursor@.data, cursor@.pos as nat, key_type@, value_type@, size as int), r, |x: Value| x@),
    decreases cursor@.data.len(), 1nat, 0nat, 0int,
{
    proof {
        reveal_with_fuel(try_map_at, 1);
    }
    let mut sub = cursor.sub_cursor(size)?;
    let ghost sd = sub@.data;
    let _unused = sub.u32()?;
    let count = sub.u32()?;
    let ghost first = sub@.pos as int;
    proof {
        lemma_pairs_empty(sd, first as nat, key_type@, value_type@);
    }
    let mut entries: Vec<(Value, Value)> = Vec::new();
    let mut i: u32 = 0;
    while i < count
        invariant
            i <= count,
            sub@.data == sd,
            sd.len() < cursor@.data.len(),
            pairs_at(sd, first as nat, key_type@, value_type@, i as nat) matches Ok((es, p)) && es
                == pairs_v(entries@) && sub@.pos == p,
        decreases count - i,
    {
        proof {
            lemma_pairs_step(sd, first as nat, key_type@, value_type@, i as nat);
        }
        let key = match decode_collection_element(&mut sub, key_type) {
            Ok(v) => v,
            Err(e) => {
                proof {
                    lemma_pairs_error_persists(sd, first as nat, key_type@, value_type@, (i + 1) as nat, count as nat);
                }
                return Err(e);
            },
        };
        let value = match decode_collection_element(&mut sub, value_type) {
            Ok(v) => v,
            Err(e) => {
                proof {
                    lemma_pairs_error_persists(sd, first as nat, key_type@, value_type@, (i + 1) as nat, count as nat);
                }
                return Err(e);
            },
        };
        proof {
            lemma_pairs_push(entries@, (key, value));
        }
        entries.push((key, value));
        i += 1;
    }
    Ok(Value::Mapping(entries))
}

/// A single map, set or array element of a scalar or struct type. Palworld's
/// own structs appear here as plain property lists; no real collection holds
/// compact `Guid`/`DateTime` elements.
#[verifier::spinoff_prover]
#[verifier::rlimit(50)]
fn decode_collection_element(cursor: &mut Cursor, t: &str) -> (r: Result<Value, GvasError>)
    ensures
        decoded(old(cursor)@, final(cursor)@, element_at(old(cursor)@.data, old(cursor)@.pos as nat, t@), r, |x: Value| x@),
    decreases old(cursor)@.data.len(), 6nat, 0nat, 0int,
{
    proof {
        reveal_with_fuel(element_at, 1);
    }
    if str_eq(t, "StructProperty") {
        let props = parse_property_list(cursor)?;
        Ok(Value::Struct { struct_name: String::new(), value: StructValue::Properties(props) })
    } else if str_eq(t, "BoolProperty") {
        Ok(Value::Bool(cursor.bool()?))
    } else if str_eq(t, "ByteProperty") {
        Ok(Value::Byte { enum_type: None, value: ByteValue::Raw(cursor.u8()?) })
    } else if str_eq(t, "EnumProperty") {
        Ok(Value::Enum { enum_type: String::new(), value: cursor.fstring()? })
    } else if str_eq(t, "IntProperty") || str_eq(t, "Int64Property") || str_eq(t, "UInt32Property")
        || str_eq(t, "FloatProperty") || str_eq(t, "DoubleProperty") || str_eq(t, "StrProperty")
        || str_eq(t, "NameProperty") {
        decode_scalar(cursor, t, 0)
    } else {
        Err(GvasError::UnsupportedCollectionElement(t.to_owned()))
    }
}






/// Parse a standalone buffer as a `None`-terminated property list, e.g. an
/// extracted [`Value::Raw`] blob, without a `GVAS` header.
pub fn parse_property_list_bytes(bytes: &[u8]) -> (r: Result<Vec<Property>, GvasError>)
    ensures
        match (prop_list_at(bytes@, 0), r) {
            (Ok((ps, _)), Ok(v)) => props_v(v@) == ps,
            (Err(e), Err(x)) => x@ == e,
            _ => false,
        },
{
    let mut cursor = Cursor::new(bytes);
    parse_property_list(&mut cursor)
}

} // verus!
