//! Unfolding lemmas for the property-tree readers in [`super::value`]: each
//! states one step of a recursive reader, so that the executable decoders can
//! follow the reader one element at a time.

use vstd::prelude::*;

use crate::gvas::cursor::{bytes_at, eof_at, fstring_at, i64_at, u32_at, u8_at};
use crate::gvas::value::{
    array_at, element_at, elems_at, lemma_tag_advances, map_at, pairs_at, prepend, prop_list_at,
    property_at, raw_at, scalar_at, set_at, struct_at, struct_elems_at, tag_at, try_array_at,
    try_map_at, try_set_at, value_at, ByteValueV, ExtraV, PropertyV, StructValueV, TagV, ValueV,
};
use crate::gvas::GvasErrorV;

verus! {

/// The list at `pos` is its first property followed by the list after it.
#[verifier::spinoff_prover]
#[verifier::rlimit(100)]
pub proof fn lemma_prop_list_unfold(d: Seq<u8>, pos: nat)
    ensures
        prop_list_at(d, pos) == match property_at(d, pos) {
            Err(e) => Err(e),
            Ok((None, p1)) => Ok((Seq::empty(), p1)),
            Ok((Some(prop), p1)) => prepend(seq![prop], prop_list_at(d, p1 as nat)),
        },
{
    reveal_with_fuel(prop_list_at, 1);
    reveal(property_at);
    lemma_tag_advances(d, pos as int);
    if let Ok((TagV::Tagged { name, prop_type, extra, size }, q)) = tag_at(d, pos as int) {
        let x = value_at(d, q as nat, prop_type, extra, size);
        if let Ok((v, pv)) = x {
            if q + size <= d.len() {
                assert(prop_list_at(d, pos) == prepend(
                    seq![PropertyV { name, value: v }],
                    prop_list_at(d, (q + size) as nat),
                ));
            } else {
                assert(prop_list_at(d, pos) == Err::<(Seq<PropertyV>, int), GvasErrorV>(
                    eof_at(d, pv, q + size - pv),
                ));
            }
        } else {
            assert(prop_list_at(d, pos) is Err);
        }
    }
}

/// One more element extends the list read so far by the element after it.
pub proof fn lemma_elems_step(d: Seq<u8>, pos: nat, t: Seq<char>, i: nat)
    ensures
        elems_at(d, pos, t, i + 1) == match elems_at(d, pos, t, i) {
            Err(e) => Err(e),
            Ok((vs, p1)) => match element_at(d, p1 as nat, t) {
                Err(e) => Err(e),
                Ok((v, p2)) => Ok((vs.push(v), p2)),
            },
        },
{
    reveal_with_fuel(elems_at, 1);
}

/// One more pair extends the entries read so far by the key and value after
/// them.
pub proof fn lemma_pairs_step(d: Seq<u8>, pos: nat, kt: Seq<char>, vt: Seq<char>, i: nat)
    ensures
        pairs_at(d, pos, kt, vt, i + 1) == match pairs_at(d, pos, kt, vt, i) {
            Err(e) => Err(e),
            Ok((es, p1)) => match element_at(d, p1 as nat, kt) {
                Err(e) => Err(e),
                Ok((k, p2)) => match element_at(d, p2 as nat, vt) {
                    Err(e) => Err(e),
                    Ok((v, p3)) => Ok((es.push((k, v)), p3)),
                },
            },
        },
{
    reveal_with_fuel(pairs_at, 1);
}

/// No elements: nothing read, nothing consumed.
pub proof fn lemma_elems_empty(d: Seq<u8>, pos: nat, t: Seq<char>)
    ensures
        elems_at(d, pos, t, 0) == Ok::<(Seq<ValueV>, int), GvasErrorV>((Seq::empty(), pos as int)),
{
    reveal_with_fuel(elems_at, 1);
}

/// No struct elements: nothing read, nothing consumed.
pub proof fn lemma_struct_elems_empty(d: Seq<u8>, pos: nat, sn: Seq<char>)
    ensures
        struct_elems_at(d, pos, sn, 0) == Ok::<(Seq<ValueV>, int), GvasErrorV>((Seq::empty(), pos as int)),
{
    reveal_with_fuel(struct_elems_at, 1);
}

/// No pairs: nothing read, nothing consumed.
pub proof fn lemma_pairs_empty(d: Seq<u8>, pos: nat, kt: Seq<char>, vt: Seq<char>)
    ensures
        pairs_at(d, pos, kt, vt, 0) == Ok::<(Seq<(ValueV, ValueV)>, int), GvasErrorV>((Seq::empty(), pos as int)),
{
    reveal_with_fuel(pairs_at, 1);
}

/// One more struct element extends the list read so far by the property list
/// after it.
#[verifier::spinoff_prover]
pub proof fn lemma_struct_elems_step(d: Seq<u8>, pos: nat, sn: Seq<char>, i: nat)
    ensures
        struct_elems_at(d, pos, sn, i + 1) == match struct_elems_at(d, pos, sn, i) {
            Err(e) => Err(e),
            Ok((vs, p1)) => match prop_list_at(d, p1 as nat) {
                Err(e) => Err(e),
                Ok((ps, p2)) => Ok(
                    (
                        vs.push(ValueV::Struct { struct_name: sn, value: StructValueV::Properties(ps) }),
                        p2,
                    ),
                ),
            },
        },
{
    reveal_with_fuel(struct_elems_at, 1);
}

/// Once reading array elements fails, reading more fails the same way.
pub proof fn lemma_elems_error_persists(d: Seq<u8>, pos: nat, t: Seq<char>, i: nat, j: nat)
    requires
        i <= j,
        elems_at(d, pos, t, i) is Err,
    ensures
        elems_at(d, pos, t, j) == elems_at(d, pos, t, i),
    decreases j,
{
    reveal_with_fuel(elems_at, 1);
    if j > i {
        lemma_elems_error_persists(d, pos, t, i, (j - 1) as nat);
    }
}

/// Once reading struct elements fails, reading more fails the same way.
pub proof fn lemma_struct_elems_error_persists(d: Seq<u8>, pos: nat, sn: Seq<char>, i: nat, j: nat)
    requires
        i <= j,
        struct_elems_at(d, pos, sn, i) is Err,
    ensures
        struct_elems_at(d, pos, sn, j) == struct_elems_at(d, pos, sn, i),
    decreases j,
{
    reveal_with_fuel(struct_elems_at, 1);
    if j > i {
        lemma_struct_elems_error_persists(d, pos, sn, i, (j - 1) as nat);
    }
}

/// Once reading map entries fails, reading more fails the same way.
pub proof fn lemma_pairs_error_persists(d: Seq<u8>, pos: nat, kt: Seq<char>, vt: Seq<char>, i: nat, j: nat)
    requires
        i <= j,
        pairs_at(d, pos, kt, vt, i) is Err,
    ensures
        pairs_at(d, pos, kt, vt, j) == pairs_at(d, pos, kt, vt, i),
    decreases j,
{
    reveal_with_fuel(pairs_at, 1);
    if j > i {
        lemma_pairs_error_persists(d, pos, kt, vt, i, (j - 1) as nat);
    }
}

/// A set value is the decoded set, or the raw bytes when that fails.
pub proof fn lemma_set_unfold(d: Seq<u8>, pos: nat, it: Seq<char>, size: int)
    requires
        pos > 0,
    ensures
        set_at(d, pos, it, size) == match try_set_at(d, pos, it, size) {
            Ok(v) => Ok(v),
            Err(_) => raw_at(d, pos as int, size),
        },
{
    reveal_with_fuel(set_at, 1);
}
/// A property value decodes by the shape its tag declares.
#[verifier::spinoff_prover]
#[verifier::rlimit(100)]
pub proof fn lemma_value_unfold(d: Seq<u8>, pos: nat, t: Seq<char>, extra: ExtraV, size: int)
    requires
        pos > 0,
    ensures
        value_at(d, pos, t, extra, size) == {
    match extra {
        ExtraV::Struct(sn) => match struct_at(d, pos, sn, size) {
            Err(e) => Err(e),
            Ok((sv, p)) => Ok((ValueV::Struct { struct_name: sn, value: sv }, p)),
        },
        ExtraV::Enum(en) => match fstring_at(d, pos as int) {
            Err(e) => Err(e),
            Ok((s, p)) => Ok((ValueV::Enum { enum_type: en, value: s }, p)),
        },
        ExtraV::Byte(en) => if en == "None"@ {
            match u8_at(d, pos as int) {
                Err(e) => Err(e),
                Ok((b, p)) => Ok((ValueV::Byte { enum_type: None, value: ByteValueV::Raw(b) }, p)),
            }
        } else {
            match fstring_at(d, pos as int) {
                Err(e) => Err(e),
                Ok((s, p)) => Ok(
                    (ValueV::Byte { enum_type: Some(en), value: ByteValueV::Enum(s) }, p),
                ),
            }
        },
        ExtraV::Array(it) => array_at(d, pos, it, size),
        ExtraV::Members(it) => set_at(d, pos, it, size),
        ExtraV::Mapping(kt, vt) => map_at(d, pos, kt, vt, size),
        ExtraV::Plain => scalar_at(d, pos as int, t, size),
    }
},
{
    reveal_with_fuel(value_at, 1);
}

/// A struct value: a compact encoding, or a bounded property list.
#[verifier::spinoff_prover]
#[verifier::rlimit(100)]
pub proof fn lemma_struct_unfold(d: Seq<u8>, pos: nat, sn: Seq<char>, size: int)
    requires
        pos > 0,
    ensures
        sn == "Guid"@ ==> struct_at(d, pos, sn, size) == match bytes_at(d, pos as int, 16) {
            Err(e) => Err(e),
            Ok((g, p)) => Ok((StructValueV::Guid(g), p)),
        },
        sn != "Guid"@ && (sn == "DateTime"@ || sn == "Timespan"@) ==> struct_at(d, pos, sn, size)
            == match i64_at(d, pos as int) {
            Err(e) => Err(e),
            Ok((t, p)) => Ok((StructValueV::DateTime(t), p)),
        },
        sn != "Guid"@ && sn != "DateTime"@ && sn != "Timespan"@ && (pos + size > d.len() || size
            < 0) ==> struct_at(d, pos, sn, size) == Err::<(StructValueV, int), GvasErrorV>(
            eof_at(d, pos as int, size),
        ),
        sn != "Guid"@ && sn != "DateTime"@ && sn != "Timespan"@ && !(pos + size > d.len() || size
            < 0) ==> struct_at(d, pos, sn, size) == match prop_list_at(
            d.subrange(pos as int, pos + size),
            0,
        ) {
            Ok((ps, _)) => Ok((StructValueV::Properties(ps), pos as int)),
            Err(_) => Ok::<(StructValueV, int), GvasErrorV>(
                (StructValueV::Raw(d.subrange(pos as int, pos + size)), pos as int),
            ),
        },
{
    reveal_with_fuel(struct_at, 1);
}

/// An array value: the byte payload, the decoded array, or raw bytes.
#[verifier::spinoff_prover]
pub proof fn lemma_array_unfold(d: Seq<u8>, pos: nat, it: Seq<char>, size: int)
    requires
        pos > 0,
    ensures
        array_at(d, pos, it, size) == {
    if it == "ByteProperty"@ {
        if pos + size > d.len() || size < 0 {
            Err(eof_at(d, pos as int, size))
        } else {
            let sub = d.subrange(pos as int, pos + size);
            match u32_at(sub, 0) {
                Err(e) => Err(e),
                Ok((_, p1)) => Ok((ValueV::Raw(sub.subrange(4, size)), pos as int)),
            }
        }
    } else {
        match try_array_at(d, pos, it, size) {
            Ok(v) => Ok(v),
            Err(_) => raw_at(d, pos as int, size),
        }
    }
},
{
    reveal_with_fuel(array_at, 1);
}

/// A map value is the decoded map, or the raw bytes when that fails.
#[verifier::spinoff_prover]
pub proof fn lemma_map_unfold(d: Seq<u8>, pos: nat, kt: Seq<char>, vt: Seq<char>, size: int)
    requires
        pos > 0,
    ensures
        map_at(d, pos, kt, vt, size) == {
    match try_map_at(d, pos, kt, vt, size) {
        Ok(v) => Ok(v),
        Err(_) => raw_at(d, pos as int, size),
    }
},
{
    reveal_with_fuel(map_at, 1);
}
} // verus!
