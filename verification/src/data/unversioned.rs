//! Deserializer for Unreal's *unversioned* property serialization.
//!
//! Cooked packages with `PKG_UnversionedProperties` drop property names and
//! types from the payload. What remains is a header saying which schema slots
//! are present, then their raw values in schema order; the schema itself comes
//! from a `.usmap` ([`crate::data::usmap`]).
//!
//! The header is a run of little-endian `u16` fragments:
//!
//! ```text
//! bits 0..6   SkipNum        schema slots to skip before this run
//! bit  7      bHasAnyZeroes  this run's values are zero-mask eligible
//! bit  8      bIsLast        final fragment
//! bits 9..15  ValueNum       values in this run
//! ```
//!
//! If any fragment set `bHasAnyZeroes`, a bitmask follows with one bit per
//! value of those fragments; a set bit means the value is zero and occupies no
//! bytes. The mask is a `u8` for up to 8 bits, a `u16` for up to 16, and
//! 32-bit words beyond that.
//!
//! Values are untagged, so every size must be exactly right or the rest of the
//! stream desynchronizes.

use vstd::prelude::*;

use crate::assoc::{as_map, lemma_as_map_dom, lemma_as_map_last};
use crate::data::uasset::{
    at_fstring, at_i32, at_i64, at_take, at_u16, at_u32, at_u64, at_u8, strings_v, Reader, UassetError,
};
use crate::data::usmap::{schema_of, PropertyType, PropertyV, TypeV, Usmap, UsmapV};
use crate::text::str_eq;

verus! {

/// Size in bytes of the structs the engine serializes by hand rather than
/// through their schema. UE5 stores core geometry as doubles.
pub open spec fn native_size(name: Seq<char>) -> Option<usize> {
    if name == "Vector"@ || name == "Rotator"@ {
        Some(24)
    } else if name == "Vector2D"@ {
        Some(16)
    } else if name == "Vector4"@ || name == "Quat"@ || name == "Plane"@ {
        Some(32)
    } else if name == "IntPoint"@ {
        Some(8)
    } else if name == "IntVector"@ {
        Some(12)
    } else if name == "Guid"@ {
        Some(16)
    } else if name == "Color"@ {
        Some(4)
    } else if name == "LinearColor"@ {
        Some(16)
    } else if name == "Box"@ {
        Some(49)
    } else if name == "Box2D"@ {
        Some(33)
    } else {
        None
    }
}

/// The serialized size of a natively serialized struct, if `name` is one.
pub fn native_struct_size(name: &str) -> (r: Option<usize>)
    ensures
        r == native_size(name@),
{
    if str_eq(name, "Vector") || str_eq(name, "Rotator") {
        Some(24)
    } else if str_eq(name, "Vector2D") {
        Some(16)
    } else if str_eq(name, "Vector4") || str_eq(name, "Quat") || str_eq(name, "Plane") {
        Some(32)
    } else if str_eq(name, "IntPoint") {
        Some(8)
    } else if str_eq(name, "IntVector") {
        Some(12)
    } else if str_eq(name, "Guid") {
        Some(16)
    } else if str_eq(name, "Color") {
        Some(4)
    } else if str_eq(name, "LinearColor") {
        Some(16)
    } else if str_eq(name, "Box") {
        Some(49)
    } else if str_eq(name, "Box2D") {
        Some(33)
    } else {
        None
    }
}

/// One fragment of the unversioned header.
pub struct FragV {
    pub skip: u32,
    pub has_zeroes: bool,
    pub is_last: bool,
    pub values: u32,
}

/// The fields packed into a header word.
pub open spec fn frag_of(w: u16) -> FragV {
    FragV {
        skip: (w % 128) as u32,
        has_zeroes: (w / 128) % 2 == 1,
        is_last: (w / 256) % 2 == 1,
        values: (w / 512) as u32,
    }
}

struct Fragment {
    skip: u32,
    has_zeroes: bool,
    is_last: bool,
    values: u32,
}

impl View for Fragment {
    type V = FragV;

    closed spec fn view(&self) -> FragV {
        FragV { skip: self.skip, has_zeroes: self.has_zeroes, is_last: self.is_last, values: self.values }
    }
}

impl Fragment {
    fn unpack(packed: u16) -> (f: Fragment)
        ensures
            f@ == frag_of(packed),
    {
        let p = packed as u32;
        proof {
            assert(p & 0x7F == p % 128) by (bit_vector);
            assert((p & 0x80 != 0) == ((p / 128) % 2 == 1)) by (bit_vector);
            assert((p & 0x100 != 0) == ((p / 256) % 2 == 1)) by (bit_vector);
            assert(p >> 9 == p / 512) by (bit_vector);
        }
        Fragment { skip: p & 0x7F, has_zeroes: p & 0x80 != 0, is_last: p & 0x100 != 0, values: p >> 9 }
    }
}

/// The header fragments at `pos`, up to and including the last one.
pub open spec fn frags_at(d: Seq<u8>, pos: int) -> Result<(Seq<FragV>, int), UassetError>
    decreases d.len() - pos,
{
    match at_u16(d, pos) {
        Err(e) => Err(e),
        Ok((w, p)) => if frag_of(w).is_last {
            Ok((seq![frag_of(w)], p))
        } else {
            match frags_at(d, p) {
                Err(e) => Err(e),
                Ok((fs, q)) => Ok((seq![frag_of(w)] + fs, q)),
            }
        },
    }
}

/// A read of the header fragments moves forward by at least one word.
pub proof fn lemma_frags_advance(d: Seq<u8>, pos: int)
    ensures
        frags_at(d, pos) matches Ok((_, q)) ==> pos + 2 <= q <= d.len(),
    decreases d.len() - pos,
{
    if let Ok((w, p)) = at_u16(d, pos) {
        if !frag_of(w).is_last {
            lemma_frags_advance(d, p);
        }
    }
}

/// How many zero-mask bits the fragments call for.
pub open spec fn zero_bits(fs: Seq<FragV>) -> int
    decreases fs.len(),
{
    if fs.len() == 0 {
        0
    } else {
        zero_bits(fs.drop_last()) + if fs.last().has_zeroes {
            fs.last().values as int
        } else {
            0
        }
    }
}

/// Schema slots the fragments advance over, skips and values both.
pub open spec fn slots_spanned(fs: Seq<FragV>) -> int
    decreases fs.len(),
{
    if fs.len() == 0 {
        0
    } else {
        slots_spanned(fs.drop_last()) + fs.last().skip + fs.last().values
    }
}

/// Every value the fragments announce, as its schema slot and whether the
/// zero mask elides it.
pub open spec fn items_of(fs: Seq<FragV>, mask: Seq<bool>) -> Seq<(int, bool)>
    decreases fs.len(),
{
    if fs.len() == 0 {
        Seq::empty()
    } else {
        let pre = fs.drop_last();
        let f = fs.last();
        let s0 = slots_spanned(pre) + f.skip;
        let z0 = zero_bits(pre);
        items_of(pre, mask) + Seq::new(
            f.values as nat,
            |j: int| (s0 + j, f.has_zeroes && 0 <= z0 + j < mask.len() && mask[z0 + j]),
        )
    }
}

/// `n` little-endian 32-bit words from `pos`.
pub open spec fn words_at(d: Seq<u8>, pos: int, n: nat) -> Result<(Seq<u32>, int), UassetError>
    decreases n,
{
    if n == 0 {
        Ok((Seq::empty(), pos))
    } else {
        match words_at(d, pos, (n - 1) as nat) {
            Err(e) => Err(e),
            Ok((ws, p)) => match at_u32(d, p) {
                Err(e) => Err(e),
                Ok((w, q)) => Ok((ws.push(w), q)),
            },
        }
    }
}

proof fn lemma_words_error_persists(d: Seq<u8>, pos: int, i: nat, j: nat)
    requires
        i <= j,
        words_at(d, pos, i) is Err,
    ensures
        words_at(d, pos, j) == words_at(d, pos, i),
    decreases j,
{
    if j > i {
        lemma_words_error_persists(d, pos, i, (j - 1) as nat);
    }
}

/// The first `n` bits of the words, lowest bit of the first word first.
pub open spec fn word_bits(ws: Seq<u32>, n: int) -> Seq<bool> {
    Seq::new(n as nat, |i: int| (ws[i / 32] >> ((i % 32) as u32)) & 1 == 1)
}

/// The zero mask of `bits` bits at `pos`.
pub open spec fn mask_at(d: Seq<u8>, pos: int, bits: u32) -> Result<(Seq<bool>, int), UassetError> {
    if bits == 0 {
        Ok((Seq::empty(), pos))
    } else if bits <= 8 {
        match at_u8(d, pos) {
            Err(e) => Err(e),
            Ok((w, p)) => Ok((Seq::new(bits as nat, |i: int| (w >> (i as u32)) & 1 == 1), p)),
        }
    } else if bits <= 16 {
        match at_u16(d, pos) {
            Err(e) => Err(e),
            Ok((w, p)) => Ok((Seq::new(bits as nat, |i: int| (w >> (i as u32)) & 1 == 1), p)),
        }
    } else {
        match words_at(d, pos, ((bits + 31) / 32) as nat) {
            Err(e) => Err(e),
            Ok((ws, p)) => Ok((word_bits(ws, bits as int), p)),
        }
    }
}

/// Reading the zero mask never moves backwards or past the end.
pub proof fn lemma_mask_advance(d: Seq<u8>, pos: int, bits: u32)
    requires
        pos <= d.len(),
    ensures
        mask_at(d, pos, bits) matches Ok((_, q)) ==> pos <= q <= d.len(),
{
    if bits > 16 {
        lemma_words_advance(d, pos, ((bits + 31) / 32) as nat);
    }
}

proof fn lemma_words_advance(d: Seq<u8>, pos: int, n: nat)
    requires
        pos <= d.len(),
    ensures
        words_at(d, pos, n) matches Ok((_, q)) ==> pos <= q <= d.len(),
    decreases n,
{
    if n > 0 {
        lemma_words_advance(d, pos, (n - 1) as nat);
    }
}

/// Read the zero-mask bits that follow the fragment list.
#[verifier::loop_isolation(false)]
pub fn read_zero_mask(r: &mut Reader, bits: u32) -> (res: Result<Vec<bool>, UassetError>)
    ensures
        final(r)@.data == old(r)@.data,
        match mask_at(old(r)@.data, old(r)@.pos as int, bits) {
            Ok((m, q)) => res matches Ok(v) && v@ == m && final(r)@.pos == q,
            Err(e) => res matches Err(x) && x == e,
        },
{
    let ghost d = r@.data;
    let ghost pos = r@.pos as int;
    let mut mask: Vec<bool> = Vec::new();
    if bits == 0 {
        return Ok(mask);
    }
    if bits <= 8 {
        let word = r.u8()?;
        let mut i: u32 = 0;
        while i < bits
            invariant
                i <= bits <= 8,
                mask@ =~= Seq::new(i as nat, |k: int| (word >> (k as u32)) & 1 == 1),
            decreases bits - i,
        {
            mask.push(word >> i & 1 == 1);
            i += 1;
        }
    } else if bits <= 16 {
        let word = r.u16()?;
        let mut i: u32 = 0;
        while i < bits
            invariant
                i <= bits <= 16,
                mask@ =~= Seq::new(i as nat, |k: int| (word >> (k as u32)) & 1 == 1),
            decreases bits - i,
        {
            mask.push(word >> i & 1 == 1);
            i += 1;
        }
    } else {
        let words: u32 = bits / 32 + if bits % 32 != 0 {
            1
        } else {
            0
        };
        assert(words == (bits + 31) / 32);
        let ghost mut ws: Seq<u32> = Seq::empty();
        let mut w: u32 = 0;
        while w < words
            invariant
                w <= words,
                words == (bits + 31) / 32,
                r@.data == d,
                words_at(d, pos, w as nat) == Ok::<(Seq<u32>, int), UassetError>((ws, r@.pos as int)),
                ws.len() == w,
                mask@ =~= word_bits(ws, if w * 32 <= bits { w * 32 } else { bits as int }),
            decreases words - w,
        {
            let word = match r.u32() {
                Ok(x) => x,
                Err(e) => {
                    proof {
                        lemma_words_error_persists(d, pos, (w + 1) as nat, words as nat);
                    }
                    return Err(e);
                },
            };
            let ghost ws2 = ws.push(word);
            proof {
                let lim = if w * 32 <= bits { w * 32 } else { bits as int };
                assert forall|k: int| 0 <= k < lim implies #[trigger] word_bits(ws2, lim)[k] == word_bits(ws, lim)[k] by {
                    assert(k / 32 < w) by (nonlinear_arith)
                        requires
                            0 <= k < w * 32,
                    ;
                    assert(ws2[k / 32] == ws[k / 32]);
                }
                assert(word_bits(ws2, lim) =~= word_bits(ws, lim));
            }
            let mut i: u32 = 0;
            while i < 32
                invariant
                    w < words,
                    words == (bits + 31) / 32,
                    i <= 32,
                    ws2.len() == w + 1,
                    mask@ =~= word_bits(
                        ws2,
                        if w * 32 + i <= bits { w * 32 + i } else { bits as int },
                    ),
                decreases 32 - i,
            {
                assert(w * 32 + i <= 0xFFFF_FFFF + 32) by (nonlinear_arith)
                    requires
                        w < words,
                        words == (bits + 31) / 32,
                        i <= 32,
                ;
                if (w as u64) * 32 + (i as u64) < bits as u64 {
                    proof {
                        let k = w * 32 + i;
                        assert(k / 32 == w && k % 32 == i) by (nonlinear_arith)
                            requires
                                k == w * 32 + i,
                                i < 32,
                        ;
                    }
                    mask.push(word >> i & 1 == 1);
                }
                i += 1;
            }
            proof {
                ws = ws2;
            }
            w += 1;
        }
        proof {
            assert(w * 32 >= bits) by (nonlinear_arith)
                requires
                    w == words,
                    words == (bits + 31) / 32,
            ;
        }
    }
    Ok(mask)
}

/// A decoded property value.
#[derive(Debug, PartialEq)]
pub enum Value {
    Bool(bool),
    Int(i64),
    /// A `FloatProperty`, as the bits of its `f32`.
    Float32(u32),
    /// A `DoubleProperty`, as the bits of its `f64`.
    Float64(u64),
    /// An `FName`, resolved against the package's name table.
    Name(String),
    Str(String),
    /// An enum entry's name, or its raw integer if the `.usmap` has no entry.
    Enum(String),
    /// An `FPackageIndex`: negative selects an import, positive an export.
    Object(i32),
    Array(Vec<Value>),
    Mapping(Vec<(Value, Value)>),
    Struct(Properties),
    /// A value present in the payload whose bytes were skipped (a natively
    /// serialized struct).
    Opaque,
    /// A value the zero mask elided: the type's default (0, `false`, or an
    /// empty string or array).
    Zero,
}

/// The decoded properties of one struct, by name. A property the payload
/// omitted is absent rather than `Zero`: for a `DataTable` row that means the
/// field holds its default. A later entry of the same name replaces an
/// earlier one.
#[derive(Debug, PartialEq)]
pub struct Properties {
    entries: Vec<(String, Value)>,
}

/// [`Value`] with its strings seen as characters and its structs as the
/// list of their entries.
pub enum ValueV {
    Bool(bool),
    Int(i64),
    Float32(u32),
    Float64(u64),
    Name(Seq<char>),
    Str(Seq<char>),
    Enum(Seq<char>),
    Object(i32),
    Array(Seq<ValueV>),
    Mapping(Seq<(ValueV, ValueV)>),
    Struct(Seq<(Seq<char>, ValueV)>),
    Opaque,
    Zero,
}

pub closed spec fn value_v(v: Value) -> ValueV
    decreases v,
{
    match v {
        Value::Bool(b) => ValueV::Bool(b),
        Value::Int(x) => ValueV::Int(x),
        Value::Float32(x) => ValueV::Float32(x),
        Value::Float64(x) => ValueV::Float64(x),
        Value::Name(s) => ValueV::Name(s@),
        Value::Str(s) => ValueV::Str(s@),
        Value::Enum(s) => ValueV::Enum(s@),
        Value::Object(i) => ValueV::Object(i),
        Value::Array(items) => ValueV::Array(values_v(items@)),
        Value::Mapping(ps) => ValueV::Mapping(pairs_v(ps@)),
        Value::Struct(p) => ValueV::Struct(entries_v(p.entries@)),
        Value::Opaque => ValueV::Opaque,
        Value::Zero => ValueV::Zero,
    }
}

pub closed spec fn values_v(s: Seq<Value>) -> Seq<ValueV>
    decreases s,
{
    if s.len() == 0 {
        Seq::empty()
    } else {
        values_v(s.drop_last()).push(value_v(s.last()))
    }
}

pub closed spec fn pairs_v(s: Seq<(Value, Value)>) -> Seq<(ValueV, ValueV)>
    decreases s,
{
    if s.len() == 0 {
        Seq::empty()
    } else {
        pairs_v(s.drop_last()).push((value_v(s.last().0), value_v(s.last().1)))
    }
}

pub closed spec fn entries_v(s: Seq<(String, Value)>) -> Seq<(Seq<char>, ValueV)>
    decreases s,
{
    if s.len() == 0 {
        Seq::empty()
    } else {
        entries_v(s.drop_last()).push((s.last().0@, value_v(s.last().1)))
    }
}

impl View for Value {
    type V = ValueV;

    open spec fn view(&self) -> ValueV {
        value_v(*self)
    }
}

impl View for Properties {
    type V = Map<Seq<char>, ValueV>;

    open spec fn view(&self) -> Map<Seq<char>, ValueV> {
        as_map(self.pairs())
    }
}

/// A value as an integer, an elided zero counting as 0.
pub open spec fn int_of(v: ValueV) -> Option<i64> {
    match v {
        ValueV::Int(x) => Some(x),
        ValueV::Bool(b) => Some(if b { 1i64 } else { 0i64 }),
        ValueV::Zero => Some(0i64),
        _ => None,
    }
}

/// A value as an `i32`, when it is an integer in range.
pub open spec fn i32_of(v: ValueV) -> Option<i32> {
    match int_of(v) {
        Some(x) => if i32::MIN <= x <= i32::MAX {
            Some(x as i32)
        } else {
            None
        },
        None => None,
    }
}

/// A value as a boolean, an elided zero counting as `false`.
pub open spec fn bool_of(v: ValueV) -> Option<bool> {
    match v {
        ValueV::Bool(b) => Some(b),
        ValueV::Int(x) => Some(x != 0),
        ValueV::Zero => Some(false),
        _ => None,
    }
}

/// A value as a string, an elided zero counting as empty.
pub open spec fn str_of(v: ValueV) -> Option<Seq<char>> {
    match v {
        ValueV::Str(s) => Some(s),
        ValueV::Name(s) => Some(s),
        ValueV::Enum(s) => Some(s),
        ValueV::Zero => Some(Seq::empty()),
        _ => None,
    }
}

impl Value {
    /// This value as an integer, treating an elided zero as 0.
    pub fn as_i64(&self) -> (r: Option<i64>)
        ensures
            r == int_of(self@),
    {
        match self {
            Value::Int(v) => Some(*v),
            Value::Bool(b) => Some(if *b { 1 } else { 0 }),
            Value::Zero => Some(0),
            _ => None,
        }
    }

    pub fn as_i32(&self) -> (r: Option<i32>)
        ensures
            r == i32_of(self@),
    {
        match self.as_i64() {
            Some(v) => if v >= i32::MIN as i64 && v <= i32::MAX as i64 {
                Some(v as i32)
            } else {
                None
            },
            None => None,
        }
    }

    pub fn as_bool(&self) -> (r: Option<bool>)
        ensures
            r == bool_of(self@),
    {
        match self {
            Value::Bool(b) => Some(*b),
            Value::Int(v) => Some(*v != 0),
            Value::Zero => Some(false),
            _ => None,
        }
    }

    /// The package index this value holds, if it is an object reference.
    pub fn as_object(&self) -> (r: Option<i32>)
        ensures
            r == match self@ {
                ValueV::Object(i) => Some(i),
                _ => None::<i32>,
            },
    {
        match self {
            Value::Object(i) => Some(*i),
            _ => None,
        }
    }

    /// This value as a string, treating an elided zero as empty.
    pub fn as_str(&self) -> (r: Option<&str>)
        ensures
            match r {
                Some(s) => str_of(self@) == Some(s@),
                None => str_of(self@) is None,
            },
    {
        match self {
            Value::Str(s) => Some(s.as_str()),
            Value::Name(s) => Some(s.as_str()),
            Value::Enum(s) => Some(s.as_str()),
            Value::Zero => {
                proof {
                    reveal_strlit("");
                }
                Some("")
            },
            _ => None,
        }
    }
}

impl Properties {
    /// The entries, names seen as characters, in the order they were read.
    pub closed spec fn pairs(&self) -> Seq<(Seq<char>, ValueV)> {
        entries_v(self.entries@)
    }

    pub fn new() -> (p: Self)
        ensures
            p.pairs() == Seq::<(Seq<char>, ValueV)>::empty(),
            p@ == Map::<Seq<char>, ValueV>::empty(),
    {
        Properties { entries: Vec::new() }
    }

    /// Set `name` to `value`, replacing any earlier value.
    pub fn insert(&mut self, name: String, value: Value)
        ensures
            final(self).pairs() == old(self).pairs().push((name@, value@)),
            final(self)@ == old(self)@.insert(name@, value@),
    {
        proof {
            let s = self.entries@.push((name, value));
            assert(s.drop_last() =~= self.entries@);
            assert(entries_v(s).drop_last() =~= entries_v(self.entries@));
        }
        self.entries.push((name, value));
    }

    /// The value of `name`.
    pub fn get(&self, name: &str) -> (r: Option<&Value>)
        ensures
            match r {
                Some(v) => self@.contains_key(name@) && v@ == self@[name@],
                None => !self@.contains_key(name@),
            },
    {
        let ghost ps = self.pairs();
        let mut i: usize = self.entries.len();
        proof {
            lemma_entries_len(self.entries@);
        }
        while i > 0
            invariant
                ps == entries_v(self.entries@),
                ps.len() == self.entries@.len(),
                i <= self.entries@.len(),
                forall|j: int| i <= j < ps.len() ==> ps[j].0 != name@,
            decreases i,
        {
            i -= 1;
            proof {
                lemma_entries_index(self.entries@, i as int);
            }
            if str_eq(self.entries[i].0.as_str(), name) {
                proof {
                    lemma_as_map_last(ps, i as int);
                }
                return Some(&self.entries[i].1);
            }
        }
        proof {
            lemma_as_map_dom(ps, name@);
        }
        None
    }

    pub fn contains_key(&self, name: &str) -> (b: bool)
        ensures
            b == self@.contains_key(name@),
    {
        self.get(name).is_some()
    }

    /// The number of entries.
    pub fn entry_count(&self) -> (n: usize)
        ensures
            n == self.pairs().len(),
    {
        proof {
            lemma_entries_len(self.entries@);
        }
        self.entries.len()
    }

    /// Entry `i`: its name and value.
    pub fn entry(&self, i: usize) -> (r: (&str, &Value))
        requires
            i < self.pairs().len(),
        ensures
            r.0@ == self.pairs()[i as int].0,
            r.1@ == self.pairs()[i as int].1,
    {
        proof {
            lemma_entries_len(self.entries@);
            lemma_entries_index(self.entries@, i as int);
        }
        (self.entries[i].0.as_str(), &self.entries[i].1)
    }
}

proof fn lemma_entries_len(s: Seq<(String, Value)>)
    ensures
        entries_v(s).len() == s.len(),
    decreases s.len(),
{
    if s.len() > 0 {
        lemma_entries_len(s.drop_last());
    }
}

proof fn lemma_entries_index(s: Seq<(String, Value)>, i: int)
    requires
        0 <= i < s.len(),
    ensures
        entries_v(s)[i] == (s[i].0@, value_v(s[i].1)),
    decreases s.len(),
{
    lemma_entries_len(s.drop_last());
    if i < s.len() - 1 {
        lemma_entries_index(s.drop_last(), i);
    }
}

proof fn lemma_values_push(s: Seq<Value>, v: Value)
    ensures
        values_v(s.push(v)) == values_v(s).push(value_v(v)),
{
    assert(s.push(v).drop_last() =~= s);
}

proof fn lemma_pairs_push(s: Seq<(Value, Value)>, v: (Value, Value))
    ensures
        pairs_v(s.push(v)) == pairs_v(s).push((value_v(v.0), value_v(v.1))),
{
    assert(s.push(v).drop_last() =~= s);
}

/// Why a payload could not be decoded.
#[derive(Debug)]
pub enum UnversionedError {
    /// The `.usmap` has no schema for the struct.
    UnknownStruct(String),
    /// The payload references a schema slot the `.usmap` does not describe.
    MissingSchemaSlot { struct_name: String, index: usize },
    /// A property type whose layout this reader does not model.
    UnsupportedType(&'static str),
    /// A struct with no schema and no known native layout.
    UnknownNativeStruct(String),
    /// The bytes ran out or were malformed.
    Read(UassetError),
}

/// [`UnversionedError`] with its names seen as characters.
pub enum UnversionedErrorV {
    UnknownStruct(Seq<char>),
    MissingSchemaSlot { struct_name: Seq<char>, index: usize },
    UnsupportedType(Seq<char>),
    UnknownNativeStruct(Seq<char>),
    Read(UassetError),
}

impl View for UnversionedError {
    type V = UnversionedErrorV;

    open spec fn view(&self) -> UnversionedErrorV {
        match self {
            UnversionedError::UnknownStruct(s) => UnversionedErrorV::UnknownStruct(s@),
            UnversionedError::MissingSchemaSlot { struct_name, index } => UnversionedErrorV::MissingSchemaSlot {
                struct_name: struct_name@,
                index: *index,
            },
            UnversionedError::UnsupportedType(s) => UnversionedErrorV::UnsupportedType(s@),
            UnversionedError::UnknownNativeStruct(s) => UnversionedErrorV::UnknownNativeStruct(s@),
            UnversionedError::Read(e) => UnversionedErrorV::Read(*e),
        }
    }
}

/// A reader result with its error carried as a decoding error.
pub open spec fn rd<T>(r: Result<(T, int), UassetError>) -> Result<(T, int), UnversionedErrorV> {
    match r {
        Ok(x) => Ok(x),
        Err(e) => Err(UnversionedErrorV::Read(e)),
    }
}

/// A boolean property is one byte, true exactly when that byte is non-zero.
pub proof fn lemma_bool_value(um: UsmapV, names: Seq<Seq<char>>, d: Seq<u8>, pos: int)
    requires
        0 <= pos < d.len(),
    ensures
        value_at(um, names, d, pos, TypeV::Bool) == Ok::<(ValueV, int), UnversionedErrorV>(
            (ValueV::Bool(d[pos] != 0u8), pos + 1),
        ),
{
}

/// The name-table entry at `index`, or empty when there is none.
pub open spec fn name_value(names: Seq<Seq<char>>, index: i32) -> Seq<char> {
    if 0 <= index < names.len() {
        names[index as int]
    } else {
        Seq::empty()
    }
}

/// The enum entry an integer value selects, if the `.usmap` lists one.
pub open spec fn enum_entry(um: UsmapV, en: Seq<char>, raw: ValueV) -> Option<Seq<char>> {
    match int_of(raw) {
        Some(i) => if 0 <= i <= usize::MAX && um.enums.contains_key(en) && i < um.enums[en].len() {
            Some(um.enums[en][i as int])
        } else {
            None
        },
        None => None,
    }
}

/// `q` lies between `pos` and the end of the data.
pub open spec fn moved(pos: int, q: int, d: Seq<u8>) -> bool {
    pos <= q <= d.len()
}

/// The error for a read that ended out of place (never produced: reads only
/// move forward within the data).
pub open spec fn stalled(q: int) -> UnversionedErrorV {
    UnversionedErrorV::Read(UassetError::Truncated { offset: q as usize })
}

/// An element count, negative counts reading as none.
pub open spec fn count_or_zero(c: i32) -> nat {
    if c < 0 {
        0
    } else {
        c as nat
    }
}

/// A slot number as a `usize`, saturating.
pub open spec fn clamp(slot: int) -> usize {
    if slot > usize::MAX {
        usize::MAX
    } else {
        slot as usize
    }
}

/// How deeply nested a type is, counting each constructor.
pub open spec fn type_size(t: TypeV) -> nat
    decreases t,
{
    match t {
        TypeV::Array(i) => 1 + type_size(*i),
        TypeV::SetOf(i) => 1 + type_size(*i),
        TypeV::Optional(i) => 1 + type_size(*i),
        TypeV::Enum { inner, enum_name: _ } => 1 + type_size(*inner),
        TypeV::MapOf { key, value } => 1 + type_size(*key) + type_size(*value),
        _ => 1,
    }
}

/// The value of type `ty` at `pos`, decoded against the `.usmap` `um` and the
/// package name table `names`; with the position after it.
pub open spec fn value_at(um: UsmapV, names: Seq<Seq<char>>, d: Seq<u8>, pos: int, ty: TypeV) -> Result<
    (ValueV, int),
    UnversionedErrorV,
>
    decreases d.len() - pos, 3int, type_size(ty) as int,
{
    match ty {
        TypeV::Bool => match rd(at_u8(d, pos)) {
            Err(e) => Err(e),
            Ok((b, p)) => Ok((ValueV::Bool(b != 0), p)),
        },
        TypeV::Byte | TypeV::Int8 => match rd(at_u8(d, pos)) {
            Err(e) => Err(e),
            Ok((b, p)) => Ok((ValueV::Int(b as i64), p)),
        },
        TypeV::Int16 | TypeV::UInt16 => match rd(at_u16(d, pos)) {
            Err(e) => Err(e),
            Ok((w, p)) => Ok((ValueV::Int(w as i64), p)),
        },
        TypeV::Int | TypeV::UInt32 => match rd(at_i32(d, pos)) {
            Err(e) => Err(e),
            Ok((w, p)) => Ok((ValueV::Int(w as i64), p)),
        },
        TypeV::Int64 | TypeV::UInt64 => match rd(at_i64(d, pos)) {
            Err(e) => Err(e),
            Ok((w, p)) => Ok((ValueV::Int(w), p)),
        },
        TypeV::Float => match rd(at_u32(d, pos)) {
            Err(e) => Err(e),
            Ok((w, p)) => Ok((ValueV::Float32(w), p)),
        },
        TypeV::Double => match rd(at_u64(d, pos)) {
            Err(e) => Err(e),
            Ok((w, p)) => Ok((ValueV::Float64(w), p)),
        },
        TypeV::Name => match rd(at_i32(d, pos)) {
            Err(e) => Err(e),
            Ok((i, p)) => match rd(at_i32(d, p)) {
                Err(e) => Err(e),
                Ok((_, q)) => Ok((ValueV::Name(name_value(names, i)), q)),
            },
        },
        TypeV::Str | TypeV::Utf8Str | TypeV::AnsiStr => match rd(at_fstring(d, pos)) {
            Err(e) => Err(e),
            Ok((s, p)) => Ok((ValueV::Str(s), p)),
        },
        TypeV::Object | TypeV::WeakObject | TypeV::LazyObject | TypeV::SoftObject
        | TypeV::AssetObject | TypeV::Interface => match rd(at_i32(d, pos)) {
            Err(e) => Err(e),
            Ok((i, p)) => Ok((ValueV::Object(i), p)),
        },
        TypeV::Enum { inner, enum_name } => match value_at(um, names, d, pos, *inner) {
            Err(e) => Err(e),
            Ok((raw, p)) => match enum_entry(um, enum_name, raw) {
                Some(entry) => Ok((ValueV::Enum(entry), p)),
                None => Ok((raw, p)),
            },
        },
        TypeV::Array(inner) => match rd(at_i32(d, pos)) {
            Err(e) => Err(e),
            Ok((c, p)) => match elems_at(um, names, d, p, *inner, count_or_zero(c)) {
                Err(e) => Err(e),
                Ok((vs, q)) => Ok((ValueV::Array(vs), q)),
            },
        },
        TypeV::SetOf(inner) => match rd(at_i32(d, pos)) {
            Err(e) => Err(e),
            Ok((c, p)) => match elems_at(um, names, d, p, *inner, count_or_zero(c)) {
                Err(e) => Err(e),
                Ok((vs, q)) => Ok((ValueV::Array(vs), q)),
            },
        },
        TypeV::MapOf { key, value } => match rd(at_i32(d, pos)) {
            Err(e) => Err(e),
            Ok((c, p)) => match pairs_at(um, names, d, p, *key, *value, count_or_zero(c)) {
                Err(e) => Err(e),
                Ok((ps, q)) => Ok((ValueV::Mapping(ps), q)),
            },
        },
        TypeV::Struct(name) => match native_size(name) {
            Some(n) => match rd(at_take(d, pos, n as int)) {
                Err(e) => Err(e),
                Ok((_, p)) => Ok((ValueV::Opaque, p)),
            },
            None => if um.structs.contains_key(name) {
                match struct_at(um, names, d, pos, name) {
                    Err(e) => Err(e),
                    Ok((ps, p)) => Ok((ValueV::Struct(ps), p)),
                }
            } else {
                Err(UnversionedErrorV::UnknownNativeStruct(name))
            },
        },
        TypeV::Optional(inner) => match rd(at_u8(d, pos)) {
            Err(e) => Err(e),
            Ok((b, p)) => if b == 0 {
                Ok((ValueV::Zero, p))
            } else {
                value_at(um, names, d, p, *inner)
            },
        },
        TypeV::Text => Err(UnversionedErrorV::UnsupportedType("Text"@)),
        TypeV::Delegate => Err(UnversionedErrorV::UnsupportedType("Delegate"@)),
        TypeV::MulticastDelegate => Err(UnversionedErrorV::UnsupportedType("MulticastDelegate"@)),
        TypeV::FieldPath => Err(UnversionedErrorV::UnsupportedType("FieldPath"@)),
    }
}

/// `n` values of type `ty` back to back from `pos`.
pub open spec fn elems_at(
    um: UsmapV,
    names: Seq<Seq<char>>,
    d: Seq<u8>,
    pos: int,
    ty: TypeV,
    n: nat,
) -> Result<(Seq<ValueV>, int), UnversionedErrorV>
    decreases d.len() - pos, 4int, n as int,
{
    if n == 0 {
        Ok((Seq::empty(), pos))
    } else {
        match value_at(um, names, d, pos, ty) {
            Err(e) => Err(e),
            Ok((v, q)) => if !moved(pos, q, d) {
                Err(stalled(q))
            } else {
                match elems_at(um, names, d, q, ty, (n - 1) as nat) {
                    Err(e) => Err(e),
                    Ok((vs, q2)) => Ok((seq![v] + vs, q2)),
                }
            },
        }
    }
}

/// `n` key/value pairs back to back from `pos`.
pub open spec fn pairs_at(
    um: UsmapV,
    names: Seq<Seq<char>>,
    d: Seq<u8>,
    pos: int,
    kt: TypeV,
    vt: TypeV,
    n: nat,
) -> Result<(Seq<(ValueV, ValueV)>, int), UnversionedErrorV>
    decreases d.len() - pos, 4int, n as int,
{
    if n == 0 {
        Ok((Seq::empty(), pos))
    } else {
        match value_at(um, names, d, pos, kt) {
            Err(e) => Err(e),
            Ok((k, q)) => if !moved(pos, q, d) {
                Err(stalled(q))
            } else {
                match value_at(um, names, d, q, vt) {
                    Err(e) => Err(e),
                    Ok((v, q2)) => if !moved(q, q2, d) {
                        Err(stalled(q2))
                    } else {
                        match pairs_at(um, names, d, q2, kt, vt, (n - 1) as nat) {
                            Err(e) => Err(e),
                            Ok((ps, q3)) => Ok((seq![(k, v)] + ps, q3)),
                        }
                    },
                }
            },
        }
    }
}

/// The value at `pos` for announced item `item` against `schema`.
pub open spec fn item_value_at(
    um: UsmapV,
    names: Seq<Seq<char>>,
    d: Seq<u8>,
    pos: int,
    prop: PropertyV,
    is_zero: bool,
) -> Result<(ValueV, int), UnversionedErrorV>
    decreases d.len() - pos, 5int, 0int,
{
    if is_zero {
        Ok((ValueV::Zero, pos))
    } else if prop.array_size > 1 {
        match elems_at(um, names, d, pos, prop.ty, prop.array_size as nat) {
            Err(e) => Err(e),
            Ok((vs, q)) => Ok((ValueV::Array(vs), q)),
        }
    } else {
        value_at(um, names, d, pos, prop.ty)
    }
}

/// The announced items from the `k`th on, each decoded against its schema
/// slot, as name/value entries.
pub open spec fn walk_at(
    um: UsmapV,
    names: Seq<Seq<char>>,
    d: Seq<u8>,
    pos: int,
    sname: Seq<char>,
    schema: Seq<Option<PropertyV>>,
    items: Seq<(int, bool)>,
    k: nat,
) -> Result<(Seq<(Seq<char>, ValueV)>, int), UnversionedErrorV>
    decreases d.len() - pos, 6int, items.len() - k,
{
    if k >= items.len() {
        Ok((Seq::empty(), pos))
    } else {
        let slot = items[k as int].0;
        if !(0 <= slot < schema.len() && schema[slot] is Some) {
            Err(UnversionedErrorV::MissingSchemaSlot { struct_name: sname, index: clamp(slot) })
        } else {
            let prop = schema[slot]->Some_0;
            match item_value_at(um, names, d, pos, prop, items[k as int].1) {
                Err(e) => Err(e),
                Ok((v, q)) => if !moved(pos, q, d) {
                    Err(stalled(q))
                } else {
                    match walk_at(um, names, d, q, sname, schema, items, k + 1) {
                        Err(e) => Err(e),
                        Ok((rest, q2)) => Ok((seq![(prop.name, v)] + rest, q2)),
                    }
                },
            }
        }
    }
}

/// The properties of struct `sname` at `pos`: the header fragments, the zero
/// mask, then the announced values in schema order.
pub open spec fn struct_at(um: UsmapV, names: Seq<Seq<char>>, d: Seq<u8>, pos: int, sname: Seq<char>) -> Result<
    (Seq<(Seq<char>, ValueV)>, int),
    UnversionedErrorV,
>
    decreases d.len() - pos, 2int, 0int,
    via struct_at_decreases
{
    if !um.structs.contains_key(sname) {
        Err(UnversionedErrorV::UnknownStruct(sname))
    } else {
        match rd(frags_at(d, pos)) {
            Err(e) => Err(e),
            Ok((fs, p1)) => if zero_bits(fs) > u32::MAX {
                Err(stalled(p1))
            } else {
                match rd(mask_at(d, p1, zero_bits(fs) as u32)) {
                    Err(e) => Err(e),
                    Ok((mask, p2)) => walk_at(
                        um,
                        names,
                        d,
                        p2,
                        sname,
                        schema_of(um.structs, sname),
                        items_of(fs, mask),
                        0,
                    ),
                }
            },
        }
    }
}

#[via_fn]
proof fn struct_at_decreases(um: UsmapV, names: Seq<Seq<char>>, d: Seq<u8>, pos: int, sname: Seq<char>) {
    lemma_frags_advance(d, pos);
    if let Ok((fs, p1)) = frags_at(d, pos) {
        if zero_bits(fs) <= u32::MAX {
            lemma_mask_advance(d, p1, zero_bits(fs) as u32);
        }
    }
}

/// Fragments seen through their views.
spec fn frags_v(s: Seq<Fragment>) -> Seq<FragV> {
    s.map_values(|f: Fragment| f@)
}

/// A result with `xs` put in front of what it holds.
pub open spec fn prepend<T, E>(xs: Seq<T>, r: Result<(Seq<T>, int), E>) -> Result<(Seq<T>, int), E> {
    match r {
        Ok((ys, q)) => Ok((xs + ys, q)),
        Err(e) => Err(e),
    }
}

/// Read the header fragments, with the zero-mask bit count they call for
/// (when it fits a `u32`) and whether it overflowed.
#[verifier::loop_isolation(false)]
fn read_fragments(r: &mut Reader) -> (res: Result<(Vec<Fragment>, u32, bool), UassetError>)
    ensures
        final(r)@.data == old(r)@.data,
        match frags_at(old(r)@.data, old(r)@.pos as int) {
            Ok((fs, q)) => res matches Ok((v, z, o)) && frags_v(v@) == fs && final(r)@.pos == q && o == (
            zero_bits(fs) > u32::MAX) && (!o ==> z == zero_bits(fs)),
            Err(e) => res matches Err(x) && x == e,
        },
{
    let ghost d = r@.data;
    let ghost pos0 = r@.pos as int;
    let mut frags: Vec<Fragment> = Vec::new();
    let mut zero: u32 = 0;
    let mut over = false;
    proof {
        assert(frags_v(frags@) =~= Seq::<FragV>::empty());
        assert(Seq::<FragV>::empty() + frags_at(d, pos0)->Ok_0.0 =~= frags_at(d, pos0)->Ok_0.0);
    }
    loop
        invariant
            r@.data == d,
            frags_at(d, pos0) == prepend(frags_v(frags@), frags_at(d, r@.pos as int)),
            over == (zero_bits(frags_v(frags@)) > u32::MAX),
            !over ==> zero == zero_bits(frags_v(frags@)),
        decreases d.len() - r@.pos,
    {
        let ghost cur = r@.pos as int;
        let w = r.u16()?;
        let f = Fragment::unpack(w);
        proof {
            let fv = frags_v(frags@);
            assert(frags_v(frags@.push(f)) =~= fv.push(f@));
            assert(fv.push(f@).drop_last() =~= fv);
        }
        if f.has_zeroes && !over {
            match zero.checked_add(f.values) {
                Some(z) => zero = z,
                None => over = true,
            }
        }
        let last = f.is_last;
        proof {
            let fv = frags_v(frags@);
            match frags_at(d, cur + 2) {
                Ok((fs, q)) => {
                    assert(fv + (seq![f@] + fs) =~= fv.push(f@) + fs);
                },
                Err(_) => {},
            }
            assert(fv + seq![f@] =~= fv.push(f@));
        }
        frags.push(f);
        if last {
            break;
        }
    }
    Ok((frags, zero, over))
}

/// The announced items match `spec` slot for slot, slots saturating.
pub open spec fn items_match(items: Seq<(usize, bool)>, spec: Seq<(int, bool)>) -> bool {
    &&& items.len() == spec.len()
    &&& forall|i: int| 0 <= i < items.len() ==> #[trigger] items[i].0 == clamp(spec[i].0) && items[i].1 == spec[i].1
}

proof fn lemma_zero_bits_prefix(fs: Seq<FragV>, i: int)
    requires
        0 <= i <= fs.len(),
    ensures
        zero_bits(fs.take(i)) <= zero_bits(fs),
    decreases fs.len(),
{
    if i < fs.len() {
        assert(fs.drop_last().take(i) =~= fs.take(i));
        lemma_zero_bits_prefix(fs.drop_last(), i);
    } else {
        assert(fs.take(i) =~= fs);
    }
}

proof fn lemma_spanned_nonneg(fs: Seq<FragV>)
    ensures
        slots_spanned(fs) >= 0,
        zero_bits(fs) >= 0,
    decreases fs.len(),
{
    if fs.len() > 0 {
        lemma_spanned_nonneg(fs.drop_last());
    }
}

proof fn lemma_items_nonneg(fs: Seq<FragV>, mask: Seq<bool>)
    ensures
        forall|i: int| 0 <= i < items_of(fs, mask).len() ==> #[trigger] items_of(fs, mask)[i].0 >= 0,
    decreases fs.len(),
{
    if fs.len() > 0 {
        let pre = fs.drop_last();
        lemma_items_nonneg(pre, mask);
        lemma_spanned_nonneg(pre);
        let n = items_of(pre, mask).len();
        assert forall|i: int| 0 <= i < items_of(fs, mask).len() implies #[trigger] items_of(fs, mask)[i].0 >= 0 by {
            if i < n {
                assert(items_of(fs, mask)[i] == items_of(pre, mask)[i]);
            } else {
                assert(items_of(fs, mask)[i].0 == slots_spanned(pre) + fs.last().skip + (i - n));
            }
        }
    }
}

proof fn lemma_fstring_advances(d: Seq<u8>, pos: int)
    ensures
        at_fstring(d, pos) matches Ok((_, q)) ==> pos < q <= d.len(),
{
}

/// Every value the fragments announce, with its schema slot and whether the
/// zero mask elides it.
#[verifier::loop_isolation(false)]
fn slot_items(frags: &Vec<Fragment>, mask: &Vec<bool>) -> (items: Vec<(usize, bool)>)
    requires
        zero_bits(frags_v(frags@)) <= u32::MAX,
    ensures
        items_match(items@, items_of(frags_v(frags@), mask@)),
{
    let ghost fv = frags_v(frags@);
    let mut items: Vec<(usize, bool)> = Vec::new();
    let mut slot: usize = 0;
    let mut zi: usize = 0;
    let mut i: usize = 0;
    proof {
        assert(fv.take(0) =~= Seq::<FragV>::empty());
    }
    while i < frags.len()
        invariant
            i <= frags@.len(),
            fv == frags_v(frags@),
            items_match(items@, items_of(fv.take(i as int), mask@)),
            slot == clamp(slots_spanned(fv.take(i as int))),
            zi == zero_bits(fv.take(i as int)),
        decreases frags@.len() - i,
    {
        let f = &frags[i];
        proof {
            assert(fv.take(i + 1).drop_last() =~= fv.take(i as int));
            assert(fv.take(i + 1).last() == f@);
            lemma_zero_bits_prefix(fv, i + 1);
            lemma_spanned_nonneg(fv.take(i as int));
        }
        let ghost pre = fv.take(i as int);
        let ghost block = Seq::new(
            f.values as nat,
            |j: int|
                (
                    slots_spanned(pre) + f.skip + j,
                    f.has_zeroes && 0 <= zero_bits(pre) + j < mask@.len() && mask@[zero_bits(pre) + j],
                ),
        );
        let s0 = slot.saturating_add(f.skip as usize);
        let ghost start = items@.len();
        let mut j: u32 = 0;
        while j < f.values
            invariant
                j <= f.values,
                items@.len() == start + j,
                items_match(items@, items_of(pre, mask@) + block.take(j as int)),
            decreases f.values - j,
        {
            let bit = if f.has_zeroes {
                let at = zi + j as usize;
                at < mask.len() && mask[at]
            } else {
                false
            };
            proof {
                assert(items_of(pre, mask@) + block.take(j + 1) =~= (items_of(pre, mask@) + block.take(
                    j as int,
                )).push(block[j as int]));
            }
            items.push((s0.saturating_add(j as usize), bit));
            j += 1;
        }
        proof {
            assert(block.take(f.values as int) =~= block);
        }
        slot = s0.saturating_add(f.values as usize);
        if f.has_zeroes {
            zi = zi + f.values as usize;
        }
        i += 1;
    }
    proof {
        assert(fv.take(frags@.len() as int) =~= fv);
    }
    items
}

/// The schema slots, seen through their views, are `sv`.
pub open spec fn opt_props_v_eq(schema: Seq<Option<&crate::data::usmap::Property>>, sv: Seq<Option<PropertyV>>) -> bool {
    crate::data::usmap::opt_props_v(schema) == sv
}

/// Reads unversioned property payloads against a `.usmap` schema.
pub struct UnversionedReader<'a> {
    usmap: &'a Usmap,
    names: &'a [String],
}

fn vu8(r: &mut Reader) -> (res: Result<u8, UnversionedError>)
    ensures
        final(r)@.data == old(r)@.data,
        match rd(at_u8(old(r)@.data, old(r)@.pos as int)) {
            Ok((v, q)) => res == Ok::<u8, UnversionedError>(v) && final(r)@.pos == q,
            Err(e) => res matches Err(x) && x@ == e,
        },
{
    match r.u8() {
        Ok(x) => Ok(x),
        Err(e) => Err(UnversionedError::Read(e)),
    }
}

fn vu16(r: &mut Reader) -> (res: Result<u16, UnversionedError>)
    ensures
        final(r)@.data == old(r)@.data,
        match rd(at_u16(old(r)@.data, old(r)@.pos as int)) {
            Ok((v, q)) => res == Ok::<u16, UnversionedError>(v) && final(r)@.pos == q,
            Err(e) => res matches Err(x) && x@ == e,
        },
{
    match r.u16() {
        Ok(x) => Ok(x),
        Err(e) => Err(UnversionedError::Read(e)),
    }
}

fn vu32(r: &mut Reader) -> (res: Result<u32, UnversionedError>)
    ensures
        final(r)@.data == old(r)@.data,
        match rd(at_u32(old(r)@.data, old(r)@.pos as int)) {
            Ok((v, q)) => res == Ok::<u32, UnversionedError>(v) && final(r)@.pos == q,
            Err(e) => res matches Err(x) && x@ == e,
        },
{
    match r.u32() {
        Ok(x) => Ok(x),
        Err(e) => Err(UnversionedError::Read(e)),
    }
}

fn vi32(r: &mut Reader) -> (res: Result<i32, UnversionedError>)
    ensures
        final(r)@.data == old(r)@.data,
        match rd(at_i32(old(r)@.data, old(r)@.pos as int)) {
            Ok((v, q)) => res == Ok::<i32, UnversionedError>(v) && final(r)@.pos == q,
            Err(e) => res matches Err(x) && x@ == e,
        },
{
    match r.i32() {
        Ok(x) => Ok(x),
        Err(e) => Err(UnversionedError::Read(e)),
    }
}

fn vi64(r: &mut Reader) -> (res: Result<i64, UnversionedError>)
    ensures
        final(r)@.data == old(r)@.data,
        match rd(at_i64(old(r)@.data, old(r)@.pos as int)) {
            Ok((v, q)) => res == Ok::<i64, UnversionedError>(v) && final(r)@.pos == q,
            Err(e) => res matches Err(x) && x@ == e,
        },
{
    match r.i64() {
        Ok(x) => Ok(x),
        Err(e) => Err(UnversionedError::Read(e)),
    }
}

fn vu64(r: &mut Reader) -> (res: Result<u64, UnversionedError>)
    ensures
        final(r)@.data == old(r)@.data,
        match rd(at_u64(old(r)@.data, old(r)@.pos as int)) {
            Ok((v, q)) => res == Ok::<u64, UnversionedError>(v) && final(r)@.pos == q,
            Err(e) => res matches Err(x) && x@ == e,
        },
{
    match r.u64() {
        Ok(x) => Ok(x),
        Err(e) => Err(UnversionedError::Read(e)),
    }
}

impl<'a> UnversionedReader<'a> {
    /// The `.usmap` this reader decodes against.
    pub closed spec fn schema(&self) -> UsmapV {
        self.usmap@
    }

    /// The owning package's name table.
    pub closed spec fn name_table(&self) -> Seq<Seq<char>> {
        strings_v(self.names@)
    }

    /// `names` is the owning package's name table, used to resolve `FName`s.
    pub fn new(usmap: &'a Usmap, names: &'a [String]) -> (r: Self)
        ensures
            r.schema() == usmap@,
            r.name_table() == strings_v(names@),
    {
        UnversionedReader { usmap, names }
    }

    fn read_name(&self, r: &mut Reader) -> (res: Result<Value, UnversionedError>)
        ensures
            final(r)@.data == old(r)@.data,
            match value_at(self.schema(), self.name_table(), old(r)@.data, old(r)@.pos as int, TypeV::Name) {
                Ok((v, q)) => res matches Ok(x) && x@ == v && final(r)@.pos == q,
                Err(e) => res matches Err(x) && x@ == e,
            },
            res is Ok ==> old(r)@.pos < final(r)@.pos <= final(r)@.data.len(),
    {
        let index = vi32(r)?;
        let _number = vi32(r)?;
        if index >= 0 && (index as usize) < self.names.len() {
            Ok(Value::Name(self.names[index as usize].clone()))
        } else {
            proof {
                reveal_strlit("");
            }
            Ok(Value::Name(String::new()))
        }
    }

    /// `n` values of type `ty`, back to back.
    #[verifier::loop_isolation(false)]
    fn read_elems(&self, r: &mut Reader, ty: &PropertyType, n: usize) -> (res: Result<Vec<Value>, UnversionedError>)
        ensures
            final(r)@.data == old(r)@.data,
            match elems_at(self.schema(), self.name_table(), old(r)@.data, old(r)@.pos as int, ty@, n as nat) {
                Ok((vs, q)) => res matches Ok(x) && values_v(x@) == vs && final(r)@.pos == q,
                Err(e) => res matches Err(x) && x@ == e,
            },
            res is Ok ==> old(r)@.pos <= final(r)@.pos,
            res is Ok && n > 0 ==> final(r)@.pos <= final(r)@.data.len(),
        decreases old(r)@.data.len() - old(r)@.pos, 4int, n as int,
    {
        let ghost um = self.schema();
        let ghost ns = self.name_table();
        let ghost d = r@.data;
        let ghost p0 = r@.pos as int;
        let mut items: Vec<Value> = Vec::new();
        let mut i: usize = 0;
        proof {
            assert(values_v(items@) =~= Seq::<ValueV>::empty());
            if let Ok((vs, _)) = elems_at(um, ns, d, p0, ty@, n as nat) {
                assert(Seq::<ValueV>::empty() + vs =~= vs);
            }
        }
        while i < n
            invariant
                i <= n,
                r@.data == d,
                p0 <= r@.pos,
                i > 0 ==> r@.pos <= d.len(),
                i == 0 ==> r@.pos == p0,
                elems_at(um, ns, d, p0, ty@, n as nat) == prepend(
                    values_v(items@),
                    elems_at(um, ns, d, r@.pos as int, ty@, (n - i) as nat),
                ),
            decreases n - i,
        {
            let ghost cur = r@.pos as int;
            let v = self.read_value(r, ty)?;
            proof {
                lemma_values_push(items@, v);
                if let Ok((vs, q)) = elems_at(um, ns, d, r@.pos as int, ty@, (n - i - 1) as nat) {
                    assert(values_v(items@) + (seq![v@] + vs) =~= values_v(items@).push(v@) + vs);
                }
            }
            items.push(v);
            i += 1;
        }
        proof {
            assert(values_v(items@) + Seq::<ValueV>::empty() =~= values_v(items@));
        }
        Ok(items)
    }

    /// `n` key/value pairs, back to back.
    #[verifier::loop_isolation(false)]
    fn read_pairs(&self, r: &mut Reader, kt: &PropertyType, vt: &PropertyType, n: usize) -> (res: Result<
        Vec<(Value, Value)>,
        UnversionedError,
    >)
        ensures
            final(r)@.data == old(r)@.data,
            match pairs_at(self.schema(), self.name_table(), old(r)@.data, old(r)@.pos as int, kt@, vt@, n as nat) {
                Ok((ps, q)) => res matches Ok(x) && pairs_v(x@) == ps && final(r)@.pos == q,
                Err(e) => res matches Err(x) && x@ == e,
            },
            res is Ok ==> old(r)@.pos <= final(r)@.pos,
            res is Ok && n > 0 ==> final(r)@.pos <= final(r)@.data.len(),
        decreases old(r)@.data.len() - old(r)@.pos, 4int, n as int,
    {
        let ghost um = self.schema();
        let ghost ns = self.name_table();
        let ghost d = r@.data;
        let ghost p0 = r@.pos as int;
        let mut items: Vec<(Value, Value)> = Vec::new();
        let mut i: usize = 0;
        proof {
            assert(pairs_v(items@) =~= Seq::<(ValueV, ValueV)>::empty());
            if let Ok((ps, _)) = pairs_at(um, ns, d, p0, kt@, vt@, n as nat) {
                assert(Seq::<(ValueV, ValueV)>::empty() + ps =~= ps);
            }
        }
        while i < n
            invariant
                i <= n,
                r@.data == d,
                p0 <= r@.pos,
                i > 0 ==> r@.pos <= d.len(),
                i == 0 ==> r@.pos == p0,
                pairs_at(um, ns, d, p0, kt@, vt@, n as nat) == prepend(
                    pairs_v(items@),
                    pairs_at(um, ns, d, r@.pos as int, kt@, vt@, (n - i) as nat),
                ),
            decreases n - i,
        {
            let k = self.read_value(r, kt)?;
            let v = self.read_value(r, vt)?;
            proof {
                lemma_pairs_push(items@, (k, v));
                if let Ok((ps, q)) = pairs_at(um, ns, d, r@.pos as int, kt@, vt@, (n - i - 1) as nat) {
                    assert(pairs_v(items@) + (seq![(k@, v@)] + ps) =~= pairs_v(items@).push((k@, v@)) + ps);
                }
            }
            items.push((k, v));
            i += 1;
        }
        proof {
            assert(pairs_v(items@) + Seq::<(ValueV, ValueV)>::empty() =~= pairs_v(items@));
        }
        Ok(items)
    }

    /// Read one struct's unversioned properties at the reader's position.
    #[verifier::loop_isolation(false)]
    pub fn read_struct(&self, r: &mut Reader, struct_name: &str) -> (res: Result<Properties, UnversionedError>)
        ensures
            final(r)@.data == old(r)@.data,
            match struct_at(self.schema(), self.name_table(), old(r)@.data, old(r)@.pos as int, struct_name@) {
                Ok((ps, q)) => res matches Ok(x) && x.pairs() == ps && final(r)@.pos == q,
                Err(e) => res matches Err(x) && x@ == e,
            },
            res is Ok ==> old(r)@.pos < final(r)@.pos <= final(r)@.data.len(),
        decreases old(r)@.data.len() - old(r)@.pos, 2int, 0int,
    {
        let ghost um = self.schema();
        let ghost ns = self.name_table();
        let ghost d = r@.data;
        let ghost p0 = r@.pos as int;
        let schema = self.usmap.flat_schema(struct_name);
        let found = self.usmap.get_struct(struct_name).is_some();
        let ghost sv = schema_of(um.structs, struct_name@);
        proof {
            if !found {
                let c = choose|c: Seq<Seq<char>>| crate::data::usmap::is_super_chain(um.structs, struct_name@, c);
                if c.len() > 0 {
                    assert(um.structs.contains_key(c[0]));
                }
                assert(sv.len() == 0);
                assert(schema@.len() == 0);
            }
        }
        if schema.len() == 0 && !found {
            return Err(UnversionedError::UnknownStruct(struct_name.to_owned()));
        }
        let (frags, zero, over) = match read_fragments(r) {
            Ok(x) => x,
            Err(e) => return Err(UnversionedError::Read(e)),
        };
        proof {
            lemma_frags_advance(d, p0);
        }
        if over {
            return Err(UnversionedError::Read(UassetError::Truncated { offset: r.pos() }));
        }
        let ghost p1 = r@.pos as int;
        let mask = match read_zero_mask(r, zero) {
            Ok(m) => m,
            Err(e) => return Err(UnversionedError::Read(e)),
        };
        proof {
            lemma_mask_advance(d, p1, zero);
        }
        let ghost p2 = r@.pos as int;
        let items = slot_items(&frags, &mask);
        let ghost its = items_of(frags_v(frags@), mask@);
        assert(struct_at(um, ns, d, p0, struct_name@) == walk_at(um, ns, d, p2, struct_name@, sv, its, 0));
        let mut out = Properties::new();
        proof {
            if let Ok((ps, _)) = walk_at(um, ns, d, p2, struct_name@, sv, its, 0) {
                assert(Seq::<(Seq<char>, ValueV)>::empty() + ps =~= ps);
            }
        }
        let mut k: usize = 0;
        while k < items.len()
            invariant
                k <= items@.len(),
                r@.data == d,
                p0 < p2 <= r@.pos <= d.len(),
                items_match(items@, its),
                opt_props_v_eq(schema@, sv),
                walk_at(um, ns, d, p2, struct_name@, sv, its, 0) == prepend(
                    out.pairs(),
                    walk_at(um, ns, d, r@.pos as int, struct_name@, sv, its, k as nat),
                ),
            decreases items@.len() - k,
        {
            let (slot, is_zero) = items[k];
            proof {
                lemma_items_nonneg(frags_v(frags@), mask@);
                assert(items@[k as int].0 == clamp(its[k as int].0));
            }
            if slot >= schema.len() {
                return Err(
                    UnversionedError::MissingSchemaSlot { struct_name: struct_name.to_owned(), index: slot },
                );
            }
            let property = match schema[slot] {
                Some(p) => p,
                None => {
                    return Err(
                        UnversionedError::MissingSchemaSlot {
                            struct_name: struct_name.to_owned(),
                            index: slot,
                        },
                    );
                },
            };
            let ghost cur = r@.pos as int;
            proof {
                lemma_items_nonneg(frags_v(frags@), mask@);
                assert(its[k as int].0 == slot as int);
                assert(schema@[slot as int] == Some(property));
                assert(sv[its[k as int].0] == Some(property@));
                assert(its[k as int].1 == is_zero);
            }
            let value = if is_zero {
                Value::Zero
            } else if property.array_size > 1 {
                match self.read_elems(r, &property.ty, property.array_size as usize) {
                    Ok(vs) => Value::Array(vs),
                    Err(e) => {
                        proof {
                            assert(item_value_at(um, ns, d, cur, property@, is_zero) == Err::<(ValueV, int), UnversionedErrorV>(e@));
                            assert(walk_at(um, ns, d, cur, struct_name@, sv, its, k as nat) == Err::<(Seq<(Seq<char>, ValueV)>, int), UnversionedErrorV>(e@));
                        }
                        return Err(e);
                    },
                }
            } else {
                match self.read_value(r, &property.ty) {
                    Ok(v) => v,
                    Err(e) => {
                        proof {
                            assert(item_value_at(um, ns, d, cur, property@, is_zero) == Err::<(ValueV, int), UnversionedErrorV>(e@));
                            assert(walk_at(um, ns, d, cur, struct_name@, sv, its, k as nat) == Err::<(Seq<(Seq<char>, ValueV)>, int), UnversionedErrorV>(e@));
                        }
                        return Err(e);
                    },
                }
            };
            proof {
                if let Ok((rest, q2)) = walk_at(um, ns, d, r@.pos as int, struct_name@, sv, its, (k + 1) as nat) {
                    assert(out.pairs() + (seq![(property.name@, value@)] + rest) =~= out.pairs().push(
                        (property.name@, value@),
                    ) + rest);
                }
            }
            out.insert(property.name.clone(), value);
            k += 1;
        }
        proof {
            assert(out.pairs() + Seq::<(Seq<char>, ValueV)>::empty() =~= out.pairs());
        }
        Ok(out)
    }

    #[verifier::spinoff_prover]
    #[verifier::rlimit(60)]
    fn read_value(&self, r: &mut Reader, ty: &PropertyType) -> (res: Result<Value, UnversionedError>)
        ensures
            final(r)@.data == old(r)@.data,
            match value_at(self.schema(), self.name_table(), old(r)@.data, old(r)@.pos as int, ty@) {
                Ok((v, q)) => res matches Ok(x) && x@ == v && final(r)@.pos == q,
                Err(e) => res matches Err(x) && x@ == e,
            },
            res is Ok ==> old(r)@.pos < final(r)@.pos <= final(r)@.data.len(),
        decreases old(r)@.data.len() - old(r)@.pos, 3int, type_size(ty@) as int,
    {
        match ty {
            PropertyType::Bool => {
                let b = vu8(r)?;
                Ok(Value::Bool(b != 0))
            },
            PropertyType::Byte | PropertyType::Int8 => {
                let b = vu8(r)?;
                Ok(Value::Int(b as i64))
            },
            PropertyType::Int16 | PropertyType::UInt16 => {
                let w = vu16(r)?;
                Ok(Value::Int(w as i64))
            },
            PropertyType::Int | PropertyType::UInt32 => {
                let w = vi32(r)?;
                Ok(Value::Int(w as i64))
            },
            PropertyType::Int64 | PropertyType::UInt64 => {
                let w = vi64(r)?;
                Ok(Value::Int(w))
            },
            PropertyType::Float => {
                let w = vu32(r)?;
                Ok(Value::Float32(w))
            },
            PropertyType::Double => {
                let w = vu64(r)?;
                Ok(Value::Float64(w))
            },
            PropertyType::Name => self.read_name(r),
            PropertyType::Str | PropertyType::Utf8Str | PropertyType::AnsiStr => match {
                proof {
                    lemma_fstring_advances(r@.data, r@.pos as int);
                }
                r.fstring()
            } {
                Ok(s) => Ok(Value::Str(s)),
                Err(e) => Err(UnversionedError::Read(e)),
            },
            PropertyType::Object | PropertyType::WeakObject | PropertyType::LazyObject
            | PropertyType::SoftObject | PropertyType::AssetObject | PropertyType::Interface => {
                let i = vi32(r)?;
                Ok(Value::Object(i))
            },
            PropertyType::Enum { inner, enum_name } => {
                let raw = self.read_value(r, inner)?;
                let index: Option<usize> = match raw.as_i64() {
                    Some(v) => if v >= 0 && (v as u64) <= (usize::MAX as u64) {
                        Some(v as usize)
                    } else {
                        None
                    },
                    None => None,
                };
                match index {
                    Some(i) => match self.usmap.enum_value(enum_name.as_str(), i) {
                        Some(entry) => Ok(Value::Enum(entry.to_owned())),
                        None => Ok(raw),
                    },
                    None => Ok(raw),
                }
            },
            PropertyType::Array(inner) | PropertyType::SetOf(inner) => {
                let c = vi32(r)?;
                let n: usize = if c < 0 {
                    0
                } else {
                    c as usize
                };
                let items = self.read_elems(r, inner, n)?;
                Ok(Value::Array(items))
            },
            PropertyType::MapOf { key, value } => {
                let c = vi32(r)?;
                let n: usize = if c < 0 {
                    0
                } else {
                    c as usize
                };
                let items = self.read_pairs(r, key, value, n)?;
                Ok(Value::Mapping(items))
            },
            PropertyType::Struct(name) => {
                match native_struct_size(name.as_str()) {
                    Some(size) => match r.skip(size) {
                        Ok(()) => Ok(Value::Opaque),
                        Err(e) => Err(UnversionedError::Read(e)),
                    },
                    None => if self.usmap.get_struct(name.as_str()).is_some() {
                        let props = self.read_struct(r, name.as_str())?;
                        Ok(Value::Struct(props))
                    } else {
                        Err(UnversionedError::UnknownNativeStruct(name.clone()))
                    },
                }
            },
            PropertyType::Optional(inner) => {
                let b = vu8(r)?;
                if b == 0 {
                    Ok(Value::Zero)
                } else {
                    self.read_value(r, inner)
                }
            },
            PropertyType::Text => Err(UnversionedError::UnsupportedType("Text")),
            PropertyType::Delegate => Err(UnversionedError::UnsupportedType("Delegate")),
            PropertyType::MulticastDelegate => Err(UnversionedError::UnsupportedType("MulticastDelegate")),
            PropertyType::FieldPath => Err(UnversionedError::UnsupportedType("FieldPath")),
        }
    }
}

} // verus!
