//! A reader for Unreal Engine's `GVAS` SaveGame binary format, as written by
//! Palworld on UE 5.1.1.
//!
//! Two layers: [`header::Header`], the fixed-shape preamble, and [`value`],
//! the tagged-property list that follows it. Every property tag declares its
//! own value's byte length, so a value whose inner shape is not understood
//! degrades to [`Value::Raw`] rather than corrupting the properties after it.

pub mod cursor;
pub mod header;
pub mod lemmas;
pub mod value;

use vstd::prelude::*;

use crate::gvas::cursor::Cursor;
use crate::gvas::header::{header_at, Header, HeaderView};
use crate::gvas::value::{parse_property_list, prop_list_at, props_v, Property, PropertyV, StructValue, Value};
use crate::text::str_eq;

verus! {

/// Why a `GVAS` payload could not be read.
#[derive(Debug)]
#[allow(inconsistent_fields)]
pub enum GvasError {
    /// The input does not start with the `GVAS` magic.
    NotGvas,
    /// A read ran past the end of the slice it was bounded to.
    UnexpectedEof { offset: usize, needed: usize, available: usize },
    /// A string length of `i32::MIN`, whose negation is not representable.
    InvalidStringLength(i32),
    /// A property declared a value length outside `0..=MAX_VALUE_LEN`.
    ImplausibleLength { declared: i64, property: String },
    /// A count above the reader's allocation guard.
    ImplausibleCount { declared: u32, limit: u32, what: &'static str },
    /// A map, set or array element type this reader does not decode.
    UnsupportedCollectionElement(String),
}

/// [`GvasError`] with its strings seen as characters.
#[allow(inconsistent_fields)]
pub enum GvasErrorV {
    NotGvas,
    UnexpectedEof { offset: usize, needed: usize, available: usize },
    InvalidStringLength(i32),
    ImplausibleLength { declared: i64, property: Seq<char> },
    ImplausibleCount { declared: u32, limit: u32, what: Seq<char> },
    UnsupportedCollectionElement(Seq<char>),
}

impl View for GvasError {
    type V = GvasErrorV;

    open spec fn view(&self) -> GvasErrorV {
        match self {
            GvasError::NotGvas => GvasErrorV::NotGvas,
            GvasError::UnexpectedEof { offset, needed, available } => GvasErrorV::UnexpectedEof {
                offset: *offset,
                needed: *needed,
                available: *available,
            },
            GvasError::InvalidStringLength(n) => GvasErrorV::InvalidStringLength(*n),
            GvasError::ImplausibleLength { declared, property } => GvasErrorV::ImplausibleLength {
                declared: *declared,
                property: property@,
            },
            GvasError::ImplausibleCount { declared, limit, what } => GvasErrorV::ImplausibleCount {
                declared: *declared,
                limit: *limit,
                what: what@,
            },
            GvasError::UnsupportedCollectionElement(t) => GvasErrorV::UnsupportedCollectionElement(
                t@,
            ),
        }
    }
}

/// A parsed `GVAS` file: its header and its top-level property list.
#[derive(Debug)]
pub struct Root {
    pub header: Header,
    pub properties: Vec<Property>,
}

/// [`Root`] as values.
pub struct RootView {
    pub header: HeaderView,
    pub properties: Seq<PropertyV>,
}

impl View for Root {
    type V = RootView;

    open spec fn view(&self) -> RootView {
        RootView { header: self.header@, properties: props_v(self.properties@) }
    }
}

/// What a `GVAS` payload decodes to: the header at the start, then the
/// property list right after it.
pub open spec fn root_at(d: Seq<u8>) -> Result<RootView, GvasErrorV> {
    match header_at(d, 0) {
        Err(e) => Err(e),
        Ok((h, p)) => match prop_list_at(d, p as nat) {
            Err(e) => Err(e),
            Ok((ps, _)) => Ok(RootView { header: h, properties: ps }),
        },
    }
}

impl Root {
    /// The value of the first top-level property named `name`.
    pub fn get(&self, name: &str) -> (r: Option<&Value>)
        ensures
            match r {
                Some(v) => exists|i: int|
                    0 <= i < self.properties@.len() && self.properties@[i].name@ == name@
                        && *v == self.properties@[i].value && forall|j: int|
                        0 <= j < i ==> self.properties@[j].name@ != name@,
                None => forall|i: int|
                    0 <= i < self.properties@.len() ==> self.properties@[i].name@ != name@,
            },
    {
        let mut i: usize = 0;
        while i < self.properties.len()
            invariant
                i <= self.properties@.len(),
                forall|j: int| 0 <= j < i ==> self.properties@[j].name@ != name@,
            decreases self.properties@.len() - i,
        {
            if str_eq(self.properties[i].name.as_str(), name) {
                return Some(&self.properties[i].value);
            }
            i += 1;
        }
        None
    }
}

/// Parse a decompressed `GVAS` payload into its header and property tree.
pub fn parse(gvas_bytes: &[u8]) -> (r: Result<Root, GvasError>)
    ensures
        match (root_at(gvas_bytes@), r) {
            (Ok(v), Ok(root)) => root@ == v,
            (Err(e), Err(x)) => x@ == e,
            _ => false,
        },
{
    let mut cursor = Cursor::new(gvas_bytes);
    let header = Header::parse(&mut cursor)?;
    let properties = parse_property_list(&mut cursor)?;
    Ok(Root { header, properties })
}


/// The value of the first property in `ps` named `name`.
pub open spec fn first_value(ps: Seq<Property>, name: Seq<char>) -> Option<Value>
    decreases ps.len(),
{
    if ps.len() == 0 {
        None
    } else if ps[0].name@ == name {
        Some(ps[0].value)
    } else {
        first_value(ps.drop_first(), name)
    }
}

/// The first property of `ps` named `name`.
fn find_property<'a>(ps: &'a Vec<Property>, name: &str) -> (r: Option<&'a Value>)
    ensures
        match first_value(ps@, name@) {
            Some(v) => r matches Some(x) && *x == v,
            None => r is None,
        },
{
    let mut i: usize = 0;
    proof {
        assert(ps@.skip(0) =~= ps@);
    }
    while i < ps.len()
        invariant
            i <= ps@.len(),
            first_value(ps@, name@) == first_value(ps@.skip(i as int), name@),
        decreases ps@.len() - i,
    {
        proof {
            assert(ps@.skip(i as int)[0] == ps@[i as int]);
            assert(ps@.skip(i as int).drop_first() =~= ps@.skip(i + 1));
        }
        if str_eq(ps[i].name.as_str(), name) {
            return Some(&ps[i].value);
        }
        i += 1;
    }
    None
}

/// A world save's `worldSaveData`: the property list of the root's first
/// property by that name, when it is a struct of properties.
pub fn world_save_data(root: &Root) -> (r: Option<&Vec<Property>>)
    ensures
        match first_value(root.properties@, "worldSaveData"@) {
            Some(Value::Struct { value: StructValue::Properties(ps), .. }) => r matches Some(x) && *x == ps,
            _ => r is None,
        },
{
    match find_property(&root.properties, "worldSaveData") {
        Some(Value::Struct { value: StructValue::Properties(ps), .. }) => Some(ps),
        _ => None,
    }
}

/// The entries of the map property `field` of a world's data: those of its
/// first property by that name when it is a map, else none.
pub fn map_entries<'a>(world: &'a Vec<Property>, field: &str) -> (r: Option<&'a Vec<(Value, Value)>>)
    ensures
        match first_value(world@, field@) {
            Some(Value::Mapping(es)) => r matches Some(x) && *x == es,
            _ => r is None,
        },
{
    match find_property(world, field) {
        Some(Value::Mapping(es)) => Some(es),
        _ => None,
    }
}

} // verus!
