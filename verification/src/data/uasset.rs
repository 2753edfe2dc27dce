//! A reader for cooked Unreal `.uasset` package headers: package flags, the
//! name table, and the import and export maps.
//!
//! The name table stays readable without an unversioned-property schema,
//! which is what the text and texture readers build on.

use vstd::prelude::*;

use crate::bytes::{i32_from_bits, i64_from_bits, le_u16, le_u32, le_u64, signed32, signed64, u16_le, u32_le, u64_le};
use crate::text::{from_utf16_lossy, from_utf8_lossy, str_eq, utf16_lossy, utf8_lossy};
use vstd::utf8::{decode_utf8, valid_utf8};

verus! {

/// `EPackageFlags::PKG_UnversionedProperties`: property values in the package
/// are serialized without names or types and need a `.usmap` schema.
pub const PKG_UNVERSIONED_PROPERTIES: u32 = 0x2000;

/// The magic number every cooked package starts with.
pub const PACKAGE_FILE_TAG: u32 = 0x9E2A_83C1;

/// The longest `FString` the reader accepts, in bytes or UTF-16 units. Real
/// name-table entries are short identifiers; anything longer means the reader
/// has lost its place.
pub const MAX_FSTRING_LEN: i32 = 1048576;

/// `EPackageFlags::PKG_FilterEditorOnly`; when set the summary has no
/// `LocalizationId` string.
pub const PKG_FILTER_EDITOR_ONLY: u32 = 0x8000_0000;

/// Size of one `FObjectExport` record as cooked by UE 5.1.
pub const EXPORT_RECORD_SIZE: usize = 96;

/// Size of one `FObjectImport` record as cooked by UE 5.1.
pub const IMPORT_RECORD_SIZE: usize = 32;

/// Why a package header could not be read.
#[derive(Debug, Clone, Copy, PartialEq, Eq, Structural)]
#[allow(inconsistent_fields)]
pub enum UassetError {
    /// The input does not start with the package tag.
    BadTag { found: u32 },
    /// A read ran past the end of the package data.
    Truncated { offset: usize },
    /// An `FString` length beyond [`MAX_FSTRING_LEN`].
    BadStringLength { len: i32, offset: usize },
    /// The name table starts at or past the end of the package.
    BadNameTable { offset: usize, len: usize },
    /// An `FName` index outside the name table.
    BadNameIndex { index: i32, count: usize },
    /// The export map's span does not match the cooked record size.
    ExportMapStride { span: usize, count: usize, expected: usize },
}

/// What a [`Reader`] holds: the bytes it reads and its position.
pub struct ReaderView {
    pub data: Seq<u8>,
    pub pos: nat,
}

/// Little-endian byte reader. Every read is bounds-checked and reports
/// [`UassetError::Truncated`] when the input runs short; the position may sit
/// past the end, in which case every read fails.
pub struct Reader<'a> {
    bytes: &'a [u8],
    pos: usize,
}

impl<'a> View for Reader<'a> {
    type V = ReaderView;

    closed spec fn view(&self) -> ReaderView {
        ReaderView { data: self.bytes@, pos: self.pos as nat }
    }
}

/// The `n` bytes at `pos` and the position after them.
pub open spec fn at_take(d: Seq<u8>, pos: int, n: int) -> Result<(Seq<u8>, int), UassetError> {
    if pos + n > d.len() {
        Err(UassetError::Truncated { offset: pos as usize })
    } else {
        Ok((d.subrange(pos, pos + n), pos + n))
    }
}

pub open spec fn at_u8(d: Seq<u8>, pos: int) -> Result<(u8, int), UassetError> {
    match at_take(d, pos, 1) {
        Ok((b, p)) => Ok((b[0], p)),
        Err(e) => Err(e),
    }
}

pub open spec fn at_u16(d: Seq<u8>, pos: int) -> Result<(u16, int), UassetError> {
    match at_take(d, pos, 2) {
        Ok((b, p)) => Ok((le_u16(b) as u16, p)),
        Err(e) => Err(e),
    }
}

pub open spec fn at_u32(d: Seq<u8>, pos: int) -> Result<(u32, int), UassetError> {
    match at_take(d, pos, 4) {
        Ok((b, p)) => Ok((le_u32(b) as u32, p)),
        Err(e) => Err(e),
    }
}

pub open spec fn at_i32(d: Seq<u8>, pos: int) -> Result<(i32, int), UassetError> {
    match at_take(d, pos, 4) {
        Ok((b, p)) => Ok((signed32(le_u32(b)) as i32, p)),
        Err(e) => Err(e),
    }
}

pub open spec fn at_u64(d: Seq<u8>, pos: int) -> Result<(u64, int), UassetError> {
    match at_take(d, pos, 8) {
        Ok((b, p)) => Ok((le_u64(b) as u64, p)),
        Err(e) => Err(e),
    }
}

pub open spec fn at_i64(d: Seq<u8>, pos: int) -> Result<(i64, int), UassetError> {
    match at_take(d, pos, 8) {
        Ok((b, p)) => Ok((signed64(le_u64(b)) as i64, p)),
        Err(e) => Err(e),
    }
}

/// The position after skipping `n` bytes at `pos`.
pub open spec fn at_skip(d: Seq<u8>, pos: int, n: int) -> Result<int, UassetError> {
    match at_take(d, pos, n) {
        Ok((_, p)) => Ok(p),
        Err(e) => Err(e),
    }
}

/// `raw` without one trailing NUL byte, if it ends in one.
pub open spec fn strip_nul(raw: Seq<u8>) -> Seq<u8> {
    if raw.len() > 0 && raw.last() == 0 {
        raw.drop_last()
    } else {
        raw
    }
}

/// `units` without one trailing NUL unit, if it ends in one.
pub open spec fn strip_nul_unit(units: Seq<u16>) -> Seq<u16> {
    if units.len() > 0 && units.last() == 0 {
        units.drop_last()
    } else {
        units
    }
}

/// Pair up little-endian bytes into UTF-16 code units.
pub open spec fn le_units(b: Seq<u8>) -> Seq<u16> {
    Seq::new(b.len() / 2, |i: int| le_u16(b.subrange(2 * i, 2 * i + 2)) as u16)
}

/// The `FString` at `pos`: a positive length counts UTF-8 bytes, a negative
/// one UTF-16 units, zero is empty; a single trailing NUL is dropped.
pub open spec fn at_fstring(d: Seq<u8>, pos: int) -> Result<(Seq<char>, int), UassetError> {
    match at_i32(d, pos) {
        Err(e) => Err(e),
        Ok((len, p)) => if len == 0 {
            Ok((Seq::empty(), p))
        } else if len > MAX_FSTRING_LEN || len < -MAX_FSTRING_LEN {
            Err(UassetError::BadStringLength { len, offset: pos as usize })
        } else if len > 0 {
            match at_take(d, p, len as int) {
                Err(e) => Err(e),
                Ok((raw, q)) => Ok((utf8_lossy(strip_nul(raw)), q)),
            }
        } else {
            match at_take(d, p, 2 * (-len)) {
                Err(e) => Err(e),
                Ok((raw, q)) => Ok((utf16_lossy(strip_nul_unit(le_units(raw))), q)),
            }
        },
    }
}

/// The bytes of the UTF-8 `FString` at `pos`, its NUL dropped, when its
/// length is positive and within bounds.
pub open spec fn fstring_utf8_bytes(d: Seq<u8>, pos: int) -> Option<Seq<u8>> {
    match at_i32(d, pos) {
        Ok((len, p)) => if 0 < len <= MAX_FSTRING_LEN {
            match at_take(d, p, len as int) {
                Ok((raw, _)) => Some(strip_nul(raw)),
                Err(_) => None,
            }
        } else {
            None
        },
        Err(_) => None,
    }
}

/// A read from `before` that expected `expected`: on success the value and
/// position are the expected ones; on failure the error is, and nothing moved.
pub open spec fn rstep<T>(
    before: ReaderView,
    after: ReaderView,
    expected: Result<(T, int), UassetError>,
    r: Result<T, UassetError>,
) -> bool {
    match expected {
        Ok((v, p)) => r == Ok::<T, UassetError>(v) && after.data == before.data && after.pos == p,
        Err(e) => r == Err::<T, UassetError>(e) && after == before,
    }
}

impl<'a> Reader<'a> {
    pub fn new(bytes: &'a [u8]) -> (r: Self)
        ensures
            r@.data == bytes@,
            r@.pos == 0,
    {
        Reader { bytes, pos: 0 }
    }

    /// A reader over `bytes` starting at `pos`, which may lie past the end.
    pub fn at(bytes: &'a [u8], pos: usize) -> (r: Self)
        ensures
            r@.data == bytes@,
            r@.pos == pos,
    {
        Reader { bytes, pos }
    }

    pub fn pos(&self) -> (p: usize)
        ensures
            p == self@.pos as int,
    {
        self.pos
    }

    /// The next `n` bytes.
    pub fn take(&mut self, n: usize) -> (r: Result<&'a [u8], UassetError>)
        ensures
            match at_take(old(self)@.data, old(self)@.pos as int, n as int) {
                Ok((s, p)) => r matches Ok(x) && x@ == s && final(self)@.data == old(self)@.data
                    && final(self)@.pos == p,
                Err(e) => r matches Err(x) && x == e && final(self)@ == old(self)@,
            },
    {
        if n > self.bytes.len() || self.pos > self.bytes.len() - n {
            return Err(UassetError::Truncated { offset: self.pos });
        }
        let end = self.pos + n;
        let slice = &self.bytes[self.pos..end];
        self.pos = end;
        Ok(slice)
    }

    pub fn u8(&mut self) -> (r: Result<u8, UassetError>)
        ensures
            rstep(old(self)@, final(self)@, at_u8(old(self)@.data, old(self)@.pos as int), r),
    {
        let b = self.take(1)?;
        Ok(b[0])
    }

    pub fn u16(&mut self) -> (r: Result<u16, UassetError>)
        ensures
            rstep(old(self)@, final(self)@, at_u16(old(self)@.data, old(self)@.pos as int), r),
    {
        let b = self.take(2)?;
        Ok(u16_le(b))
    }

    pub fn u32(&mut self) -> (r: Result<u32, UassetError>)
        ensures
            rstep(old(self)@, final(self)@, at_u32(old(self)@.data, old(self)@.pos as int), r),
    {
        let b = self.take(4)?;
        Ok(u32_le(b))
    }

    pub fn i32(&mut self) -> (r: Result<i32, UassetError>)
        ensures
            rstep(old(self)@, final(self)@, at_i32(old(self)@.data, old(self)@.pos as int), r),
    {
        let b = self.take(4)?;
        Ok(i32_from_bits(u32_le(b)))
    }

    pub fn u64(&mut self) -> (r: Result<u64, UassetError>)
        ensures
            rstep(old(self)@, final(self)@, at_u64(old(self)@.data, old(self)@.pos as int), r),
    {
        let b = self.take(8)?;
        Ok(u64_le(b))
    }

    pub fn i64(&mut self) -> (r: Result<i64, UassetError>)
        ensures
            rstep(old(self)@, final(self)@, at_i64(old(self)@.data, old(self)@.pos as int), r),
    {
        let b = self.take(8)?;
        Ok(i64_from_bits(u64_le(b)))
    }

    /// Jump to `pos`, which may lie past the end.
    pub fn seek(&mut self, pos: usize)
        ensures
            final(self)@.data == old(self)@.data,
            final(self)@.pos == pos,
    {
        self.pos = pos;
    }

    /// Skip `n` bytes.
    pub fn skip(&mut self, n: usize) -> (r: Result<(), UassetError>)
        ensures
            match at_skip(old(self)@.data, old(self)@.pos as int, n as int) {
                Ok(p) => r is Ok && final(self)@.data == old(self)@.data && final(self)@.pos == p,
                Err(e) => r == Err::<(), UassetError>(e) && final(self)@ == old(self)@,
            },
    {
        self.take(n)?;
        Ok(())
    }

    /// An Unreal `FString`.
    pub fn fstring(&mut self) -> (r: Result<String, UassetError>)
        ensures
            match at_fstring(old(self)@.data, old(self)@.pos as int) {
                Ok((s, p)) => r matches Ok(x) && x@ == s && final(self)@.data == old(self)@.data
                    && final(self)@.pos == p,
                Err(e) => r matches Err(x) && x == e && final(self)@.data == old(self)@.data,
            },
            fstring_utf8_bytes(old(self)@.data, old(self)@.pos as int) matches Some(b) ==> valid_utf8(b) ==> (
            r matches Ok(x) && x@ == decode_utf8(b)),
    {
        let offset = self.pos;
        let len = self.i32()?;
        if len == 0 {
            return Ok(String::new());
        }
        if len > MAX_FSTRING_LEN || len < -MAX_FSTRING_LEN {
            return Err(UassetError::BadStringLength { len, offset });
        }
        if len > 0 {
            let raw = self.take(len as usize)?;
            let content = if raw.len() > 0 && raw[raw.len() - 1] == 0 {
                &raw[0..raw.len() - 1]
            } else {
                raw
            };
            proof {
                assert(content@ =~= strip_nul(raw@));
            }
            return Ok(from_utf8_lossy(content));
        }
        let count = (-len) as usize;
        let raw = self.take(count * 2)?;
        let mut units: Vec<u16> = Vec::new();
        let mut i: usize = 0;
        while i < count
            invariant
                raw@.len() == 2 * count,
                count <= 1048576,
                i <= count,
                units@ =~= le_units(raw@).take(i as int),
            decreases count - i,
        {
            let pair = &raw[2 * i..2 * i + 2];
            proof {
                assert(pair@ =~= raw@.subrange(2 * i, 2 * i + 2));
            }
            units.push(u16_le(pair));
            i += 1;
        }
        proof {
            assert(le_units(raw@).take(count as int) =~= le_units(raw@));
        }
        if units.len() > 0 && units[units.len() - 1] == 0 {
            units.pop();
        }
        proof {
            assert(units@ =~= strip_nul_unit(le_units(raw@)));
        }
        Ok(from_utf16_lossy(units.as_slice()))
    }
}

/// The parts of `FPackageFileSummary` this crate uses.
#[derive(Debug, Clone)]
pub struct PackageSummary {
    pub package_flags: u32,
    /// The package path as cooked, e.g. `/Game/Pal/DataTable/Character/DT_…`.
    pub folder_name: String,
    /// The package's name table, in index order.
    pub names: Vec<String>,
}

/// [`PackageSummary`] with its strings seen as characters.
pub struct PackageSummaryV {
    pub package_flags: u32,
    pub folder_name: Seq<char>,
    pub names: Seq<Seq<char>>,
}

/// A sequence of strings seen as characters.
pub open spec fn strings_v(v: Seq<String>) -> Seq<Seq<char>> {
    v.map_values(|s: String| s@)
}

impl View for PackageSummary {
    type V = PackageSummaryV;

    open spec fn view(&self) -> PackageSummaryV {
        PackageSummaryV {
            package_flags: self.package_flags,
            folder_name: self.folder_name@,
            names: strings_v(self.names@),
        }
    }
}

impl PackageSummary {
    /// Whether property values in this package need a `.usmap` to decode.
    pub fn has_unversioned_properties(&self) -> (b: bool)
        ensures
            b == (self.package_flags & PKG_UNVERSIONED_PROPERTIES != 0),
    {
        self.package_flags & PKG_UNVERSIONED_PROPERTIES != 0
    }
}

/// `count` name-table entries from `pos`: each an `FString` followed by four
/// bytes of precomputed hashes.
pub open spec fn names_at(d: Seq<u8>, pos: int, count: nat) -> Result<(Seq<Seq<char>>, int), UassetError>
    decreases count,
{
    if count == 0 {
        Ok((Seq::empty(), pos))
    } else {
        match names_at(d, pos, (count - 1) as nat) {
            Err(e) => Err(e),
            Ok((ns, p)) => match at_fstring(d, p) {
                Err(e) => Err(e),
                Ok((s, q)) => match at_skip(d, q, 4) {
                    Err(e) => Err(e),
                    Ok(q2) => Ok((ns.push(s), q2)),
                },
            },
        }
    }
}

proof fn lemma_names_error_persists(d: Seq<u8>, pos: int, i: nat, j: nat)
    requires
        i <= j,
        names_at(d, pos, i) is Err,
    ensures
        names_at(d, pos, j) == names_at(d, pos, i),
    decreases j,
{
    if j > i {
        lemma_names_error_persists(d, pos, i, (j - 1) as nat);
    }
}

/// The position after the summary's version fields: the tag, the legacy
/// file version and the engine/licensee versions it implies, and the custom
/// version list (20 bytes each).
#[verifier::opaque]
pub open spec fn versions_end_at(d: Seq<u8>) -> Result<int, UassetError> {
    match at_u32(d, 0) {
        Err(e) => Err(e),
        Ok((tag, p0)) => if tag != PACKAGE_FILE_TAG {
            Err(UassetError::BadTag { found: tag })
        } else {
            match at_i32(d, p0) {
                Err(e) => Err(e),
                Ok((legacy, p1)) => match (if legacy != -4 { at_skip(d, p1, 4) } else { Ok(p1) }) {
                    Err(e) => Err(e),
                    Ok(p2) => match at_skip(d, p2, 4) {
                        Err(e) => Err(e),
                        Ok(p3) => match (if legacy <= -8 { at_skip(d, p3, 4) } else { Ok(p3) }) {
                            Err(e) => Err(e),
                            Ok(p4) => match at_skip(d, p4, 4) {
                                Err(e) => Err(e),
                                Ok(p5) => match at_i32(d, p5) {
                                    Err(e) => Err(e),
                                    Ok((n, p6)) => if n < 0 {
                                        Err(UassetError::Truncated { offset: p6 as usize })
                                    } else {
                                        at_skip(d, p6, n * 20)
                                    },
                                },
                            },
                        },
                    },
                },
            }
        },
    }
}

/// The package summary, the position just past `NameOffset`, and the total
/// header size.
#[verifier::opaque]
pub open spec fn summary_at(d: Seq<u8>) -> Result<(PackageSummaryV, int, i32), UassetError> {
    match versions_end_at(d) {
        Err(e) => Err(e),
        Ok(p0) => match at_i32(d, p0) {
            Err(e) => Err(e),
            Ok((total, p1)) => match at_fstring(d, p1) {
                Err(e) => Err(e),
                Ok((folder, p2)) => match at_u32(d, p2) {
                    Err(e) => Err(e),
                    Ok((flags, p3)) => match at_i32(d, p3) {
                        Err(e) => Err(e),
                        Ok((name_count, p4)) => match at_i32(d, p4) {
                            Err(e) => Err(e),
                            Ok((name_offset, p5)) => match names_table_at(d, name_count, name_offset) {
                                Err(e) => Err(e),
                                Ok(names) => Ok(
                                    (
                                        PackageSummaryV { package_flags: flags, folder_name: folder, names },
                                        p5,
                                        total,
                                    ),
                                ),
                            },
                        },
                    },
                },
            },
        },
    }
}

/// The name table `name_count` entries long at `name_offset`; empty unless
/// both are positive.
pub open spec fn names_table_at(d: Seq<u8>, name_count: i32, name_offset: i32) -> Result<Seq<Seq<char>>, UassetError> {
    if name_count > 0 && name_offset > 0 {
        if name_offset >= d.len() {
            Err(UassetError::BadNameTable { offset: name_offset as usize, len: d.len() as usize })
        } else {
            match names_at(d, name_offset as int, name_count as nat) {
                Err(e) => Err(e),
                Ok((ns, _)) => Ok(ns),
            }
        }
    } else {
        Ok(Seq::empty())
    }
}

/// Read the name table of `count` entries at `offset`.
fn read_names(bytes: &[u8], offset: usize, count: i32) -> (r: Result<Vec<String>, UassetError>)
    requires
        count > 0,
    ensures
        match names_at(bytes@, offset as int, count as nat) {
            Ok((ns, _)) => r matches Ok(v) && strings_v(v@) == ns,
            Err(e) => r == Err::<Vec<String>, UassetError>(e),
        },
{
    let mut n = Reader::at(bytes, offset);
    let mut names: Vec<String> = Vec::new();
    let mut i: i32 = 0;
    while i < count
        invariant
            0 <= i <= count,
            n@.data == bytes@,
            names_at(bytes@, offset as int, i as nat) matches Ok((ns, p)) && ns == strings_v(names@)
                && n@.pos == p,
        decreases count - i,
    {
        let s = match n.fstring() {
            Ok(s) => s,
            Err(e) => {
                proof {
                    lemma_names_error_persists(bytes@, offset as int, (i + 1) as nat, count as nat);
                }
                return Err(e);
            },
        };
        match n.skip(4) {
            Ok(()) => {},
            Err(e) => {
                proof {
                    lemma_names_error_persists(bytes@, offset as int, (i + 1) as nat, count as nat);
                }
                return Err(e);
            },
        }
        proof {
            assert(strings_v(names@.push(s)) =~= strings_v(names@).push(s@));
        }
        names.push(s);
        i += 1;
    }
    Ok(names)
}

/// A reader over `bytes` positioned just past the summary's version fields.
fn skip_versions(bytes: &[u8]) -> (r: Result<Reader<'_>, UassetError>)
    ensures
        match versions_end_at(bytes@) {
            Ok(p) => r matches Ok(rd) && rd@.data == bytes@ && rd@.pos == p,
            Err(e) => r matches Err(x) && x == e,
        },
{
    reveal(versions_end_at);
    let mut r = Reader::new(bytes);
    let tag = r.u32()?;
    if tag != PACKAGE_FILE_TAG {
        return Err(UassetError::BadTag { found: tag });
    }
    let legacy_file_version = r.i32()?;
    if legacy_file_version != -4 {
        r.skip(4)?;  // LegacyUE3Version
    }
    r.skip(4)?;  // FileVersionUE4
    if legacy_file_version <= -8 {
        r.skip(4)?;  // FileVersionUE5
    }
    r.skip(4)?;  // FileVersionLicenseeUE4
    let custom_version_count = r.i32()?;
    if custom_version_count < 0 {
        return Err(UassetError::Truncated { offset: r.pos() });
    }
    // Each custom version is a 16-byte GUID plus an i32 version.
    match (custom_version_count as usize).checked_mul(20) {
        Some(n) => r.skip(n)?,
        None => {
            let _len = bytes.len();
            return Err(UassetError::Truncated { offset: r.pos() });
        },
    }
    Ok(r)
}

/// Read everything up to and including `NameOffset`, leaving the reader
/// positioned for the rest of the summary.
fn parse_summary_inner(bytes: &[u8]) -> (r: Result<(PackageSummary, Reader<'_>, i32), UassetError>)
    ensures
        match summary_at(bytes@) {
            Ok((s, p, total)) => r matches Ok((v, rd, t)) && v@ == s && rd@.data == bytes@
                && rd@.pos == p && t == total,
            Err(e) => r matches Err(x) && x == e,
        },
{
    reveal(summary_at);
    let mut r = skip_versions(bytes)?;
    let total_header_size = r.i32()?;
    let folder_name = r.fstring()?;
    let package_flags = r.u32()?;
    let name_count = r.i32()?;
    let name_offset = r.i32()?;

    let mut names: Vec<String> = Vec::new();
    proof {
        assert(strings_v(names@) =~= Seq::<Seq<char>>::empty());
    }
    if name_count > 0 && name_offset > 0 {
        let offset = name_offset as usize;
        if offset >= bytes.len() {
            return Err(UassetError::BadNameTable { offset, len: bytes.len() });
        }
        names = read_names(bytes, offset, name_count)?;
    }
    Ok((PackageSummary { package_flags, folder_name, names }, r, total_header_size))
}

/// Parse a cooked package's summary and name table.
pub fn parse_summary(bytes: &[u8]) -> (r: Result<PackageSummary, UassetError>)
    ensures
        match summary_at(bytes@) {
            Ok((s, _, _)) => r matches Ok(v) && v@ == s,
            Err(e) => r == Err::<PackageSummary, UassetError>(e),
        },
{
    match parse_summary_inner(bytes) {
        Ok((s, _, _)) => Ok(s),
        Err(e) => Err(e),
    }
}

/// One import-map entry: an object this package refers to but does not hold.
#[derive(Debug, Clone)]
pub struct Import {
    pub class_package: String,
    pub class_name: String,
    pub outer_index: i32,
    pub object_name: String,
}

/// [`Import`] with its strings seen as characters.
pub struct ImportV {
    pub class_package: Seq<char>,
    pub class_name: Seq<char>,
    pub outer_index: i32,
    pub object_name: Seq<char>,
}

impl View for Import {
    type V = ImportV;

    open spec fn view(&self) -> ImportV {
        ImportV {
            class_package: self.class_package@,
            class_name: self.class_name@,
            outer_index: self.outer_index,
            object_name: self.object_name@,
        }
    }
}

/// One export-map entry: an object this package holds.
#[derive(Debug, Clone)]
pub struct Export {
    /// `FPackageIndex` of the object's class: negative selects an import,
    /// positive an export, zero is null.
    pub class_index: i32,
    pub object_name: String,
    /// Length of the export's serialized data.
    pub serial_size: u64,
    /// Offset of that data within the header and `.uexp` taken together.
    pub serial_offset: u64,
}

/// [`Export`] with its name seen as characters.
pub struct ExportV {
    pub class_index: i32,
    pub object_name: Seq<char>,
    pub serial_size: u64,
    pub serial_offset: u64,
}

impl View for Export {
    type V = ExportV;

    open spec fn view(&self) -> ExportV {
        ExportV {
            class_index: self.class_index,
            object_name: self.object_name@,
            serial_size: self.serial_size,
            serial_offset: self.serial_offset,
        }
    }
}

/// A cooked package's header: the summary and the import and export maps.
#[derive(Debug, Clone)]
pub struct Package {
    pub summary: PackageSummary,
    pub total_header_size: i32,
    pub imports: Vec<Import>,
    pub exports: Vec<Export>,
}

/// [`Package`] as values.
pub struct PackageV {
    pub summary: PackageSummaryV,
    pub total_header_size: i32,
    pub imports: Seq<ImportV>,
    pub exports: Seq<ExportV>,
}

pub open spec fn imports_v(s: Seq<Import>) -> Seq<ImportV> {
    s.map_values(|i: Import| i@)
}

pub open spec fn exports_v(s: Seq<Export>) -> Seq<ExportV> {
    s.map_values(|e: Export| e@)
}

impl View for Package {
    type V = PackageV;

    open spec fn view(&self) -> PackageV {
        PackageV {
            summary: self.summary@,
            total_header_size: self.total_header_size,
            imports: imports_v(self.imports@),
            exports: exports_v(self.exports@),
        }
    }
}

/// An `FName` at `pos`: a name-table index and an occurrence number, resolved
/// against `names`.
pub open spec fn fname_at(d: Seq<u8>, pos: int, names: Seq<Seq<char>>) -> Result<(Seq<char>, int), UassetError> {
    match at_i32(d, pos) {
        Err(e) => Err(e),
        Ok((index, p1)) => match at_i32(d, p1) {
            Err(e) => Err(e),
            Ok((_, p2)) => if 0 <= index < names.len() {
                Ok((names[index as int], p2))
            } else {
                Err(UassetError::BadNameIndex { index, count: names.len() as usize })
            },
        },
    }
}

/// The import record at `pos`.
#[verifier::opaque]
pub open spec fn import_at(d: Seq<u8>, pos: int, names: Seq<Seq<char>>) -> Result<ImportV, UassetError> {
    match fname_at(d, pos, names) {
        Err(e) => Err(e),
        Ok((class_package, p1)) => match fname_at(d, p1, names) {
            Err(e) => Err(e),
            Ok((class_name, p2)) => match at_i32(d, p2) {
                Err(e) => Err(e),
                Ok((outer_index, p3)) => match fname_at(d, p3, names) {
                    Err(e) => Err(e),
                    Ok((object_name, _)) => Ok(ImportV { class_package, class_name, outer_index, object_name }),
                },
            },
        },
    }
}

/// The first `count` import records, [`IMPORT_RECORD_SIZE`] bytes apart from
/// `base`.
pub open spec fn imports_at(d: Seq<u8>, base: int, names: Seq<Seq<char>>, count: nat) -> Result<Seq<ImportV>, UassetError>
    decreases count,
{
    if count == 0 {
        Ok(Seq::empty())
    } else {
        match imports_at(d, base, names, (count - 1) as nat) {
            Err(e) => Err(e),
            Ok(is) => match import_at(d, base + 32 * (count - 1), names) {
                Err(e) => Err(e),
                Ok(i) => Ok(is.push(i)),
            },
        }
    }
}

/// The non-negative part of `x`, as the unsigned value it converts to.
pub open spec fn clamp_u64(x: i64) -> u64 {
    if x < 0 {
        0
    } else {
        x as u64
    }
}

/// The export record at `pos`.
#[verifier::opaque]
pub open spec fn export_at(d: Seq<u8>, pos: int, names: Seq<Seq<char>>) -> Result<ExportV, UassetError> {
    match at_i32(d, pos) {
        Err(e) => Err(e),
        Ok((class_index, p1)) => match at_skip(d, p1, 12) {
            Err(e) => Err(e),
            Ok(p2) => match fname_at(d, p2, names) {
                Err(e) => Err(e),
                Ok((object_name, p3)) => match at_skip(d, p3, 4) {
                    Err(e) => Err(e),
                    Ok(p4) => match at_i64(d, p4) {
                        Err(e) => Err(e),
                        Ok((size, p5)) => match at_i64(d, p5) {
                            Err(e) => Err(e),
                            Ok((offset, _)) => Ok(
                                ExportV {
                                    class_index,
                                    object_name,
                                    serial_size: clamp_u64(size),
                                    serial_offset: clamp_u64(offset),
                                },
                            ),
                        },
                    },
                },
            },
        },
    }
}

/// The first `count` export records, [`EXPORT_RECORD_SIZE`] bytes apart from
/// `base`.
pub open spec fn exports_at(d: Seq<u8>, base: int, names: Seq<Seq<char>>, count: nat) -> Result<Seq<ExportV>, UassetError>
    decreases count,
{
    if count == 0 {
        Ok(Seq::empty())
    } else {
        match exports_at(d, base, names, (count - 1) as nat) {
            Err(e) => Err(e),
            Ok(es) => match export_at(d, base + 96 * (count - 1), names) {
                Err(e) => Err(e),
                Ok(x) => Ok(es.push(x)),
            },
        }
    }
}

proof fn lemma_imports_error_persists(d: Seq<u8>, base: int, names: Seq<Seq<char>>, i: nat, j: nat)
    requires
        i <= j,
        imports_at(d, base, names, i) is Err,
    ensures
        imports_at(d, base, names, j) == imports_at(d, base, names, i),
    decreases j,
{
    if j > i {
        lemma_imports_error_persists(d, base, names, i, (j - 1) as nat);
    }
}

proof fn lemma_exports_error_persists(d: Seq<u8>, base: int, names: Seq<Seq<char>>, i: nat, j: nat)
    requires
        i <= j,
        exports_at(d, base, names, i) is Err,
    ensures
        exports_at(d, base, names, j) == exports_at(d, base, names, i),
    decreases j,
{
    if j > i {
        lemma_exports_error_persists(d, base, names, i, (j - 1) as nat);
    }
}

/// The table offsets that follow the summary: the soft object paths, the
/// localization id when present, the gatherable text map, then five `i32`s.
#[verifier::opaque]
pub open spec fn table_offsets_at(d: Seq<u8>, pos: int, flags: u32) -> Result<(i32, i32, i32, i32, i32), UassetError> {
    match at_skip(d, pos, 8) {
        Err(e) => Err(e),
        Ok(p1) => match (if flags & PKG_FILTER_EDITOR_ONLY == 0 {
            match at_fstring(d, p1) {
                Err(e) => Err(e),
                Ok((_, q)) => Ok(q),
            }
        } else {
            Ok(p1)
        }) {
            Err(e) => Err(e),
            Ok(p2) => match at_skip(d, p2, 8) {
                Err(e) => Err(e),
                Ok(p3) => match at_i32(d, p3) {
                    Err(e) => Err(e),
                    Ok((export_count, p4)) => match at_i32(d, p4) {
                        Err(e) => Err(e),
                        Ok((export_offset, p5)) => match at_i32(d, p5) {
                            Err(e) => Err(e),
                            Ok((import_count, p6)) => match at_i32(d, p6) {
                                Err(e) => Err(e),
                                Ok((import_offset, p7)) => match at_i32(d, p7) {
                                    Err(e) => Err(e),
                                    Ok((depends_offset, _)) => Ok(
                                        (export_count, export_offset, import_count, import_offset, depends_offset),
                                    ),
                                },
                            },
                        },
                    },
                },
            },
        },
    }
}

/// The non-negative part of `x`.
pub open spec fn clamp_nat(x: i32) -> int {
    if x < 0 {
        0
    } else {
        x as int
    }
}

/// The import map: `import_count` records from `import_offset`, or none.
pub open spec fn import_map_at(d: Seq<u8>, names: Seq<Seq<char>>, import_count: i32, import_offset: i32) -> Result<Seq<ImportV>, UassetError> {
    if import_count > 0 {
        imports_at(d, clamp_nat(import_offset), names, import_count as nat)
    } else {
        Ok(Seq::empty())
    }
}

/// The export map: `export_count` records from `export_offset`, after
/// checking that the map spans exactly that many records when the depends
/// map follows it.
pub open spec fn export_map_at(d: Seq<u8>, names: Seq<Seq<char>>, export_count: i32, export_offset: i32, depends_offset: i32) -> Result<Seq<ExportV>, UassetError> {
    if export_count > 0 {
        if depends_offset > export_offset && depends_offset - export_offset != export_count * 96 {
            Err(
                UassetError::ExportMapStride {
                    span: (depends_offset - export_offset) as usize,
                    count: export_count as usize,
                    expected: 96,
                },
            )
        } else {
            exports_at(d, clamp_nat(export_offset), names, export_count as nat)
        }
    } else {
        Ok(Seq::empty())
    }
}

/// Decoded imports are as many as asked for, the `i`-th read `32 * i` bytes
/// after `base`.
proof fn lemma_imports_layout(d: Seq<u8>, base: int, names: Seq<Seq<char>>, count: nat)
    ensures
        imports_at(d, base, names, count) matches Ok(is) ==> {
            &&& is.len() == count
            &&& forall|i: int| 0 <= i < count ==> import_at(d, base + 32 * i, names) == Ok::<ImportV, UassetError>(#[trigger] is[i])
        },
    decreases count,
{
    if count > 0 {
        lemma_imports_layout(d, base, names, (count - 1) as nat);
    }
}

/// Decoded exports are as many as asked for, the `i`-th read `96 * i` bytes
/// after `base`.
proof fn lemma_exports_layout(d: Seq<u8>, base: int, names: Seq<Seq<char>>, count: nat)
    ensures
        exports_at(d, base, names, count) matches Ok(es) ==> {
            &&& es.len() == count
            &&& forall|i: int| 0 <= i < count ==> export_at(d, base + 96 * i, names) == Ok::<ExportV, UassetError>(#[trigger] es[i])
        },
    decreases count,
{
    if count > 0 {
        lemma_exports_layout(d, base, names, (count - 1) as nat);
    }
}

/// The import and export maps of a package header that parses: one record
/// per declared entry (none for a negative count), import `i` read at
/// `import_offset + 32 * i` and export `i` at `export_offset + 96 * i` (a
/// negative offset read as 0), and an export map that spans exactly its
/// records whenever the depends map follows it. When the imports decode but
/// the exports span something else, the header is refused with that span.
pub proof fn lemma_package_layout(d: Seq<u8>)
    ensures
        match summary_at(d) {
            Err(_) => true,
            Ok((s, q, _total)) => match table_offsets_at(d, q, s.package_flags) {
                Err(_) => true,
                Ok((ec, eo, ic, io, dofs)) => {
                    &&& package_at(d) matches Ok(p) ==> {
                        &&& p.summary == s
                        &&& p.imports.len() == if ic > 0 { ic as int } else { 0 }
                        &&& p.exports.len() == if ec > 0 { ec as int } else { 0 }
                        &&& forall|i: int|
                            0 <= i < p.imports.len() ==> import_at(d, clamp_nat(io) + 32 * i, s.names)
                                == Ok::<ImportV, UassetError>(#[trigger] p.imports[i])
                        &&& forall|i: int|
                            0 <= i < p.exports.len() ==> export_at(d, clamp_nat(eo) + 96 * i, s.names)
                                == Ok::<ExportV, UassetError>(#[trigger] p.exports[i])
                        &&& (ec > 0 && dofs > eo) ==> dofs - eo == ec * 96
                    }
                    &&& (import_map_at(d, s.names, ic, io) is Ok && ec > 0 && dofs > eo && dofs - eo != ec * 96)
                        ==> package_at(d) == Err::<PackageV, UassetError>(
                        UassetError::ExportMapStride {
                            span: (dofs - eo) as usize,
                            count: ec as usize,
                            expected: 96,
                        },
                    )
                },
            },
        },
{
    if let Ok((s, q, _total)) = summary_at(d) {
        if let Ok((ec, eo, ic, io, dofs)) = table_offsets_at(d, q, s.package_flags) {
            if ic > 0 {
                lemma_imports_layout(d, clamp_nat(io), s.names, ic as nat);
            }
            if ec > 0 {
                lemma_exports_layout(d, clamp_nat(eo), s.names, ec as nat);
            }
        }
    }
}

/// The whole package header.
pub open spec fn package_at(d: Seq<u8>) -> Result<PackageV, UassetError> {
    match summary_at(d) {
        Err(e) => Err(e),
        Ok((s, p, total)) => match table_offsets_at(d, p, s.package_flags) {
            Err(e) => Err(e),
            Ok((export_count, export_offset, import_count, import_offset, depends_offset)) => match import_map_at(
                d,
                s.names,
                import_count,
                import_offset,
            ) {
                Err(e) => Err(e),
                Ok(imports) => match export_map_at(d, s.names, export_count, export_offset, depends_offset) {
                    Err(e) => Err(e),
                    Ok(exports) => Ok(PackageV { summary: s, total_header_size: total, imports, exports }),
                },
            },
        },
    }
}

/// An `FName`: a name-table index plus an occurrence number.
fn read_fname(r: &mut Reader, names: &Vec<String>) -> (res: Result<String, UassetError>)
    ensures
        final(r)@.data == old(r)@.data,
        match fname_at(old(r)@.data, old(r)@.pos as int, strings_v(names@)) {
            Ok((s, p)) => res matches Ok(x) && x@ == s && final(r)@.pos == p,
            Err(e) => res == Err::<String, UassetError>(e),
        },
{
    let index = r.i32()?;
    let _number = r.i32()?;
    if index >= 0 && (index as usize) < names.len() {
        Ok(names[index as usize].clone())
    } else {
        Err(UassetError::BadNameIndex { index, count: names.len() })
    }
}

fn read_import(bytes: &[u8], start: usize, names: &Vec<String>) -> (res: Result<Import, UassetError>)
    ensures
        match import_at(bytes@, start as int, strings_v(names@)) {
            Ok(i) => res matches Ok(x) && x@ == i,
            Err(e) => res == Err::<Import, UassetError>(e),
        },
{
    reveal(import_at);
    let mut ir = Reader::at(bytes, start);
    let class_package = read_fname(&mut ir, names)?;
    let class_name = read_fname(&mut ir, names)?;
    let outer_index = ir.i32()?;
    let object_name = read_fname(&mut ir, names)?;
    Ok(Import { class_package, class_name, outer_index, object_name })
}

fn read_export(bytes: &[u8], start: usize, names: &Vec<String>) -> (res: Result<Export, UassetError>)
    ensures
        match export_at(bytes@, start as int, strings_v(names@)) {
            Ok(e) => res matches Ok(x) && x@ == e,
            Err(e) => res == Err::<Export, UassetError>(e),
        },
{
    reveal(export_at);
    let mut er = Reader::at(bytes, start);
    let class_index = er.i32()?;
    er.skip(12)?;  // SuperIndex, TemplateIndex, OuterIndex
    let object_name = read_fname(&mut er, names)?;
    er.skip(4)?;  // ObjectFlags
    let serial_size = er.i64()?;
    let serial_offset = er.i64()?;
    Ok(
        Export {
            class_index,
            object_name,
            serial_size: if serial_size < 0 { 0 } else { serial_size as u64 },
            serial_offset: if serial_offset < 0 { 0 } else { serial_offset as u64 },
        },
    )
}

fn read_imports(bytes: &[u8], base: usize, count: i32, names: &Vec<String>) -> (res: Result<Vec<Import>, UassetError>)
    requires
        count > 0,
        base <= i32::MAX,
    ensures
        match imports_at(bytes@, base as int, strings_v(names@), count as nat) {
            Ok(is) => res matches Ok(v) && imports_v(v@) == is,
            Err(e) => res == Err::<Vec<Import>, UassetError>(e),
        },
{
    let mut imports: Vec<Import> = Vec::new();
    proof {
        assert(imports_v(imports@) =~= Seq::<ImportV>::empty());
    }
    let mut i: i32 = 0;
    while i < count
        invariant
            0 <= i <= count,
            base <= i32::MAX,
            imports_at(bytes@, base as int, strings_v(names@), i as nat) == Ok::<Seq<ImportV>, UassetError>(imports_v(imports@)),
        decreases count - i,
    {
        let start_wide: u64 = base as u64 + (i as u64) * 32;
        if start_wide > usize::MAX as u64 {
            let _len = bytes.len();
            proof {
                reveal(import_at);
                lemma_imports_error_persists(bytes@, base as int, strings_v(names@), (i + 1) as nat, count as nat);
            }
            return Err(UassetError::Truncated { offset: (#[verifier::truncate] (start_wide as usize)) });
        }
        let start = start_wide as usize;
        match read_import(bytes, start, names) {
            Ok(imp) => {
                proof {
                    assert(imports_v(imports@.push(imp)) =~= imports_v(imports@).push(imp@));
                }
                imports.push(imp);
            },
            Err(e) => {
                proof {
                    lemma_imports_error_persists(bytes@, base as int, strings_v(names@), (i + 1) as nat, count as nat);
                }
                return Err(e);
            },
        }
        i += 1;
    }
    Ok(imports)
}

fn read_exports(bytes: &[u8], base: usize, count: i32, names: &Vec<String>) -> (res: Result<Vec<Export>, UassetError>)
    requires
        count > 0,
        base <= i32::MAX,
    ensures
        match exports_at(bytes@, base as int, strings_v(names@), count as nat) {
            Ok(es) => res matches Ok(v) && exports_v(v@) == es,
            Err(e) => res == Err::<Vec<Export>, UassetError>(e),
        },
{
    let mut exports: Vec<Export> = Vec::new();
    proof {
        assert(exports_v(exports@) =~= Seq::<ExportV>::empty());
    }
    let mut i: i32 = 0;
    while i < count
        invariant
            0 <= i <= count,
            base <= i32::MAX,
            exports_at(bytes@, base as int, strings_v(names@), i as nat) == Ok::<Seq<ExportV>, UassetError>(exports_v(exports@)),
        decreases count - i,
    {
        let start_wide: u64 = base as u64 + (i as u64) * 96;
        if start_wide > usize::MAX as u64 {
            let _len = bytes.len();
            proof {
                reveal(export_at);
                lemma_exports_error_persists(bytes@, base as int, strings_v(names@), (i + 1) as nat, count as nat);
            }
            return Err(UassetError::Truncated { offset: (#[verifier::truncate] (start_wide as usize)) });
        }
        let start = start_wide as usize;
        match read_export(bytes, start, names) {
            Ok(x) => {
                proof {
                    assert(exports_v(exports@.push(x)) =~= exports_v(exports@).push(x@));
                }
                exports.push(x);
            },
            Err(e) => {
                proof {
                    lemma_exports_error_persists(bytes@, base as int, strings_v(names@), (i + 1) as nat, count as nat);
                }
                return Err(e);
            },
        }
        i += 1;
    }
    Ok(exports)
}

/// Read the five table offsets that follow the summary.
fn read_table_offsets(r: &mut Reader, flags: u32) -> (res: Result<(i32, i32, i32, i32, i32), UassetError>)
    ensures
        match table_offsets_at(old(r)@.data, old(r)@.pos as int, flags) {
            Ok(t) => res == Ok::<(i32, i32, i32, i32, i32), UassetError>(t),
            Err(e) => res == Err::<(i32, i32, i32, i32, i32), UassetError>(e),
        },
{
    reveal(table_offsets_at);
    // Soft object paths, then the optional localization id, then the
    // gatherable text map: all skipped.
    r.skip(8)?;
    if flags & PKG_FILTER_EDITOR_ONLY == 0 {
        r.fstring()?;
    }
    r.skip(8)?;
    let export_count = r.i32()?;
    let export_offset = r.i32()?;
    let import_count = r.i32()?;
    let import_offset = r.i32()?;
    let depends_offset = r.i32()?;
    Ok((export_count, export_offset, import_count, import_offset, depends_offset))
}

/// Parse a cooked package header, including its import and export maps.
pub fn parse_package(bytes: &[u8]) -> (r: Result<Package, UassetError>)
    ensures
        match package_at(bytes@) {
            Ok(p) => r matches Ok(v) && v@ == p,
            Err(e) => r matches Err(x) && x == e,
        },
{
    let (summary, mut r, total_header_size) = parse_summary_inner(bytes)?;
    let (export_count, export_offset, import_count, import_offset, depends_offset) = read_table_offsets(
        &mut r,
        summary.package_flags,
    )?;
    let mut imports: Vec<Import> = Vec::new();
    if import_count > 0 {
        let base: usize = if import_offset < 0 { 0 } else { import_offset as usize };
        imports = read_imports(bytes, base, import_count, &summary.names)?;
    }
    proof {
        assert(imports_v(Seq::<Import>::empty()) =~= Seq::<ImportV>::empty());
    }
    let mut exports: Vec<Export> = Vec::new();
    if export_count > 0 {
        // The depends map starts where the export map ends, which pins the
        // record size rather than trusting it blindly.
        if depends_offset > export_offset {
            let span_wide: i64 = depends_offset as i64 - export_offset as i64;
            if span_wide != (export_count as i64) * 96 {
                return Err(
                    UassetError::ExportMapStride {
                        span: (#[verifier::truncate] (span_wide as usize)),
                        count: export_count as usize,
                        expected: EXPORT_RECORD_SIZE,
                    },
                );
            }
        }
        let base: usize = if export_offset < 0 { 0 } else { export_offset as usize };
        exports = read_exports(bytes, base, export_count, &summary.names)?;
    }
    proof {
        assert(exports_v(Seq::<Export>::empty()) =~= Seq::<ExportV>::empty());
    }
    Ok(Package { summary, total_header_size, imports, exports })
}

/// The object name of the import an `FPackageIndex` selects: a negative index
/// `-k` selects import `k - 1`; anything else selects none.
pub open spec fn import_name_of(imports: Seq<ImportV>, index: i32) -> Option<Seq<char>> {
    if index >= 0 {
        None
    } else if -index - 1 < imports.len() {
        Some(imports[-index - 1].object_name)
    } else {
        None
    }
}

/// The view of an optional string.
pub open spec fn opt_str_v(o: Option<&str>) -> Option<Seq<char>> {
    match o {
        Some(s) => Some(s@),
        None => None,
    }
}

impl Package {
    /// Where an export's data starts within the `.uexp`: its serial offset
    /// less the header size, when that is non-negative and fits a `usize`.
    pub fn uexp_offset(&self, export: &Export) -> (r: Option<usize>)
        ensures
            ({
                let o = export.serial_offset - clamp_nat(self.total_header_size);
                match r {
                    Some(v) => 0 <= o <= usize::MAX && v == o,
                    None => o < 0 || o > usize::MAX,
                }
            }),
    {
        let base: u64 = if self.total_header_size < 0 { 0 } else { self.total_header_size as u64 };
        if export.serial_offset < base {
            return None;
        }
        let o = export.serial_offset - base;
        if o <= usize::MAX as u64 {
            Some(o as usize)
        } else {
            None
        }
    }

    /// Resolve an `FPackageIndex` to an import's object name.
    pub fn import_name(&self, package_index: i32) -> (r: Option<&str>)
        ensures
            opt_str_v(r) == import_name_of(imports_v(self.imports@), package_index),
    {
        if package_index >= 0 {
            return None;
        }
        let slot = (-(package_index as i64) - 1) as usize;
        if slot < self.imports.len() {
            Some(self.imports[slot].object_name.as_str())
        } else {
            None
        }
    }

    /// Resolve an export's class name through the import map.
    pub fn class_of(&self, export: &Export) -> (r: Option<&str>)
        ensures
            opt_str_v(r) == import_name_of(imports_v(self.imports@), export.class_index),
    {
        self.import_name(export.class_index)
    }

    /// The first export whose class is `class_name`.
    pub fn find_export(&self, class_name: &str) -> (r: Option<&Export>)
        ensures
            match r {
                Some(e) => exists|i: int|
                    0 <= i < self.exports@.len() && *e == self.exports@[i] && import_name_of(
                        imports_v(self.imports@),
                        self.exports@[i].class_index,
                    ) == Some(class_name@) && forall|j: int|
                        0 <= j < i ==> import_name_of(imports_v(self.imports@), #[trigger] self.exports@[j].class_index)
                            != Some(class_name@),
                None => forall|i: int|
                    0 <= i < self.exports@.len() ==> import_name_of(imports_v(self.imports@), #[trigger] self.exports@[i].class_index)
                        != Some(class_name@),
            },
    {
        let mut i: usize = 0;
        while i < self.exports.len()
            invariant
                i <= self.exports@.len(),
                forall|j: int|
                    0 <= j < i ==> import_name_of(imports_v(self.imports@), #[trigger] self.exports@[j].class_index)
                        != Some(class_name@),
            decreases self.exports@.len() - i,
        {
            let found = match self.class_of(&self.exports[i]) {
                Some(c) => str_eq(c, class_name),
                None => false,
            };
            if found {
                return Some(&self.exports[i]);
            }
            i += 1;
        }
        None
    }
}

} // verus!
