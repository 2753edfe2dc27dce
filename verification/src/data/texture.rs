//! Locates and decodes the top mip of a cooked `UTexture2D` without a
//! `.usmap`.
//!
//! A texture's properties are unversioned, but `FTexturePlatformData`, which
//! holds the pixel data, is serialized after them and writes its pixel format
//! as a plain `FString` (`PF_DXT5`, `PF_DXT1`, …). That string is found by
//! byte search, and `SizeX`/`SizeY`/`PackedData` sit in the twelve bytes
//! before it. After the format name come `FirstMipToSerialize`, `NumMips`,
//! and per mip its bulk-data header (`u32` flags, `i32` element count, `i32`
//! size on disk, `i64` offset in file), the payload when inlined, and the
//! mip's dimensions.

use vstd::prelude::*;

use crate::bytes::{i32_from_bits, le_u16, le_u32, signed32, u32_le};
use crate::data::uasset::{at_fstring, at_i32, at_i64, at_skip, at_u32, Reader, UassetError};
use crate::text::{from_utf8_lossy, str_eq, utf8_lossy};

verus! {

/// `BULKDATA_ForceInlinePayload`: the payload follows the header in the
/// `.uexp`.
pub const BULKDATA_FORCE_INLINE_PAYLOAD: u32 = 0x0040;

/// `BULKDATA_PayloadInSeperateFile`: the payload lives in the sibling
/// `.ubulk`.
pub const BULKDATA_PAYLOAD_IN_SEPARATE_FILE: u32 = 0x0100;

/// The pixel formats Palworld's icons use; any other is reported as
/// [`TextureError::UnsupportedFormat`].
#[derive(Debug, Clone, Copy, PartialEq, Eq, Structural)]
pub enum PixelFormat {
    /// BC1: 8 bytes per 4×4 block.
    Dxt1,
    /// BC2: 16 bytes per 4×4 block, sharp alpha.
    Dxt3,
    /// BC3: 16 bytes per 4×4 block, interpolated alpha.
    Dxt5,
    /// Uncompressed 8-bit BGRA.
    B8G8R8A8,
}

/// The format a pixel-format name denotes.
pub open spec fn format_named(name: Seq<char>) -> Option<PixelFormat> {
    if name == "PF_DXT1"@ {
        Some(PixelFormat::Dxt1)
    } else if name == "PF_DXT3"@ {
        Some(PixelFormat::Dxt3)
    } else if name == "PF_DXT5"@ {
        Some(PixelFormat::Dxt5)
    } else if name == "PF_B8G8R8A8"@ {
        Some(PixelFormat::B8G8R8A8)
    } else {
        None
    }
}

/// The bytes one 4×4 block takes, for the block-compressed formats.
pub open spec fn block_size(f: PixelFormat) -> Option<usize> {
    match f {
        PixelFormat::Dxt1 => Some(8),
        PixelFormat::Dxt3 | PixelFormat::Dxt5 => Some(16),
        PixelFormat::B8G8R8A8 => None,
    }
}

impl PixelFormat {
    pub fn parse(name: &str) -> (r: Option<Self>)
        ensures
            r == format_named(name@),
    {
        if str_eq(name, "PF_DXT1") {
            Some(PixelFormat::Dxt1)
        } else if str_eq(name, "PF_DXT3") {
            Some(PixelFormat::Dxt3)
        } else if str_eq(name, "PF_DXT5") {
            Some(PixelFormat::Dxt5)
        } else if str_eq(name, "PF_B8G8R8A8") {
            Some(PixelFormat::B8G8R8A8)
        } else {
            None
        }
    }

    /// Bytes one 4×4 block occupies, for block-compressed formats.
    pub fn block_bytes(self) -> (r: Option<usize>)
        ensures
            r == block_size(self),
    {
        match self {
            PixelFormat::Dxt1 => Some(8),
            PixelFormat::Dxt3 | PixelFormat::Dxt5 => Some(16),
            PixelFormat::B8G8R8A8 => None,
        }
    }
}

/// Why a texture could not be located or decoded.
#[derive(Debug)]
#[allow(inconsistent_fields)]
pub enum TextureError {
    /// No `FTexturePlatformData` pixel format was found.
    NoPlatformData,
    /// The pixel format is not one of [`PixelFormat`]'s.
    UnsupportedFormat(String),
    /// A width or height outside `1..=16384`.
    BadDimensions { width: i32, height: i32 },
    /// The texture declares no mips.
    NoMips,
    /// The bulk-data header could not be read.
    Read(UassetError),
    /// The mip's bytes run past the end of their container.
    MipOutOfRange { source_name: &'static str, offset: usize, needed: usize },
    /// The PNG encoder failed.
    Encode(String),
}

/// [`TextureError`] with its strings seen as characters.
#[allow(inconsistent_fields)]
pub enum TextureErrorV {
    NoPlatformData,
    UnsupportedFormat(Seq<char>),
    BadDimensions { width: i32, height: i32 },
    NoMips,
    Read(UassetError),
    MipOutOfRange { source_name: Seq<char>, offset: usize, needed: usize },
    Encode(Seq<char>),
}

impl View for TextureError {
    type V = TextureErrorV;

    open spec fn view(&self) -> TextureErrorV {
        match self {
            TextureError::NoPlatformData => TextureErrorV::NoPlatformData,
            TextureError::UnsupportedFormat(s) => TextureErrorV::UnsupportedFormat(s@),
            TextureError::BadDimensions { width, height } => TextureErrorV::BadDimensions {
                width: *width,
                height: *height,
            },
            TextureError::NoMips => TextureErrorV::NoMips,
            TextureError::Read(e) => TextureErrorV::Read(*e),
            TextureError::MipOutOfRange { source_name, offset, needed } => TextureErrorV::MipOutOfRange {
                source_name: source_name@,
                offset: *offset,
                needed: *needed,
            },
            TextureError::Encode(s) => TextureErrorV::Encode(s@),
        }
    }
}

/// Where a mip's bytes live.
#[derive(Debug, Clone, Copy, PartialEq, Eq, Structural)]
pub struct MipLocation {
    pub offset: usize,
    pub len: usize,
    /// Whether the bytes are in the sibling `.ubulk` rather than the `.uexp`.
    pub in_bulk: bool,
}

/// The top mip of a cooked texture, located but not yet decoded.
#[derive(Debug, Clone, Copy, PartialEq, Eq, Structural)]
pub struct TextureInfo {
    pub width: u32,
    pub height: u32,
    pub format: PixelFormat,
    pub mip0: MipLocation,
}

impl TextureInfo {
    /// Whether mip 0 lives in the sibling `.ubulk`.
    pub fn mip0_in_bulk(&self) -> (b: bool)
        ensures
            b == self.mip0.in_bulk,
    {
        self.mip0.in_bulk
    }
}

/// A texture reads as its top mip's location, so `info.offset` and
/// `info.len` name where mip 0 lies.
impl core::ops::Deref for TextureInfo {
    type Target = MipLocation;

    fn deref(&self) -> (r: &MipLocation)
        ensures
            *r == self.mip0,
    {
        &self.mip0
    }
}

/// Whether a pixel-format `FString` starts at `i`: a length in `4..=64` that
/// fits, bytes starting `PF_`, and a NUL at the end.
pub open spec fn format_string_at(d: Seq<u8>, i: int) -> bool {
    let n = signed32(le_u32(d.subrange(i, i + 4)));
    &&& 4 <= n <= 64
    &&& i + 4 + n <= d.len()
    &&& d[i + 4] == 0x50 && d[i + 5] == 0x46 && d[i + 6] == 0x5F
    &&& d[i + 3 + n] == 0
}

/// The first position at or after `i` where a pixel-format `FString` starts,
/// looking only where eight bytes remain.
pub open spec fn first_format_string(d: Seq<u8>, i: int) -> Option<int>
    decreases d.len() - i,
{
    if i < 0 || i + 8 > d.len() {
        None
    } else if format_string_at(d, i) {
        Some(i)
    } else {
        first_format_string(d, i + 1)
    }
}

/// The name in the pixel-format `FString` at `i`, without its NUL.
pub open spec fn format_name_at(d: Seq<u8>, i: int) -> Seq<char> {
    let n = signed32(le_u32(d.subrange(i, i + 4)));
    utf8_lossy(d.subrange(i + 4, i + 3 + n))
}

/// Find the `FString` holding the pixel format name, anchored on the `PF_`
/// prefix: its offset and its value. The search starts at 12, since
/// `SizeX`, `SizeY` and `PackedData` precede it.
pub fn find_pixel_format(bytes: &[u8]) -> (r: Option<(usize, String)>)
    ensures
        match first_format_string(bytes@, 12) {
            Some(i) => r matches Some((j, s)) && j == i && s@ == format_name_at(bytes@, i),
            None => r is None,
        },
{
    let mut i: usize = 12;
    while i <= bytes.len() && bytes.len() - i >= 8
        invariant
            12 <= i,
            first_format_string(bytes@, 12) == first_format_string(bytes@, i as int),
        decreases bytes@.len() - i,
    {
        let n = i32_from_bits(u32_le(&bytes[i..i + 4]));
        proof {
            assert(bytes@.subrange(i as int, i + 4) == bytes@.subrange(i as int, i + 4));
        }
        if 4 <= n && n <= 64 && (n as usize) <= bytes.len() - i - 4 {
            let end = i + 4 + n as usize;
            {
                if bytes[i + 4] == 0x50 && bytes[i + 5] == 0x46 && bytes[i + 6] == 0x5F && bytes[end - 1] == 0 {
                    let name = from_utf8_lossy(&bytes[i + 4..end - 1]);
                    return Some((i, name));
                }
            }
        }
        i += 1;
    }
    None
}

/// A `usize` conversion that yields zero for what does not fit.
pub open spec fn usize_or_zero(x: int) -> usize {
    if 0 <= x <= usize::MAX {
        x as usize
    } else {
        0
    }
}

/// The mip-0 bulk-data header after the format `FString` at `at`:
/// `(flags, element_count, size_on_disk, offset_in_file)` and the position
/// right after it, or `None` when the texture declares no mips.
pub open spec fn mip_header_at(d: Seq<u8>, at: int) -> Result<Option<(u32, i32, i32, i64, int)>, UassetError> {
    match at_fstring(d, at) {
        Err(e) => Err(e),
        Ok((_, p1)) => match at_skip(d, p1, 4) {
            Err(e) => Err(e),
            Ok(p2) => match at_i32(d, p2) {
                Err(e) => Err(e),
                Ok((num_mips, p3)) => if num_mips <= 0 {
                    Ok(None)
                } else {
                    match at_u32(d, p3) {
                        Err(e) => Err(e),
                        Ok((flags, p4)) => match at_i32(d, p4) {
                            Err(e) => Err(e),
                            Ok((count, p5)) => match at_i32(d, p5) {
                                Err(e) => Err(e),
                                Ok((size, p6)) => match at_i64(d, p6) {
                                    Err(e) => Err(e),
                                    Ok((offset, p7)) => Ok(Some((flags, count, size, offset, p7))),
                                },
                            },
                        },
                    }
                },
            },
        },
    }
}

/// Where mip 0's bytes live, from its bulk-data header: in the `.ubulk` at
/// the recorded offset, inline right after the header, or in the `.uexp` at
/// the recorded offset. Its length is the larger of the two recorded sizes.
pub open spec fn mip_location(flags: u32, count: i32, size: i32, offset: i64, after: int) -> MipLocation {
    let len = usize_or_zero(if size >= count { size as int } else { count as int });
    if flags & BULKDATA_PAYLOAD_IN_SEPARATE_FILE != 0 {
        MipLocation { offset: usize_or_zero(offset as int), len, in_bulk: true }
    } else if flags & BULKDATA_FORCE_INLINE_PAYLOAD != 0 {
        MipLocation { offset: after as usize, len, in_bulk: false }
    } else {
        MipLocation { offset: usize_or_zero(offset as int), len, in_bulk: false }
    }
}

/// What a cooked texture's `.uexp` says of its top mip.
pub open spec fn texture_at(d: Seq<u8>) -> Result<TextureInfo, TextureErrorV> {
    match first_format_string(d, 12) {
        None => Err(TextureErrorV::NoPlatformData),
        Some(at) => match format_named(format_name_at(d, at)) {
            None => Err(TextureErrorV::UnsupportedFormat(format_name_at(d, at))),
            Some(format) => {
                let width = signed32(le_u32(d.subrange(at - 12, at - 8)));
                let height = signed32(le_u32(d.subrange(at - 8, at - 4)));
                if width <= 0 || height <= 0 || width > 16384 || height > 16384 {
                    Err(TextureErrorV::BadDimensions { width: width as i32, height: height as i32 })
                } else {
                    match mip_header_at(d, at) {
                        Err(e) => Err(TextureErrorV::Read(e)),
                        Ok(None) => Err(TextureErrorV::NoMips),
                        Ok(Some((flags, count, size, offset, after))) => Ok(
                            TextureInfo {
                                width: width as u32,
                                height: height as u32,
                                format,
                                mip0: mip_location(flags, count, size, offset, after),
                            },
                        ),
                    }
                }
            },
        },
    }
}

/// A texture that parses keeps mip 0 in the `.ubulk` exactly when mip 0's
/// bulk-data flags carry the separate-file bit, and then at the offset
/// recorded in the header, or 0 when that is negative.
pub proof fn lemma_mip0_in_bulk(d: Seq<u8>)
    ensures
        match texture_at(d) {
            Err(_) => true,
            Ok(info) => match first_format_string(d, 12) {
                None => false,
                Some(at) => match mip_header_at(d, at) {
                    Ok(Some((flags, _count, _size, offset, _after))) => {
                        &&& info.mip0.in_bulk <==> flags & BULKDATA_PAYLOAD_IN_SEPARATE_FILE != 0
                        &&& info.mip0.in_bulk ==> info.mip0.offset == usize_or_zero(offset as int)
                    },
                    _ => false,
                },
            },
        },
{
}

proof fn lemma_first_format_bounds(d: Seq<u8>, i: int)
    ensures
        first_format_string(d, i) matches Some(j) ==> i <= j && j + 8 <= d.len() && format_string_at(d, j),
    decreases d.len() - i,
{
    if !(i < 0 || i + 8 > d.len()) && !format_string_at(d, i) {
        lemma_first_format_bounds(d, i + 1);
    }
}

fn read_mip_header(uexp: &[u8], at: usize) -> (r: Result<Option<(u32, i32, i32, i64, usize)>, UassetError>)
    ensures
        match mip_header_at(uexp@, at as int) {
            Ok(None) => r == Ok::<Option<(u32, i32, i32, i64, usize)>, UassetError>(None),
            Ok(Some((f, c, s, o, p))) => r == Ok::<Option<(u32, i32, i32, i64, usize)>, UassetError>(
                Some((f, c, s, o, p as usize)),
            ),
            Err(e) => r == Err::<Option<(u32, i32, i32, i64, usize)>, UassetError>(e),
        },
{
    let mut r = Reader::at(uexp, at);
    r.fstring()?;
    r.skip(4)?;  // FirstMipToSerialize
    let num_mips = r.i32()?;
    if num_mips <= 0 {
        return Ok(None);
    }
    // Mip 0 is the largest and the only one needed.
    let flags = r.u32()?;
    let element_count = r.i32()?;
    let size_on_disk = r.i32()?;
    let offset_in_file = r.i64()?;
    Ok(Some((flags, element_count, size_on_disk, offset_in_file, r.pos())))
}

/// Parse a cooked texture's `.uexp` and locate its largest mip.
pub fn parse(uexp: &[u8]) -> (r: Result<TextureInfo, TextureError>)
    ensures
        match texture_at(uexp@) {
            Ok(info) => r == Ok::<TextureInfo, TextureError>(info),
            Err(e) => r matches Err(x) && x@ == e,
        },
{
    let (format_at, format_name) = match find_pixel_format(uexp) {
        Some(found) => found,
        None => {
            return Err(TextureError::NoPlatformData);
        },
    };
    proof {
        lemma_first_format_bounds(uexp@, 12);
    }
    let format = match PixelFormat::parse(format_name.as_str()) {
        Some(f) => f,
        None => {
            return Err(TextureError::UnsupportedFormat(format_name));
        },
    };
    let width = i32_from_bits(u32_le(&uexp[format_at - 12..format_at - 8]));
    let height = i32_from_bits(u32_le(&uexp[format_at - 8..format_at - 4]));
    if width <= 0 || height <= 0 || width > 16384 || height > 16384 {
        return Err(TextureError::BadDimensions { width, height });
    }
    let (flags, element_count, size_on_disk, offset_in_file, after) = match read_mip_header(uexp, format_at) {
        Ok(Some(h)) => h,
        Ok(None) => {
            return Err(TextureError::NoMips);
        },
        Err(e) => {
            return Err(TextureError::Read(e));
        },
    };
    let larger = if size_on_disk >= element_count { size_on_disk } else { element_count };
    let len: usize = if larger < 0 { 0 } else { larger as usize };
    let recorded: usize = if offset_in_file < 0 || offset_in_file as u64 > usize::MAX as u64 {
        0
    } else {
        offset_in_file as usize
    };
    let mip0 = if flags & BULKDATA_PAYLOAD_IN_SEPARATE_FILE != 0 {
        MipLocation { offset: recorded, len, in_bulk: true }
    } else if flags & BULKDATA_FORCE_INLINE_PAYLOAD != 0 {
        // Inline payloads follow the header immediately.
        MipLocation { offset: after, len, in_bulk: false }
    } else {
        MipLocation { offset: recorded, len, in_bulk: false }
    };
    Ok(TextureInfo { width: width as u32, height: height as u32, format, mip0 })
}

/// The container mip 0 is read from, and its name.
pub open spec fn mip_source(info: TextureInfo, uexp: Seq<u8>, ubulk: Option<Seq<u8>>) -> Seq<u8> {
    if info.mip0.in_bulk {
        match ubulk {
            Some(b) => b,
            None => Seq::empty(),
        }
    } else {
        uexp
    }
}

/// Read mip 0's bytes out of whichever container holds them.
pub fn mip0_bytes<'a>(info: &TextureInfo, uexp: &'a [u8], ubulk: Option<&'a [u8]>) -> (r: Result<&'a [u8], TextureError>)
    ensures
        ({
            let src = mip_source(*info, uexp@, match ubulk { Some(b) => Some(b@), None => None });
            let end = if info.mip0.offset + info.mip0.len > usize::MAX {
                usize::MAX as int
            } else {
                info.mip0.offset + info.mip0.len
            };
            if end > src.len() {
                r matches Err(e) && e@ == TextureErrorV::MipOutOfRange {
                    source_name: if info.mip0.in_bulk { "ubulk"@ } else { "uexp"@ },
                    offset: info.mip0.offset,
                    needed: info.mip0.len,
                }
            } else {
                r matches Ok(s) && s@ == src.subrange(info.mip0.offset as int, end)
            }
        }),
{
    let in_bulk = info.mip0.in_bulk;
    let end = info.mip0.offset.saturating_add(info.mip0.len);
    if in_bulk {
        let source: &[u8] = match ubulk {
            Some(b) => b,
            None => &[],
        };
        if end <= source.len() {
            Ok(&source[info.mip0.offset..end])
        } else {
            Err(TextureError::MipOutOfRange { source_name: "ubulk", offset: info.mip0.offset, needed: info.mip0.len })
        }
    } else if end <= uexp.len() {
        Ok(&uexp[info.mip0.offset..end])
    } else {
        Err(TextureError::MipOutOfRange { source_name: "uexp", offset: info.mip0.offset, needed: info.mip0.len })
    }
}

/// An RGB565 endpoint widened to RGBA8, replicating the high bits into the
/// low ones.
pub open spec fn rgb565_spec(c: u16) -> Seq<u8> {
    let r = ((c >> 11u16) & 0x1F) as u8;
    let g = ((c >> 5u16) & 0x3F) as u8;
    let b = (c & 0x1F) as u8;
    seq![(r << 3u8) | (r >> 2u8), (g << 2u8) | (g >> 4u8), (b << 3u8) | (b >> 2u8), 255u8]
}

/// An RGB565 endpoint's channels: red is the top five bits, green the middle
/// six and blue the low five, each widened to eight bits by repeating its
/// high bits below it (so 0 stays 0 and the maximum becomes 255); the
/// colour is opaque.
pub proof fn lemma_rgb565_channels(c: u16)
    ensures
        rgb565_spec(c).len() == 4,
        rgb565_spec(c)[0] == (c / 2048) * 8 + (c / 2048) / 4,
        rgb565_spec(c)[1] == ((c / 32) % 64) * 4 + ((c / 32) % 64) / 16,
        rgb565_spec(c)[2] == (c % 32) * 8 + (c % 32) / 4,
        rgb565_spec(c)[3] == 255,
{
    let r = ((c >> 11u16) & 0x1F) as u8;
    let g = ((c >> 5u16) & 0x3F) as u8;
    let b = (c & 0x1F) as u8;
    assert((r << 3u8) | (r >> 2u8) == (c / 2048) * 8 + (c / 2048) / 4) by (bit_vector)
        requires
            r == ((c >> 11u16) & 0x1F) as u8,
    ;
    assert((g << 2u8) | (g >> 4u8) == ((c / 32) % 64) * 4 + ((c / 32) % 64) / 16) by (bit_vector)
        requires
            g == ((c >> 5u16) & 0x3F) as u8,
    ;
    assert((b << 3u8) | (b >> 2u8) == (c % 32) * 8 + (c % 32) / 4) by (bit_vector)
        requires
            b == (c & 0x1F) as u8,
    ;
}

/// The average of two colours, opaque.
pub open spec fn midpoint_spec(a: Seq<u8>, b: Seq<u8>) -> Seq<u8> {
    seq![((a[0] + b[0]) / 2) as u8, ((a[1] + b[1]) / 2) as u8, ((a[2] + b[2]) / 2) as u8, 255u8]
}

/// `(2a + b) / 3`, opaque: the first interpolated endpoint in four-colour
/// mode.
pub open spec fn lerp_third_spec(a: Seq<u8>, b: Seq<u8>) -> Seq<u8> {
    seq![
        ((2 * a[0] + b[0]) / 3) as u8,
        ((2 * a[1] + b[1]) / 3) as u8,
        ((2 * a[2] + b[2]) / 3) as u8,
        255u8,
    ]
}

/// Texel `t` of a BC1 colour block: two RGB565 endpoints and a 2-bit index
/// per texel. With punch-through alpha and `c0 <= c1` the block is in
/// three-colour mode, where index 3 is transparent black.
pub open spec fn colour_texel_spec(block: Seq<u8>, punchthrough_alpha: bool, t: int) -> Seq<u8> {
    let c0 = le_u16(block.subrange(0, 2)) as u16;
    let c1 = le_u16(block.subrange(2, 4)) as u16;
    let bits = le_u32(block.subrange(4, 8)) as u32;
    let e0 = rgb565_spec(c0);
    let e1 = rgb565_spec(c1);
    let three_colour = punchthrough_alpha && c0 <= c1;
    let index = (bits >> ((2 * t) as u32)) & 3u32;
    if index == 0 {
        e0
    } else if index == 1 {
        e1
    } else if index == 2 {
        if three_colour { midpoint_spec(e0, e1) } else { lerp_third_spec(e0, e1) }
    } else {
        if three_colour { seq![0u8, 0u8, 0u8, 0u8] } else { lerp_third_spec(e1, e0) }
    }
}

/// Texel `t`'s alpha in a BC2 block: four bits, scaled to eight.
pub open spec fn bc2_alpha_spec(block: Seq<u8>, t: int) -> u8 {
    (((block[t / 2] >> (((t % 2) * 4) as u8)) & 0x0Fu8) * 17) as u8
}

/// Entry `k` of a BC3 alpha palette with endpoints `a0` and `a1`: six
/// interpolated values when `a0 > a1`, otherwise four plus transparent and
/// opaque.
pub open spec fn bc3_palette_spec(a0: u8, a1: u8, k: int) -> u8 {
    if k == 0 {
        a0
    } else if k == 1 {
        a1
    } else if a0 > a1 {
        (((8 - k) * a0 + (k - 1) * a1) / 7) as u8
    } else if k < 6 {
        (((6 - k) * a0 + (k - 1) * a1) / 5) as u8
    } else if k == 6 {
        0
    } else {
        255
    }
}

/// The 48 index bits of a BC3 alpha block.
pub open spec fn bc3_bits(block: Seq<u8>) -> u64 {
    (block[2] as u64) | ((block[3] as u64) << 8u64) | ((block[4] as u64) << 16u64) | ((block[5] as u64)
        << 24u64) | ((block[6] as u64) << 32u64) | ((block[7] as u64) << 40u64)
}

/// Texel `t`'s alpha in a BC3 block: a 3-bit index into the palette.
pub open spec fn bc3_alpha_spec(block: Seq<u8>, t: int) -> u8 {
    bc3_palette_spec(block[0], block[1], ((bc3_bits(block) >> ((3 * t) as u64)) & 7u64) as int)
}

/// Texel `t` of a compressed block in `format`.
pub open spec fn texel_spec(format: PixelFormat, block: Seq<u8>, t: int) -> Seq<u8> {
    match format {
        PixelFormat::Dxt1 => colour_texel_spec(block.subrange(0, 8), true, t),
        PixelFormat::Dxt3 => colour_texel_spec(block.subrange(8, 16), false, t).update(
            3,
            bc2_alpha_spec(block.subrange(0, 8), t),
        ),
        PixelFormat::Dxt5 => colour_texel_spec(block.subrange(8, 16), false, t).update(
            3,
            bc3_alpha_spec(block.subrange(0, 8), t),
        ),
        PixelFormat::B8G8R8A8 => seq![0u8, 0u8, 0u8, 0u8],
    }
}

/// Pixel `(x, y)` of the decoded mip as straight RGBA8: swizzled from BGRA,
/// or decoded from the 4×4 block that covers it. A pixel whose source bytes
/// are missing stays transparent black.
pub open spec fn pixel_spec(info: TextureInfo, data: Seq<u8>, x: int, y: int) -> Seq<u8> {
    match block_size(info.format) {
        None => {
            let px = y * info.width + x;
            if 4 * px + 4 <= data.len() {
                seq![data[4 * px + 2], data[4 * px + 1], data[4 * px], data[4 * px + 3]]
            } else {
                seq![0u8, 0u8, 0u8, 0u8]
            }
        },
        Some(bb) => {
            let blocks_x = (info.width + 3) / 4;
            let idx = ((y / 4) * blocks_x + x / 4) * bb;
            if idx + bb <= data.len() {
                texel_spec(info.format, data.subrange(idx, idx + bb), (y % 4) * 4 + x % 4)
            } else {
                seq![0u8, 0u8, 0u8, 0u8]
            }
        },
    }
}

fn rgb565(c: u16) -> (r: [u8; 4])
    ensures
        r@ == rgb565_spec(c),
{
    let r = ((c >> 11) & 0x1F) as u8;
    let g = ((c >> 5) & 0x3F) as u8;
    let b = (c & 0x1F) as u8;
    let out = [(r << 3) | (r >> 2), (g << 2) | (g >> 4), (b << 3) | (b >> 2), 255];
    assert(out@ =~= rgb565_spec(c));
    out
}

fn midpoint(a: [u8; 4], b: [u8; 4]) -> (r: [u8; 4])
    ensures
        r@ == midpoint_spec(a@, b@),
{
    let out = [
        ((a[0] as u16 + b[0] as u16) / 2) as u8,
        ((a[1] as u16 + b[1] as u16) / 2) as u8,
        ((a[2] as u16 + b[2] as u16) / 2) as u8,
        255,
    ];
    assert(out@ =~= midpoint_spec(a@, b@));
    out
}

fn lerp_third(a: [u8; 4], b: [u8; 4]) -> (r: [u8; 4])
    ensures
        r@ == lerp_third_spec(a@, b@),
{
    let out = [
        ((2 * a[0] as u16 + b[0] as u16) / 3) as u8,
        ((2 * a[1] as u16 + b[1] as u16) / 3) as u8,
        ((2 * a[2] as u16 + b[2] as u16) / 3) as u8,
        255,
    ];
    assert(out@ =~= lerp_third_spec(a@, b@));
    out
}

/// Texel `t` of a BC1 colour block.
fn decode_colour_block(block: &[u8], punchthrough_alpha: bool, t: usize) -> (r: [u8; 4])
    requires
        block@.len() == 8,
        t < 16,
    ensures
        r@ == colour_texel_spec(block@, punchthrough_alpha, t as int),
{
    let c0 = crate::bytes::u16_le(&block[0..2]);
    let c1 = crate::bytes::u16_le(&block[2..4]);
    let bits = u32_le(&block[4..8]);
    proof {
        assert(block@.subrange(0, 2) == block@.subrange(0, 2));
    }
    let e0 = rgb565(c0);
    let e1 = rgb565(c1);
    let three_colour = punchthrough_alpha && c0 <= c1;
    let index = (bits >> ((2 * t) as u32)) & 3;
    if index == 0 {
        e0
    } else if index == 1 {
        e1
    } else if index == 2 {
        if three_colour { midpoint(e0, e1) } else { lerp_third(e0, e1) }
    } else {
        if three_colour {
            let z = [0u8, 0u8, 0u8, 0u8];
            assert(z@ =~= seq![0u8, 0u8, 0u8, 0u8]);
            z
        } else {
            lerp_third(e1, e0)
        }
    }
}

/// Texel `t`'s alpha in a BC2 block.
fn decode_bc2_alpha(block: &[u8], t: usize) -> (a: u8)
    requires
        block@.len() == 8,
        t < 16,
    ensures
        a == bc2_alpha_spec(block@, t as int),
{
    let shifted = block[t / 2] >> (((t % 2) * 4) as u8);
    let nibble = shifted & 0x0F;
    assert(nibble <= 15) by (bit_vector)
        requires
            nibble == shifted & 0x0F,
    ;
    // 0..15 scaled to 0..255.
    nibble * 17
}

/// Entry `k` of a BC3 alpha palette.
fn bc3_palette(a0: u8, a1: u8, k: u64) -> (r: u8)
    requires
        k < 8,
    ensures
        r == bc3_palette_spec(a0, a1, k as int),
{
    if k == 0 {
        a0
    } else if k == 1 {
        a1
    } else if a0 > a1 {
        let (x, y) = ((8 - k) as u32, (k - 1) as u32);
        assert(x * (a0 as u32) <= 8 * 255 && y * (a1 as u32) <= 8 * 255) by (nonlinear_arith)
            requires
                x <= 8,
                y <= 8,
                a0 <= 255,
                a1 <= 255,
        ;
        ((x * a0 as u32 + y * a1 as u32) / 7) as u8
    } else if k < 6 {
        let (x, y) = ((6 - k) as u32, (k - 1) as u32);
        assert(x * (a0 as u32) <= 8 * 255 && y * (a1 as u32) <= 8 * 255) by (nonlinear_arith)
            requires
                x <= 8,
                y <= 8,
                a0 <= 255,
                a1 <= 255,
        ;
        ((x * a0 as u32 + y * a1 as u32) / 5) as u8
    } else if k == 6 {
        0
    } else {
        255
    }
}

/// Texel `t`'s alpha in a BC3 block.
fn decode_bc3_alpha(block: &[u8], t: usize) -> (a: u8)
    requires
        block@.len() == 8,
        t < 16,
    ensures
        a == bc3_alpha_spec(block@, t as int),
{
    let bits = (block[2] as u64) | ((block[3] as u64) << 8) | ((block[4] as u64) << 16) | ((block[5] as u64)
        << 24) | ((block[6] as u64) << 32) | ((block[7] as u64) << 40);
    let k = (bits >> ((3 * t) as u64)) & 7;
    assert(k < 8) by (bit_vector)
        requires
            k == (bits >> ((3 * t) as u64)) & 7,
    ;
    bc3_palette(block[0], block[1], k)
}

/// Pixel `(x, y)` of the decoded mip.
fn pixel(info: &TextureInfo, data: &[u8], x: usize, y: usize) -> (px: [u8; 4])
    requires
        x < info.width,
        y < info.height,
    ensures
        px@ == pixel_spec(*info, data@, x as int, y as int),
{
    let zero = [0u8, 0u8, 0u8, 0u8];
    assert(zero@ =~= seq![0u8, 0u8, 0u8, 0u8]);
    match info.format.block_bytes() {
        None => {
            // B8G8R8A8: swizzle to RGBA.
            assert((y as u128) * (info.width as u128) <= 0xffff_ffff_ffff_ffff * 0xffff_ffff) by (nonlinear_arith)
                requires
                    y <= 0xffff_ffff_ffff_ffffu64,
                    info.width <= 0xffff_ffffu32,
            ;
            let px: u128 = y as u128 * info.width as u128 + x as u128;
            if 4 * px + 4 <= data.len() as u128 {
                let p = px as usize;
                let out = [data[4 * p + 2], data[4 * p + 1], data[4 * p], data[4 * p + 3]];
                assert(out@ =~= seq![data@[4 * p + 2], data@[4 * p + 1], data@[4 * p], data@[4 * p + 3]]);
                out
            } else {
                zero
            }
        },
        Some(bb) => {
            let blocks_x: u128 = (info.width as u128 + 3) / 4;
            let row: u128 = (y / 4) as u128;
            assert(row * blocks_x <= 0xffff_ffff_ffff_ffff * 0xffff_ffff) by (nonlinear_arith)
                requires
                    row <= 0xffff_ffff_ffff_ffffu64,
                    blocks_x <= 0xffff_ffffu64,
            ;
            let cell: u128 = row * blocks_x + (x / 4) as u128;
            assert(cell * (bb as u128) <= (0xffff_ffff_ffff_ffff * 0xffff_ffff + 0xffff_ffff_ffff_ffff) * 16) by (nonlinear_arith)
                requires
                    cell <= 0xffff_ffff_ffff_ffff * 0xffff_ffff + 0xffff_ffff_ffff_ffff,
                    bb <= 16,
            ;
            let idx: u128 = cell * bb as u128;
            if idx + bb as u128 > data.len() as u128 {
                return zero;
            }
            let start = idx as usize;
            let block = &data[start..start + bb];
            let t = (y % 4) * 4 + x % 4;
            match info.format {
                PixelFormat::Dxt1 => decode_colour_block(&block[0..8], true, t),
                PixelFormat::Dxt3 => {
                    let mut c = decode_colour_block(&block[8..16], false, t);
                    c[3] = decode_bc2_alpha(&block[0..8], t);
                    c
                },
                PixelFormat::Dxt5 => {
                    let mut c = decode_colour_block(&block[8..16], false, t);
                    c[3] = decode_bc3_alpha(&block[0..8], t);
                    c
                },
                PixelFormat::B8G8R8A8 => zero,
            }
        },
    }
}

/// Decode a mip to straight RGBA8, row by row: `width * height` pixels of
/// four bytes each.
pub fn decode_rgba(info: &TextureInfo, data: &[u8]) -> (r: Result<Vec<u8>, TextureError>)
    requires
        info.width * info.height * 4 <= usize::MAX,
    ensures
        r matches Ok(out) && out@.len() == info.width * info.height * 4 && forall|p: int|
            0 <= p < info.width * info.height ==> #[trigger] out@.subrange(4 * p, 4 * p + 4)
                == pixel_spec(*info, data@, p % (info.width as int), p / (info.width as int)),
{
    let w = info.width as usize;
    let h = info.height as usize;
    let n = w * h;
    let mut out: Vec<u8> = Vec::with_capacity(n * 4);
    let mut p: usize = 0;
    while p < n
        invariant
            w == info.width,
            h == info.height,
            n == w * h,
            n * 4 <= usize::MAX,
            p <= n,
            out@.len() == 4 * p,
            forall|q: int|
                0 <= q < p ==> #[trigger] out@.subrange(4 * q, 4 * q + 4) == pixel_spec(
                    *info,
                    data@,
                    q % (w as int),
                    q / (w as int),
                ),
        decreases n - p,
    {
        assert(w > 0) by (nonlinear_arith)
            requires
                p < n,
                n == w * h,
        ;
        let x = p % w;
        let y = p / w;
        proof {
            assert(y < h) by (nonlinear_arith)
                requires
                    p < n,
                    n == w * h,
                    y == p / w,
                    w > 0,
            ;
        }
        let px = pixel(info, data, x, y);
        let ghost before = out@;
        out.push(px[0]);
        out.push(px[1]);
        out.push(px[2]);
        out.push(px[3]);
        proof {
            assert(out@.subrange(4 * p, 4 * p + 4) =~= px@);
            assert forall|q: int| 0 <= q < p + 1 implies #[trigger] out@.subrange(4 * q, 4 * q + 4)
                == pixel_spec(*info, data@, q % (w as int), q / (w as int)) by {
                if q < p {
                    assert(out@.subrange(4 * q, 4 * q + 4) =~= before.subrange(4 * q, 4 * q + 4));
                }
            }
        }
        p += 1;
    }
    Ok(out)
}

/// What the `png` encoder makes of `width × height` RGBA8 pixels: the PNG
/// file's bytes, or the encoder's error message.
pub uninterp spec fn png_rgba8(width: u32, height: u32, rgba: Seq<u8>) -> Result<Seq<u8>, Seq<char>>;

/// Runs `png::Encoder` (colour type RGBA, bit depth eight) over `rgba`:
/// `Encoder::new`, `set_color`, `set_depth`, `write_header`, then
/// `Writer::write_image_data`. The contract claims only that the result is
/// the named encoding of the arguments, the error rendered as its message.
/// `write_image_data` multiplies the row length by the height unchecked, so
/// dimensions whose byte count overflows `usize` are left out.
#[verifier::external_body]
fn png_encode(width: u32, height: u32, rgba: &[u8]) -> (r: Result<Vec<u8>, String>)
    requires
        width * height * 4 <= usize::MAX,
    ensures
        match png_rgba8(width, height, rgba@) {
            Ok(b) => r matches Ok(v) && v@ == b,
            Err(m) => r matches Err(e) && e@ == m,
        },
{
    let mut out = Vec::new();
    {
        let mut encoder = png::Encoder::new(&mut out, width, height);
        encoder.set_color(png::ColorType::Rgba);
        encoder.set_depth(png::BitDepth::Eight);
        let mut writer = encoder.write_header().map_err(|e| e.to_string())?;
        writer.write_image_data(rgba).map_err(|e| e.to_string())?;
    }
    Ok(out)
}

/// Encode decoded RGBA8 pixels as a PNG, which keeps the cut-out icons'
/// alpha intact when a webview renders them.
pub fn encode_png(width: u32, height: u32, rgba: &[u8]) -> (r: Result<Vec<u8>, TextureError>)
    requires
        width * height * 4 <= usize::MAX,
    ensures
        match png_rgba8(width, height, rgba@) {
            Ok(b) => r matches Ok(v) && v@ == b,
            Err(m) => r matches Err(e) && e@ == TextureErrorV::Encode(m),
        },
{
    match png_encode(width, height, rgba) {
        Ok(bytes) => Ok(bytes),
        Err(message) => Err(TextureError::Encode(message)),
    }
}

/// Mip 0's bytes as [`mip0_bytes`] selects them, or the error it gives.
pub open spec fn mip0_range(info: TextureInfo, uexp: Seq<u8>, ubulk: Option<Seq<u8>>) -> Result<Seq<u8>, TextureErrorV> {
    let src = mip_source(info, uexp, ubulk);
    let end = if info.mip0.offset + info.mip0.len > usize::MAX {
        usize::MAX as int
    } else {
        info.mip0.offset + info.mip0.len
    };
    if end > src.len() {
        Err(
            TextureErrorV::MipOutOfRange {
                source_name: if info.mip0.in_bulk { "ubulk"@ } else { "uexp"@ },
                offset: info.mip0.offset,
                needed: info.mip0.len,
            },
        )
    } else {
        Ok(src.subrange(info.mip0.offset as int, end))
    }
}

/// The RGBA8 image a texture's mip-0 bytes decode to: each pixel, row by
/// row, as [`pixel_spec`] gives it.
pub open spec fn rgba_of(info: TextureInfo, data: Seq<u8>) -> Seq<u8> {
    Seq::new(
        (info.width * info.height * 4) as nat,
        |i: int| pixel_spec(info, data, (i / 4) % (info.width as int), (i / 4) / (info.width as int))[i % 4],
    )
}

/// A texture that parses is at most 16384 pixels on a side, so its RGBA8
/// image fits in memory's address range.
proof fn lemma_parsed_dimensions(d: Seq<u8>)
    ensures
        texture_at(d) matches Ok(info) ==> 1 <= info.width <= 16384 && 1 <= info.height <= 16384
            && info.width * info.height * 4 <= usize::MAX,
{
    if let Ok(info) = texture_at(d) {
        let w = info.width;
        let h = info.height;
        assert(w * h * 4 <= 16384 * 16384 * 4) by (nonlinear_arith)
            requires
                1 <= w <= 16384,
                1 <= h <= 16384,
        ;
    }
}

/// Decode a cooked icon texture into a PNG: the `.uexp` locates mip 0,
/// whose bytes are in the `.uexp` itself or in the sibling `.ubulk` (absent
/// when every mip is inline), and the decoded pixels are encoded as RGBA8.
pub fn icon_png(uexp: &[u8], ubulk: Option<&[u8]>) -> (r: Result<Vec<u8>, TextureError>)
    ensures
        match texture_at(uexp@) {
            Err(e) => r matches Err(x) && x@ == e,
            Ok(info) => match mip0_range(info, uexp@, match ubulk { Some(b) => Some(b@), None => None }) {
                Err(e) => r matches Err(x) && x@ == e,
                Ok(data) => match png_rgba8(info.width, info.height, rgba_of(info, data)) {
                    Ok(b) => r matches Ok(v) && v@ == b,
                    Err(m) => r matches Err(x) && x@ == TextureErrorV::Encode(m),
                },
            },
        },
{
    proof {
        lemma_parsed_dimensions(uexp@);
    }
    let info = match parse(uexp) {
        Ok(info) => info,
        Err(e) => {
            return Err(e);
        },
    };
    let data = match mip0_bytes(&info, uexp, ubulk) {
        Ok(data) => data,
        Err(e) => {
            return Err(e);
        },
    };
    let rgba = match decode_rgba(&info, data) {
        Ok(rgba) => rgba,
        Err(e) => {
            return Err(e);
        },
    };
    proof {
        let w = info.width as int;
        let want = rgba_of(info, data@);
        assert forall|i: int| 0 <= i < rgba@.len() implies rgba@[i] == want[i] by {
            let q = i / 4;
            assert(0 <= q < info.width * info.height) by (nonlinear_arith)
                requires
                    0 <= i < info.width * info.height * 4,
                    q == i / 4,
            ;
            assert(rgba@.subrange(4 * q, 4 * q + 4) == pixel_spec(info, data@, q % w, q / w));
            assert(rgba@[i] == rgba@.subrange(4 * q, 4 * q + 4)[i - 4 * q]);
        }
        assert(rgba@ =~= want);
    }
    encode_png(info.width, info.height, &rgba)
}

} // verus!
