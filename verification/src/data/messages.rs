//! The readers' errors as the sentences a user reads, and the number
//! renderings they are built from.

use vstd::prelude::*;
use vstd::string::StringExecFns;

use crate::data::datatable::{DataTableError, DataTableErrorV};
use crate::data::reference::{decimal, decimal_digits};
use crate::data::uasset::UassetError;
use crate::data::unversioned::{UnversionedError, UnversionedErrorV};
use crate::data::usmap::UsmapError;
use crate::encoding::{hex_char, hex_digit};
use crate::text::string_of;

verus! {

/// What `format!("{:?}", s)` makes of a string: it in double quotes, each
/// character escaped as `char::escape_debug` does.
pub uninterp spec fn debug_str(s: Seq<char>) -> Seq<char>;

/// Formats `s` with `{:?}`. The contract claims only that the result is the
/// named quoting of `s`.
#[verifier::external_body]
pub(crate) fn debug_quoted(s: &str) -> (r: String)
    ensures
        r@ == debug_str(s@),
{
    format!("{s:?}")
}

/// `n` in decimal.
pub fn decimal_string(n: u64) -> (s: String)
    ensures
        s@ == decimal(n as nat),
{
    let d = decimal_digits(n);
    let s = string_of(d.as_slice(), 0, d.len());
    proof {
        assert(d@.subrange(0, d@.len() as int) =~= d@);
    }
    s
}

/// `n` in decimal, with a `-` when negative.
pub open spec fn signed(n: int) -> Seq<char> {
    if n < 0 {
        "-"@ + decimal((-n) as nat)
    } else {
        decimal(n as nat)
    }
}

/// `n` in decimal, with a `-` when negative.
pub fn signed_string(n: i64) -> (s: String)
    ensures
        s@ == signed(n as int),
{
    if n < 0 {
        let m: u64 = (-(n + 1)) as u64 + 1;
        let mut s = String::from_str("-");
        let d = decimal_string(m);
        s.append(d.as_str());
        s
    } else {
        decimal_string(n as u64)
    }
}

/// The last `k` hex digits of `n`, lowercase, zero-padded.
pub open spec fn hex_fixed(n: nat, k: nat) -> Seq<char>
    decreases k,
{
    if k == 0 {
        Seq::empty()
    } else {
        hex_fixed(n / 16, (k - 1) as nat).push(hex_digit((n % 16) as int))
    }
}

/// The last `k` hex digits of `n`, lowercase, zero-padded.
pub fn hex_fixed_string(n: u64, k: usize) -> (s: String)
    ensures
        s@ == hex_fixed(n as nat, k as nat),
    decreases k,
{
    if k == 0 {
        String::new()
    } else {
        let mut s = hex_fixed_string(n / 16, k - 1);
        crate::text::push_char(&mut s, hex_char((n % 16) as u8));
        s
    }
}

/// A package header error as a sentence.
pub open spec fn uasset_message(e: UassetError) -> Seq<char> {
    match e {
        UassetError::BadTag { found } => "not a cooked uasset package: expected tag 0x9e2a83c1, found 0x"@
            + hex_fixed(found as nat, 8),
        UassetError::Truncated { offset } => "unexpected end of package data at offset "@ + decimal(offset as nat),
        UassetError::BadStringLength { len, offset } => "implausible string length "@ + signed(len as int)
            + " at offset "@ + decimal(offset as nat),
        UassetError::BadNameTable { offset, len } => "name table offset "@ + decimal(offset as nat)
            + " out of range (package is "@ + decimal(len as nat) + " bytes)"@,
        UassetError::BadNameIndex { index, count } => "name index "@ + signed(index as int)
            + " out of range (the package has "@ + decimal(count as nat) + " names)"@,
        UassetError::ExportMapStride { span, count, expected } => "export map is "@ + decimal(span as nat)
            + " bytes for "@ + decimal(count as nat) + " exports, not the expected "@ + decimal(expected as nat)
            + " bytes each — the cooked package layout has changed"@,
    }
}

impl UassetError {
    /// The error as a sentence.
    pub fn message(&self) -> (r: String)
        ensures
            r@ == uasset_message(*self),
    {
        match *self {
            UassetError::BadTag { found } => {
                let mut s = String::from_str("not a cooked uasset package: expected tag 0x9e2a83c1, found 0x");
                s.append(hex_fixed_string(found as u64, 8).as_str());
                s
            },
            UassetError::Truncated { offset } => {
                let mut s = String::from_str("unexpected end of package data at offset ");
                s.append(decimal_string(offset as u64).as_str());
                s
            },
            UassetError::BadStringLength { len, offset } => {
                let mut s = String::from_str("implausible string length ");
                s.append(signed_string(len as i64).as_str());
                s.append(" at offset ");
                s.append(decimal_string(offset as u64).as_str());
                s
            },
            UassetError::BadNameTable { offset, len } => {
                let mut s = String::from_str("name table offset ");
                s.append(decimal_string(offset as u64).as_str());
                s.append(" out of range (package is ");
                s.append(decimal_string(len as u64).as_str());
                s.append(" bytes)");
                s
            },
            UassetError::BadNameIndex { index, count } => {
                let mut s = String::from_str("name index ");
                s.append(signed_string(index as i64).as_str());
                s.append(" out of range (the package has ");
                s.append(decimal_string(count as u64).as_str());
                s.append(" names)");
                s
            },
            UassetError::ExportMapStride { span, count, expected } => {
                let mut s = String::from_str("export map is ");
                s.append(decimal_string(span as u64).as_str());
                s.append(" bytes for ");
                s.append(decimal_string(count as u64).as_str());
                s.append(" exports, not the expected ");
                s.append(decimal_string(expected as u64).as_str());
                s.append(" bytes each — the cooked package layout has changed");
                s
            },
        }
    }
}

/// A `.usmap` error as a sentence.
pub open spec fn usmap_message(e: UsmapError) -> Seq<char> {
    match e {
        UsmapError::BadMagic { found } => "not a .usmap file: expected magic 0x30c4, found 0x"@ + hex_fixed(
            found as nat,
            4,
        ),
        UsmapError::UnsupportedVersion(v) => "unsupported .usmap version "@ + decimal(v as nat)
            + " (only version 0 is supported)"@,
        UsmapError::Compressed(m) => "unsupported .usmap compression method "@ + decimal(m as nat)
            + " (only uncompressed is supported)"@,
        UsmapError::SizeMismatch { declared, actual } => "body is "@ + decimal(actual as nat)
            + " bytes but the header declares "@ + decimal(declared as nat),
        UsmapError::BadNameIndex { index, count } => "name index "@ + signed(index as int)
            + " out of range (the file has "@ + decimal(count as nat) + " names)"@,
        UsmapError::UnknownPropertyType(t) => "unknown property type "@ + decimal(t as nat),
        UsmapError::NegativeCount(n) => "negative count "@ + signed(n as int),
        UsmapError::Read(r) => uasset_message(r),
    }
}

impl UsmapError {
    /// The error as a sentence.
    pub fn message(&self) -> (r: String)
        ensures
            r@ == usmap_message(*self),
    {
        match *self {
            UsmapError::BadMagic { found } => {
                let mut s = String::from_str("not a .usmap file: expected magic 0x30c4, found 0x");
                s.append(hex_fixed_string(found as u64, 4).as_str());
                s
            },
            UsmapError::UnsupportedVersion(v) => {
                let mut s = String::from_str("unsupported .usmap version ");
                s.append(decimal_string(v as u64).as_str());
                s.append(" (only version 0 is supported)");
                s
            },
            UsmapError::Compressed(m) => {
                let mut s = String::from_str("unsupported .usmap compression method ");
                s.append(decimal_string(m as u64).as_str());
                s.append(" (only uncompressed is supported)");
                s
            },
            UsmapError::SizeMismatch { declared, actual } => {
                let mut s = String::from_str("body is ");
                s.append(decimal_string(actual as u64).as_str());
                s.append(" bytes but the header declares ");
                s.append(decimal_string(declared as u64).as_str());
                s
            },
            UsmapError::BadNameIndex { index, count } => {
                let mut s = String::from_str("name index ");
                s.append(signed_string(index as i64).as_str());
                s.append(" out of range (the file has ");
                s.append(decimal_string(count as u64).as_str());
                s.append(" names)");
                s
            },
            UsmapError::UnknownPropertyType(t) => {
                let mut s = String::from_str("unknown property type ");
                s.append(decimal_string(t as u64).as_str());
                s
            },
            UsmapError::NegativeCount(n) => {
                let mut s = String::from_str("negative count ");
                s.append(signed_string(n as i64).as_str());
                s
            },
            UsmapError::Read(r) => r.message(),
        }
    }
}

/// A row decoding error as a sentence.
pub open spec fn unversioned_message(e: UnversionedErrorV) -> Seq<char> {
    match e {
        UnversionedErrorV::UnknownStruct(n) => "no schema in the .usmap for struct "@ + debug_str(n),
        UnversionedErrorV::MissingSchemaSlot { struct_name, index } => "payload references schema slot "@
            + decimal(index as nat) + " of "@ + struct_name + ", which the .usmap does not describe"@,
        UnversionedErrorV::UnsupportedType(t) => "property type "@ + t + " is not supported by this reader"@,
        UnversionedErrorV::UnknownNativeStruct(n) => "struct "@ + debug_str(n)
            + " has no schema and no known native layout"@,
        UnversionedErrorV::Read(r) => uasset_message(r),
    }
}

impl UnversionedError {
    /// The error as a sentence.
    pub fn message(&self) -> (r: String)
        ensures
            r@ == unversioned_message(self@),
    {
        match self {
            UnversionedError::UnknownStruct(n) => {
                let mut s = String::from_str("no schema in the .usmap for struct ");
                s.append(debug_quoted(n.as_str()).as_str());
                s
            },
            UnversionedError::MissingSchemaSlot { struct_name, index } => {
                let mut s = String::from_str("payload references schema slot ");
                s.append(decimal_string(*index as u64).as_str());
                s.append(" of ");
                s.append(struct_name.as_str());
                s.append(", which the .usmap does not describe");
                s
            },
            UnversionedError::UnsupportedType(t) => {
                let mut s = String::from_str("property type ");
                s.append(t);
                s.append(" is not supported by this reader");
                s
            },
            UnversionedError::UnknownNativeStruct(n) => {
                let mut s = String::from_str("struct ");
                s.append(debug_quoted(n.as_str()).as_str());
                s.append(" has no schema and no known native layout");
                s
            },
            UnversionedError::Read(r) => r.message(),
        }
    }
}

/// A `DataTable` error as a sentence.
pub open spec fn datatable_message(e: DataTableErrorV) -> Seq<char> {
    match e {
        DataTableErrorV::Header(h) => "parsing the package header: "@ + uasset_message(h),
        DataTableErrorV::Row(r) => "decoding row properties: "@ + unversioned_message(r),
        DataTableErrorV::NoDataTableExport => "the package contains no DataTable export"@,
        DataTableErrorV::NoRowStruct => "the DataTable export names no row struct"@,
        DataTableErrorV::LengthMismatch { actual, expected } => "row walk ended at byte "@ + decimal(actual as nat)
            + " but the export declares "@ + decimal(expected as nat)
            + " — the decoded layout does not match the data"@,
        DataTableErrorV::ExportOutOfRange { offset, len } => "export data at "@ + decimal(offset as nat)
            + " is outside the "@ + decimal(len as nat) + "-byte .uexp"@,
        DataTableErrorV::BadRowCount(n) => "implausible row count "@ + signed(n as int),
    }
}

impl DataTableError {
    /// The error as a sentence.
    pub fn message(&self) -> (r: String)
        ensures
            r@ == datatable_message(self@),
    {
        match self {
            DataTableError::Header(h) => {
                let mut s = String::from_str("parsing the package header: ");
                s.append(h.message().as_str());
                s
            },
            DataTableError::Row(e) => {
                let mut s = String::from_str("decoding row properties: ");
                s.append(e.message().as_str());
                s
            },
            DataTableError::NoDataTableExport => String::from_str("the package contains no DataTable export"),
            DataTableError::NoRowStruct => String::from_str("the DataTable export names no row struct"),
            DataTableError::LengthMismatch { actual, expected } => {
                let mut s = String::from_str("row walk ended at byte ");
                s.append(decimal_string(*actual as u64).as_str());
                s.append(" but the export declares ");
                s.append(decimal_string(*expected as u64).as_str());
                s.append(" — the decoded layout does not match the data");
                s
            },
            DataTableError::ExportOutOfRange { offset, len } => {
                let mut s = String::from_str("export data at ");
                s.append(decimal_string(*offset as u64).as_str());
                s.append(" is outside the ");
                s.append(decimal_string(*len as u64).as_str());
                s.append("-byte .uexp");
                s
            },
            DataTableError::BadRowCount(n) => {
                let mut s = String::from_str("implausible row count ");
                s.append(signed_string(*n as i64).as_str());
                s
            },
        }
    }
}

} // verus!
