//! Reads cooked `UDataTable` rows using a `.usmap` schema: base stats,
//! elements, work suitabilities, rarity and Paldeck numbers all live in rows
//! whose values are serialized without names or types.
//!
//! ```text
//! <unversioned properties of the export's own class>   e.g. RowStruct, ParentTables
//! i32  bHasObjectGuid        archive bools are 4 bytes
//! FGuid ObjectGuid           only when the flag above is non-zero
//! i32  NumRows
//! NumRows * { FName RowName ; <unversioned properties of the row struct> }
//! ```
//!
//! Untagged values give no other signal that a field size was wrong, so the
//! walk must end on exactly the byte the export map declares.

use vstd::prelude::*;

use crate::assoc::as_map;
use crate::data::uasset::{
    at_i32, at_skip, clamp_nat, import_name_of, imports_v, package_at, parse_package, ExportV, Package,
    PackageV, Reader, UassetError,
};
use crate::data::unversioned::{
    name_value, struct_at, Properties, UnversionedError, UnversionedErrorV, UnversionedReader, Value, ValueV,
};
use crate::data::usmap::{Usmap, UsmapV};

verus! {

/// Refuse a row count beyond this: real tables are in the hundreds, and a wild
/// value means the reader has lost its place.
pub const MAX_ROWS: i32 = 1_000_000;

/// Why a `DataTable` could not be read.
#[derive(Debug)]
pub enum DataTableError {
    /// The package header did not parse, or the export data ran short.
    Header(UassetError),
    /// Row properties did not decode.
    Row(UnversionedError),
    /// The package contains no `DataTable` export.
    NoDataTableExport,
    /// The `DataTable` export names no row struct.
    NoRowStruct,
    /// The row walk ended somewhere other than where the export ends.
    LengthMismatch { actual: usize, expected: usize },
    /// The export's data lies outside the `.uexp`.
    ExportOutOfRange { offset: usize, len: usize },
    /// A row count outside `0..=MAX_ROWS`.
    BadRowCount(i32),
}

/// [`DataTableError`] with decoding errors seen through their views.
pub enum DataTableErrorV {
    Header(UassetError),
    Row(UnversionedErrorV),
    NoDataTableExport,
    NoRowStruct,
    LengthMismatch { actual: usize, expected: usize },
    ExportOutOfRange { offset: usize, len: usize },
    BadRowCount(i32),
}

impl View for DataTableError {
    type V = DataTableErrorV;

    open spec fn view(&self) -> DataTableErrorV {
        match self {
            DataTableError::Header(e) => DataTableErrorV::Header(*e),
            DataTableError::Row(e) => DataTableErrorV::Row(e@),
            DataTableError::NoDataTableExport => DataTableErrorV::NoDataTableExport,
            DataTableError::NoRowStruct => DataTableErrorV::NoRowStruct,
            DataTableError::LengthMismatch { actual, expected } => DataTableErrorV::LengthMismatch {
                actual: *actual,
                expected: *expected,
            },
            DataTableError::ExportOutOfRange { offset, len } => DataTableErrorV::ExportOutOfRange {
                offset: *offset,
                len: *len,
            },
            DataTableError::BadRowCount(n) => DataTableErrorV::BadRowCount(*n),
        }
    }
}

/// One decoded table row.
#[derive(Debug)]
pub struct Row {
    pub name: String,
    pub properties: Properties,
}

/// [`Row`] as values: its name and its property entries in read order.
pub struct RowV {
    pub name: Seq<char>,
    pub properties: Seq<(Seq<char>, ValueV)>,
}

impl View for Row {
    type V = RowV;

    open spec fn view(&self) -> RowV {
        RowV { name: self.name@, properties: self.properties.pairs() }
    }
}

/// A decoded `UDataTable`.
#[derive(Debug)]
pub struct DataTable {
    /// The struct every row conforms to.
    pub row_struct: String,
    /// Rows in file order. A table may repeat a row name; later rows win, as
    /// in the engine's own row map.
    pub rows: Vec<Row>,
}

/// [`DataTable`] as values.
pub struct DataTableV {
    pub row_struct: Seq<char>,
    pub rows: Seq<RowV>,
}

pub open spec fn rows_v(s: Seq<Row>) -> Seq<RowV> {
    s.map_values(|r: Row| r@)
}

impl View for DataTable {
    type V = DataTableV;

    open spec fn view(&self) -> DataTableV {
        DataTableV { row_struct: self.row_struct@, rows: rows_v(self.rows@) }
    }
}

impl DataTable {
    /// The last row with this name, which is the one the engine keeps.
    pub fn row(&self, name: &str) -> (r: Option<&Row>)
        ensures
            match r {
                Some(x) => exists|i: int|
                    0 <= i < self.rows@.len() && self.rows@[i]@ == x@ && x.name@ == name@ && forall|j: int|
                        i < j < self.rows@.len() ==> #[trigger] self.rows@[j].name@ != name@,
                None => forall|i: int| 0 <= i < self.rows@.len() ==> #[trigger] self.rows@[i].name@ != name@,
            },
    {
        let mut i: usize = self.rows.len();
        while i > 0
            invariant
                i <= self.rows@.len(),
                forall|j: int| i <= j < self.rows@.len() ==> #[trigger] self.rows@[j].name@ != name@,
            decreases i,
        {
            i -= 1;
            if crate::text::str_eq(self.rows[i].name.as_str(), name) {
                return Some(&self.rows[i]);
            }
        }
        None
    }
}

/// Export `i` is the first whose class is `class`.
pub open spec fn is_first_of_class(p: PackageV, class: Seq<char>, i: int) -> bool {
    &&& 0 <= i < p.exports.len()
    &&& import_name_of(p.imports, p.exports[i].class_index) == Some(class)
    &&& forall|j: int| 0 <= j < i ==> import_name_of(p.imports, #[trigger] p.exports[j].class_index) != Some(class)
}

/// The first export whose class is `class`.
pub open spec fn first_of_class(p: PackageV, class: Seq<char>) -> Option<ExportV> {
    if exists|i: int| is_first_of_class(p, class, i) {
        Some(p.exports[choose|i: int| is_first_of_class(p, class, i)])
    } else {
        None
    }
}

/// The table export: the first `DataTable`, else the first
/// `CompositeDataTable`.
pub open spec fn table_export(p: PackageV) -> Option<ExportV> {
    match first_of_class(p, "DataTable"@) {
        Some(e) => Some(e),
        None => first_of_class(p, "CompositeDataTable"@),
    }
}

/// The import named by the `RowStruct` property, if it holds an import.
pub open spec fn row_struct_of(props: Map<Seq<char>, ValueV>, p: PackageV) -> Option<Seq<char>> {
    if props.contains_key("RowStruct"@) {
        match props["RowStruct"@] {
            ValueV::Object(i) => import_name_of(p.imports, i),
            _ => None,
        }
    } else {
        None
    }
}

/// A row-property error as a table error.
pub open spec fn row_err<T>(r: Result<T, UnversionedErrorV>) -> Result<T, DataTableErrorV> {
    match r {
        Ok(x) => Ok(x),
        Err(e) => Err(DataTableErrorV::Row(e)),
    }
}

/// A reader error as a table error.
pub open spec fn hdr_err<T>(r: Result<T, UassetError>) -> Result<T, DataTableErrorV> {
    match r {
        Ok(x) => Ok(x),
        Err(e) => Err(DataTableErrorV::Header(e)),
    }
}

/// One row at `pos`: its `FName`, then its properties as `rs`.
pub open spec fn row_at(um: UsmapV, names: Seq<Seq<char>>, d: Seq<u8>, pos: int, rs: Seq<char>) -> Result<
    (RowV, int),
    DataTableErrorV,
> {
    match hdr_err(at_i32(d, pos)) {
        Err(e) => Err(e),
        Ok((idx, p1)) => match hdr_err(at_i32(d, p1)) {
            Err(e) => Err(e),
            Ok((_, p2)) => match row_err(struct_at(um, names, d, p2, rs)) {
                Err(e) => Err(e),
                Ok((props, p3)) => Ok((RowV { name: name_value(names, idx), properties: props }, p3)),
            },
        },
    }
}

/// `n` rows from `pos`.
pub open spec fn rows_at(um: UsmapV, names: Seq<Seq<char>>, d: Seq<u8>, pos: int, rs: Seq<char>, n: nat) -> Result<
    (Seq<RowV>, int),
    DataTableErrorV,
>
    decreases n,
{
    if n == 0 {
        Ok((Seq::empty(), pos))
    } else {
        match rows_at(um, names, d, pos, rs, (n - 1) as nat) {
            Err(e) => Err(e),
            Ok((rows, p)) => match row_at(um, names, d, p, rs) {
                Err(e) => Err(e),
                Ok((row, q)) => Ok((rows.push(row), q)),
            },
        }
    }
}

proof fn lemma_rows_error_persists(
    um: UsmapV,
    names: Seq<Seq<char>>,
    d: Seq<u8>,
    pos: int,
    rs: Seq<char>,
    i: nat,
    j: nat,
)
    requires
        i <= j,
        rows_at(um, names, d, pos, rs, i) is Err,
    ensures
        rows_at(um, names, d, pos, rs, j) == rows_at(um, names, d, pos, rs, i),
    decreases j,
{
    if j > i {
        lemma_rows_error_persists(um, names, d, pos, rs, i, (j - 1) as nat);
    }
}

/// The rows of the table export whose data starts at `o` and ends at `end`
/// within `uexp`, its own properties read as `class`.
pub open spec fn rows_section_at(
    um: UsmapV,
    p: PackageV,
    uexp: Seq<u8>,
    o: int,
    end: int,
    class: Seq<char>,
) -> Result<DataTableV, DataTableErrorV> {
    let names = p.summary.names;
    match row_err(struct_at(um, names, uexp, o, class)) {
        Err(e) => Err(e),
        Ok((object, p1)) => match hdr_err(at_i32(uexp, p1)) {
            Err(e) => Err(e),
            Ok((flag, p2)) => match hdr_err(if flag != 0 { at_skip(uexp, p2, 16) } else { Ok(p2) }) {
                Err(e) => Err(e),
                Ok(p3) => match row_struct_of(as_map(object), p) {
                    None => Err(DataTableErrorV::NoRowStruct),
                    Some(rs) => match hdr_err(at_i32(uexp, p3)) {
                        Err(e) => Err(e),
                        Ok((count, p4)) => if !(0 <= count <= MAX_ROWS) {
                            Err(DataTableErrorV::BadRowCount(count))
                        } else {
                            match rows_at(um, names, uexp, p4, rs, count as nat) {
                                Err(e) => Err(e),
                                Ok((rows, p5)) => if p5 != end {
                                    Err(DataTableErrorV::LengthMismatch { actual: p5 as usize, expected: end as usize })
                                } else {
                                    Ok(DataTableV { row_struct: rs, rows })
                                },
                            }
                        },
                    },
                },
            },
        },
    }
}

/// The `DataTable` export of the package `uasset` with export data `uexp`,
/// decoded against the `.usmap` `um`.
pub open spec fn datatable_at(uasset: Seq<u8>, uexp: Seq<u8>, um: UsmapV) -> Result<DataTableV, DataTableErrorV> {
    match hdr_err(package_at(uasset)) {
        Err(e) => Err(e),
        Ok(p) => match table_export(p) {
            None => Err(DataTableErrorV::NoDataTableExport),
            Some(ex) => {
                let class = match import_name_of(p.imports, ex.class_index) {
                    Some(c) => c,
                    None => "DataTable"@,
                };
                let o = ex.serial_offset - clamp_nat(p.total_header_size);
                if !(0 <= o <= usize::MAX && o <= uexp.len()) {
                    Err(DataTableErrorV::ExportOutOfRange { offset: ex.serial_offset as usize, len: uexp.len() as usize })
                } else if o + (ex.serial_size as usize) > uexp.len() {
                    Err(DataTableErrorV::ExportOutOfRange { offset: o as usize, len: uexp.len() as usize })
                } else {
                    rows_section_at(um, p, uexp, o, o + (ex.serial_size as usize), class)
                }
            },
        },
    }
}

/// At most one export is the first of its class.
proof fn lemma_first_unique(p: PackageV, class: Seq<char>, i: int, j: int)
    requires
        is_first_of_class(p, class, i),
        is_first_of_class(p, class, j),
    ensures
        i == j,
{
    if i < j {
        assert(import_name_of(p.imports, p.exports[i].class_index) != Some(class));
    } else if j < i {
        assert(import_name_of(p.imports, p.exports[j].class_index) != Some(class));
    }
}

/// The first export of class `class`, found by [`Package::find_export`].
fn find_first<'a>(package: &'a Package, class: &str) -> (r: Option<&'a crate::data::uasset::Export>)
    ensures
        match r {
            Some(e) => first_of_class(package@, class@) == Some(e@),
            None => first_of_class(package@, class@) is None,
        },
{
    let found = package.find_export(class);
    proof {
        let p = package@;
        assert(p.imports == imports_v(package.imports@));
        match found {
            Some(e) => {
                let i = choose|i: int|
                    0 <= i < package.exports@.len() && *e == package.exports@[i] && import_name_of(
                        imports_v(package.imports@),
                        package.exports@[i].class_index,
                    ) == Some(class@) && forall|j: int|
                        0 <= j < i ==> import_name_of(imports_v(package.imports@), #[trigger] package.exports@[j].class_index)
                            != Some(class@);
                assert forall|j: int| 0 <= j < i implies import_name_of(p.imports, #[trigger] p.exports[j].class_index) != Some(class@) by {
                    assert(p.exports[j] == package.exports@[j]@);
                }
                assert(p.exports[i] == package.exports@[i]@);
                assert(is_first_of_class(p, class@, i));
                let k = choose|k: int| is_first_of_class(p, class@, k);
                lemma_first_unique(p, class@, i, k);
            },
            None => {
                if exists|i: int| is_first_of_class(p, class@, i) {
                    let i = choose|i: int| is_first_of_class(p, class@, i);
                    assert(p.exports[i] == package.exports@[i]@);
                    assert(import_name_of(imports_v(package.imports@), package.exports@[i].class_index) != Some(class@));
                }
            },
        }
    }
    found
}

/// Decode the `DataTable` export of a cooked package: `uasset` is the
/// package header and `uexp` its export data.
#[verifier::loop_isolation(false)]
pub fn read(uasset: &[u8], uexp: &[u8], usmap: &Usmap) -> (res: Result<DataTable, DataTableError>)
    ensures
        match datatable_at(uasset@, uexp@, usmap@) {
            Ok(t) => res matches Ok(x) && x@ == t,
            Err(e) => res matches Err(x) && x@ == e,
        },
{
    let package = match parse_package(uasset) {
        Ok(p) => p,
        Err(e) => return Err(DataTableError::Header(e)),
    };
    let ghost p = package@;
    let export = match find_first(&package, "DataTable") {
        Some(e) => e,
        None => match find_first(&package, "CompositeDataTable") {
            Some(e) => e,
            None => return Err(DataTableError::NoDataTableExport),
        },
    };
    let class: &str = match package.class_of(export) {
        Some(c) => c,
        None => "DataTable",
    };
    let offset = match package.uexp_offset(export) {
        Some(o) => if o <= uexp.len() {
            o
        } else {
            return Err(
                DataTableError::ExportOutOfRange {
                    offset: #[verifier::truncate] (export.serial_offset as usize),
                    len: uexp.len(),
                },
            );
        },
        None => {
            return Err(
                DataTableError::ExportOutOfRange {
                    offset: #[verifier::truncate] (export.serial_offset as usize),
                    len: uexp.len(),
                },
            );
        },
    };
    let size: usize = #[verifier::truncate] (export.serial_size as usize);
    let end = match offset.checked_add(size) {
        Some(e) => if e <= uexp.len() {
            e
        } else {
            return Err(DataTableError::ExportOutOfRange { offset, len: uexp.len() });
        },
        None => return Err(DataTableError::ExportOutOfRange { offset, len: uexp.len() }),
    };
    assert(datatable_at(uasset@, uexp@, usmap@) == rows_section_at(usmap@, p, uexp@, offset as int, end as int, class@));

    let reader = UnversionedReader::new(usmap, package.summary.names.as_slice());
    let ghost um = usmap@;
    let ghost names = p.summary.names;
    let mut r = Reader::at(uexp, offset);
    let object = match reader.read_struct(&mut r, class) {
        Ok(o) => o,
        Err(e) => return Err(DataTableError::Row(e)),
    };
    let flag = match r.i32() {
        Ok(x) => x,
        Err(e) => return Err(DataTableError::Header(e)),
    };
    if flag != 0 {
        match r.skip(16) {
            Ok(()) => {},
            Err(e) => return Err(DataTableError::Header(e)),
        }
    }
    let row_struct: String = match object.get("RowStruct") {
        Some(v) => match v.as_object() {
            Some(index) => match package.import_name(index) {
                Some(n) => n.to_owned(),
                None => return Err(DataTableError::NoRowStruct),
            },
            None => return Err(DataTableError::NoRowStruct),
        },
        None => return Err(DataTableError::NoRowStruct),
    };
    let ghost rs = row_struct@;
    let row_count = match r.i32() {
        Ok(x) => x,
        Err(e) => return Err(DataTableError::Header(e)),
    };
    if row_count < 0 || row_count > MAX_ROWS {
        return Err(DataTableError::BadRowCount(row_count));
    }
    let ghost p4 = r@.pos as int;
    let mut rows: Vec<Row> = Vec::new();
    proof {
        assert(rows_v(rows@) =~= Seq::<RowV>::empty());
    }
    let mut i: i32 = 0;
    while i < row_count
        invariant
            0 <= i <= row_count,
            r@.data == uexp@,
            rows_at(um, names, uexp@, p4, rs, i as nat) == Ok::<(Seq<RowV>, int), DataTableErrorV>(
                (rows_v(rows@), r@.pos as int),
            ),
        decreases row_count - i,
    {
        let name_index = match r.i32() {
            Ok(x) => x,
            Err(e) => {
                proof {
                    lemma_rows_error_persists(um, names, uexp@, p4, rs, (i + 1) as nat, row_count as nat);
                }
                return Err(DataTableError::Header(e));
            },
        };
        match r.i32() {
            Ok(_) => {},
            Err(e) => {
                proof {
                    lemma_rows_error_persists(um, names, uexp@, p4, rs, (i + 1) as nat, row_count as nat);
                }
                return Err(DataTableError::Header(e));
            },
        }
        let name = if name_index >= 0 && (name_index as usize) < package.summary.names.len() {
            package.summary.names[name_index as usize].clone()
        } else {
            String::new()
        };
        let properties = match reader.read_struct(&mut r, row_struct.as_str()) {
            Ok(x) => x,
            Err(e) => {
                proof {
                    lemma_rows_error_persists(um, names, uexp@, p4, rs, (i + 1) as nat, row_count as nat);
                }
                return Err(DataTableError::Row(e));
            },
        };
        let row = Row { name, properties };
        proof {
            assert(rows_v(rows@.push(row)) =~= rows_v(rows@).push(row@));
        }
        rows.push(row);
        i += 1;
    }
    if r.pos() != end {
        return Err(DataTableError::LengthMismatch { actual: r.pos(), expected: end });
    }
    Ok(DataTable { row_struct, rows })
}

} // verus!
