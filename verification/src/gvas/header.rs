//! The fixed-shape header every `GVAS` file starts with.

use vstd::prelude::*;

use crate::gvas::cursor::{bytes_at, fstring_at, i32_at, u16_at, u32_at, Cursor};
use crate::gvas::{GvasError, GvasErrorV};

verus! {

/// Guard against a corrupt file claiming an absurd custom-version count before
/// allocating for it. Real saves carry 85.
pub const MAX_CUSTOM_VERSIONS: u32 = 10_000;

#[derive(Debug, Clone)]
pub struct EngineVersion {
    pub major: u16,
    pub minor: u16,
    pub patch: u16,
    pub changelist: u32,
    pub branch: String,
}

#[derive(Debug, Clone, Copy)]
pub struct CustomVersion {
    pub key: [u8; 16],
    pub version: i32,
}

/// The preamble of a `GVAS` file: magic, a save-game version, the UE4/UE5
/// package versions, the engine version that wrote the file, a custom-format
/// version, the per-system custom versions, and the save-game class name.
#[derive(Debug, Clone)]
pub struct Header {
    pub save_game_version: u32,
    pub package_file_version_ue4: u32,
    pub package_file_version_ue5: u32,
    pub engine_version: EngineVersion,
    pub custom_format_version: u32,
    pub custom_versions: Vec<CustomVersion>,
    pub save_game_class_name: String,
}

pub struct EngineVersionView {
    pub major: u16,
    pub minor: u16,
    pub patch: u16,
    pub changelist: u32,
    pub branch: Seq<char>,
}

pub struct CustomVersionView {
    pub key: Seq<u8>,
    pub version: i32,
}

pub struct HeaderView {
    pub save_game_version: u32,
    pub package_file_version_ue4: u32,
    pub package_file_version_ue5: u32,
    pub engine_version: EngineVersionView,
    pub custom_format_version: u32,
    pub custom_versions: Seq<CustomVersionView>,
    pub save_game_class_name: Seq<char>,
}

impl View for EngineVersion {
    type V = EngineVersionView;

    open spec fn view(&self) -> EngineVersionView {
        EngineVersionView {
            major: self.major,
            minor: self.minor,
            patch: self.patch,
            changelist: self.changelist,
            branch: self.branch@,
        }
    }
}

impl View for CustomVersion {
    type V = CustomVersionView;

    open spec fn view(&self) -> CustomVersionView {
        CustomVersionView { key: self.key@, version: self.version }
    }
}

impl View for Header {
    type V = HeaderView;

    open spec fn view(&self) -> HeaderView {
        HeaderView {
            save_game_version: self.save_game_version,
            package_file_version_ue4: self.package_file_version_ue4,
            package_file_version_ue5: self.package_file_version_ue5,
            engine_version: self.engine_version@,
            custom_format_version: self.custom_format_version,
            custom_versions: self.custom_versions@.map_values(|c: CustomVersion| c@),
            save_game_class_name: self.save_game_class_name@,
        }
    }
}

/// The four magic bytes, `GVAS`.
pub open spec fn gvas_magic() -> Seq<u8> {
    seq![71u8, 86u8, 65u8, 83u8]
}

/// `count` custom versions (a 16-byte key and an `i32` each) starting at `pos`.
pub open spec fn custom_versions_at(data: Seq<u8>, pos: int, count: nat) -> Result<
    (Seq<CustomVersionView>, int),
    GvasErrorV,
>
    decreases count,
{
    if count == 0 {
        Ok((Seq::empty(), pos))
    } else {
        match custom_versions_at(data, pos, (count - 1) as nat) {
            Err(e) => Err(e),
            Ok((vs, p)) => match bytes_at(data, p, 16) {
                Err(e) => Err(e),
                Ok((key, p1)) => match i32_at(data, p1) {
                    Err(e) => Err(e),
                    Ok((version, p2)) => Ok((vs.push(CustomVersionView { key, version }), p2)),
                },
            },
        }
    }
}

/// Once the list fails to read, reading more entries fails the same way.
pub proof fn lemma_custom_versions_error_persists(data: Seq<u8>, pos: int, i: nat, j: nat)
    requires
        i <= j,
        custom_versions_at(data, pos, i) is Err,
    ensures
        custom_versions_at(data, pos, j) == custom_versions_at(data, pos, i),
    decreases j,
{
    if j > i {
        lemma_custom_versions_error_persists(data, pos, i, (j - 1) as nat);
    }
}

/// Everything after the engine version's branch string.
pub open spec fn header_tail_at(data: Seq<u8>, pos: int) -> Result<
    (u32, Seq<CustomVersionView>, Seq<char>, int),
    GvasErrorV,
> {
    match u32_at(data, pos) {
        Err(e) => Err(e),
        Ok((custom_format_version, p1)) => match u32_at(data, p1) {
            Err(e) => Err(e),
            Ok((count, p2)) => if count > MAX_CUSTOM_VERSIONS {
                Err(
                    GvasErrorV::ImplausibleCount {
                        declared: count,
                        limit: MAX_CUSTOM_VERSIONS,
                        what: "custom format versions"@,
                    },
                )
            } else {
                match custom_versions_at(data, p2, count as nat) {
                    Err(e) => Err(e),
                    Ok((vs, p3)) => match fstring_at(data, p3) {
                        Err(e) => Err(e),
                        Ok((class_name, p4)) => Ok((custom_format_version, vs, class_name, p4)),
                    },
                }
            },
        },
    }
}

/// The header at `pos`, with the position after it.
pub open spec fn header_at(data: Seq<u8>, pos: int) -> Result<(HeaderView, int), GvasErrorV> {
    match bytes_at(data, pos, 4) {
        Err(e) => Err(e),
        Ok((magic, p0)) => if magic != gvas_magic() {
            Err(GvasErrorV::NotGvas)
        } else {
            match u32_at(data, p0) {
                Err(e) => Err(e),
                Ok((sgv, p1)) => match u32_at(data, p1) {
                    Err(e) => Err(e),
                    Ok((ue4, p2)) => match u32_at(data, p2) {
                        Err(e) => Err(e),
                        Ok((ue5, p3)) => match u16_at(data, p3) {
                            Err(e) => Err(e),
                            Ok((major, p4)) => match u16_at(data, p4) {
                                Err(e) => Err(e),
                                Ok((minor, p5)) => match u16_at(data, p5) {
                                    Err(e) => Err(e),
                                    Ok((patch, p6)) => match u32_at(data, p6) {
                                        Err(e) => Err(e),
                                        Ok((changelist, p7)) => match fstring_at(data, p7) {
                                            Err(e) => Err(e),
                                            Ok((branch, p8)) => match header_tail_at(data, p8) {
                                                Err(e) => Err(e),
                                                Ok((cfv, vs, class_name, p9)) => Ok(
                                                    (
                                                        HeaderView {
                                                            save_game_version: sgv,
                                                            package_file_version_ue4: ue4,
                                                            package_file_version_ue5: ue5,
                                                            engine_version: EngineVersionView {
                                                                major,
                                                                minor,
                                                                patch,
                                                                changelist,
                                                                branch,
                                                            },
                                                            custom_format_version: cfv,
                                                            custom_versions: vs,
                                                            save_game_class_name: class_name,
                                                        },
                                                        p9,
                                                    ),
                                                ),
                                            },
                                        },
                                    },
                                },
                            },
                        },
                    },
                },
            }
        },
    }
}

impl Header {
    /// Read the header at the cursor, leaving it just past the header.
    #[verifier::loop_isolation(false)]
    pub fn parse(cursor: &mut Cursor) -> (r: Result<Header, GvasError>)
        ensures
            final(cursor)@.data == old(cursor)@.data,
            match header_at(old(cursor)@.data, old(cursor)@.pos as int) {
                Ok((h, p)) => r matches Ok(v) && v@ == h && final(cursor)@.pos == p,
                Err(e) => r matches Err(x) && x@ == e,
            },
    {
        let ghost d = cursor@.data;
        let magic = cursor.bytes(4)?;
        if !(magic[0] == 71u8 && magic[1] == 86u8 && magic[2] == 65u8 && magic[3] == 83u8) {
            proof {
                assert(magic@ != gvas_magic());
            }
            return Err(GvasError::NotGvas);
        }
        proof {
            assert(magic@ =~= gvas_magic());
        }
        let save_game_version = cursor.u32()?;
        let package_file_version_ue4 = cursor.u32()?;
        let package_file_version_ue5 = cursor.u32()?;
        let major = cursor.u16()?;
        let minor = cursor.u16()?;
        let patch = cursor.u16()?;
        let changelist = cursor.u32()?;
        let branch = cursor.fstring()?;
        let engine_version = EngineVersion { major, minor, patch, changelist, branch };

        let ghost tail_start = cursor@.pos as int;
        let custom_format_version = cursor.u32()?;
        let count = cursor.u32()?;
        if count > MAX_CUSTOM_VERSIONS {
            return Err(
                GvasError::ImplausibleCount {
                    declared: count,
                    limit: MAX_CUSTOM_VERSIONS,
                    what: "custom format versions",
                },
            );
        }
        let ghost list_start = cursor@.pos as int;
        let mut custom_versions: Vec<CustomVersion> = Vec::new();
        let mut i: u32 = 0;
        while i < count
            invariant
                i <= count,
                cursor@.data == d,
                custom_versions_at(d, list_start, i as nat) matches Ok((vs, p)) && vs
                    == custom_versions@.map_values(|c: CustomVersion| c@) && cursor@.pos == p,
            decreases count - i,
        {
            let ghost before = cursor@;
            let key = match cursor.guid() {
                Ok(k) => k,
                Err(e) => {
                    proof {
                        lemma_custom_versions_error_persists(
                            d,
                            list_start,
                            (i + 1) as nat,
                            count as nat,
                        );
                    }
                    return Err(e);
                },
            };
            let version = match cursor.i32() {
                Ok(v) => v,
                Err(e) => {
                    proof {
                        lemma_custom_versions_error_persists(
                            d,
                            list_start,
                            (i + 1) as nat,
                            count as nat,
                        );
                    }
                    return Err(e);
                },
            };
            let cv = CustomVersion { key, version };
            custom_versions.push(cv);
            proof {
                let ghost old_vs = custom_versions@.drop_last();
                assert(custom_versions@.map_values(|c: CustomVersion| c@) =~= old_vs.map_values(
                    |c: CustomVersion| c@,
                ).push(cv@));
            }
            i += 1;
        }
        let save_game_class_name = cursor.fstring()?;
        Ok(
            Header {
                save_game_version,
                package_file_version_ue4,
                package_file_version_ue5,
                engine_version,
                custom_format_version,
                custom_versions,
                save_game_class_name,
            },
        )
    }
}

} // verus!
