//! Palworld save roots and worlds, and the Steam library manifest that
//! locates the game's pak.
//!
//! Saves live under a fixed tail, `…/AppData/Local/Pal/Saved/SaveGames/<steamid64>/<worldid>/`:
//! directly under `%LOCALAPPDATA%` on Windows, inside a Wine bottle's
//! `drive_c/users/<user>/` on macOS. This module holds what is decided about
//! those directories; walking the file system is the caller's.

use vstd::prelude::*;

use crate::data::uasset::strings_v;
use crate::order::{lemma_insert_sorted, sorted_by};
use crate::text::{
    ascii_lowercase, chars_of, eq_ignore_ascii_case, lex_le, lemma_lex_antisymmetric, lemma_lex_total, lemma_lex_transitive,
    push_char, str_eq, str_le, string_of,
};

verus! {

broadcast use vstd::seq_lib::group_to_multiset_ensures;

/// Where a discovered set of saves came from.
#[derive(Debug, Clone, PartialEq, Eq)]
pub enum SaveSource {
    /// Native Windows install, found under `%LOCALAPPDATA%`.
    WindowsSteam,
    /// CrossOver bottle on macOS.
    CrossOver { bottle: String },
    /// Whisky bottle on macOS.
    Whisky { bottle: String },
    /// Chosen by the user through the folder picker.
    Manual,
}

impl SaveSource {
    /// How the source reads in the interface.
    pub open spec fn label_spec(&self) -> Seq<char> {
        match self {
            SaveSource::WindowsSteam => "Steam (Windows)"@,
            SaveSource::CrossOver { bottle } => "CrossOver — "@ + bottle@,
            SaveSource::Whisky { bottle } => "Whisky — "@ + bottle@,
            SaveSource::Manual => "Chosen manually"@,
        }
    }

    /// How the source reads in the interface.
    pub fn label(&self) -> (r: String)
        ensures
            r@ == self.label_spec(),
    {
        match self {
            SaveSource::WindowsSteam => String::from_str("Steam (Windows)"),
            SaveSource::CrossOver { bottle } => {
                let mut s = String::from_str("CrossOver — ");
                s.append(bottle.as_str());
                s
            },
            SaveSource::Whisky { bottle } => {
                let mut s = String::from_str("Whisky — ");
                s.append(bottle.as_str());
                s
            },
            SaveSource::Manual => String::from_str("Chosen manually"),
        }
    }
}

/// A `SaveGames/<steamid64>` directory, holding one or more worlds.
#[derive(Debug, Clone, PartialEq, Eq)]
pub struct SaveRoot {
    /// Path of the per-Steam-ID directory.
    pub path: String,
    pub source: SaveSource,
    /// Name of the per-Steam-ID directory; numeric for discovered roots.
    pub steam_id: String,
}

/// Why a user-picked directory could not be resolved to a save root.
#[derive(Debug, Clone, PartialEq, Eq)]
pub enum LocateError {
    /// The path does not exist or is not a directory.
    NotADirectory(String),
    /// The directory holds nothing that looks like a Palworld save.
    NoSavesFound(String),
}

impl LocateError {
    /// The error as a sentence.
    pub fn message(&self) -> (r: String)
        ensures
            r@ == match self {
                LocateError::NotADirectory(p) => "not a directory: "@ + p@,
                LocateError::NoSavesFound(p) => "no Palworld saves found in "@ + p@,
            },
    {
        match self {
            LocateError::NotADirectory(p) => {
                let mut s = String::from_str("not a directory: ");
                s.append(p.as_str());
                s
            },
            LocateError::NoSavesFound(p) => {
                let mut s = String::from_str("no Palworld saves found in ");
                s.append(p.as_str());
                s
            },
        }
    }
}

/// Path components from a user directory (or `%LOCALAPPDATA%`'s parent) to
/// the directory holding the per-Steam-ID save folders.
pub fn save_tail() -> (r: Vec<&'static str>)
    ensures
        r@.len() == 5,
        r@[0]@ == "AppData"@ && r@[1]@ == "Local"@ && r@[2]@ == "Pal"@ && r@[3]@ == "Saved"@ && r@[4]@
            == "SaveGames"@,
{
    vec!["AppData", "Local", "Pal", "Saved", "SaveGames"]
}

/// Path components from a Steam library root to the game pak.
pub fn pak_tail() -> (r: Vec<&'static str>)
    ensures
        r@.len() == 7,
        r@[0]@ == "steamapps"@ && r@[1]@ == "common"@ && r@[2]@ == "Palworld"@ && r@[3]@ == "Pal"@
            && r@[4]@ == "Content"@ && r@[5]@ == "Paks"@ && r@[6]@ == "Pal-Windows.pak"@,
{
    vec!["steamapps", "common", "Palworld", "Pal", "Content", "Paks", "Pal-Windows.pak"]
}

/// Whether a directory name is a Steam ID: non-empty and all ASCII digits.
pub open spec fn steam_id_name(s: Seq<char>) -> bool {
    s.len() > 0 && forall|i: int| 0 <= i < s.len() ==> '0' <= #[trigger] s[i] <= '9'
}

/// Whether `name` names a per-Steam-ID directory. Only numeric names count,
/// which leaves out `UserOption.sav` and stray folders beside them.
pub fn is_steam_id(name: &str) -> (b: bool)
    ensures
        b == steam_id_name(name@),
{
    let cs = chars_of(name);
    if cs.len() == 0 {
        return false;
    }
    let mut i: usize = 0;
    while i < cs.len()
        invariant
            cs@ == name@,
            i <= cs@.len(),
            forall|k: int| 0 <= k < i ==> '0' <= #[trigger] cs@[k] <= '9',
        decreases cs@.len() - i,
    {
        if !('0' <= cs[i] && cs[i] <= '9') {
            return false;
        }
        i += 1;
    }
    true
}

/// `s` cut at every `sep`: one more piece than there are separators.
pub open spec fn split_on(s: Seq<char>, sep: char) -> Seq<Seq<char>>
    decreases s.len(),
{
    if s.len() == 0 {
        seq![Seq::empty()]
    } else {
        let r = split_on(s.drop_last(), sep);
        if s.last() == sep {
            r.push(Seq::empty())
        } else {
            r.update(r.len() - 1, r.last().push(s.last()))
        }
    }
}

proof fn lemma_split_nonempty(s: Seq<char>, sep: char)
    ensures
        split_on(s, sep).len() >= 1,
    decreases s.len(),
{
    if s.len() > 0 {
        lemma_split_nonempty(s.drop_last(), sep);
    }
}

/// `str::lines`: split at `\n`, a final empty piece dropped, and one
/// trailing `\r` removed from each line.
pub open spec fn lines_of(s: Seq<char>) -> Seq<Seq<char>> {
    let pieces = split_on(s, '\n');
    let kept = if pieces.last().len() == 0 { pieces.drop_last() } else { pieces };
    kept.map_values(|l: Seq<char>| if l.len() > 0 && l.last() == '\r' { l.drop_last() } else { l })
}

/// `s` with every `\\` pair, read left to right, made a single `\`.
pub open spec fn unescape(s: Seq<char>) -> Seq<char>
    decreases s.len(),
{
    if s.len() == 0 {
        Seq::empty()
    } else if s.len() >= 2 && s[0] == '\\' && s[1] == '\\' {
        seq!['\\'] + unescape(s.skip(2))
    } else {
        seq![s[0]] + unescape(s.skip(1))
    }
}

/// The library path a manifest line gives: the line's quoted fields are
/// `"path"` and then a value, which is unescaped.
pub open spec fn library_path_of(line: Seq<char>) -> Option<Seq<char>> {
    let fields = split_on(line, '"');
    if fields.len() >= 4 && fields[1] == "path"@ {
        Some(unescape(fields[3]))
    } else {
        None
    }
}

/// The library paths of a whole manifest, in order.
pub open spec fn library_paths(lines: Seq<Seq<char>>) -> Seq<Seq<char>>
    decreases lines.len(),
{
    if lines.len() == 0 {
        Seq::empty()
    } else {
        let rest = library_paths(lines.drop_last());
        match library_path_of(lines.last()) {
            Some(p) => rest.push(p),
            None => rest,
        }
    }
}

pub open spec fn char_vecs_v(v: Seq<Vec<char>>) -> Seq<Seq<char>> {
    v.map_values(|x: Vec<char>| x@)
}

/// Cut `s` at every `sep`.
fn split_chars(s: &[char], sep: char) -> (r: Vec<Vec<char>>)
    ensures
        char_vecs_v(r@) == split_on(s@, sep),
{
    let mut done: Vec<Vec<char>> = Vec::new();
    let mut current: Vec<char> = Vec::new();
    let mut i: usize = 0;
    proof {
        assert(s@.take(0) =~= Seq::<char>::empty());
        assert(char_vecs_v(done@).push(current@) =~= split_on(s@.take(0), sep));
    }
    while i < s.len()
        invariant
            i <= s@.len(),
            char_vecs_v(done@).push(current@) == split_on(s@.take(i as int), sep),
        decreases s@.len() - i,
    {
        let ghost before = split_on(s@.take(i as int), sep);
        proof {
            assert(s@.take(i + 1).drop_last() =~= s@.take(i as int));
            assert(s@.take(i + 1).last() == s@[i as int]);
        }
        if s[i] == sep {
            let mut finished: Vec<char> = Vec::new();
            std::mem::swap(&mut finished, &mut current);
            proof {
                assert(char_vecs_v(done@.push(finished)).push(current@) =~= before.push(Seq::empty()));
            }
            done.push(finished);
        } else {
            let ghost old_current = current@;
            current.push(s[i]);
            proof {
                assert(char_vecs_v(done@).push(current@) =~= before.update(
                    before.len() - 1,
                    before.last().push(s@[i as int]),
                ));
            }
        }
        i += 1;
    }
    proof {
        assert(s@.take(s@.len() as int) =~= s@);
        assert(char_vecs_v(done@.push(current)) =~= char_vecs_v(done@).push(current@));
    }
    done.push(current);
    done
}

/// `s` with `\\` pairs unescaped.
fn unescape_chars(s: &[char]) -> (r: String)
    ensures
        r@ == unescape(s@),
{
    let mut out = String::new();
    let mut i: usize = 0;
    proof {
        assert(s@.skip(0) =~= s@);
        assert(out@ + unescape(s@) =~= unescape(s@));
    }
    while i < s.len()
        invariant
            i <= s@.len(),
            out@ + unescape(s@.skip(i as int)) == unescape(s@),
        decreases s@.len() - i,
    {
        proof {
            let t = s@.skip(i as int);
            assert(t[0] == s@[i as int]);
            if t.len() >= 2 {
                assert(t[1] == s@[i + 1]);
                assert(t.skip(2) =~= s@.skip(i + 2));
            }
            assert(t.skip(1) =~= s@.skip(i + 1));
        }
        if i + 1 < s.len() && s[i] == '\\' && s[i + 1] == '\\' {
            push_char(&mut out, '\\');
            proof {
                assert(out@ + unescape(s@.skip(i + 2)) =~= (out@.drop_last() + (seq!['\\'] + unescape(s@.skip(i + 2)))));
            }
            i += 2;
        } else {
            push_char(&mut out, s[i]);
            proof {
                assert(out@ + unescape(s@.skip(i + 1)) =~= (out@.drop_last() + (seq![s@[i as int]] + unescape(s@.skip(i + 1)))));
            }
            i += 1;
        }
    }
    proof {
        assert(s@.skip(s@.len() as int) =~= Seq::<char>::empty());
        assert(out@ + Seq::<char>::empty() =~= out@);
    }
    out
}

/// Whether `cs` holds exactly the characters of `word`.
fn chars_equal(cs: &Vec<char>, word: &str) -> (b: bool)
    ensures
        b == (cs@ == word@),
{
    let w = chars_of(word);
    if cs.len() != w.len() {
        return false;
    }
    let mut i: usize = 0;
    while i < cs.len()
        invariant
            w@ == word@,
            cs@.len() == w@.len(),
            i <= cs@.len(),
            forall|k: int| 0 <= k < i ==> cs@[k] == w@[k],
        decreases cs@.len() - i,
    {
        if cs[i] != w[i] {
            return false;
        }
        i += 1;
    }
    proof {
        assert(cs@ =~= w@);
    }
    true
}

/// The library path on one manifest line, if it names one.
fn library_path_on(line: &[char]) -> (r: Option<String>)
    ensures
        match library_path_of(line@) {
            Some(p) => r matches Some(s) && s@ == p,
            None => r is None,
        },
{
    let fields = split_chars(line, '"');
    if fields.len() >= 4 && chars_equal(&fields[1], "path") {
        Some(unescape_chars(fields[3].as_slice()))
    } else {
        None
    }
}

/// Pull the library paths out of a `libraryfolders.vdf`.
///
/// The file is machine-written with one `"path"  "<value>"` pair per
/// library, and the only escaping in it is the doubled backslash of a
/// Windows path.
pub fn parse_library_paths(text: &str) -> (r: Vec<String>)
    ensures
        r@.map_values(|s: String| s@) == library_paths(lines_of(text@)),
{
    let all = chars_of(text);
    let pieces = split_chars(all.as_slice(), '\n');
    proof {
        lemma_split_nonempty(all@, '\n');
    }
    let count = if pieces[pieces.len() - 1].len() == 0 { pieces.len() - 1 } else { pieces.len() };
    let ghost lines = lines_of(text@);
    let mut paths: Vec<String> = Vec::new();
    let mut i: usize = 0;
    while i < count
        invariant
            count <= pieces@.len(),
            char_vecs_v(pieces@) == split_on(text@, '\n'),
            lines == lines_of(text@),
            lines.len() == count,
            i <= count,
            paths@.map_values(|s: String| s@) == library_paths(lines.take(i as int)),
        decreases count - i,
    {
        let piece = &pieces[i];
        let n = piece.len();
        let line: &[char] = if n > 0 && piece[n - 1] == '\r' { &piece.as_slice()[0..n - 1] } else { piece.as_slice() };
        proof {
            assert(line@ == lines[i as int]);
            assert(lines.take(i + 1).drop_last() =~= lines.take(i as int));
            assert(lines.take(i + 1).last() == lines[i as int]);
        }
        match library_path_on(line) {
            Some(p) => {
                proof {
                    assert(paths@.push(p).map_values(|s: String| s@) =~= paths@.map_values(|s: String| s@).push(p@));
                }
                paths.push(p);
            },
            None => {},
        }
        i += 1;
    }
    proof {
        assert(lines.take(count as int) =~= lines);
    }
    paths
}

/// A player's save identifier, from the `Players/<uid>.sav` file name.
#[derive(Debug, Clone, PartialEq, Eq, PartialOrd, Ord)]
pub struct PlayerUid(pub String);

/// How completely a world is stored on this machine.
#[derive(Debug, Clone, Copy, PartialEq, Eq, Structural)]
pub enum WorldKind {
    /// Hosted here: `Level.sav` is present, so the world can be tracked.
    LocalWorld,
    /// Joined as a guest: only `LocalData.sav` remains.
    CoopGuestStub,
    /// Neither marker file is present.
    Unknown,
}

/// Classify a world directory by which marker files it holds: `Level.sav`
/// marks a hosted world, `LocalData.sav` alone a guest stub.
pub fn classify(has_level_sav: bool, has_local_data_sav: bool) -> (k: WorldKind)
    ensures
        k == (if has_level_sav {
            WorldKind::LocalWorld
        } else if has_local_data_sav {
            WorldKind::CoopGuestStub
        } else {
            WorldKind::Unknown
        }),
{
    if has_level_sav {
        WorldKind::LocalWorld
    } else if has_local_data_sav {
        WorldKind::CoopGuestStub
    } else {
        WorldKind::Unknown
    }
}

/// One world directory inside a save root.
#[derive(Debug, Clone, PartialEq, Eq)]
pub struct World {
    /// Directory name.
    pub id: String,
    pub path: String,
    pub kind: WorldKind,
    /// Modification time of the newest save file, in milliseconds since the
    /// Unix epoch.
    pub last_played: Option<u64>,
    /// Players with a save in this world; empty for guest stubs.
    pub players: Vec<PlayerUid>,
}

impl World {
    /// Whether this world has enough data to be tracked.
    pub fn is_trackable(&self) -> (b: bool)
        ensures
            b == (self.kind == WorldKind::LocalWorld),
    {
        match self.kind {
            WorldKind::LocalWorld => true,
            _ => false,
        }
    }
}

/// A world's sort key: when it was last played and its directory name.
pub struct WorldKey {
    pub last_played: Option<u64>,
    pub id: Seq<char>,
}

pub open spec fn world_key(w: World) -> WorldKey {
    WorldKey { last_played: w.last_played, id: w.id@ }
}

/// Whether `a` is played no earlier than `b`; a world without a time
/// counts as played earliest.
pub open spec fn played_after(a: Option<u64>, b: Option<u64>) -> bool {
    match (a, b) {
        (Some(x), Some(y)) => x > y,
        (Some(_), None) => true,
        _ => false,
    }
}

/// The world order: most recently played first, then by name.
pub open spec fn world_le(a: WorldKey, b: WorldKey) -> bool {
    played_after(a.last_played, b.last_played) || (a.last_played == b.last_played && lex_le(a.id, b.id))
}

pub open spec fn worlds_sorted(ws: Seq<WorldKey>) -> bool {
    forall|i: int, j: int| 0 <= i < j < ws.len() ==> world_le(#[trigger] ws[i], #[trigger] ws[j])
}

pub open spec fn world_keys(ws: Seq<World>) -> Seq<WorldKey> {
    ws.map_values(|w: World| world_key(w))
}

fn world_before(a: &World, b: &World) -> (r: bool)
    ensures
        r == world_le(world_key(*a), world_key(*b)),
{
    let after = match (a.last_played, b.last_played) {
        (Some(x), Some(y)) => x > y,
        (Some(_), None) => true,
        _ => false,
    };
    let same = match (a.last_played, b.last_played) {
        (Some(x), Some(y)) => x == y,
        (None, None) => true,
        _ => false,
    };
    after || (same && str_le(a.id.as_str(), b.id.as_str()))
}

proof fn lemma_world_total(a: WorldKey, b: WorldKey)
    ensures
        world_le(a, b) || world_le(b, a),
{
    lemma_lex_total(a.id, b.id);
}

proof fn lemma_world_transitive(a: WorldKey, b: WorldKey, c: WorldKey)
    requires
        world_le(a, b),
        world_le(b, c),
    ensures
        world_le(a, c),
{
    if a.last_played == b.last_played && b.last_played == c.last_played {
        lemma_lex_transitive(a.id, b.id, c.id);
    }
}

proof fn lemma_insert_worlds_sorted(s: Seq<WorldKey>, p: int, c: WorldKey)
    requires
        worlds_sorted(s),
        0 <= p <= s.len(),
        forall|k: int| 0 <= k < p ==> world_le(#[trigger] s[k], c),
        forall|k: int| p <= k < s.len() ==> world_le(c, #[trigger] s[k]),
    ensures
        worlds_sorted(s.insert(p, c)),
{
    let t = s.insert(p, c);
    assert forall|i: int, j: int| 0 <= i < j < t.len() implies world_le(#[trigger] t[i], #[trigger] t[j]) by {
        if i < p && j < p {
            assert(t[i] == s[i] && t[j] == s[j]);
        } else if i < p && j == p {
            assert(t[i] == s[i]);
        } else if i < p && j > p {
            assert(t[i] == s[i] && t[j] == s[j - 1]);
        } else if i == p {
            assert(t[j] == s[j - 1]);
        } else {
            assert(t[i] == s[i - 1] && t[j] == s[j - 1]);
        }
    }
}

/// Order worlds most recently played first; worlds without a time sort last,
/// and ties go by directory name.
pub fn order_worlds(worlds: Vec<World>) -> (r: Vec<World>)
    ensures
        r@.to_multiset() == worlds@.to_multiset(),
        worlds_sorted(world_keys(r@)),
{
    let mut rest = worlds;
    let ghost all = rest@;
    let mut sorted: Vec<World> = Vec::new();
    proof {
        assert(world_keys(sorted@) =~= Seq::<WorldKey>::empty());
    }
    while rest.len() > 0
        invariant
            worlds_sorted(world_keys(sorted@)),
            rest@.to_multiset().add(sorted@.to_multiset()) == all.to_multiset(),
            all == worlds@,
        decreases rest@.len(),
    {
        let ghost rest_before = rest@;
        let w = rest.pop().unwrap();
        proof {
            assert(rest_before =~= rest@.push(w));
        }
        let ghost sk = world_keys(sorted@);
        let mut p: usize = 0;
        while p < sorted.len() && !world_before(&w, &sorted[p])
            invariant
                sk == world_keys(sorted@),
                p <= sk.len(),
                forall|k: int| 0 <= k < p ==> world_le(#[trigger] sk[k], world_key(w)),
            decreases sk.len() - p,
        {
            proof {
                lemma_world_total(world_key(w), sk[p as int]);
            }
            p += 1;
        }
        proof {
            assert forall|k: int| p <= k < sk.len() implies world_le(world_key(w), #[trigger] sk[k]) by {
                if k > p {
                    lemma_world_transitive(world_key(w), sk[p as int], sk[k]);
                }
            }
            lemma_insert_worlds_sorted(sk, p as int, world_key(w));
            assert(world_keys(sorted@.insert(p as int, w)) =~= sk.insert(p as int, world_key(w)));
        }
        sorted.insert(p, w);
    }
    proof {
        assert(rest@ =~= Seq::<World>::empty());
        assert(sorted@.to_multiset() =~= all.to_multiset());
    }
    sorted
}

/// [`SaveSource`] as values.
pub enum SaveSourceV {
    WindowsSteam,
    CrossOver(Seq<char>),
    Whisky(Seq<char>),
    Manual,
}

impl View for SaveSource {
    type V = SaveSourceV;

    open spec fn view(&self) -> SaveSourceV {
        match self {
            SaveSource::WindowsSteam => SaveSourceV::WindowsSteam,
            SaveSource::CrossOver { bottle } => SaveSourceV::CrossOver(bottle@),
            SaveSource::Whisky { bottle } => SaveSourceV::Whisky(bottle@),
            SaveSource::Manual => SaveSourceV::Manual,
        }
    }
}

/// [`SaveRoot`] as values.
pub struct SaveRootV {
    pub path: Seq<char>,
    pub source: SaveSourceV,
    pub steam_id: Seq<char>,
}

impl View for SaveRoot {
    type V = SaveRootV;

    open spec fn view(&self) -> SaveRootV {
        SaveRootV { path: self.path@, source: self.source@, steam_id: self.steam_id@ }
    }
}

pub open spec fn save_roots_v(v: Seq<SaveRoot>) -> Seq<SaveRootV> {
    v.map_values(|r: SaveRoot| r@)
}

/// Directory listings, each entry its path and its name.
pub open spec fn dirs_v(v: Seq<(String, String)>) -> Seq<(Seq<char>, Seq<char>)> {
    v.map_values(|d: (String, String)| (d.0@, d.1@))
}

fn copy_source(s: &SaveSource) -> (r: SaveSource)
    ensures
        r@ == s@,
{
    match s {
        SaveSource::WindowsSteam => SaveSource::WindowsSteam,
        SaveSource::CrossOver { bottle } => SaveSource::CrossOver { bottle: bottle.clone() },
        SaveSource::Whisky { bottle } => SaveSource::Whisky { bottle: bottle.clone() },
        SaveSource::Manual => SaveSource::Manual,
    }
}

/// The source a Wine bottle's saves come from.
pub open spec fn bottle_source_v(bottle: Seq<char>, whisky: bool) -> SaveSourceV {
    if whisky {
        SaveSourceV::Whisky(bottle)
    } else {
        SaveSourceV::CrossOver(bottle)
    }
}

/// The source of saves found in the bottle named `bottle`, Whisky's or
/// CrossOver's.
pub fn bottle_source(bottle: String, whisky: bool) -> (r: SaveSource)
    ensures
        r@ == bottle_source_v(bottle@, whisky),
{
    if whisky {
        SaveSource::Whisky { bottle }
    } else {
        SaveSource::CrossOver { bottle }
    }
}

/// The save roots among a `SaveGames` directory's subdirectories: those with
/// a Steam ID for a name, in listing order.
pub open spec fn roots_among(dirs: Seq<(Seq<char>, Seq<char>)>, source: SaveSourceV) -> Seq<SaveRootV>
    decreases dirs.len(),
{
    if dirs.len() == 0 {
        Seq::empty()
    } else {
        let rest = roots_among(dirs.drop_last(), source);
        let (path, name) = dirs.last();
        if steam_id_name(name) {
            rest.push(SaveRootV { path, source, steam_id: name })
        } else {
            rest
        }
    }
}

/// The keys of keyed items.
pub open spec fn keys_v<T>(s: Seq<(String, T)>) -> Seq<Seq<char>> {
    s.map_values(|p: (String, T)| p.0@)
}

/// Strictly ascending order of keys, as `str` compares them.
pub open spec fn key_before() -> spec_fn(Seq<char>, Seq<char>) -> bool {
    |a: Seq<char>, b: Seq<char>| lex_le(a, b) && a != b
}

/// Whether item `i` is the first of `s` with its key.
pub open spec fn first_with_key<T>(s: Seq<(String, T)>, i: int) -> bool {
    forall|j: int| 0 <= j < i ==> #[trigger] s[j].0@ != s[i].0@
}

/// The key of item `j`.
pub open spec fn key_at<T>(s: Seq<(String, T)>, j: int) -> Seq<char> {
    s[j].0@
}

/// Whether some item of `s` has `key`.
pub open spec fn has_key<T>(s: Seq<(String, T)>, key: Seq<char>) -> bool {
    exists|k: int| 0 <= k < s.len() && s[k].0@ == key
}

/// Whether `x` is among the first `i` items, as the first of its key.
pub open spec fn first_occurrence<T>(items: Seq<(String, T)>, i: int, x: (String, T)) -> bool {
    exists|j: int| 0 <= j < i && #[trigger] items[j] == x && first_with_key(items, j)
}

/// What ordering the first `i` items has made: their first occurrences of
/// each key, strictly ascending by key, with no key lost.
#[verifier::opaque]
pub open spec fn ordered_prefix<T>(all: Seq<(String, T)>, i: int, out: Seq<(String, T)>) -> bool {
    &&& sorted_by(keys_v(out), key_before())
    &&& forall|k: int| 0 <= k < out.len() ==> first_occurrence(all, i, #[trigger] out[k])
    &&& forall|j: int| 0 <= j < i ==> has_key(out, #[trigger] key_at(all, j))
}

/// An item whose key is already there changes nothing.
proof fn lemma_ordered_repeat<T>(all: Seq<(String, T)>, i: int, out: Seq<(String, T)>, p: int)
    requires
        0 <= i < all.len(),
        ordered_prefix(all, i, out),
        0 <= p < out.len(),
        out[p].0@ == all[i].0@,
    ensures
        ordered_prefix(all, i + 1, out),
{
    reveal(ordered_prefix);
    assert forall|j: int| 0 <= j < i + 1 implies has_key(out, #[trigger] key_at(all, j)) by {
        if j == i {
            assert(out[p].0@ == key_at(all, j));
        }
    }
}

/// An item whose key is new goes in where the keys before it are below it
/// and those after it above.
proof fn lemma_ordered_insert<T>(all: Seq<(String, T)>, i: int, out: Seq<(String, T)>, p: int)
    requires
        0 <= i < all.len(),
        ordered_prefix(all, i, out),
        0 <= p <= out.len(),
        forall|k: int| 0 <= k < p ==> key_before()(#[trigger] keys_v(out)[k], all[i].0@),
        p < out.len() ==> !(lex_le(out[p].0@, all[i].0@) && out[p].0@ != all[i].0@),
        p < out.len() ==> out[p].0@ != all[i].0@,
    ensures
        ordered_prefix(all, i + 1, out.insert(p, all[i])),
{
    reveal(ordered_prefix);
    let lt = key_before();
    let ks = keys_v(out);
    let key = all[i].0@;
    assert forall|k: int| p <= k < ks.len() implies lt(key, #[trigger] ks[k]) by {
        assert(ks[p] == out[p].0@);
        lemma_lex_total(ks[p], key);
        if k > p {
            assert(lt(ks[p], ks[k]));
            lemma_lex_transitive(key, ks[p], ks[k]);
            if key == ks[k] {
                lemma_lex_antisymmetric(key, ks[p]);
            }
        }
    }
    assert forall|j: int| 0 <= j < i implies #[trigger] all[j].0@ != all[i].0@ by {
        assert(has_key(out, key_at(all, j)));
        let k = choose|k: int| 0 <= k < out.len() && out[k].0@ == key_at(all, j);
        assert(ks[k] == out[k].0@);
        if k < p {
            assert(lt(ks[k], key));
        } else {
            assert(lt(key, ks[k]));
        }
    }
    assert(first_with_key(all, i));
    lemma_insert_sorted(ks, p, key, lt);
    let after = out.insert(p, all[i]);
    assert(keys_v(after) =~= ks.insert(p, key));
    assert forall|k: int| 0 <= k < after.len() implies first_occurrence(all, i + 1, #[trigger] after[k]) by {
        if k == p {
            assert(after[k] == all[i]);
            assert(0 <= i < i + 1 && all[i] == after[k] && first_with_key(all, i));
        } else {
            let k0 = if k < p { k } else { k - 1 };
            assert(after[k] == out[k0]);
            assert(first_occurrence(all, i, out[k0]));
            let j = choose|j: int| 0 <= j < i && #[trigger] all[j] == out[k0] && first_with_key(all, j);
            assert(0 <= j < i + 1 && all[j] == after[k] && first_with_key(all, j));
        }
    }
    assert forall|j: int| 0 <= j < i + 1 implies has_key(after, #[trigger] key_at(all, j)) by {
        if j == i {
            assert(after[p].0@ == key_at(all, j));
        } else {
            assert(has_key(out, key_at(all, j)));
            let k = choose|k: int| 0 <= k < out.len() && out[k].0@ == key_at(all, j);
            if k < p {
                assert(after[k] == out[k]);
            } else {
                assert(after[k + 1] == out[k]);
            }
        }
    }
}

/// `out` is `items` sorted strictly by key, keeping the first item of each
/// key: every item of `out` is the first of its key in `items`, and every
/// key of `items` is in `out`.
pub open spec fn ordered_by_key<T>(items: Seq<(String, T)>, out: Seq<(String, T)>) -> bool {
    &&& sorted_by(keys_v(out), key_before())
    &&& forall|k: int| 0 <= k < out.len() ==> first_occurrence(items, items.len() as int, #[trigger] out[k])
    &&& forall|j: int| 0 <= j < items.len() ==> has_key(out, #[trigger] key_at(items, j))
}

/// Having gone through every item, the order made is the whole answer.
proof fn lemma_ordered_all<T>(all: Seq<(String, T)>, out: Seq<(String, T)>)
    requires
        ordered_prefix(all, all.len() as int, out),
    ensures
        ordered_by_key(all, out),
{
    reveal(ordered_prefix);
}

/// Sort items by their keys and keep only the first of each key: what
/// sorting the discovered save roots and installed paks by path, then
/// dropping the repeats, makes of them. The keys are the items' paths as
/// comparable strings.
pub fn order_by_key<T>(items: Vec<(String, T)>) -> (r: Vec<(String, T)>)
    ensures
        ordered_by_key(items@, r@),
{
    let ghost all = items@;
    let n = items.len();
    let mut rest = items;
    let mut out: Vec<(String, T)> = Vec::new();
    let mut i: usize = 0;
    proof {
        reveal(ordered_prefix);
        assert(keys_v(out@) =~= Seq::<Seq<char>>::empty());
    }
    while rest.len() > 0
        invariant
            n == all.len(),
            i <= all.len(),
            rest@ == all.skip(i as int),
            ordered_prefix(all, i as int, out@),
        decreases rest@.len(),
    {
        proof {
            assert(rest@[0] == all[i as int]);
        }
        let item = rest.remove(0);
        proof {
            assert(rest@ =~= all.skip(i + 1));
        }
        let ghost ks = keys_v(out@);
        let mut p: usize = 0;
        while p < out.len() && str_le(out[p].0.as_str(), item.0.as_str()) && !str_eq(out[p].0.as_str(), item.0.as_str())
            invariant
                ks == keys_v(out@),
                p <= out@.len(),
                forall|k: int| 0 <= k < p ==> key_before()(#[trigger] ks[k], item.0@),
            decreases out@.len() - p,
        {
            proof {
                assert(ks[p as int] == out@[p as int].0@);
            }
            p += 1;
        }
        if p < out.len() && str_eq(out[p].0.as_str(), item.0.as_str()) {
            proof {
                lemma_ordered_repeat(all, i as int, out@, p as int);
            }
        } else {
            proof {
                lemma_ordered_insert(all, i as int, out@, p as int);
            }
            out.insert(p, item);
        }
        proof {
            assert(i < all.len());
        }
        i += 1;
    }
    proof {
        assert(all.skip(i as int).len() == 0);
        lemma_ordered_all(all, out@);
    }
    out
}

/// Every root found among subdirectories carries the source it was found
/// under and a Steam ID for a name, and is one of the subdirectories.
pub proof fn lemma_roots_among(dirs: Seq<(Seq<char>, Seq<char>)>, source: SaveSourceV)
    ensures
        roots_among(dirs, source).len() <= dirs.len(),
        forall|i: int|
            0 <= i < roots_among(dirs, source).len() ==> {
                let r = #[trigger] roots_among(dirs, source)[i];
                &&& r.source == source
                &&& steam_id_name(r.steam_id)
                &&& exists|j: int| 0 <= j < dirs.len() && dirs[j] == (r.path, r.steam_id)
            },
    decreases dirs.len(),
{
    if dirs.len() > 0 {
        let rest = dirs.drop_last();
        lemma_roots_among(rest, source);
        let out = roots_among(dirs, source);
        assert forall|i: int| 0 <= i < out.len() implies {
            let r = #[trigger] out[i];
            &&& r.source == source
            &&& steam_id_name(r.steam_id)
            &&& exists|j: int| 0 <= j < dirs.len() && dirs[j] == (r.path, r.steam_id)
        } by {
            if i < roots_among(rest, source).len() {
                let r = roots_among(rest, source)[i];
                assert(out[i] == r);
                let j = choose|j: int| 0 <= j < rest.len() && rest[j] == (r.path, r.steam_id);
                assert(dirs[j] == rest[j]);
            } else {
                assert(dirs[dirs.len() - 1] == dirs.last());
            }
        }
    }
}

/// The per-Steam-ID roots inside a `SaveGames` directory, given its
/// subdirectories. Only all-numeric names count, which leaves out the loose
/// `UserOption.sav` and stray folders beside them.
pub fn scan_save_games(dirs: &[(String, String)], source: &SaveSource) -> (r: Vec<SaveRoot>)
    ensures
        save_roots_v(r@) == roots_among(dirs_v(dirs@), source@),
{
    let ghost ds = dirs_v(dirs@);
    let mut roots: Vec<SaveRoot> = Vec::new();
    let mut i: usize = 0;
    proof {
        assert(save_roots_v(roots@) =~= roots_among(ds.take(0), source@));
    }
    while i < dirs.len()
        invariant
            i <= dirs@.len(),
            ds == dirs_v(dirs@),
            save_roots_v(roots@) == roots_among(ds.take(i as int), source@),
        decreases dirs@.len() - i,
    {
        proof {
            assert(ds.take(i + 1).drop_last() =~= ds.take(i as int));
            assert(ds.take(i + 1).last() == ds[i as int]);
        }
        let (path, name) = &dirs[i];
        if is_steam_id(name.as_str()) {
            let root = SaveRoot { path: path.clone(), source: copy_source(source), steam_id: name.clone() };
            proof {
                assert(save_roots_v(roots@.push(root)) =~= save_roots_v(roots@).push(root@));
            }
            roots.push(root);
        }
        i += 1;
    }
    proof {
        assert(ds.take(dirs@.len() as int) =~= ds);
    }
    roots
}

/// What the file system shows of one Wine bottle: its name, and for each
/// `drive_c/users/<name>` directory the subdirectories of its `SaveGames`.
pub struct BottleListing {
    pub name: String,
    pub users: Vec<Vec<(String, String)>>,
}

pub open spec fn listings_v(v: Seq<Vec<(String, String)>>) -> Seq<Seq<(Seq<char>, Seq<char>)>> {
    v.map_values(|l: Vec<(String, String)>| dirs_v(l@))
}

/// The roots of every user directory of one bottle, in order.
pub open spec fn bottle_roots(users: Seq<Seq<(Seq<char>, Seq<char>)>>, source: SaveSourceV) -> Seq<SaveRootV>
    decreases users.len(),
{
    if users.len() == 0 {
        Seq::empty()
    } else {
        bottle_roots(users.drop_last(), source) + roots_among(users.last(), source)
    }
}

/// The roots of every bottle, in order.
pub open spec fn bottles_roots(bottles: Seq<BottleListing>, whisky: bool) -> Seq<SaveRootV>
    decreases bottles.len(),
{
    if bottles.len() == 0 {
        Seq::empty()
    } else {
        let b = bottles.last();
        bottles_roots(bottles.drop_last(), whisky) + bottle_roots(
            listings_v(b.users@),
            bottle_source_v(b.name@, whisky),
        )
    }
}

/// The Palworld saves in a directory of Wine bottles. Every bottle is
/// searched, and within it every Windows user, since both names are the
/// user's choice.
#[verifier::loop_isolation(false)]
pub fn scan_bottles(bottles: &[BottleListing], whisky: bool) -> (r: Vec<SaveRoot>)
    ensures
        save_roots_v(r@) == bottles_roots(bottles@, whisky),
{
    let mut roots: Vec<SaveRoot> = Vec::new();
    let mut i: usize = 0;
    proof {
        assert(save_roots_v(roots@) =~= bottles_roots(bottles@.take(0), whisky));
    }
    while i < bottles.len()
        invariant
            i <= bottles@.len(),
            save_roots_v(roots@) == bottles_roots(bottles@.take(i as int), whisky),
        decreases bottles@.len() - i,
    {
        proof {
            assert(bottles@.take(i + 1).drop_last() =~= bottles@.take(i as int));
            assert(bottles@.take(i + 1).last() == bottles@[i as int]);
        }
        let b = &bottles[i];
        let source = bottle_source(b.name.clone(), whisky);
        let ghost before = save_roots_v(roots@);
        let ghost us = listings_v(b.users@);
        let mut j: usize = 0;
        proof {
            assert(us.take(0) =~= Seq::<Seq<(Seq<char>, Seq<char>)>>::empty());
            assert(save_roots_v(roots@) =~= before + bottle_roots(us.take(0), source@));
        }
        while j < b.users.len()
            invariant
                j <= b.users@.len(),
                us == listings_v(b.users@),
                save_roots_v(roots@) == before + bottle_roots(us.take(j as int), source@),
            decreases b.users@.len() - j,
        {
            proof {
                assert(us.take(j + 1).drop_last() =~= us.take(j as int));
                assert(us.take(j + 1).last() == us[j as int]);
            }
            let mut found = scan_save_games(b.users[j].as_slice(), &source);
            let ghost r0 = roots@;
            let ghost f0 = found@;
            roots.append(&mut found);
            proof {
                assert(save_roots_v(r0 + f0) =~= save_roots_v(r0) + save_roots_v(f0));
                assert(save_roots_v(roots@) =~= before + bottle_roots(us.take(j + 1), source@));
            }
            j += 1;
        }
        proof {
            assert(us.take(b.users@.len() as int) =~= us);
        }
        i += 1;
    }
    proof {
        assert(bottles@.take(bottles@.len() as int) =~= bottles@);
    }
    roots
}

/// The index of the last `.` in `s` before position `i`, or -1.
pub open spec fn last_dot_before(s: Seq<char>, i: int) -> int
    decreases i,
{
    if i <= 0 {
        -1
    } else if s[i - 1] == '.' {
        i - 1
    } else {
        last_dot_before(s, i - 1)
    }
}

/// A file name's stem and extension as `Path` splits them: at the last dot,
/// unless that dot begins the name.
pub open spec fn stem_and_extension(name: Seq<char>) -> (Seq<char>, Option<Seq<char>>) {
    let k = last_dot_before(name, name.len() as int);
    if k > 0 {
        (name.take(k), Some(name.skip(k + 1)))
    } else {
        (name, None)
    }
}

/// Whether `s` ends with `suffix`.
pub open spec fn has_suffix(s: Seq<char>, suffix: Seq<char>) -> bool {
    s.len() >= suffix.len() && s.skip(s.len() - suffix.len()) == suffix
}

/// The player whose save a file in `Players/` is: a `.sav` file, its
/// extension in any case, whose stem does not end in `_dps` (the Pal storage
/// kept beside each player's own save).
pub open spec fn player_file(name: Seq<char>) -> Option<Seq<char>> {
    let (stem, ext) = stem_and_extension(name);
    match ext {
        Some(e) => if ascii_lowercase(e) == ascii_lowercase("sav"@) && !has_suffix(stem, "_dps"@) {
            Some(stem)
        } else {
            None
        },
        None => None,
    }
}

/// The players among a `Players/` directory's entries, in listing order.
pub open spec fn players_among(files: Seq<Seq<char>>) -> Seq<Seq<char>>
    decreases files.len(),
{
    if files.len() == 0 {
        Seq::empty()
    } else {
        let rest = players_among(files.drop_last());
        match player_file(files.last()) {
            Some(u) => rest.push(u),
            None => rest,
        }
    }
}

pub open spec fn uids_v(v: Seq<PlayerUid>) -> Seq<Seq<char>> {
    v.map_values(|u: PlayerUid| u.0@)
}

/// Player uids sort as strings.
pub open spec fn uid_order() -> spec_fn(Seq<char>, Seq<char>) -> bool {
    |a: Seq<char>, b: Seq<char>| lex_le(a, b)
}

fn last_dot(cs: &[char]) -> (k: Option<usize>)
    ensures
        match k {
            Some(k) => k as int == last_dot_before(cs@, cs@.len() as int) && k < cs@.len(),
            None => last_dot_before(cs@, cs@.len() as int) == -1,
        },
{
    let mut i = cs.len();
    while i > 0
        invariant
            i <= cs@.len(),
            last_dot_before(cs@, cs@.len() as int) == last_dot_before(cs@, i as int),
        decreases i,
    {
        if cs[i - 1] == '.' {
            return Some(i - 1);
        }
        i -= 1;
    }
    None
}

fn player_of(name: &str) -> (r: Option<String>)
    ensures
        match player_file(name@) {
            Some(u) => r matches Some(s) && s@ == u,
            None => r is None,
        },
{
    proof {
        reveal_strlit("sav");
        reveal_strlit("_dps");
    }
    let cs = chars_of(name);
    let k = match last_dot(cs.as_slice()) {
        Some(k) => k,
        None => return None,
    };
    if k == 0 {
        return None;
    }
    let n = cs.len();
    let stem = string_of(cs.as_slice(), 0, k);
    let ext = string_of(cs.as_slice(), k + 1, n);
    proof {
        assert(stem@ =~= name@.take(k as int));
        assert(ext@ =~= name@.skip(k + 1));
    }
    if !eq_ignore_ascii_case(ext.as_str(), "sav") {
        return None;
    }
    if k >= 4 {
        let tail = string_of(cs.as_slice(), k - 4, k);
        proof {
            assert(tail@ =~= stem@.skip(stem@.len() - 4));
        }
        if str_eq(tail.as_str(), "_dps") {
            return None;
        }
    }
    Some(stem)
}

/// The uids in string order.
#[verifier::loop_isolation(false)]
fn sort_uids(uids: Vec<PlayerUid>) -> (r: Vec<PlayerUid>)
    ensures
        uids_v(r@).to_multiset() == uids_v(uids@).to_multiset(),
        sorted_by(uids_v(r@), uid_order()),
{
    let ghost le = uid_order();
    let ghost all = uids_v(uids@);
    let mut rest = uids;
    let mut sorted: Vec<PlayerUid> = Vec::new();
    proof {
        assert(uids_v(sorted@) =~= Seq::<Seq<char>>::empty());
        assert(uids_v(rest@).to_multiset().add(uids_v(sorted@).to_multiset()) =~= all.to_multiset());
    }
    while rest.len() > 0
        invariant
            le == uid_order(),
            sorted_by(uids_v(sorted@), le),
            uids_v(rest@).to_multiset().add(uids_v(sorted@).to_multiset()) == all.to_multiset(),
        decreases rest@.len(),
    {
        let ghost rest_before = rest@;
        let u = rest.pop().unwrap();
        proof {
            assert(rest_before =~= rest@.push(u));
            assert(uids_v(rest_before) =~= uids_v(rest@).push(u.0@));
        }
        let ghost sv = uids_v(sorted@);
        let mut p: usize = 0;
        while p < sorted.len()
            invariant
                sv == uids_v(sorted@),
                p <= sv.len(),
                forall|k: int| 0 <= k < p ==> le(#[trigger] sv[k], u.0@),
            decreases sv.len() - p,
        {
            if !str_le(sorted[p].0.as_str(), u.0.as_str()) {
                break;
            }
            p += 1;
        }
        proof {
            if p < sv.len() {
                lemma_lex_total(sv[p as int], u.0@);
            }
            assert forall|k: int| p <= k < sv.len() implies le(u.0@, #[trigger] sv[k]) by {
                if k > p {
                    assert(le(sv[p as int], sv[k]));
                    lemma_lex_transitive(u.0@, sv[p as int], sv[k]);
                }
            }
            lemma_insert_sorted(sv, p as int, u.0@, le);
            assert(uids_v(sorted@.insert(p as int, u)) =~= sv.insert(p as int, u.0@));
        }
        sorted.insert(p, u);
    }
    proof {
        assert(uids_v(rest@) =~= Seq::<Seq<char>>::empty());
        assert(uids_v(sorted@).to_multiset() =~= all.to_multiset());
    }
    sorted
}

/// The players with a save in a world, given the entries of its `Players/`
/// directory, in string order. A `<uid>_dps.sav` holds Pal storage for a
/// player who also has a `<uid>.sav`, so counting it would double every
/// player.
pub fn players_in(files: &[String]) -> (r: Vec<PlayerUid>)
    ensures
        uids_v(r@).to_multiset() == players_among(strings_v(files@)).to_multiset(),
        sorted_by(uids_v(r@), uid_order()),
{
    let ghost fs = strings_v(files@);
    let mut found: Vec<PlayerUid> = Vec::new();
    let mut i: usize = 0;
    proof {
        assert(uids_v(found@) =~= players_among(fs.take(0)));
    }
    while i < files.len()
        invariant
            i <= files@.len(),
            fs == strings_v(files@),
            uids_v(found@) == players_among(fs.take(i as int)),
        decreases files@.len() - i,
    {
        proof {
            assert(fs.take(i + 1).drop_last() =~= fs.take(i as int));
            assert(fs.take(i + 1).last() == files@[i as int]@);
        }
        match player_of(files[i].as_str()) {
            Some(stem) => {
                let u = PlayerUid(stem);
                proof {
                    assert(uids_v(found@.push(u)) =~= uids_v(found@).push(u.0@));
                }
                found.push(u);
            },
            None => {},
        }
        i += 1;
    }
    proof {
        assert(fs.take(files@.len() as int) =~= fs);
    }
    sort_uids(found)
}

/// What the file system shows of one world directory.
pub struct WorldListing {
    pub path: String,
    /// The directory's name: the world's id.
    pub name: String,
    pub has_level_sav: bool,
    pub has_local_data_sav: bool,
    /// When `Level.sav`, `LocalData.sav` and the directory itself were last
    /// modified, in milliseconds since the Unix epoch, where that is known.
    pub level_sav_modified: Option<u64>,
    pub local_data_modified: Option<u64>,
    pub dir_modified: Option<u64>,
    /// The names of the entries of its `Players/` directory.
    pub player_files: Vec<String>,
}

pub open spec fn kind_of(has_level_sav: bool, has_local_data_sav: bool) -> WorldKind {
    if has_level_sav {
        WorldKind::LocalWorld
    } else if has_local_data_sav {
        WorldKind::CoopGuestStub
    } else {
        WorldKind::Unknown
    }
}

/// When a world was last played: the time of the file that stands for its
/// kind, `Level.sav` for a hosted world, `LocalData.sav` for a guest stub,
/// and the directory itself otherwise.
pub open spec fn last_played_of(d: WorldListing) -> Option<u64> {
    match kind_of(d.has_level_sav, d.has_local_data_sav) {
        WorldKind::LocalWorld => d.level_sav_modified,
        WorldKind::CoopGuestStub => d.local_data_modified,
        WorldKind::Unknown => d.dir_modified,
    }
}

/// Whether `w` is the world the listing `d` describes. A guest stub lists
/// no players: the world's state, and its players, live on the host.
pub open spec fn world_from(d: WorldListing, w: World) -> bool {
    &&& w.id@ == d.name@
    &&& w.path@ == d.path@
    &&& w.kind == kind_of(d.has_level_sav, d.has_local_data_sav)
    &&& w.last_played == last_played_of(d)
    &&& if w.kind == WorldKind::CoopGuestStub {
        w.players@.len() == 0
    } else {
        &&& uids_v(w.players@).to_multiset() == players_among(strings_v(d.player_files@)).to_multiset()
        &&& sorted_by(uids_v(w.players@), uid_order())
    }
}

/// A listed world can be tracked exactly when its directory holds
/// `Level.sav`: a world joined as a guest is listed but never tracked.
pub proof fn lemma_trackable_iff_hosted(d: WorldListing, w: World)
    requires
        world_from(d, w),
    ensures
        (w.kind == WorldKind::LocalWorld) <==> d.has_level_sav,
{
}

/// Whether `built` holds, listing by listing, the worlds `dirs` describe.
pub open spec fn worlds_from(dirs: Seq<WorldListing>, built: Seq<World>) -> bool {
    built.len() == dirs.len() && forall|j: int| 0 <= j < dirs.len() ==> world_from(#[trigger] dirs[j], built[j])
}

/// The world a listing describes.
fn world_of(d: &WorldListing) -> (w: World)
    ensures
        world_from(*d, w),
{
    let kind = classify(d.has_level_sav, d.has_local_data_sav);
    let last_played = match kind {
        WorldKind::LocalWorld => d.level_sav_modified,
        WorldKind::CoopGuestStub => d.local_data_modified,
        WorldKind::Unknown => d.dir_modified,
    };
    World {
        id: d.name.clone(),
        path: d.path.clone(),
        kind,
        last_played,
        players: match kind {
            WorldKind::CoopGuestStub => Vec::new(),
            _ => players_in(d.player_files.as_slice()),
        },
    }
}

/// Every world in a save root, given its world directories, most recently
/// played first. A world whose time cannot be read sorts last rather than
/// being dropped.
pub fn enumerate(dirs: &[WorldListing]) -> (r: Vec<World>)
    ensures
        exists|built: Seq<World>| #[trigger] worlds_from(dirs@, built) && r@.to_multiset() == built.to_multiset(),
        worlds_sorted(world_keys(r@)),
{
    let mut built: Vec<World> = Vec::new();
    let mut i: usize = 0;
    while i < dirs.len()
        invariant
            i <= dirs@.len(),
            built@.len() == i,
            forall|j: int| 0 <= j < i ==> world_from(#[trigger] dirs@[j], built@[j]),
        decreases dirs@.len() - i,
    {
        let w = world_of(&dirs[i]);
        built.push(w);
        i += 1;
    }
    let ghost b = built@;
    let r = order_worlds(built);
    proof {
        assert(worlds_from(dirs@, b));
    }
    r
}

impl SaveRoot {
    /// The worlds inside this root, given what the file system shows of its
    /// world directories, most recently played first.
    pub fn worlds(&self, dirs: &[WorldListing]) -> (r: Vec<World>)
        ensures
            exists|built: Seq<World>| #[trigger] worlds_from(dirs@, built) && r@.to_multiset() == built.to_multiset(),
            worlds_sorted(world_keys(r@)),
    {
        enumerate(dirs)
    }
}

/// A directory, with which of the two world marker files it holds.
pub struct MarkedDir {
    pub path: String,
    /// The directory's name; empty where the path has none.
    pub name: String,
    pub has_level_sav: bool,
    pub has_local_data_sav: bool,
}

pub open spec fn marked(d: MarkedDir) -> bool {
    d.has_level_sav || d.has_local_data_sav
}

/// What the file system shows of a directory the user picked.
pub struct ManualPick {
    pub dir: MarkedDir,
    /// Whether the path names a directory at all.
    pub is_dir: bool,
    /// The parent directory's path and name, where the path has a parent.
    pub parent: Option<(String, String)>,
    /// Its subdirectories.
    pub children: Vec<MarkedDir>,
    /// The subdirectories of `AppData/Local/Pal/Saved/SaveGames` below it.
    pub nested: Vec<(String, String)>,
}

/// [`LocateError`] as values.
pub enum LocateErrorV {
    NotADirectory(Seq<char>),
    NoSavesFound(Seq<char>),
}

impl View for LocateError {
    type V = LocateErrorV;

    open spec fn view(&self) -> LocateErrorV {
        match self {
            LocateError::NotADirectory(p) => LocateErrorV::NotADirectory(p@),
            LocateError::NoSavesFound(p) => LocateErrorV::NoSavesFound(p@),
        }
    }
}

pub open spec fn child_dirs_v(v: Seq<MarkedDir>) -> Seq<(Seq<char>, Seq<char>)> {
    v.map_values(|d: MarkedDir| (d.path@, d.name@))
}

/// What a picked directory resolves to. A world directory resolves to its
/// parent; a directory holding a world to itself; otherwise the Steam-ID
/// directories inside it, or failing those inside the save tail below it.
pub open spec fn resolution(p: ManualPick) -> Result<Seq<SaveRootV>, LocateErrorV> {
    if !p.is_dir {
        Err(LocateErrorV::NotADirectory(p.dir.path@))
    } else if marked(p.dir) && p.parent is Some {
        let (pp, pn) = p.parent->Some_0;
        Ok(seq![SaveRootV { path: pp@, source: SaveSourceV::Manual, steam_id: pn@ }])
    } else if exists|i: int| 0 <= i < p.children@.len() && marked(#[trigger] p.children@[i]) {
        Ok(seq![SaveRootV { path: p.dir.path@, source: SaveSourceV::Manual, steam_id: p.dir.name@ }])
    } else {
        let direct = roots_among(child_dirs_v(p.children@), SaveSourceV::Manual);
        let nested = roots_among(dirs_v(p.nested@), SaveSourceV::Manual);
        if direct.len() > 0 {
            Ok(direct)
        } else if nested.len() > 0 {
            Ok(nested)
        } else {
            Err(LocateErrorV::NoSavesFound(p.dir.path@))
        }
    }
}

/// A picked path that is no directory is refused as such, and one that
/// resolves gives at least one root, each marked as picked by hand.
pub proof fn lemma_resolution_manual(p: ManualPick)
    ensures
        !p.is_dir <==> resolution(p) matches Err(LocateErrorV::NotADirectory(_)),
        resolution(p) matches Ok(v) ==> v.len() > 0 && forall|i: int|
            0 <= i < v.len() ==> (#[trigger] v[i]).source == SaveSourceV::Manual,
{
    lemma_roots_among(child_dirs_v(p.children@), SaveSourceV::Manual);
    lemma_roots_among(dirs_v(p.nested@), SaveSourceV::Manual);
}

/// Resolve a directory the user picked into save roots. Deliberately
/// forgiving about the level picked: the `SaveGames` directory, a
/// per-Steam-ID directory and a single world directory all resolve.
#[verifier::loop_isolation(false)]
pub fn resolve_manual(pick: &ManualPick) -> (r: Result<Vec<SaveRoot>, LocateError>)
    ensures
        match r {
            Ok(v) => resolution(*pick) == Ok::<Seq<SaveRootV>, LocateErrorV>(save_roots_v(v@)),
            Err(e) => resolution(*pick) == Err::<Seq<SaveRootV>, LocateErrorV>(e@),
        },
{
    if !pick.is_dir {
        return Err(LocateError::NotADirectory(pick.dir.path.clone()));
    }
    if pick.dir.has_level_sav || pick.dir.has_local_data_sav {
        match &pick.parent {
            Some((pp, pn)) => {
                let root = SaveRoot { path: pp.clone(), source: SaveSource::Manual, steam_id: pn.clone() };
                let v = vec![root];
                proof {
                    assert(save_roots_v(v@) =~= seq![root@]);
                }
                return Ok(v);
            },
            None => {},
        }
    }
    let mut i: usize = 0;
    while i < pick.children.len()
        invariant
            i <= pick.children@.len(),
            forall|j: int| 0 <= j < i ==> !marked(#[trigger] pick.children@[j]),
        decreases pick.children@.len() - i,
    {
        let c = &pick.children[i];
        if c.has_level_sav || c.has_local_data_sav {
            let root = SaveRoot { path: pick.dir.path.clone(), source: SaveSource::Manual, steam_id: pick.dir.name.clone() };
            let v = vec![root];
            proof {
                assert(marked(pick.children@[i as int]));
                assert(save_roots_v(v@) =~= seq![root@]);
            }
            return Ok(v);
        }
        i += 1;
    }
    let mut dirs: Vec<(String, String)> = Vec::new();
    let mut j: usize = 0;
    while j < pick.children.len()
        invariant
            j <= pick.children@.len(),
            dirs_v(dirs@) == child_dirs_v(pick.children@).take(j as int),
        decreases pick.children@.len() - j,
    {
        let c = &pick.children[j];
        let d = (c.path.clone(), c.name.clone());
        proof {
            assert(*c == pick.children@[j as int]);
            assert(dirs_v(dirs@.push(d)) =~= dirs_v(dirs@).push((c.path@, c.name@)));
            assert(child_dirs_v(pick.children@).take(j + 1) =~= child_dirs_v(pick.children@).take(j as int).push(
                (c.path@, c.name@),
            ));
        }
        dirs.push(d);
        j += 1;
    }
    proof {
        assert(child_dirs_v(pick.children@).take(pick.children@.len() as int) =~= child_dirs_v(pick.children@));
    }
    let direct = scan_save_games(dirs.as_slice(), &SaveSource::Manual);
    if direct.len() > 0 {
        return Ok(direct);
    }
    let nested = scan_save_games(pick.nested.as_slice(), &SaveSource::Manual);
    if nested.len() > 0 {
        return Ok(nested);
    }
    Err(LocateError::NoSavesFound(pick.dir.path.clone()))
}

} // verus!
