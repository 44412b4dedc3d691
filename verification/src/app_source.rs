//! Application entries and their discovery from freedesktop `.desktop` files.

use std::path::PathBuf;

use freedesktop_file_parser::DesktopFile;
use vstd::prelude::*;
use vstd::string::StringSliceAdditionalSpecFns;

verus! {

broadcast use vstd::utf8::group_utf8_lib;

/// A filesystem path, carried through unchanged.
#[verifier::external_type_specification]
#[verifier::external_body]
pub struct ExPathBuf(PathBuf);

/// `PathBuf::clone` from std: claimed to give back the same path, as its
/// documentation says of `Clone`.
pub assume_specification[ <PathBuf as Clone>::clone ](path: &PathBuf) -> (copy: PathBuf)
    ensures
        copy == *path,
;

/// A parsed desktop file, carried through unchanged.
#[verifier::external_type_specification]
#[verifier::external_body]
pub struct ExDesktopFile(DesktopFile);

/// Generic entry format that supports multiple sources
#[derive(Debug, Clone)]
pub struct Entry {
    /// Unique identifier for this entry
    pub id: String,
    /// Human readable name to display
    pub name: String,
    /// Optional icon
    pub icon: Option<Icon>,
    /// The action to perform when launched
    pub action: LaunchAction,
    /// Source this entry came from
    pub source: SourceType,
}

#[derive(Debug, Clone)]
pub enum Icon {
    /// Icon name from theme
    Name(String),
    /// Absolute path to icon file
    Path(PathBuf),
}

#[derive(Debug, Clone)]
pub enum LaunchAction {
    /// Execute a command
    Command { command: String, terminal: bool },
}

#[derive(Debug, Clone)]
pub enum SourceType {
    DesktopFile,
}

/// Places to search for .desktop files, in order of least priority to highest
pub const SEARCH_LOCATIONS: [&'static str; 5] = [
    "/var/lib/flatpak/exports/share/applications",
    "~/.local/share/flatpak/exports/share/applications",
    "/usr/share/applications",
    "/usr/local/share/applications",
    "~/.local/share/applications",
];

/// The directory that a search location names: a location that starts with
/// `~/` lies under the home directory `home` (and names none when `home` is
/// unknown); any other location names itself.
pub open spec fn location_dir_spec(location: Seq<char>, home: Option<&str>) -> Option<Seq<char>> {
    if location.len() >= 2 && location[0] == '~' && location[1] == '/' {
        match home {
            Some(h) => Some(h@ + location.skip(1)),
            None => None,
        }
    } else {
        Some(location)
    }
}

/// The directory that the search location `location` names, with a leading
/// `~` standing for the home directory `home`.
pub fn location_dir(location: &str, home: Option<&str>) -> (dir: Option<String>)
    ensures
        match location_dir_spec(location@, home) {
            Some(d) => dir matches Some(x) && x@ == d,
            None => dir is None,
        },
{
    let bytes = location.as_bytes();
    let ghost b = location.spec_bytes();
    let ghost l = location@;
    let ghost tilde_slash: Seq<char> = seq!['~', '/'];
    proof {
        assert(vstd::utf8::is_ascii_chars(tilde_slash));
        assert(vstd::utf8::encode_utf8(tilde_slash) =~= seq![126u8, 47u8]);
    }
    if bytes.len() >= 2 && bytes[0] == 126u8 && bytes[1] == 47u8 {
        proof {
            assert(!vstd::utf8::is_continuation_byte(b[1]));
            assert(vstd::utf8::is_char_boundary(b, 1));
            assert(!vstd::utf8::is_continuation_byte(b[0]));
            let first = b.subrange(0, 1);
            let rest = b.subrange(1, b.len() as int);
            assert(l == vstd::utf8::decode_utf8(b));
            assert(vstd::utf8::decode_utf8(b) =~= vstd::utf8::decode_utf8(first) + vstd::utf8::decode_utf8(rest));
            assert(vstd::utf8::valid_utf8(rest));
            assert(rest[0] == 47u8);
            assert(vstd::utf8::length_of_first_scalar(rest) == 1);
            reveal_with_fuel(vstd::utf8::is_char_boundary, 2);
            assert(vstd::utf8::is_char_boundary(rest, 1));
            let r1 = rest.subrange(0, 1);
            let r2 = rest.subrange(1, rest.len() as int);
            assert(vstd::utf8::decode_utf8(rest) =~= vstd::utf8::decode_utf8(r1) + vstd::utf8::decode_utf8(r2));
            assert(first =~= seq![126u8]);
            assert(r1 =~= seq![47u8]);
            let tilde: Seq<char> = seq!['~'];
            let slash: Seq<char> = seq!['/'];
            assert(vstd::utf8::is_ascii_chars(tilde));
            assert(vstd::utf8::is_ascii_chars(slash));
            assert(vstd::utf8::encode_utf8(tilde) =~= seq![126u8]);
            assert(vstd::utf8::encode_utf8(slash) =~= seq![47u8]);
            assert(vstd::utf8::decode_utf8(first) == tilde);
            assert(vstd::utf8::decode_utf8(r1) == slash);
            assert(l =~= tilde + (slash + vstd::utf8::decode_utf8(r2)));
            assert(l.skip(1) =~= vstd::utf8::decode_utf8(rest));
        }
        let (_, rest) = location.split_at(1);
        match home {
            Some(h) => {
                let mut dir = h.to_owned();
                dir.append(rest);
                Some(dir)
            },
            None => None,
        }
    } else {
        proof {
            if l.len() >= 2 && l[0] == '~' && l[1] == '/' {
                assert(l =~= tilde_slash + l.skip(2));
                lemma_encode_concat(tilde_slash, l.skip(2));
                assert(b[0] == 126u8);
                assert(b[1] == 47u8);
            }
        }
        Some(location.to_owned())
    }
}

/// A search location that does not begin with `~/` names itself, whatever the
/// home directory; one that does names the home directory followed by the rest
/// of the location after the `~`, and nothing when the home directory is
/// unknown.
pub proof fn law_location_dir(location: Seq<char>, home: Option<&str>)
    ensures
        !(location.len() >= 2 && location.take(2) == seq!['~', '/']) ==> location_dir_spec(location, home)
            == Some(location),
        location.len() >= 2 && location.take(2) == seq!['~', '/'] ==> (match home {
            Some(h) => location_dir_spec(location, home) == Some(h@ + location.subrange(1, location.len() as int)),
            None => location_dir_spec(location, home) is None,
        }),
{
    if location.len() >= 2 {
        assert(location.take(2)[0] == location[0]);
        assert(location.take(2)[1] == location[1]);
        if location[0] == '~' && location[1] == '/' {
            assert(location.take(2) =~= seq!['~', '/']);
        }
        assert(location.skip(1) =~= location.subrange(1, location.len() as int));
    }
}

/// Sources the applications
pub trait AppSource {
    fn scan(&self) -> Vec<Entry>;
}

/// The UTF-8 encoding of `.desktop`, the suffix of a desktop file's name.
pub open spec fn desktop_suffix() -> Seq<u8> {
    seq![46u8, 100u8, 101u8, 115u8, 107u8, 116u8, 111u8, 112u8]
}

/// The id of a file whose name has the UTF-8 encoding `name`: the name without
/// its extension, when that extension is exactly `desktop`. A name has an
/// extension when its last `.` is not its first byte; so `.desktop` alone has
/// none, while `a..desktop` has the id `a.`.
pub open spec fn desktop_id_bytes(name: Seq<u8>) -> Option<Seq<u8>> {
    if name.len() > 8 && name.subrange(name.len() - 8, name.len() as int) == desktop_suffix() {
        Some(name.subrange(0, name.len() - 8))
    } else {
        None
    }
}

/// The id of the desktop file named `name`, as characters.
#[verifier::opaque]
pub open spec fn desktop_id_spec(name: Seq<char>) -> Option<Seq<char>> {
    match desktop_id_bytes(vstd::utf8::encode_utf8(name)) {
        Some(stem) => Some(vstd::utf8::decode_utf8(stem)),
        None => None,
    }
}

/// The characters of the suffix `.desktop`.
pub open spec fn desktop_suffix_chars() -> Seq<char> {
    seq!['.', 'd', 'e', 's', 'k', 't', 'o', 'p']
}

proof fn lemma_encode_concat(a: Seq<char>, b: Seq<char>)
    ensures
        vstd::utf8::encode_utf8(a + b) == vstd::utf8::encode_utf8(a) + vstd::utf8::encode_utf8(b),
        a.len() > 0 ==> vstd::utf8::encode_utf8(a).len() > 0,
    decreases a.len(),
{
    if a.len() == 0 {
        assert(a + b =~= b);
        assert(vstd::utf8::encode_utf8(a) =~= Seq::<u8>::empty());
    } else {
        assert((a + b).drop_first() =~= a.drop_first() + b);
        assert((a + b)[0] == a[0]);
        lemma_encode_concat(a.drop_first(), b);
        assert(vstd::utf8::encode_utf8(a + b) =~= vstd::utf8::encode_utf8(a) + vstd::utf8::encode_utf8(b));
    }
}

proof fn lemma_encode_suffix()
    ensures
        vstd::utf8::encode_utf8(desktop_suffix_chars()) == desktop_suffix(),
{
    let c = desktop_suffix_chars();
    assert(vstd::utf8::is_ascii_chars(c));
    assert(vstd::utf8::encode_utf8(c) =~= desktop_suffix());
}

/// A file is a desktop file with id `id` exactly when its name is `id`
/// followed by `.desktop`, and `id` is not empty.
pub proof fn law_desktop_id_is_stem(name: Seq<char>, id: Seq<char>)
    ensures
        desktop_id_spec(name) == Some(id) <==> (id.len() > 0 && name == id + seq![
            '.',
            'd',
            'e',
            's',
            'k',
            't',
            'o',
            'p',
        ]),
{
    reveal(desktop_id_spec);
    let sfx = desktop_suffix_chars();
    assert(sfx =~= seq!['.', 'd', 'e', 's', 'k', 't', 'o', 'p']);
    lemma_encode_suffix();
    if id.len() > 0 && name == id + sfx {
        lemma_encode_concat(id, sfx);
        let b = vstd::utf8::encode_utf8(name);
        let e = vstd::utf8::encode_utf8(id);
        assert(b.subrange(b.len() - 8, b.len() as int) =~= desktop_suffix());
        assert(b.subrange(0, b.len() - 8) =~= e);
    }
    if desktop_id_spec(name) == Some(id) {
        let b = vstd::utf8::encode_utf8(name);
        let n = b.len() as int;
        let stem = b.subrange(0, n - 8);
        assert(b.subrange(n - 8, n) == desktop_suffix());
        assert(b[n - 8] == b.subrange(n - 8, n)[0]);
        assert(!vstd::utf8::is_continuation_byte(b[n - 8]));
        assert(vstd::utf8::is_char_boundary(b, n - 8));
        assert(vstd::utf8::decode_utf8(b) =~= vstd::utf8::decode_utf8(stem)
            + vstd::utf8::decode_utf8(b.subrange(n - 8, n)));
        assert(vstd::utf8::decode_utf8(desktop_suffix()) == sfx);
        assert(vstd::utf8::valid_utf8(stem));
        assert(vstd::utf8::encode_utf8(id) == stem);
        if id.len() == 0 {
            assert(vstd::utf8::encode_utf8(id) =~= Seq::<u8>::empty());
        }
    }
}

/// The id that a file named `file_name` gets when it is a desktop file: its
/// file stem, where its extension is `desktop`; `None` for any other file.
pub fn desktop_id(file_name: &str) -> (id: Option<String>)
    ensures
        id matches Some(s) ==> desktop_id_spec(file_name@) == Some(s@),
        id is None ==> desktop_id_spec(file_name@) is None,
{
    reveal(desktop_id_spec);
    let bytes = file_name.as_bytes();
    let n = bytes.len();
    let suffix: [u8; 8] = [46u8, 100u8, 101u8, 115u8, 107u8, 116u8, 111u8, 112u8];
    proof {
        assert(suffix@ =~= desktop_suffix());
    }
    if n <= 8 {
        return None;
    }
    let start: usize = n - 8;
    let mut k: usize = 0;
    while k < 8
        invariant
            n == bytes@.len(),
            bytes@ == file_name.spec_bytes(),
            n > 8,
            start == n - 8,
            k <= 8,
            suffix@ == desktop_suffix(),
            forall|j: int| 0 <= j < k ==> bytes@[start + j] == suffix@[j],
        decreases 8 - k,
    {
        if bytes[start + k] != suffix[k] {
            proof {
                reveal(desktop_id_spec);
                let b = file_name.spec_bytes();
                assert(b.subrange(start as int, n as int)[k as int] != desktop_suffix()[k as int]);
                assert(b.subrange(start as int, n as int) != desktop_suffix());
                assert(desktop_id_bytes(b) is None);
            }
            return None;
        }
        k = k + 1;
    }
    proof {
        let b = file_name.spec_bytes();
        assert(b.subrange(start as int, n as int) =~= desktop_suffix());
        assert(!vstd::utf8::is_continuation_byte(b[start as int]));
        assert(vstd::utf8::is_char_boundary(b, start as int));
    }
    let (stem, _) = file_name.split_at(start);
    proof {
        let b = file_name.spec_bytes();
        assert(stem@ == vstd::utf8::decode_utf8(stem.spec_bytes()));
        assert(stem.spec_bytes() =~= b.subrange(0, start as int));
    }
    Some(stem.to_owned())
}

/// A file found in one of the search locations, in scan order.
#[derive(Debug)]
pub struct DesktopFileCandidate {
    /// The file's name within its directory
    pub file_name: String,
    /// The file's full path
    pub path: PathBuf,
}

/// A desktop file that was found but not yet read.
#[derive(Debug)]
pub struct PotentialDesktopEntry {
    id: String,
    path: PathBuf,
}

impl PotentialDesktopEntry {
    /// The entry's id: its file stem.
    pub closed spec fn id_spec(&self) -> Seq<char> {
        self.id@
    }

    /// The path of the entry's file.
    pub closed spec fn path_spec(&self) -> PathBuf {
        self.path
    }

    /// The entry's id: its file stem.
    pub fn id(&self) -> (id: &String)
        ensures
            id@ == self.id_spec(),
    {
        &self.id
    }

    /// The path of the entry's file.
    pub fn path(&self) -> (path: &PathBuf)
        ensures
            *path == self.path_spec(),
    {
        &self.path
    }
}

/// The id that candidate `c` gets, if it is a desktop file.
pub open spec fn candidate_id(c: DesktopFileCandidate) -> Option<Seq<char>> {
    desktop_id_spec(c.file_name@)
}

/// `path` is the path of the last candidate whose id is `id`: the one found in
/// the search location of highest priority.
pub open spec fn is_last_with_id(candidates: Seq<DesktopFileCandidate>, id: Seq<char>, path: PathBuf) -> bool {
    exists|j: int|
        0 <= j < candidates.len() && #[trigger] candidate_id(candidates[j]) == Some(id)
            && candidates[j].path == path && forall|k: int|
            j < k < candidates.len() ==> #[trigger] candidate_id(candidates[k]) != Some(id)
}

/// The ids of the entries are pairwise distinct.
pub open spec fn distinct_ids(entries: Seq<PotentialDesktopEntry>) -> bool {
    forall|a: int, b: int|
        0 <= a < b < entries.len() ==> #[trigger] entries[a].id_spec() != #[trigger] entries[b].id_spec()
}

/// Whether `entries` holds an entry with the id `id`.
pub open spec fn has_id(entries: Seq<PotentialDesktopEntry>, id: Seq<char>) -> bool {
    exists|i: int| 0 <= i < entries.len() && #[trigger] entries[i].id_spec() == id
}

/// What the selection promises of each entry, spelled out: the entry's path
/// is that of a candidate whose name gives the entry's id, and no later
/// candidate gives that id; entries are told apart by id; and an id is held
/// by an entry when some entry has it.
pub proof fn law_selection_terms(
    all: Seq<DesktopFileCandidate>,
    entries: Seq<PotentialDesktopEntry>,
    id: Seq<char>,
    path: PathBuf,
)
    ensures
        is_last_with_id(all, id, path) <==> exists|j: int|
            0 <= j < all.len() && #[trigger] desktop_id_spec(all[j].file_name@) == Some(id) && all[j].path
                == path && forall|k: int|
                j < k < all.len() ==> #[trigger] desktop_id_spec(all[k].file_name@) != Some(id),
        has_id(entries, id) <==> exists|i: int| 0 <= i < entries.len() && #[trigger] entries[i].id_spec() == id,
        distinct_ids(entries) <==> forall|a: int, b: int|
            0 <= a < b < entries.len() ==> #[trigger] entries[a].id_spec() != #[trigger] entries[b].id_spec(),
        forall|j: int| 0 <= j < all.len() ==> #[trigger] candidate_id(all[j]) == desktop_id_spec(all[j].file_name@),
{
    if is_last_with_id(all, id, path) {
        let j = choose|j: int|
            0 <= j < all.len() && #[trigger] candidate_id(all[j]) == Some(id) && all[j].path == path
                && forall|k: int| j < k < all.len() ==> #[trigger] candidate_id(all[k]) != Some(id);
        assert forall|k: int| j < k < all.len() implies #[trigger] desktop_id_spec(all[k].file_name@) != Some(id) by {
            assert(candidate_id(all[k]) == desktop_id_spec(all[k].file_name@));
        }
        assert(candidate_id(all[j]) == desktop_id_spec(all[j].file_name@));
    }
    if exists|j: int|
        0 <= j < all.len() && #[trigger] desktop_id_spec(all[j].file_name@) == Some(id) && all[j].path == path
            && forall|k: int| j < k < all.len() ==> #[trigger] desktop_id_spec(all[k].file_name@) != Some(id) {
        let j = choose|j: int|
            0 <= j < all.len() && #[trigger] desktop_id_spec(all[j].file_name@) == Some(id) && all[j].path
                == path && forall|k: int|
                j < k < all.len() ==> #[trigger] desktop_id_spec(all[k].file_name@) != Some(id);
        assert forall|k: int| j < k < all.len() implies #[trigger] candidate_id(all[k]) != Some(id) by {
            assert(candidate_id(all[k]) == desktop_id_spec(all[k].file_name@));
        }
        assert(candidate_id(all[j]) == desktop_id_spec(all[j].file_name@));
    }
}

/// Picks the desktop files out of the files found in the search locations,
/// given in scan order (locations from lowest to highest priority). Files are
/// told apart by their id; of several files with one id, the last one found
/// wins, so a location of higher priority overrides the earlier ones.
pub fn select_desktop_files(candidates: Vec<DesktopFileCandidate>) -> (entries: Vec<PotentialDesktopEntry>)
    ensures
        distinct_ids(entries@),
        forall|i: int|
            0 <= i < entries@.len() ==> is_last_with_id(
                candidates@,
                #[trigger] entries@[i].id_spec(),
                entries@[i].path_spec(),
            ),
        forall|j: int|
            0 <= j < candidates@.len() && (#[trigger] candidate_id(candidates@[j])) is Some
                ==> has_id(entries@, candidate_id(candidates@[j])->0),
{
    let ghost all = candidates@;
    let mut rest = candidates;
    let mut entries: Vec<PotentialDesktopEntry> = Vec::new();
    while rest.len() > 0
        invariant
            rest@ == all.take(rest@.len() as int),
            rest@.len() <= all.len(),
            distinct_ids(entries@),
            forall|i: int|
                0 <= i < entries@.len() ==> is_last_with_id(
                    all,
                    #[trigger] entries@[i].id_spec(),
                    entries@[i].path_spec(),
                ),
            forall|j: int|
                rest@.len() <= j < all.len() && (#[trigger] candidate_id(all[j])) is Some
                    ==> has_id(entries@, candidate_id(all[j])->0),
        decreases rest@.len(),
    {
        let ghost k = rest@.len() - 1;
        let candidate = rest.pop().unwrap();
        assert(candidate == all[k]);
        match desktop_id(candidate.file_name.as_str()) {
            None => {},
            Some(id) => {
                let mut seen = false;
                let mut i: usize = 0;
                while i < entries.len()
                    invariant
                        i <= entries@.len(),
                        seen ==> has_id(entries@, id@),
                        !seen ==> forall|m: int| 0 <= m < i ==> #[trigger] entries@[m].id_spec() != id@,
                    decreases entries@.len() - i,
                {
                    if entries[i].id == id {
                        assert(entries@[i as int].id_spec() == id@);
                        seen = true;
                    }
                    i = i + 1;
                }
                if !seen {
                    let ghost old_entries = entries@;
                    entries.push(PotentialDesktopEntry { id, path: candidate.path });
                    assert(candidate_id(all[k]) == Some(id@));
                    assert(is_last_with_id(all, id@, all[k].path)) by {
                        assert forall|m: int| k < m < all.len() implies #[trigger] candidate_id(all[m]) != Some(id@) by {
                            if candidate_id(all[m]) == Some(id@) {
                                assert(has_id(old_entries, id@));
                                let e = choose|e: int| 0 <= e < old_entries.len() && #[trigger] old_entries[e].id_spec() == id@;
                                assert(old_entries[e].id_spec() != id@);
                            }
                        }
                    }
                    assert forall|j: int|
                        rest@.len() <= j < all.len() && (#[trigger] candidate_id(all[j])) is Some
                        implies has_id(entries@, candidate_id(all[j])->0) by {
                        if j == k {
                            assert(entries@[entries@.len() - 1].id_spec() == id@);
                        } else {
                            let e = choose|e: int| 0 <= e < old_entries.len() && #[trigger] old_entries[e].id_spec() == candidate_id(all[j])->0;
                            assert(entries@[e] == old_entries[e]);
                        }
                    }
                }
            },
        }
    }
    entries
}

/// A desktop file that was read and parsed.
#[derive(Debug)]
pub struct DesktopEntry {
    id: String,
    file: DesktopFile,
}

impl DesktopEntry {
    /// The entry's id: its file stem.
    pub closed spec fn id_spec(&self) -> Seq<char> {
        self.id@
    }

    /// The parsed file.
    pub closed spec fn file_spec(&self) -> DesktopFile {
        self.file
    }

    /// The entry's id and parsed file.
    pub open spec fn pair_spec(&self) -> (Seq<char>, DesktopFile) {
        (self.id_spec(), self.file_spec())
    }

    /// The entry's id: its file stem.
    pub fn id(&self) -> (id: &String)
        ensures
            id@ == self.id_spec(),
    {
        &self.id
    }

    /// The parsed file.
    pub fn file(&self) -> (file: &DesktopFile)
        ensures
            *file == self.file_spec(),
    {
        &self.file
    }
}

/// Whether `file` is a result that `freedesktop_file_parser::parse` can give
/// for the text `content`. A relation, not a function: the parsed file holds
/// hash maps whose hashers are seeded afresh, so two parses of one text need
/// not be equal values.
pub uninterp spec fn is_parse_of(file: DesktopFile, content: Seq<char>) -> bool;

/// Whether `freedesktop_file_parser::parse` accepts the text `content`: some
/// parsed file comes from it.
pub open spec fn is_parsable_desktop_file(content: Seq<char>) -> bool {
    exists|file: DesktopFile| is_parse_of(file, content)
}

/// Parses the text of a desktop file with `freedesktop_file_parser::parse`.
/// Claimed of the outside parser: a file it returns is a parse of the text,
/// and it fails only on texts of which there is no parse, so whether it
/// succeeds depends on the text alone. What the parsed file holds is not
/// stated beyond that.
#[verifier::external_body]
fn parse_desktop_file(content: &str) -> (file: Option<DesktopFile>)
    ensures
        match file {
            Some(f) => is_parse_of(f, content@),
            None => forall|f: DesktopFile| !#[trigger] is_parse_of(f, content@),
        },
{
    freedesktop_file_parser::parse(content).ok()
}

/// The pairs of `results` whose parse succeeded, in their order, each as its
/// id and parsed file.
pub open spec fn kept_entries(results: Seq<(String, Option<DesktopFile>)>) -> Seq<(Seq<char>, DesktopFile)>
    decreases results.len(),
{
    if results.len() == 0 {
        seq![]
    } else {
        let rest = kept_entries(results.drop_last());
        match results.last().1 {
            Some(file) => rest.push((results.last().0@, file)),
            None => rest,
        }
    }
}

/// Keeps, in order, the desktop files whose parse succeeded, each under its
/// id; those that failed to parse are left out.
pub fn keep_parsed(results: Vec<(String, Option<DesktopFile>)>) -> (entries: Vec<DesktopEntry>)
    ensures
        entries@.map_values(|e: DesktopEntry| e.pair_spec()) == kept_entries(results@),
{
    let ghost all = results@;
    let mut entries: Vec<DesktopEntry> = Vec::new();
    for item in it: results
        invariant
            it.seq() == all,
            entries@.map_values(|e: DesktopEntry| e.pair_spec()) == kept_entries(all.take(it.index() as int)),
    {
        let ghost before = entries@;
        assert(all.take(it.index() + 1).drop_last() =~= all.take(it.index() as int));
        let (id, parsed) = item;
        match parsed {
            Some(file) => {
                entries.push(DesktopEntry { id, file });
                assert(entries@.map_values(|e: DesktopEntry| e.pair_spec()) =~= before.map_values(
                    |e: DesktopEntry| e.pair_spec(),
                ).push((id@, file)));
            },
            None => {},
        }
    }
    assert(all.take(all.len() as int) =~= all);
    entries
}

/// Whether a loaded desktop file was read and its text parses.
pub open spec fn is_read_and_parsable(item: (PotentialDesktopEntry, Option<String>)) -> bool {
    item.1 matches Some(content) && is_parsable_desktop_file(content@)
}

/// The indices, in increasing order, of the loaded desktop files that were
/// read and whose text parses.
pub open spec fn kept_indices(loaded: Seq<(PotentialDesktopEntry, Option<String>)>) -> Seq<int>
    decreases loaded.len(),
{
    if loaded.len() == 0 {
        seq![]
    } else {
        let rest = kept_indices(loaded.drop_last());
        if is_read_and_parsable(loaded.last()) {
            rest.push(loaded.len() - 1)
        } else {
            rest
        }
    }
}

/// The kept indices are exactly the indices of the loaded files that were read
/// and whose text has a parse, each once, in increasing order: a file is kept
/// or skipped on its own, whatever its neighbours.
pub proof fn law_kept_indices(loaded: Seq<(PotentialDesktopEntry, Option<String>)>)
    ensures
        forall|k: int|
            0 <= k < kept_indices(loaded).len() ==> 0 <= #[trigger] kept_indices(loaded)[k] < loaded.len(),
        forall|a: int, b: int|
            0 <= a < b < kept_indices(loaded).len() ==> #[trigger] kept_indices(loaded)[a]
                < #[trigger] kept_indices(loaded)[b],
        forall|i: int|
            0 <= i < loaded.len() ==> (kept_indices(loaded).contains(i) <==> (
            #[trigger] loaded[i].1 matches Some(c) && exists|f: DesktopFile| is_parse_of(f, c@))),
    decreases loaded.len(),
{
    if loaded.len() > 0 {
        let n = loaded.len() - 1;
        let l0 = loaded.drop_last();
        law_kept_indices(l0);
        let r = kept_indices(l0);
        assert(loaded.last() == loaded[n]);
        assert forall|i: int|
            0 <= i < loaded.len() implies (kept_indices(loaded).contains(i) <==> (
            #[trigger] loaded[i].1 matches Some(c) && exists|f: DesktopFile| is_parse_of(f, c@))) by {
            if i < n {
                assert(l0[i] == loaded[i]);
                if kept_indices(loaded).contains(i) {
                    let k = choose|k: int| 0 <= k < kept_indices(loaded).len() && kept_indices(loaded)[k] == i;
                    if k < r.len() {
                        assert(r[k] == i);
                    }
                }
                if r.contains(i) {
                    let k = choose|k: int| 0 <= k < r.len() && r[k] == i;
                    assert(kept_indices(loaded)[k] == i);
                }
            } else {
                if kept_indices(loaded).contains(i) {
                    let k = choose|k: int| 0 <= k < kept_indices(loaded).len() && kept_indices(loaded)[k] == i;
                    if k < r.len() {
                        assert(r[k] < loaded.len() - 1);
                    }
                }
                if is_read_and_parsable(loaded[n]) {
                    assert(kept_indices(loaded)[r.len() as int] == n);
                }
            }
        }
    }
}

/// Keeping the parsed files keeps every successful parse and only those, in
/// order: it is the list of results filtered to those that parsed, each as its
/// id and file.
pub proof fn law_kept_entries(results: Seq<(String, Option<DesktopFile>)>)
    ensures
        kept_entries(results) == results.filter_map(
            |r: (String, Option<DesktopFile>)|
                match r.1 {
                    Some(f) => Some((r.0@, f)),
                    None => None,
                },
        ),
    decreases results.len(),
{
    if results.len() > 0 {
        law_kept_entries(results.drop_last());
        assert(kept_entries(results) =~= results.filter_map(
            |r: (String, Option<DesktopFile>)|
                match r.1 {
                    Some(f) => Some((r.0@, f)),
                    None => None,
                },
        ));
    }
}

/// Each parse result in `results` belongs to the loaded file at its index.
spec fn parse_results_match(
    loaded: Seq<(PotentialDesktopEntry, Option<String>)>,
    results: Seq<(String, Option<DesktopFile>)>,
) -> bool {
    &&& results.len() == loaded.len()
    &&& forall|i: int|
        0 <= i < results.len() ==> (#[trigger] results[i]).0@ == loaded[i].0.id_spec() && (
        results[i].1 is Some <==> (loaded[i].1 matches Some(c) && is_parsable_desktop_file(c@)))
            && (results[i].1 matches Some(f) ==> (loaded[i].1 matches Some(c) && is_parse_of(f, c@)))
}

proof fn lemma_kept_pairs(
    loaded: Seq<(PotentialDesktopEntry, Option<String>)>,
    results: Seq<(String, Option<DesktopFile>)>,
)
    requires
        parse_results_match(loaded, results),
    ensures
        kept_entries(results).len() == kept_indices(loaded).len(),
        forall|k: int|
            0 <= k < kept_entries(results).len() ==> {
                let i = #[trigger] kept_indices(loaded)[k];
                &&& 0 <= i < loaded.len()
                &&& kept_entries(results)[k].0 == results[i].0@
                &&& results[i].1 == Some(kept_entries(results)[k].1)
            },
    decreases loaded.len(),
{
    if loaded.len() > 0 {
        let n = loaded.len() - 1;
        assert(results[n] == results.last());
        assert(loaded[n] == loaded.last());
        let l0 = loaded.drop_last();
        let r0 = results.drop_last();
        assert(parse_results_match(l0, r0)) by {
            assert forall|i: int| 0 <= i < r0.len() implies r0[i] == results[i] && l0[i] == loaded[i] by {}
        }
        lemma_kept_pairs(l0, r0);
        assert forall|k: int| 0 <= k < kept_entries(results).len() implies {
            let i = #[trigger] kept_indices(loaded)[k];
            &&& 0 <= i < loaded.len()
            &&& kept_entries(results)[k].0 == results[i].0@
            &&& results[i].1 == Some(kept_entries(results)[k].1)
        } by {
            if k < kept_entries(r0).len() {
                let i = kept_indices(l0)[k];
                assert(kept_indices(loaded)[k] == i);
                assert(r0[i] == results[i]);
            }
        }
    }
}

/// Parses the desktop files that were read, given with their text (`None`
/// where reading failed). Those that could not be read or parsed are skipped;
/// the others keep their order and id, each with a parse of its own text.
pub fn parse_loaded(loaded: Vec<(PotentialDesktopEntry, Option<String>)>) -> (entries: Vec<DesktopEntry>)
    ensures
        entries@.len() == kept_indices(loaded@).len(),
        forall|k: int|
            0 <= k < entries@.len() ==> {
                let i = #[trigger] kept_indices(loaded@)[k];
                &&& 0 <= i < loaded@.len()
                &&& entries@[k].id_spec() == loaded@[i].0.id_spec()
                &&& loaded@[i].1 matches Some(content) && is_parse_of(entries@[k].file_spec(), content@)
            },
{
    let ghost all = loaded@;
    let mut results: Vec<(String, Option<DesktopFile>)> = Vec::new();
    for item in it: loaded
        invariant
            it.seq() == all,
            parse_results_match(all.take(it.index() as int), results@),
    {
        let ghost before = results@;
        let (entry, content) = item;
        let parsed = match content {
            Some(text) => parse_desktop_file(text.as_str()),
            None => None,
        };
        results.push((entry.id, parsed));
        assert(parse_results_match(all.take(it.index() + 1), results@)) by {
            assert forall|i: int| 0 <= i < results@.len() implies (#[trigger] results@[i]).0@
                == all.take(it.index() + 1)[i].0.id_spec() && (results@[i].1 is Some <==> (
                all.take(it.index() + 1)[i].1 matches Some(c) && is_parsable_desktop_file(c@)))
                && (results@[i].1 matches Some(f) ==> (all.take(it.index() + 1)[i].1 matches Some(c)
                && is_parse_of(f, c@))) by {
                if i < before.len() {
                    assert(results@[i] == before[i]);
                }
            }
        }
    }
    assert(all.take(all.len() as int) =~= all);
    let ghost parsed = results@;
    let entries = keep_parsed(results);
    proof {
        lemma_kept_pairs(all, parsed);
        assert forall|k: int| 0 <= k < entries@.len() implies {
            let i = #[trigger] kept_indices(all)[k];
            &&& 0 <= i < all.len()
            &&& entries@[k].id_spec() == all[i].0.id_spec()
            &&& all[i].1 matches Some(content) && is_parse_of(entries@[k].file_spec(), content@)
        } by {
            assert(entries@.map_values(|e: DesktopEntry| e.pair_spec())[k] == entries@[k].pair_spec());
            let i = kept_indices(all)[k];
            assert(parsed[i].1 == Some(kept_entries(parsed)[k].1));
        }
    }
    entries
}

} // verus!
