//! The records a session is built from: folder entries walked from the vault
//! root, and note entries read from one folder, sorted by case-insensitive
//! name.

use vstd::prelude::*;
use vstd::seq_lib::lemma_multiset_commutative;
use vstd::multiset::Multiset;
use vstd::string::StrSliceExecFns;

use crate::tags::extract_tags;
use crate::tags::tags_of;
use crate::text::lower_of;
use crate::text::lowercase;
use crate::text::seq_le;
use crate::text::lemma_seq_le_total;
use crate::text::lemma_seq_le_trans;
use crate::text::str_eq;
use crate::text::str_le;

verus! {

broadcast use vstd::seq_lib::group_to_multiset_ensures;

/// One folder of the vault: its absolute path, display label, depth below
/// the root (the root itself has depth 0), and parent path (the root has
/// none).
#[derive(Clone, Debug)]
pub struct FolderEntry {
    pub path: String,
    pub name: String,
    pub depth: usize,
    pub parent: Option<String>,
}

/// One note file inside a folder: path, display name, optional modification
/// timestamp in unix seconds, and the tags of its metadata block.
#[derive(Clone, Debug)]
pub struct NoteEntry {
    pub path: String,
    pub name: String,
    pub modified: Option<i64>,
    pub tags: Vec<String>,
}

/// One directory met while walking the vault, as plain values.
#[derive(Clone, Debug)]
pub struct DirRecord {
    pub path: String,
    pub file_name: String,
    pub depth: usize,
    pub parent: Option<String>,
}

/// One file met while listing a folder, with its content already read.
#[derive(Clone, Debug)]
pub struct NoteFile {
    pub path: String,
    pub name: String,
    pub modified: Option<i64>,
    pub content: String,
}

/// What a note entry holds, as plain mathematical values.
pub struct NoteV {
    pub path: Seq<char>,
    pub name: Seq<char>,
    pub modified: Option<i64>,
    pub tags: Seq<Seq<char>>,
}

/// The mathematical value of a note entry.
pub open spec fn note_view(e: NoteEntry) -> NoteV {
    NoteV { path: e.path@, name: e.name@, modified: e.modified, tags: e.tags.deep_view() }
}

/// The note entry a file record gives rise to.
pub open spec fn file_note_view(f: NoteFile) -> NoteV {
    NoteV { path: f.path@, name: f.name@, modified: f.modified, tags: tags_of(f.content@) }
}

// ---------------------------------------------------------------------------
// Markdown file names
// ---------------------------------------------------------------------------

/// The index of the last `.` of `name`, or -1 when it has none.
pub open spec fn last_dot(name: Seq<char>) -> int
    decreases name.len(),
{
    if name.len() == 0 {
        -1
    } else if name.last() == '.' {
        name.len() - 1
    } else {
        last_dot(name.drop_last())
    }
}

proof fn lemma_last_dot_props(name: Seq<char>)
    ensures
        -1 <= last_dot(name) < name.len(),
        last_dot(name) >= 0 ==> name[last_dot(name)] == '.',
        forall|j: int| last_dot(name) < j < name.len() ==> name[j] != '.',
    decreases name.len(),
{
    if name.len() > 0 && name.last() != '.' {
        lemma_last_dot_props(name.drop_last());
        assert forall|j: int| last_dot(name) < j < name.len() implies name[j] != '.' by {
            if j < name.len() - 1 {
                assert(name.drop_last()[j] == name[j]);
            }
        }
        if last_dot(name) >= 0 {
            assert(name.drop_last()[last_dot(name)] == name[last_dot(name)]);
        }
    }
}

/// A file name that ends in the note-file extension `md`, case-insensitive;
/// a name whose only `.` is its first character hides the file instead of
/// giving it an extension.
pub open spec fn is_md_name(name: Seq<char>) -> bool {
    let d = last_dot(name);
    d > 0 && name.len() - d == 3 && (name[d + 1] == 'm' || name[d + 1] == 'M') && (name[d + 2]
        == 'd' || name[d + 2] == 'D')
}

/// Tests whether a file name names a note.
pub fn is_markdown(name: &str) -> (r: bool)
    ensures
        r == is_md_name(name@),
{
    proof {
        lemma_last_dot_props(name@);
    }
    let n = name.unicode_len();
    let mut b: usize = n;
    loop
        invariant
            b <= n,
            n == name@.len(),
            forall|j: int| b <= j < n ==> name@[j] != '.',
        ensures
            b <= n,
            forall|j: int| b <= j < n ==> name@[j] != '.',
            b == 0 || name@[b as int - 1] == '.',
        decreases b,
    {
        if b == 0 {
            break ;
        }
        if name.get_char(b - 1) == '.' {
            break ;
        }
        b = b - 1;
    }
    proof {
        if b == 0 {
            assert(last_dot(name@) == -1) by {
                if last_dot(name@) >= 0 {
                    assert(name@[last_dot(name@)] != '.');
                }
            }
        } else {
            assert(last_dot(name@) == b - 1) by {
                if last_dot(name@) > b - 1 {
                    assert(name@[last_dot(name@)] != '.');
                }
                if last_dot(name@) < b - 1 {
                    assert(name@[b as int - 1] != '.');
                }
            }
        }
    }
    if b <= 1 {
        return false;
    }
    let d = b - 1;
    if n - d != 3 {
        return false;
    }
    let c1 = name.get_char(d + 1);
    let c2 = name.get_char(d + 2);
    (c1 == 'm' || c1 == 'M') && (c2 == 'd' || c2 == 'D')
}

// ---------------------------------------------------------------------------
// Directory walks
// ---------------------------------------------------------------------------

/// Whether the walk should enter a directory entry: the root always, other
/// directories unless hidden or the conventional dependency directory;
/// non-directories pass through.
pub open spec fn should_visit_spec(depth: int, is_dir: bool, name: Seq<char>) -> bool {
    if depth == 0 {
        true
    } else if is_dir {
        !(name.len() > 0 && name[0] == '.') && name != "node_modules"@
    } else {
        true
    }
}

/// Decides whether the vault walk enters an entry.
pub fn should_visit_dir(depth: usize, is_dir: bool, name: &str) -> (r: bool)
    ensures
        r == should_visit_spec(depth as int, is_dir, name@),
{
    if depth == 0 {
        return true;
    }
    if !is_dir {
        return true;
    }
    let hidden = if name.unicode_len() > 0 {
        name.get_char(0) == '.'
    } else {
        false
    };
    if hidden {
        return false;
    }
    !str_eq(name, "node_modules")
}

/// The parent path a walked directory names.
pub open spec fn parent_path(r: DirRecord) -> Seq<char> {
    match r.parent {
        Some(p) => p@,
        None => Seq::empty(),
    }
}

/// A well-formed walk: the root first at depth 0, every other entry deeper
/// with a parent that appeared before it, and no path listed twice.
pub open spec fn walk_wf(raw: Seq<DirRecord>, vault: Seq<char>) -> bool {
    &&& raw.len() >= 1
    &&& raw[0].depth == 0
    &&& raw[0].path@ == vault
    &&& forall|i: int|
        1 <= i < raw.len() ==> (#[trigger] raw[i]).depth >= 1 && raw[i].parent is Some
            && parent_before(raw, i)
    &&& forall|i: int, j: int|
        #![trigger raw[i], raw[j]]
        0 <= i < j < raw.len() ==> raw[i].path@ != raw[j].path@
}

/// Some earlier entry carries the parent path of entry `i`.
pub open spec fn parent_before(raw: Seq<DirRecord>, i: int) -> bool {
    exists|j: int| 0 <= j < i && (#[trigger] raw[j]).path@ == parent_path(raw[i])
}

/// Whether some of the first `upto` records carries the path `p`.
fn find_dir_path(raw: &Vec<DirRecord>, upto: usize, p: &str) -> (r: bool)
    requires
        upto <= raw.len(),
    ensures
        r == exists|j: int| 0 <= j < upto && (#[trigger] raw@[j]).path@ == p@,
{
    let mut j: usize = 0;
    while j < upto
        invariant
            j <= upto <= raw@.len(),
            forall|k: int| 0 <= k < j ==> (#[trigger] raw@[k]).path@ != p@,
        decreases upto - j,
    {
        if str_eq(raw[j].path.as_str(), p) {
            return true;
        }
        j = j + 1;
    }
    false
}

/// Tests whether a walk is well formed.
pub fn check_walk(raw: &Vec<DirRecord>, vault_path: &str) -> (r: bool)
    ensures
        r == walk_wf(raw@, vault_path@),
{
    if raw.len() == 0 {
        return false;
    }
    if raw[0].depth != 0 {
        return false;
    }
    if !str_eq(raw[0].path.as_str(), vault_path) {
        return false;
    }
    let mut i: usize = 1;
    while i < raw.len()
        invariant
            1 <= i <= raw@.len(),
            raw@[0].depth == 0,
            raw@[0].path@ == vault_path@,
            forall|k: int|
                1 <= k < i ==> (#[trigger] raw@[k]).depth >= 1 && raw@[k].parent is Some
                    && parent_before(raw@, k),
            forall|a: int, b: int|
                #![trigger raw@[a], raw@[b]]
                0 <= a < b < i ==> raw@[a].path@ != raw@[b].path@,
        decreases raw@.len() - i,
    {
        if raw[i].depth < 1 {
            return false;
        }
        let parent_found = match &raw[i].parent {
            Some(p) => find_dir_path(raw, i, p.as_str()),
            None => {
                return false;
            },
        };
        if !parent_found {
            return false;
        }
        if find_dir_path(raw, i, raw[i].path.as_str()) {
            return false;
        }
        i = i + 1;
    }
    true
}

/// A well-formed folder list: exactly one root entry, standing first, at
/// depth 0 and without a parent; every other entry deeper, its parent
/// present earlier in the list; and no path listed twice.
pub open spec fn folders_wf(fs: Seq<FolderEntry>) -> bool {
    &&& fs.len() >= 1
    &&& fs[0].depth == 0
    &&& fs[0].parent is None
    &&& forall|i: int|
        1 <= i < fs.len() ==> (#[trigger] fs[i]).depth >= 1 && fs[i].parent is Some
            && folder_parent_before(fs, i)
    &&& forall|i: int, j: int|
        #![trigger fs[i], fs[j]]
        0 <= i < j < fs.len() ==> fs[i].path@ != fs[j].path@
}

/// In a well-formed folder list exactly one entry is the root — at depth 0
/// and without a parent, and it stands first — and every other entry's
/// parent path is itself present in the list.
pub proof fn lemma_folder_tree_rooted(fs: Seq<FolderEntry>)
    requires
        folders_wf(fs),
    ensures
        forall|i: int| 0 <= i < fs.len() ==> ((#[trigger] fs[i]).depth == 0 <==> i == 0),
        forall|i: int| 0 <= i < fs.len() ==> ((#[trigger] fs[i]).parent is None <==> i == 0),
        forall|i: int|
            0 <= i < fs.len() && (#[trigger] fs[i]).parent is Some ==> exists|j: int|
                0 <= j < fs.len() && (#[trigger] fs[j]).path@ == folder_parent_path(fs[i]),
{
    assert forall|i: int|
        0 <= i < fs.len() && (#[trigger] fs[i]).parent is Some implies exists|j: int|
        0 <= j < fs.len() && (#[trigger] fs[j]).path@ == folder_parent_path(fs[i]) by {
        assert(i >= 1);
        assert(folder_parent_before(fs, i));
        let j = choose|j: int| 0 <= j < i && (#[trigger] fs[j]).path@ == folder_parent_path(fs[i]);
        assert(0 <= j < fs.len() && fs[j].path@ == folder_parent_path(fs[i]));
    }
}

/// The parent path a folder entry names.
pub open spec fn folder_parent_path(f: FolderEntry) -> Seq<char> {
    match f.parent {
        Some(p) => p@,
        None => Seq::empty(),
    }
}

/// Some earlier folder carries the parent path of folder `i`.
pub open spec fn folder_parent_before(fs: Seq<FolderEntry>, i: int) -> bool {
    exists|j: int| 0 <= j < i && (#[trigger] fs[j]).path@ == folder_parent_path(fs[i])
}

/// Builds the folder list of a session from a well-formed walk: paths and
/// depths carried over, the root labelled with the vault's own name and left
/// without a parent, every other entry labelled with its directory name.
pub fn build_folder_entries(vault_name: &str, raw: &Vec<DirRecord>) -> (r: Vec<FolderEntry>)
    requires
        walk_wf(raw@, raw@[0].path@),
    ensures
        r@.len() == raw@.len(),
        forall|i: int|
            0 <= i < raw@.len() ==> (#[trigger] r@[i]).path@ == raw@[i].path@ && r@[i].depth
                == raw@[i].depth,
        r@[0].name@ == vault_name@,
        r@[0].parent is None,
        forall|i: int|
            1 <= i < raw@.len() ==> (#[trigger] r@[i]).name@ == raw@[i].file_name@
                && r@[i].parent is Some && folder_parent_path(r@[i]) == parent_path(raw@[i]),
        folders_wf(r@),
{
    let mut out: Vec<FolderEntry> = Vec::new();
    let mut i: usize = 0;
    while i < raw.len()
        invariant
            i <= raw@.len(),
            walk_wf(raw@, raw@[0].path@),
            out@.len() == i,
            forall|k: int|
                0 <= k < i ==> (#[trigger] out@[k]).path@ == raw@[k].path@ && out@[k].depth
                    == raw@[k].depth,
            i > 0 ==> out@[0].name@ == vault_name@ && out@[0].parent is None,
            forall|k: int|
                1 <= k < i ==> (#[trigger] out@[k]).name@ == raw@[k].file_name@ && out@[k].parent
                    is Some && folder_parent_path(out@[k]) == parent_path(raw@[k]),
        decreases raw@.len() - i,
    {
        let rec = &raw[i];
        let name = if i == 0 {
            let mut s = String::new();
            s.append(vault_name);
            s
        } else {
            rec.file_name.clone()
        };
        let parent = if i == 0 {
            None
        } else {
            match &rec.parent {
                Some(p) => Some(p.clone()),
                None => None,
            }
        };
        let entry = FolderEntry { path: rec.path.clone(), name, depth: rec.depth, parent };
        out.push(entry);
        i = i + 1;
    }
    proof {
        assert forall|i: int| 1 <= i < out@.len() implies folder_parent_before(out@, i) by {
            assert(parent_before(raw@, i));
            let j = choose|j: int| 0 <= j < i && (#[trigger] raw@[j]).path@ == parent_path(raw@[i]);
            assert(out@[j].path@ == folder_parent_path(out@[i]));
        }
    }
    out
}

/// Whether `v` holds the string `p`.
pub open spec fn str_in(v: Seq<String>, p: Seq<char>) -> bool {
    exists|i: int| 0 <= i < v.len() && (#[trigger] v[i])@ == p
}

/// No string listed twice.
pub open spec fn strs_unique(v: Seq<String>) -> bool {
    forall|i: int, j: int| #![trigger v[i], v[j]] 0 <= i < j < v.len() ==> v[i]@ != v[j]@
}

/// Whether `v` holds the string `s`.
pub fn vec_contains_str(v: &Vec<String>, s: &str) -> (r: bool)
    ensures
        r == str_in(v@, s@),
{
    let mut i: usize = 0;
    while i < v.len()
        invariant
            i <= v@.len(),
            forall|k: int| 0 <= k < i ==> (#[trigger] v@[k])@ != s@,
        decreases v@.len() - i,
    {
        if str_eq(v[i].as_str(), s) {
            return true;
        }
        i = i + 1;
    }
    false
}

/// The expansion set a session starts with: the vault root itself together
/// with every folder at depth 0 or 1.
pub fn initialize_expanded_folders(folders: &Vec<FolderEntry>, vault_path: &str) -> (r: Vec<
    String,
>)
    ensures
        strs_unique(r@),
        forall|p: Seq<char>|
            #[trigger] str_in(r@, p) <==> (p == vault_path@ || exists|i: int|
                0 <= i < folders@.len() && (#[trigger] folders@[i]).depth <= 1 && folders@[i].path@
                    == p),
{
    let mut out: Vec<String> = Vec::new();
    let mut root = String::new();
    root.append(vault_path);
    out.push(root);
    proof {
        assert(out@[0]@ == vault_path@);
    }
    let mut i: usize = 0;
    while i < folders.len()
        invariant
            i <= folders@.len(),
            strs_unique(out@),
            out@.len() >= 1,
            forall|p: Seq<char>|
                #[trigger] str_in(out@, p) <==> (p == vault_path@ || exists|k: int|
                    0 <= k < i && (#[trigger] folders@[k]).depth <= 1 && folders@[k].path@ == p),
        decreases folders@.len() - i,
    {
        let ghost old_out = out@;
        if folders[i].depth <= 1 && !vec_contains_str(&out, folders[i].path.as_str()) {
            out.push(folders[i].path.clone());
            proof {
                assert forall|p: Seq<char>| #[trigger] str_in(out@, p) implies (p == vault_path@
                    || exists|k: int|
                    0 <= k < i + 1 && (#[trigger] folders@[k]).depth <= 1 && folders@[k].path@
                        == p) by {
                    let q = choose|q: int| 0 <= q < out@.len() && (#[trigger] out@[q])@ == p;
                    if q < old_out.len() {
                        assert(str_in(old_out, p));
                    } else {
                        assert(folders@[i as int].depth <= 1 && folders@[i as int].path@ == p);
                    }
                }
                assert forall|p: Seq<char>|
                    (p == vault_path@ || exists|k: int|
                        0 <= k < i + 1 && (#[trigger] folders@[k]).depth <= 1 && folders@[k].path@
                            == p) implies #[trigger] str_in(out@, p) by {
                    if p == vault_path@ || exists|k: int|
                        0 <= k < i && (#[trigger] folders@[k]).depth <= 1 && folders@[k].path@
                            == p {
                        assert(str_in(old_out, p));
                        let q = choose|q: int|
                            0 <= q < old_out.len() && (#[trigger] old_out[q])@ == p;
                        assert(out@[q]@ == p);
                    } else {
                        assert(folders@[i as int].path@ == p);
                        assert(out@[out@.len() - 1]@ == p);
                    }
                }
                assert forall|a: int, b: int|
                    #![trigger out@[a], out@[b]]
                    0 <= a < b < out@.len() implies out@[a]@ != out@[b]@ by {
                    if b == out@.len() - 1 {
                        assert(!str_in(old_out, folders@[i as int].path@));
                        assert(old_out[a]@ != out@[b]@);
                    }
                }
            }
        } else {
            proof {
                if folders@[i as int].depth <= 1 {
                    assert(str_in(out@, folders@[i as int].path@));
                }
                assert forall|p: Seq<char>| #[trigger] str_in(out@, p) implies (p == vault_path@
                    || exists|k: int|
                    0 <= k < i + 1 && (#[trigger] folders@[k]).depth <= 1 && folders@[k].path@
                        == p) by {}
                assert forall|p: Seq<char>|
                    (p == vault_path@ || exists|k: int|
                        0 <= k < i + 1 && (#[trigger] folders@[k]).depth <= 1 && folders@[k].path@
                            == p) implies #[trigger] str_in(out@, p) by {
                    if !(p == vault_path@ || exists|k: int|
                        0 <= k < i && (#[trigger] folders@[k]).depth <= 1 && folders@[k].path@
                            == p) {
                        assert(folders@[i as int].path@ == p);
                        assert(str_in(out@, folders@[i as int].path@));
                    }
                }
            }
        }
        i = i + 1;
    }
    out
}

// ---------------------------------------------------------------------------
// Note entries
// ---------------------------------------------------------------------------

/// Relies on chrono's DateTime::from_timestamp, DateTime::with_timezone and
/// DateTime::format: renders a unix timestamp in the machine's local time
/// zone as `%Y-%m-%d %H:%M`. The result depends on that time zone, so
/// nothing is promised of it; an out-of-range timestamp renders empty.
#[verifier::external_body]
fn format_local_timestamp(secs: i64) -> (r: String) {
    match chrono::DateTime::from_timestamp(secs, 0) {
        Some(dt) => dt.with_timezone(&chrono::Local).format("%Y-%m-%d %H:%M").to_string(),
        None => String::new(),
    }
}

impl NoteEntry {
    /// The note's modification time rendered for display, when it has one.
    pub fn formatted_modified(&self) -> (r: Option<String>)
        ensures
            r is Some <==> self.modified is Some,
    {
        match self.modified {
            Some(secs) => Some(format_local_timestamp(secs)),
            None => None,
        }
    }
}

/// Builds one note entry from a file record: the tags come from the file's
/// metadata block, everything else is carried over.
pub fn build_note_entry(f: NoteFile) -> (e: NoteEntry)
    ensures
        note_view(e) == file_note_view(f),
{
    let NoteFile { path, name, modified, content } = f;
    let tags = extract_tags(content.as_str());
    NoteEntry { path, name, modified, tags }
}

/// One note sorts before another when its lowercased name does.
pub open spec fn notes_le(a: NoteEntry, b: NoteEntry) -> bool {
    seq_le(lower_of(a.name@), lower_of(b.name@))
}

/// Notes in case-insensitive name order.
pub open spec fn notes_sorted(s: Seq<NoteEntry>) -> bool {
    forall|i: int, j: int| 0 <= i < j < s.len() ==> notes_le(#[trigger] s[i], #[trigger] s[j])
}

/// Compares two notes by lowercased name.
fn note_le(a: &NoteEntry, b: &NoteEntry) -> (r: bool)
    ensures
        r == notes_le(*a, *b),
{
    let la = lowercase(a.name.as_str());
    let lb = lowercase(b.name.as_str());
    str_le(la.as_str(), lb.as_str())
}

proof fn lemma_insert_multiset(s: Seq<NoteEntry>, pos: int, x: NoteEntry)
    requires
        0 <= pos <= s.len(),
    ensures
        s.insert(pos, x).to_multiset() == s.to_multiset().insert(x),
{
    let single = seq![x];
    assert(s.insert(pos, x) =~= s.take(pos) + (single + s.skip(pos)));
    lemma_multiset_commutative(s.take(pos), single + s.skip(pos));
    lemma_multiset_commutative(single, s.skip(pos));
    lemma_multiset_commutative(s.take(pos), s.skip(pos));
    assert(s =~= s.take(pos) + s.skip(pos));
    assert(single =~= Seq::<NoteEntry>::empty().push(x));
    assert(Seq::<NoteEntry>::empty().to_multiset() =~= Multiset::<NoteEntry>::empty()) by {
        assert(Seq::<NoteEntry>::empty().to_multiset().len() == 0);
    }
    assert(single.to_multiset() =~= Multiset::<NoteEntry>::empty().insert(x));
    assert(s.insert(pos, x).to_multiset() =~= s.to_multiset().insert(x));
}

/// Sorts notes into case-insensitive name order; the result holds exactly
/// the given notes.
pub fn sort_notes(v: Vec<NoteEntry>) -> (r: Vec<NoteEntry>)
    ensures
        r@.to_multiset() == v@.to_multiset(),
        r@.len() == v@.len(),
        notes_sorted(r@),
{
    let mut src = v;
    let mut out: Vec<NoteEntry> = Vec::new();
    proof {
        assert(out@.to_multiset().add(src@.to_multiset()) =~= v@.to_multiset());
    }
    while src.len() > 0
        invariant
            out@.to_multiset().add(src@.to_multiset()) == v@.to_multiset(),
            out@.len() + src@.len() == v@.len(),
            notes_sorted(out@),
        decreases src@.len(),
    {
        let ghost src_before = src@;
        let x = match src.pop() {
            Some(x) => x,
            None => {
                proof {
                    assert(false);
                }
                continue ;
            },
        };
        proof {
            assert(src_before =~= src@.push(x));
            assert(src_before.to_multiset() == src@.to_multiset().insert(x));
        }
        let mut pos: usize = 0;
        loop
            invariant
                pos <= out@.len(),
                notes_sorted(out@),
                forall|k: int| 0 <= k < pos ==> notes_le(#[trigger] out@[k], x),
            ensures
                pos <= out@.len(),
                forall|k: int| 0 <= k < pos ==> notes_le(#[trigger] out@[k], x),
                pos < out@.len() ==> !notes_le(out@[pos as int], x),
            decreases out@.len() - pos,
        {
            if pos >= out.len() {
                break ;
            }
            if !note_le(&out[pos], &x) {
                break ;
            }
            pos = pos + 1;
        }
        let ghost out_before = out@;
        proof {
            lemma_insert_multiset(out_before, pos as int, x);
        }
        out.insert(pos, x);
        proof {
            assert forall|i: int, j: int|
                0 <= i < j < out@.len() implies notes_le(#[trigger] out@[i], #[trigger] out@[j]) by {
                if i < pos && j == pos {
                } else if i == pos && j > pos {
                    if pos < out_before.len() {
                        lemma_seq_le_total(lower_of(x.name@), lower_of(out_before[pos as int].name@));
                        if j - 1 > pos {
                            lemma_seq_le_trans(
                                lower_of(x.name@),
                                lower_of(out_before[pos as int].name@),
                                lower_of(out_before[j - 1].name@),
                            );
                        }
                    }
                } else if i < pos && j > pos {
                } else {
                }
            }
        }
    }
    out
}

/// Builds the note list of one folder from its file records: one entry for
/// each file, in case-insensitive name order.
pub fn read_notes(files: Vec<NoteFile>) -> (r: Vec<NoteEntry>)
    ensures
        r@.len() == files@.len(),
        notes_sorted(r@),
        exists|mid: Seq<NoteEntry>|
            #![trigger mid.to_multiset()]
            mid.len() == files@.len() && (forall|i: int|
                0 <= i < files@.len() ==> note_view(#[trigger] mid[i]) == file_note_view(
                    files@[i],
                )) && r@.to_multiset() == mid.to_multiset(),
{
    let ghost filesv = files@;
    let mut built: Vec<NoteEntry> = Vec::new();
    let mut src = files;
    while src.len() > 0
        invariant
            src@.len() + built@.len() == filesv.len(),
            src@ =~= filesv.take(src@.len() as int),
            forall|k: int|
                0 <= k < built@.len() ==> note_view(#[trigger] built@[k]) == file_note_view(
                    filesv[filesv.len() - 1 - k],
                ),
        decreases src@.len(),
    {
        let ghost src_before = src@;
        let f = match src.pop() {
            Some(f) => f,
            None => {
                proof {
                    assert(false);
                }
                continue ;
            },
        };
        proof {
            assert(src_before[src_before.len() - 1] == filesv[src_before.len() - 1]);
            assert(src@ =~= filesv.take(src@.len() as int));
        }
        let e = build_note_entry(f);
        built.push(e);
    }
    let ghost builtv = built@;
    let r = sort_notes(built);
    proof {
        let mid = builtv.reverse();
        builtv.lemma_reverse_to_multiset();
        assert(builtv.len() == filesv.len());
        assert(forall|i: int|
            0 <= i < filesv.len() ==> note_view(#[trigger] mid[i]) == file_note_view(filesv[i]));
        assert(r@.to_multiset() == mid.to_multiset());
    }
    r
}

} // verus!
