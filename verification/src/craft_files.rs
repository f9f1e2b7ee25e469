//! The document index: discovery of documents and directories, classification
//! by marker glyph, and the binding of media directories and loose asset
//! files to the documents that own them.

use vstd::prelude::*;

use crate::errors::ConvertError;
use crate::paths::{
    drop_ext, drop_ext_exec, emoji_path_of, ext_of, ext_of_exec, file_name_exec, file_name_of,
    file_name_start, parent_of, parent_of_exec, rel_to, slug_path_of, slugify_path, strip_emoji,
    strip_input_dir, strip_trailing_slashes, strip_trailing_slashes_exec, create_input_path,
};
use crate::text::{
    append_str, chars_eq, chars_to_string, find_sub, find_sub_exec, lemma_rfind_char_at,
    lemma_rfind_char_none, str_to_chars,
};

verus! {

pub const UNIC_EVERGREEN: char = '\u{1F332}';

pub const UNIC_POTTED: char = '\u{1FAB4}';

pub const UNIC_SEEDLING: char = '\u{1F331}';

#[derive(Debug, Clone, Copy, Hash, PartialEq, Eq, Structural)]
pub enum NoteType {
    Evergreen,
    Potted,
    Seedling,
    Unmarked,
}

/// The classification of a display name: the marker glyphs are tested in
/// fixed priority order, and the first marker present anywhere in the name
/// wins, whatever its position.
pub open spec fn classify_name(s: Seq<char>) -> NoteType {
    if s.contains(UNIC_EVERGREEN) {
        NoteType::Evergreen
    } else if s.contains(UNIC_POTTED) {
        NoteType::Potted
    } else if s.contains(UNIC_SEEDLING) {
        NoteType::Seedling
    } else {
        NoteType::Unmarked
    }
}

pub open spec fn spec_weight(nt: NoteType) -> char {
    match nt {
        NoteType::Evergreen => '1',
        NoteType::Potted => '2',
        NoteType::Seedling => '3',
        NoteType::Unmarked => '4',
    }
}

pub open spec fn spec_emoji(nt: NoteType) -> char {
    match nt {
        NoteType::Evergreen => UNIC_EVERGREEN,
        NoteType::Potted => UNIC_POTTED,
        NoteType::Seedling => UNIC_SEEDLING,
        NoteType::Unmarked => ' ',
    }
}

impl NoteType {
    /// The ordering weight of the classification; a lower value sorts first
    /// in the destination renderer.
    pub fn to_weight(&self) -> (r: char)
        ensures
            r == spec_weight(*self),
    {
        match self {
            NoteType::Evergreen => '1',
            NoteType::Potted => '2',
            NoteType::Seedling => '3',
            NoteType::Unmarked => '4',
        }
    }

    /// The display glyph of the classification.
    pub fn as_emoji(&self) -> (r: char)
        ensures
            r == spec_emoji(*self),
    {
        match self {
            NoteType::Evergreen => UNIC_EVERGREEN,
            NoteType::Potted => UNIC_POTTED,
            NoteType::Seedling => UNIC_SEEDLING,
            NoteType::Unmarked => ' ',
        }
    }

    /// Classify a display name by its marker glyphs, in priority order.
    pub fn from_name(name: &str) -> (r: NoteType)
        ensures
            r == classify_name(name@),
    {
        let chars = str_to_chars(name);
        let mut has_e = false;
        let mut has_p = false;
        let mut has_s = false;
        let mut k: usize = 0;
        while k < chars.len()
            invariant
                k <= chars@.len(),
                chars@ == name@,
                has_e <==> exists|x: int| 0 <= x < k && chars@[x] == UNIC_EVERGREEN,
                has_p <==> exists|x: int| 0 <= x < k && chars@[x] == UNIC_POTTED,
                has_s <==> exists|x: int| 0 <= x < k && chars@[x] == UNIC_SEEDLING,
            decreases chars@.len() - k,
        {
            let c = chars[k];
            if c == UNIC_EVERGREEN {
                has_e = true;
            }
            if c == UNIC_POTTED {
                has_p = true;
            }
            if c == UNIC_SEEDLING {
                has_s = true;
            }
            k = k + 1;
        }
        if has_e {
            NoteType::Evergreen
        } else if has_p {
            NoteType::Potted
        } else if has_s {
            NoteType::Seedling
        } else {
            NoteType::Unmarked
        }
    }
}

impl Default for NoteType {
    fn default() -> (r: Self)
        ensures
            r == NoteType::Unmarked,
    {
        NoteType::Unmarked
    }
}

/// One document record of the index.
#[derive(Debug, Clone)]
pub struct FileData {
    /// Classification derived from the display name's marker glyphs.
    pub note_type: NoteType,
    /// The original full filesystem path.
    pub path_full: String,
    /// Path relative to the input directory, extension removed: the
    /// document's identity key.
    pub path_rel: String,
    /// The destination path: every component of `path_rel` slugified, with
    /// the document extension reattached.
    pub path_slug: String,
    /// The file name without extension, with every Unicode character kept.
    pub name: String,
    /// Bare names of the bound media files; each will be co-located with the
    /// document, so no entry carries a directory.
    pub assets: Option<Vec<String>>,
    /// Full path of the source media directory, present iff media was bound.
    pub assets_dir: Option<String>,
    /// The body: raw text until rewritten, then the destination text.
    pub contents: String,
    /// Creation timestamp, supplied already formatted.
    pub created_at: String,
    /// Modification timestamp, supplied already formatted.
    pub modified_at: String,
}

/// The destination path derived from a relative key: emoji stripped from
/// every component, every component slugified, and the document extension
/// appended. A pure function of the key.
pub open spec fn slug_dest_of(rel: Seq<char>) -> Seq<char> {
    slug_path_of(emoji_path_of(rel)) + ".md"@
}

impl FileData {
    /// A fresh record for the document at `path_full`: the display name is
    /// the file name without its extension, and the classification is
    /// derived from that name.
    pub fn new(path_full: String, created_at: String, modified_at: String) -> (r: Result<
        FileData,
        ConvertError,
    >)
        ensures
            ({
                let name = file_name_of(drop_ext(strip_trailing_slashes(path_full@)));
                if name.len() == 0 {
                    r matches Err(ConvertError::MissingFileName { path }) && path@ == path_full@
                } else {
                    r matches Ok(fd) && fd.path_full@ == path_full@ && fd.name@ == name
                        && fd.note_type == classify_name(name) && fd.path_rel@ == Seq::<
                        char,
                    >::empty() && fd.path_slug@ == Seq::<char>::empty() && fd.assets is None
                        && fd.assets_dir is None && fd.contents@ == Seq::<char>::empty()
                        && fd.created_at@ == created_at@ && fd.modified_at@ == modified_at@
                }
            }),
    {
        let chars0 = str_to_chars(path_full.as_str());
        let chars = strip_trailing_slashes_exec(&chars0);
        let stem = drop_ext_exec(&chars);
        let name_chars = file_name_exec(&stem);
        if name_chars.len() == 0 {
            return Err(ConvertError::MissingFileName { path: path_full });
        }
        let name = chars_to_string(&name_chars);
        let note_type = NoteType::from_name(name.as_str());
        Ok(
            FileData {
                note_type,
                path_full,
                path_rel: String::new(),
                path_slug: String::new(),
                name,
                assets: Option::None,
                assets_dir: Option::None,
                contents: String::new(),
                created_at,
                modified_at,
            },
        )
    }

    /// Derive the relative key and the destination path from the full path.
    ///
    /// The key is the path relative to the input directory with the
    /// extension removed; the destination path is a pure, deterministic
    /// function of that key, so running this twice gives identical output.
    pub fn set_paths(&mut self, input_dir: &String) -> (r: Result<(), ConvertError>)
        ensures
            match rel_to(old(self).path_full@, input_dir@) {
                Some(rel) => {
                    &&& r is Ok
                    &&& final(self).path_rel@ == drop_ext(rel)
                    &&& final(self).path_slug@ == slug_dest_of(drop_ext(rel))
                    &&& final(self).note_type == old(self).note_type
                    &&& final(self).path_full == old(self).path_full
                    &&& final(self).name == old(self).name
                    &&& final(self).assets == old(self).assets
                    &&& final(self).assets_dir == old(self).assets_dir
                    &&& final(self).contents == old(self).contents
                    &&& final(self).created_at == old(self).created_at
                    &&& final(self).modified_at == old(self).modified_at
                },
                None => (r matches Err(ConvertError::NotUnderInputDir { path, input_dir: d })
                    && path@ == old(self).path_full@ && d@ == input_dir@ && *final(self) == *old(
                    self,
                )),
            },
    {
        let rel = match strip_input_dir(&self.path_full, input_dir) {
            Ok(rel) => rel,
            Err(e) => {
                return Err(e);
            },
        };
        let rel_chars = str_to_chars(rel.as_str());
        let key_chars = drop_ext_exec(&rel_chars);
        let key = chars_to_string(&key_chars);
        let stripped = strip_emoji(&key);
        let slugged = slugify_path(&stripped);
        let mut slug_chars = str_to_chars(slugged.as_str());
        crate::text::append_str(&mut slug_chars, ".md");
        self.path_rel = key;
        self.path_slug = chars_to_string(&slug_chars);
        Ok(())
    }
}

/// A directory of the input tree that is not a media directory; bookkeeping
/// only, unused by the rewrite logic.
pub struct Directory {
    pub path_full: String,
    pub path_slug: String,
    pub name: String,
}

/// Index of the first record whose relative key is `key`.
pub open spec fn find_doc(docs: Seq<FileData>, key: Seq<char>) -> Option<int>
    decreases docs.len(),
{
    if docs.len() == 0 {
        None
    } else if docs[0].path_rel@ == key {
        Some(0)
    } else {
        match find_doc(docs.skip(1), key) {
            Some(i) => Some(i + 1),
            None => None,
        }
    }
}

pub proof fn lemma_find_doc(docs: Seq<FileData>, key: Seq<char>)
    ensures
        match find_doc(docs, key) {
            Some(i) => 0 <= i < docs.len() && docs[i].path_rel@ == key && forall|x: int|
                0 <= x < i ==> docs[x].path_rel@ != key,
            None => forall|x: int| 0 <= x < docs.len() ==> docs[x].path_rel@ != key,
        },
    decreases docs.len(),
{
    if docs.len() > 0 && docs[0].path_rel@ != key {
        lemma_find_doc(docs.skip(1), key);
        assert(forall|x: int| 1 <= x < docs.len() ==> docs[x] == docs.skip(1)[x - 1]);
    }
}

pub proof fn lemma_find_doc_at(docs: Seq<FileData>, key: Seq<char>, i: int)
    requires
        0 <= i < docs.len(),
        docs[i].path_rel@ == key,
        forall|x: int| 0 <= x < i ==> docs[x].path_rel@ != key,
    ensures
        find_doc(docs, key) == Some(i),
    decreases docs.len(),
{
    if i > 0 {
        lemma_find_doc_at(docs.skip(1), key, i - 1);
        assert(forall|x: int| 1 <= x < docs.len() ==> docs[x] == docs.skip(1)[x - 1]);
    }
}

pub proof fn lemma_find_doc_none(docs: Seq<FileData>, key: Seq<char>)
    requires
        forall|x: int| 0 <= x < docs.len() ==> docs[x].path_rel@ != key,
    ensures
        find_doc(docs, key) is None,
    decreases docs.len(),
{
    if docs.len() > 0 {
        assert(forall|x: int| 1 <= x < docs.len() ==> docs[x] == docs.skip(1)[x - 1]);
        lemma_find_doc_none(docs.skip(1), key);
    }
}

/// The note-graph index under construction: every discovered document keyed
/// by its relative path, and the plain directories seen along the way.
#[derive(Debug)]
pub struct CraftDocs {
    /// The top level of the exported tree.
    pub input_dir: String,
    /// The name of the input directory; its slug becomes the destination's
    /// top-level section name.
    pub input_dir_name: String,
    /// The relative paths of the non-media directories, each kept once.
    pub directories: Vec<String>,
    /// The document records, keyed by `path_rel`, keys unique.
    pub files: Vec<FileData>,
}

impl CraftDocs {
    /// Keys are unique: the index maps each relative key to one record, and
    /// each directory is recorded once.
    pub open spec fn wf(&self) -> bool {
        (forall|i: int, j: int|
            0 <= i < j < self.files@.len() ==> self.files@[i].path_rel@
                != self.files@[j].path_rel@) && (forall|i: int, j: int|
            0 <= i < j < self.directories@.len() ==> self.directories@[i]@
                != self.directories@[j]@)
    }

    pub fn new(input_dir: String) -> (r: CraftDocs)
        ensures
            r.input_dir@ == input_dir@,
            r.input_dir_name@ == file_name_of(strip_trailing_slashes(input_dir@)),
            r.directories@.len() == 0,
            r.files@.len() == 0,
            r.wf(),
    {
        let chars0 = str_to_chars(input_dir.as_str());
        let chars = strip_trailing_slashes_exec(&chars0);
        let name_chars = file_name_exec(&chars);
        let input_dir_name = chars_to_string(&name_chars);
        CraftDocs { input_dir, input_dir_name, directories: Vec::new(), files: Vec::new() }
    }

    /// Look a relative key up in the index.
    pub fn lookup(&self, key: &String) -> (r: Option<usize>)
        ensures
            match r {
                Some(i) => find_doc(self.files@, key@) == Some(i as int),
                None => find_doc(self.files@, key@) is None,
            },
    {
        find_doc_exec(&self.files, key)
    }
}

/// Index of the first record whose relative key is `key`.
pub fn find_doc_exec(files: &Vec<FileData>, key: &String) -> (r: Option<usize>)
    ensures
        match r {
            Some(i) => find_doc(files@, key@) == Some(i as int),
            None => find_doc(files@, key@) is None,
        },
{
    let mut i: usize = 0;
    while i < files.len()
        invariant
            i <= files@.len(),
            forall|x: int| 0 <= x < i ==> files@[x].path_rel@ != key@,
        decreases files@.len() - i,
    {
        if files[i].path_rel.eq(key) {
            proof {
                lemma_find_doc_at(files@, key@, i as int);
            }
            return Some(i);
        }
        i = i + 1;
    }
    proof {
        lemma_find_doc_none(files@, key@);
    }
    None
}

/// `b` agrees with `a` on every field but `path_slug` and `assets_dir`.
pub open spec fn eq_but_media(a: FileData, b: FileData) -> bool {
    a.note_type == b.note_type && a.path_full == b.path_full && a.path_rel == b.path_rel && a.name
        == b.name && a.assets == b.assets && a.contents == b.contents && a.created_at
        == b.created_at && a.modified_at == b.modified_at
}

/// `b` agrees with `a` on every field but `assets`.
pub open spec fn eq_but_assets(a: FileData, b: FileData) -> bool {
    a.note_type == b.note_type && a.path_full == b.path_full && a.path_rel == b.path_rel && a.name
        == b.name && a.path_slug == b.path_slug && a.assets_dir == b.assets_dir && a.contents
        == b.contents && a.created_at == b.created_at && a.modified_at == b.modified_at
}

/// `b` agrees with `a` on every field but `contents`.
pub open spec fn eq_but_contents(a: FileData, b: FileData) -> bool {
    a.note_type == b.note_type && a.path_full == b.path_full && a.path_rel == b.path_rel && a.name
        == b.name && a.path_slug == b.path_slug && a.assets_dir == b.assets_dir && a.assets
        == b.assets && a.created_at == b.created_at && a.modified_at == b.modified_at
}

/// Neither the input directory fields nor the directory set changed.
pub open spec fn unchanged_meta(pre: CraftDocs, post: CraftDocs) -> bool {
    pre.input_dir == post.input_dir && pre.input_dir_name == post.input_dir_name
        && pre.directories == post.directories
}

/// The bare names of the bound media files.
pub open spec fn assets_views(a: Option<Vec<String>>) -> Seq<Seq<char>> {
    match a {
        Some(v) => v@.map_values(|s: String| s@),
        None => Seq::empty(),
    }
}

/// What binding a media directory at relative path `rel_path` does: the
/// record whose key is the path with the marker suffix stripped gets its
/// destination path rewritten to the index form and the directory's full
/// path recorded; a directory with no owning record is an orphan and fails
/// the run.
pub open spec fn media_dir_post(
    pre: CraftDocs,
    post: CraftDocs,
    r: Result<(), ConvertError>,
    rel_path: Seq<char>,
) -> bool {
    match find_doc(pre.files@, drop_ext(rel_path)) {
        Some(i) => {
            &&& r is Ok
            &&& unchanged_meta(pre, post)
            &&& post.files@.len() == pre.files@.len()
            &&& forall|j: int|
                0 <= j < pre.files@.len() && j != i ==> post.files@[j] == pre.files@[j]
            &&& eq_but_media(pre.files@[i], post.files@[i])
            &&& post.files@[i].path_slug@ == drop_ext(pre.files@[i].path_slug@) + "/index.md"@
            &&& drop_ext(file_name_of(post.files@[i].path_slug@)) == "index"@
            &&& post.files@[i].assets_dir matches Some(d) && d@ == strip_trailing_slashes(
                pre.input_dir@,
            ) + seq!['/'] + rel_path
        },
        None => r matches Err(ConvertError::OrphanMediaDir { dir }) && dir@ == rel_path && post
            == pre,
    }
}

/// What routing a loose asset file does: binary payloads are discarded, as
/// are preview images of anything but a binary payload; any other file is
/// appended, by bare name, to the assets of the record owning its containing
/// media directory; a file with no owning record fails the run.
pub open spec fn asset_file_post(
    pre: CraftDocs,
    post: CraftDocs,
    r: Result<(), ConvertError>,
    asset_path: Seq<char>,
    ext: Seq<char>,
) -> bool {
    if ext == "bin"@ {
        r is Ok && post == pre
    } else if ext == "png"@ && find_sub(file_name_of(asset_path), "_bin_preview"@, 0) is None {
        r is Ok && post == pre
    } else {
        let owner_abs = drop_ext(parent_of(asset_path));
        match rel_to(owner_abs, pre.input_dir@) {
            None => (r matches Err(ConvertError::NotUnderInputDir { path, input_dir }) && path@
                == owner_abs && input_dir@ == pre.input_dir@ && post == pre),
            Some(relkey) => match find_doc(pre.files@, relkey) {
                Some(i) => {
                    &&& r is Ok
                    &&& unchanged_meta(pre, post)
                    &&& post.files@.len() == pre.files@.len()
                    &&& forall|j: int|
                        0 <= j < pre.files@.len() && j != i ==> post.files@[j] == pre.files@[j]
                    &&& eq_but_assets(pre.files@[i], post.files@[i])
                    &&& post.files@[i].assets is Some
                    &&& assets_views(post.files@[i].assets) == assets_views(
                        pre.files@[i].assets,
                    ).push(file_name_of(asset_path))
                },
                None => r matches Err(ConvertError::OrphanAssetFile { file }) && file@
                    == asset_path && post == pre,
            },
        }
    }
}

/// What indexing a document file does: a fresh record is stored under its
/// relative key, replacing any record with the same key.
pub open spec fn is_new_record(
    nr: FileData,
    full_path: Seq<char>,
    key: Seq<char>,
    created_at: Seq<char>,
    modified_at: Seq<char>,
) -> bool {
    let name = file_name_of(drop_ext(strip_trailing_slashes(full_path)));
    &&& nr.path_full@ == full_path
    &&& nr.name@ == name
    &&& nr.note_type == classify_name(name)
    &&& nr.path_rel@ == key
    &&& nr.path_slug@ == slug_dest_of(key)
    &&& nr.assets is None
    &&& nr.assets_dir is None
    &&& nr.contents@ == Seq::<char>::empty()
    &&& nr.created_at@ == created_at
    &&& nr.modified_at@ == modified_at
}

pub open spec fn doc_file_post(
    pre: CraftDocs,
    post: CraftDocs,
    r: Result<(), ConvertError>,
    full_path: Seq<char>,
    created_at: Seq<char>,
    modified_at: Seq<char>,
) -> bool {
    let name = file_name_of(drop_ext(strip_trailing_slashes(full_path)));
    if name.len() == 0 {
        r matches Err(ConvertError::MissingFileName { path }) && path@ == full_path && post == pre
    } else {
        match rel_to(full_path, pre.input_dir@) {
            None => (r matches Err(ConvertError::NotUnderInputDir { path, input_dir }) && path@
                == full_path && input_dir@ == pre.input_dir@ && post == pre),
            Some(rel) => {
                let key = drop_ext(rel);
                &&& r is Ok
                &&& unchanged_meta(pre, post)
                &&& match find_doc(pre.files@, key) {
                    Some(i) => post.files@.len() == pre.files@.len() && (forall|j: int|
                        0 <= j < pre.files@.len() && j != i ==> post.files@[j] == pre.files@[j])
                        && is_new_record(post.files@[i], full_path, key, created_at, modified_at),
                    None => post.files@.len() == pre.files@.len() + 1 && post.files@.take(
                        pre.files@.len() as int,
                    ) == pre.files@ && is_new_record(
                        post.files@.last(),
                        full_path,
                        key,
                        created_at,
                        modified_at,
                    ),
                }
            },
        }
    }
}

/// What a file event does: a file with the document extension is indexed as
/// a document, any other file is routed to the asset binder, and a file with
/// no extension fails the run.
pub open spec fn file_event_post(
    pre: CraftDocs,
    post: CraftDocs,
    r: Result<(), ConvertError>,
    full_path: Seq<char>,
    created_at: Seq<char>,
    modified_at: Seq<char>,
) -> bool {
    match ext_of(full_path) {
        None => r matches Err(ConvertError::MissingExtension { path }) && path@ == full_path
            && post == pre,
        Some(e) => if e == "md"@ {
            doc_file_post(pre, post, r, full_path, created_at, modified_at)
        } else {
            asset_file_post(pre, post, r, full_path, e)
        },
    }
}

/// Whether some recorded directory has this relative path.
pub open spec fn has_dir(dirs: Seq<String>, rel: Seq<char>) -> bool {
    exists|i: int| 0 <= i < dirs.len() && dirs[i]@ == rel
}

/// The relative path `rel` is recorded once in the directory set; everything
/// else is kept as it was.
pub open spec fn dir_insert_post(
    pre: CraftDocs,
    post: CraftDocs,
    r: Result<(), ConvertError>,
    rel: Seq<char>,
) -> bool {
    &&& r is Ok
    &&& post.input_dir == pre.input_dir
    &&& post.input_dir_name == pre.input_dir_name
    &&& post.files == pre.files
    &&& if has_dir(pre.directories@, rel) {
        post.directories == pre.directories
    } else {
        post.directories@.len() == pre.directories@.len() + 1 && post.directories@.take(
            pre.directories@.len() as int,
        ) == pre.directories@ && post.directories@.last()@ == rel
    }
}

/// What a directory event does: a media directory is routed to the asset
/// binder; every other directory is recorded once in the directory set.
pub open spec fn directory_post(
    pre: CraftDocs,
    post: CraftDocs,
    r: Result<(), ConvertError>,
    full_path: Seq<char>,
) -> bool {
    match rel_to(full_path, pre.input_dir@) {
        None => (r matches Err(ConvertError::NotUnderInputDir { path, input_dir }) && path@
            == full_path && input_dir@ == pre.input_dir@ && post == pre),
        Some(rel) => match ext_of(full_path) {
            Some(e) => if e == "assets"@ {
                media_dir_post(pre, post, r, rel)
            } else {
                dir_insert_post(pre, post, r, rel)
            },
            None => dir_insert_post(pre, post, r, rel),
        },
    }
}

/// The destination path of a record that owns a media directory ends in an
/// `index` segment.
proof fn lemma_index_dest(base: Seq<char>)
    ensures
        file_name_of(base + "/index.md"@) == "index.md"@,
        drop_ext(file_name_of(base + "/index.md"@)) == "index"@,
{
    reveal_strlit("/index.md");
    reveal_strlit("index.md");
    reveal_strlit("index");
    let p = "/index.md"@;
    let b = base + p;
    assert(b[base.len() as int] == '/');
    assert forall|x: int| base.len() < x < b.len() implies b[x] != '/' by {
        assert(b[x] == p[x - base.len()]);
    }
    lemma_rfind_char_at(b, '/', b.len() as int, base.len() as int);
    assert(file_name_start(b) == base.len() + 1);
    assert(file_name_of(b) =~= "index.md"@);
    let f = "index.md"@;
    assert(f[5] == '.');
    lemma_rfind_char_none(f, '/', f.len() as int);
    assert(file_name_start(f) == 0);
    lemma_rfind_char_at(f, '.', f.len() as int, 5);
    assert(drop_ext(f) =~= "index"@);
}

impl CraftDocs {
    /// Bind the media directory at relative path `rel_path` to the document
    /// that owns it: the record whose key is the path without the marker
    /// suffix. The owning document becomes a directory-index file, so that
    /// it and its media share one slugified directory.
    pub fn set_asset_dir(&mut self, rel_path: &String) -> (r: Result<(), ConvertError>)
        requires
            old(self).wf(),
        ensures
            final(self).wf(),
            media_dir_post(*old(self), *final(self), r, rel_path@),
    {
        let rel_chars = str_to_chars(rel_path.as_str());
        let key_chars = drop_ext_exec(&rel_chars);
        let key = chars_to_string(&key_chars);
        match self.lookup(&key) {
            Some(i) => {
                proof {
                    lemma_find_doc(old(self).files@, drop_ext(rel_path@));
                }
                let mut fd = self.files.remove(i);
                let slug_chars = str_to_chars(fd.path_slug.as_str());
                let mut base = drop_ext_exec(&slug_chars);
                append_str(&mut base, "/index.md");
                fd.path_slug = chars_to_string(&base);
                fd.assets_dir = Some(create_input_path(&self.input_dir, rel_path));
                self.files.insert(i, fd);
                proof {
                    lemma_index_dest(drop_ext(old(self).files@[i as int].path_slug@));
                    assert(forall|j: int|
                        0 <= j < old(self).files@.len() && j != i ==> self.files@[j] == old(
                            self,
                        ).files@[j]);
                    assert(forall|ii: int, jj: int|
                        0 <= ii < jj < self.files@.len() ==> self.files@[ii].path_rel@
                            != self.files@[jj].path_rel@);
                }
                Ok(())
            },
            None => Err(ConvertError::OrphanMediaDir { dir: rel_path.clone() }),
        }
    }

    /// Route one loose asset file. Binary payloads and previews of
    /// non-binary assets are discarded; anything else is bound, by bare
    /// name, to the document owning the containing media directory.
    pub fn set_asset_on_file(&mut self, asset_path: &String, ext: &String) -> (r: Result<
        (),
        ConvertError,
    >)
        requires
            old(self).wf(),
        ensures
            final(self).wf(),
            asset_file_post(*old(self), *final(self), r, asset_path@, ext@),
    {
        let ext_chars = str_to_chars(ext.as_str());
        let bin = str_to_chars("bin");
        if chars_eq(&ext_chars, &bin) {
            return Ok(());
        }
        let ap_chars = str_to_chars(asset_path.as_str());
        let fname_chars = file_name_exec(&ap_chars);
        let png = str_to_chars("png");
        let preview = str_to_chars("_bin_preview");
        if chars_eq(&ext_chars, &png) {
            let hit = find_sub_exec(&fname_chars, &preview, 0);
            if hit.is_none() {
                return Ok(());
            }
        }
        let parent = parent_of_exec(&ap_chars);
        let owner_abs = drop_ext_exec(&parent);
        let owner_abs_str = chars_to_string(&owner_abs);
        let relkey = match strip_input_dir(&owner_abs_str, &self.input_dir) {
            Ok(relkey) => relkey,
            Err(e) => {
                return Err(e);
            },
        };
        match self.lookup(&relkey) {
            Some(i) => {
                proof {
                    lemma_find_doc(old(self).files@, relkey@);
                }
                let mut fd = self.files.remove(i);
                let fname = chars_to_string(&fname_chars);
                let ghost prev_views = assets_views(fd.assets);
                fd.assets = match fd.assets {
                    Some(mut v) => {
                        v.push(fname);
                        Some(v)
                    },
                    None => {
                        let mut v: Vec<String> = Vec::new();
                        v.push(fname);
                        Some(v)
                    },
                };
                proof {
                    assert(assets_views(fd.assets) =~= prev_views.push(
                        file_name_of(asset_path@),
                    ));
                }
                self.files.insert(i, fd);
                proof {
                    assert(forall|j: int|
                        0 <= j < old(self).files@.len() && j != i ==> self.files@[j] == old(
                            self,
                        ).files@[j]);
                    assert(forall|ii: int, jj: int|
                        0 <= ii < jj < self.files@.len() ==> self.files@[ii].path_rel@
                            != self.files@[jj].path_rel@);
                }
                Ok(())
            },
            None => Err(ConvertError::OrphanAssetFile { file: asset_path.clone() }),
        }
    }

    /// Handle one file of the walk: index a document, or route an asset.
    pub fn set_file(&mut self, full_path: &String, created_at: String, modified_at: String) -> (r:
        Result<(), ConvertError>)
        requires
            old(self).wf(),
        ensures
            final(self).wf(),
            file_event_post(
                *old(self),
                *final(self),
                r,
                full_path@,
                created_at@,
                modified_at@,
            ),
    {
        let chars = str_to_chars(full_path.as_str());
        match ext_of_exec(&chars) {
            None => Err(ConvertError::MissingExtension { path: full_path.clone() }),
            Some(e) => {
                let md = str_to_chars("md");
                if !chars_eq(&e, &md) {
                    let ext = chars_to_string(&e);
                    return self.set_asset_on_file(full_path, &ext);
                }
                let mut fd = match FileData::new(full_path.clone(), created_at, modified_at) {
                    Ok(fd) => fd,
                    Err(er) => {
                        return Err(er);
                    },
                };
                match fd.set_paths(&self.input_dir) {
                    Ok(u) => u,
                    Err(er) => {
                        return Err(er);
                    },
                };
                let key = fd.path_rel.clone();
                match self.lookup(&key) {
                    Some(i) => {
                        proof {
                            lemma_find_doc(old(self).files@, key@);
                        }
                        let _replaced = self.files.remove(i);
                        self.files.insert(i, fd);
                        proof {
                            assert(forall|j: int|
                                0 <= j < old(self).files@.len() && j != i ==> self.files@[j]
                                    == old(self).files@[j]);
                            assert(forall|ii: int, jj: int|
                                0 <= ii < jj < self.files@.len() ==> self.files@[ii].path_rel@
                                    != self.files@[jj].path_rel@);
                        }
                        Ok(())
                    },
                    None => {
                        proof {
                            lemma_find_doc(old(self).files@, key@);
                        }
                        self.files.push(fd);
                        proof {
                            assert(self.files@.take(old(self).files@.len() as int) =~= old(
                                self,
                            ).files@);
                            assert(forall|ii: int, jj: int|
                                0 <= ii < jj < self.files@.len() ==> self.files@[ii].path_rel@
                                    != self.files@[jj].path_rel@);
                        }
                        Ok(())
                    },
                }
            },
        }
    }

    /// Handle one directory of the walk: bind a media directory, and record
    /// every other directory once in the directory set.
    pub fn set_directory(&mut self, full_path: &String) -> (r: Result<(), ConvertError>)
        requires
            old(self).wf(),
        ensures
            final(self).wf(),
            directory_post(*old(self), *final(self), r, full_path@),
    {
        let rel = match strip_input_dir(full_path, &self.input_dir) {
            Ok(rel) => rel,
            Err(e) => {
                return Err(e);
            },
        };
        let chars = str_to_chars(full_path.as_str());
        match ext_of_exec(&chars) {
            Some(e) => {
                let assets = str_to_chars("assets");
                if chars_eq(&e, &assets) {
                    return self.set_asset_dir(&rel);
                }
            },
            None => {},
        }
        let mut i: usize = 0;
        while i < self.directories.len()
            invariant
                i <= self.directories@.len(),
                forall|x: int| 0 <= x < i ==> self.directories@[x]@ != rel@,
                *self == *old(self),
                old(self).wf(),
                match ext_of(full_path@) {
                    Some(e) => e != "assets"@,
                    None => true,
                },
                rel_to(full_path@, old(self).input_dir@) is Some,
                rel@ == rel_to(full_path@, old(self).input_dir@)->0,
            decreases self.directories@.len() - i,
        {
            if self.directories[i].eq(&rel) {
                return Ok(());
            }
            i = i + 1;
        }
        self.directories.push(rel);
        proof {
            assert(self.directories@.take(old(self).directories@.len() as int) =~= old(
                self,
            ).directories@);
            assert(forall|ii: int, jj: int|
                0 <= ii < jj < self.directories@.len() ==> self.directories@[ii]@
                    != self.directories@[jj]@);
        }
        Ok(())
    }

    /// Classify one entry of the walk. The input directory itself and the
    /// operating system's metadata artifact are skipped; directories and
    /// files are routed to their handlers. Files must have been handed over
    /// before the sibling directories at the same level, so that a media
    /// directory always finds its owning document already indexed.
    pub fn process_entry(
        &mut self,
        full_path: &String,
        is_dir: bool,
        is_file: bool,
        created_at: String,
        modified_at: String,
    ) -> (r: Result<(), ConvertError>)
        requires
            old(self).wf(),
        ensures
            final(self).wf(),
            is_dir ==> if full_path@ == old(self).input_dir@ {
                r is Ok && *final(self) == *old(self)
            } else {
                directory_post(*old(self), *final(self), r, full_path@)
            },
            !is_dir && is_file ==> if file_name_of(full_path@) == ".DS_Store"@ {
                r is Ok && *final(self) == *old(self)
            } else {
                file_event_post(*old(self), *final(self), r, full_path@, created_at@, modified_at@)
            },
            !is_dir && !is_file ==> r is Ok && *final(self) == *old(self),
    {
        if is_dir {
            if full_path.eq(&self.input_dir) {
                return Ok(());
            }
            return self.set_directory(full_path);
        }
        if is_file {
            let chars = str_to_chars(full_path.as_str());
            let fname = file_name_exec(&chars);
            let sentinel = str_to_chars(".DS_Store");
            if chars_eq(&fname, &sentinel) {
                return Ok(());
            }
            return self.set_file(full_path, created_at, modified_at);
        }
        Ok(())
    }
}

} // verus!
