//! What goes into a package file, and what is taken out of an uploaded one.

use vstd::prelude::*;
use vstd::string::*;

use crate::manifest::{is_manifest, manifest_name};
use crate::paths::{
    FilePath, in_order, law_order_is_kept, law_order_is_unique, law_order_keeps_the_paths,
    name_before, path_before, paths_view, sort_paths,
};
use crate::text::{
    cat2, chars_of, contains_text, empty, ends_with, from_utf8_lossy, lemma_pieces_append,
    lowercase, pieces, replace, replaced, same, split, starts_with, texts, to_lowercase, trim,
    trimmed, utf8_lossy,
};
use crate::urls::zip_name;



verus! {

// ---------------------------------------------------------------------------
// Building a package file
// ---------------------------------------------------------------------------

/// Names with slashes between them.
pub open spec fn slashed(path: Seq<Seq<u8>>) -> Seq<u8>
    decreases path.len(),
{
    if path.len() == 0 {
        Seq::empty()
    } else if path.len() == 1 {
        path[0]
    } else {
        slashed(path.drop_last()) + seq![0x2fu8] + path.last()
    }
}

/// The name of a file in a package file: its path as text, with slashes alone.
pub open spec fn entry_name(path: Seq<Seq<u8>>) -> Seq<char> {
    replaced(utf8_lossy(slashed(path)), '\\', '/')
}

/// The path of a manifest at the root of a package.
pub open spec fn root_manifest() -> Seq<Seq<u8>> {
    seq![manifest_name()]
}

/// An entry of a package file.
#[derive(Debug)]
pub struct ZipEntry {
    pub name: String,
    /// The file that the entry holds; none for the manifest.
    pub source: Option<FilePath>,
}

/// What an entry of a package file says.
pub struct EntryView {
    pub name: Seq<char>,
    pub source: Option<Seq<Seq<u8>>>,
}

impl View for ZipEntry {
    type V = EntryView;

    open spec fn view(&self) -> EntryView {
        EntryView {
            name: self.name@,
            source: match self.source {
                Some(p) => Some(p@),
                None => None,
            },
        }
    }
}

/// The entries of a list.
pub open spec fn entries_view(v: Seq<ZipEntry>) -> Seq<EntryView> {
    v.map_values(|e: ZipEntry| e@)
}

/// The entry of the manifest.
pub open spec fn manifest_entry() -> EntryView {
    EntryView { name: "package.json"@, source: None }
}

/// The entry of a file.
pub open spec fn file_entry(path: Seq<Seq<u8>>) -> EntryView {
    EntryView { name: entry_name(path), source: Some(path) }
}

/// Files without a manifest at the root: the published manifest takes its place.
pub open spec fn assets(paths: Seq<Seq<Seq<u8>>>) -> Seq<Seq<Seq<u8>>> {
    paths.filter(|p: Seq<Seq<u8>>| p != root_manifest())
}

/// The entries of a package file: the manifest, then the files in their order.
pub open spec fn layout(paths: Seq<Seq<Seq<u8>>>) -> Seq<EntryView> {
    seq![manifest_entry()] + assets(in_order(paths)).map_values(
        |p: Seq<Seq<u8>>| file_entry(p),
    )
}

/// The bytes of a path with slashes between the names.
fn slashed_bytes(path: &FilePath) -> (r: Vec<u8>)
    ensures
        r@ == slashed(path@),
{
    let mut out: Vec<u8> = Vec::new();
    let mut i: usize = 0;
    while i < path.parts.len()
        invariant
            i <= path.parts.len(),
            out@ == slashed(path@.take(i as int)),
        decreases path.parts.len() - i,
    {
        let ghost done = path@.take(i + 1);
        assert(done.drop_last() =~= path@.take(i as int));
        assert(done.last() == path.parts@[i as int]@);
        if i > 0 {
            out.push(0x2f);
        }
        let ghost start = out@;
        let part = &path.parts[i];
        let mut k: usize = 0;
        while k < part.len()
            invariant
                k <= part.len(),
                out@ == start + part@.take(k as int),
            decreases part.len() - k,
        {
            out.push(part[k]);
            k = k + 1;
            assert(part@.take(k as int) =~= part@.take(k - 1).push(part@[k - 1]));
        }
        assert(part@.take(k as int) =~= part@);
        assert(out@ =~= slashed(done));
        i = i + 1;
    }
    assert(path@.take(i as int) =~= path@);
    out
}

/// A path with slashes alone: those that lean to the other side are turned.
pub fn with_slashes(path: &str) -> (r: String)
    ensures
        r@ == replaced(path@, '\\', '/'),
{
    replace(path, '\\', '/')
}

/// The name of a file in a package file.
fn name_in_zip(path: &FilePath) -> (r: String)
    ensures
        r@ == entry_name(path@),
{
    let bytes = slashed_bytes(path);
    let text = from_utf8_lossy(bytes.as_slice());
    with_slashes(text.as_str())
}

/// The entries of a package file that is built of these files, in the order in
/// which they are written.
pub fn zip_layout(files: Vec<FilePath>) -> (r: Vec<ZipEntry>)
    ensures
        entries_view(r@) == layout(paths_view(files@)),
{
    let ghost paths = in_order(paths_view(files@));
    let keep = Ghost(|p: Seq<Seq<u8>>| p != root_manifest());
    let show = Ghost(|p: Seq<Seq<u8>>| file_entry(p));
    let sorted = sort_paths(files);
    let mut out: Vec<ZipEntry> = Vec::new();
    out.push(ZipEntry { name: "package.json".to_string(), source: None });
    proof {
        reveal(Seq::filter);
        assert(paths.take(0).filter(keep@).map_values(show@) =~= Seq::<EntryView>::empty());
        assert(entries_view(out@) =~= seq![manifest_entry()]);
    }
    for p in it: sorted.into_iter()
        invariant
            it.seq() == sorted@,
            paths == paths_view(sorted@),
            keep@ == (|p: Seq<Seq<u8>>| p != root_manifest()),
            show@ == (|p: Seq<Seq<u8>>| file_entry(p)),
            entries_view(out@) == seq![manifest_entry()] + paths.take(it.index()).filter(
                keep@,
            ).map_values(show@),
    {
        let ghost longer = paths.take(it.index() + 1);
        let ghost before = out@;
        proof {
            reveal(Seq::filter);
            assert(longer.drop_last() =~= paths.take(it.index()));
            assert(longer.last() == p@);
        }
        let at_root = p.parts.len() == 1 && is_manifest(&p);
        proof {
            if at_root {
                assert(p@ =~= root_manifest());
            }
        }
        if !at_root {
            let name = name_in_zip(&p);
            out.push(ZipEntry { name, source: Some(p) });
            assert(entries_view(out@) =~= entries_view(before).push(file_entry(p@)));
            assert(longer.filter(keep@).map_values(show@) =~= paths.take(it.index()).filter(
                keep@,
            ).map_values(show@).push(file_entry(p@)));
        }
    }
    assert(paths.take(paths.len() as int) =~= paths);
    out
}

/// A package file does not depend on the order in which its files were found.
pub proof fn law_layout_is_deterministic(a: Seq<Seq<Seq<u8>>>, b: Seq<Seq<Seq<u8>>>)
    requires
        a.to_multiset() == b.to_multiset(),
    ensures
        layout(a) == layout(b),
{
    law_order_is_unique(a, b);
}

/// An entry is that of one of these files.
pub open spec fn holds_a_file(paths: Seq<Seq<Seq<u8>>>, e: EntryView) -> bool {
    exists|p: Seq<Seq<u8>>| #[trigger] paths.contains(p) && e == file_entry(p)
}

/// A package file starts with its manifest and holds every file besides, but for a
/// manifest at the root, and nothing else.
pub proof fn law_layout_is_complete(paths: Seq<Seq<Seq<u8>>>)
    ensures
        layout(paths)[0] == manifest_entry(),
        forall|p: Seq<Seq<u8>>|
            paths.contains(p) && p != root_manifest() <==> #[trigger] layout(
                paths,
            ).skip(1).contains(file_entry(p)),
        forall|i: int|
            0 < i < layout(paths).len() ==> holds_a_file(paths, #[trigger] layout(paths)[i]),
{
    let sorted = in_order(paths);
    let keep = |p: Seq<Seq<u8>>| p != root_manifest();
    let kept = sorted.filter(keep);
    law_order_keeps_the_paths(paths);
    assert forall|p: Seq<Seq<u8>>| #[trigger] paths.contains(p) <==> sorted.contains(p) by {
        broadcast use vstd::seq_lib::group_to_multiset_ensures;

        assert(paths.contains(p) <==> paths.to_multiset().count(p) > 0);
        assert(sorted.contains(p) <==> sorted.to_multiset().count(p) > 0);
    }
    assert forall|p: Seq<Seq<u8>>| #[trigger] kept.contains(p) <==> sorted.contains(p)
        && p != root_manifest() by {
        if sorted.contains(p) && keep(p) {
            let i = choose|i: int| 0 <= i < sorted.len() && sorted[i] == p;
            sorted.lemma_filter_contains(keep, i);
        }
        if kept.contains(p) {
            let i = choose|i: int| 0 <= i < kept.len() && kept[i] == p;
            sorted.lemma_filter_contains_rev(keep, p);
            sorted.lemma_filter_pred(keep, i);
        }
    }
    let tail = layout(paths).skip(1);
    assert(tail =~= kept.map_values(|p: Seq<Seq<u8>>| file_entry(p)));
    assert forall|p: Seq<Seq<u8>>|
        paths.contains(p) && p != root_manifest() <==> #[trigger] tail.contains(file_entry(p)) by {
        if paths.contains(p) && p != root_manifest() {
            assert(kept.contains(p));
            let i = choose|i: int| 0 <= i < kept.len() && kept[i] == p;
            assert(tail[i] == file_entry(p));
        }
        if tail.contains(file_entry(p)) {
            let i = choose|i: int| 0 <= i < tail.len() && tail[i] == file_entry(p);
            assert(tail[i].source == Some(kept[i]));
            assert(kept.contains(kept[i]));
        }
    }
    assert forall|i: int| 0 < i < layout(paths).len() implies holds_a_file(
        paths,
        #[trigger] layout(paths)[i],
    ) by {
        assert(layout(paths)[i] == tail[i - 1]);
        assert(kept.contains(kept[i - 1]));
        assert(paths.contains(kept[i - 1]));
    }
}

// ---------------------------------------------------------------------------
// Taking an upload apart
// ---------------------------------------------------------------------------

/// How an uploaded file becomes part of a package.
#[derive(Clone, Copy, Debug, PartialEq, Eq, Structural)]
pub enum Ingest {
    /// Its assets are put where their path names say.
    Unitypackage,
    /// Its entries are put where their names say.
    Zip,
    /// It is put at the root of the package as it is.
    Raw,
}

/// How an uploaded file of this name becomes part of a package.
pub open spec fn ingest_of(name: Seq<char>) -> Ingest {
    if ".unitypackage"@.is_suffix_of(lowercase(name)) {
        Ingest::Unitypackage
    } else if ".zip"@.is_suffix_of(lowercase(name)) {
        Ingest::Zip
    } else {
        Ingest::Raw
    }
}

/// How a file becomes part of a package, by its name in lower case.
pub fn ingest_by_suffix(lower: &str) -> (r: Ingest)
    ensures
        r == (if ".unitypackage"@.is_suffix_of(lower@) {
            Ingest::Unitypackage
        } else if ".zip"@.is_suffix_of(lower@) {
            Ingest::Zip
        } else {
            Ingest::Raw
        }),
{
    if ends_with(lower, ".unitypackage") {
        Ingest::Unitypackage
    } else if ends_with(lower, ".zip") {
        Ingest::Zip
    } else {
        Ingest::Raw
    }
}

/// How an uploaded file of this name becomes part of a package. Upper and lower case
/// are not told apart.
pub fn ingest_kind(name: &str) -> (r: Ingest)
    ensures
        r == ingest_of(name@),
{
    let lower = to_lowercase(name);
    ingest_by_suffix(lower.as_str())
}

/// Whether a file starts as a gzip file does.
pub fn is_gzip(start: &[u8]) -> (r: bool)
    ensures
        r == (start@.len() >= 2 && start@[0] == 0x1f && start@[1] == 0x8b),
{
    start.len() >= 2 && start[0] == 0x1f && start[1] == 0x8b
}

/// Where the two files of an asset are put.
#[derive(Debug)]
pub struct AssetTarget {
    pub asset: String,
    pub meta: String,
}

/// Where the files of an asset are put that has this text for its path name: at the
/// path, and beside it with another ending; nowhere where the text is blank.
pub fn asset_target(pathname: &str) -> (r: Option<AssetTarget>)
    ensures
        match r {
            Some(t) => trimmed(pathname@).len() > 0 && t.asset@ == trimmed(pathname@) && t.meta@
                == trimmed(pathname@) + ".meta"@,
            None => trimmed(pathname@).len() == 0,
        },
{
    let target = trim(pathname);
    if empty(target.as_str()) {
        return None;
    }
    let meta = cat2(target.as_str(), ".meta");
    Some(AssetTarget { asset: target, meta })
}

/// What is done with an entry of an uploaded zip file.
#[derive(Clone, Copy, Debug, PartialEq, Eq, Structural)]
pub enum Extract {
    Skip,
    MakeDirectory,
    WriteFile,
}

/// Whether a name leads up the directory tree at some point.
pub open spec fn climbs(name: Seq<char>) -> bool {
    pieces(name, '/').contains(".."@)
}

/// Whether a name starts at the root of the file system.
pub open spec fn is_absolute(name: Seq<char>) -> bool {
    name.len() > 0 && name[0] == '/'
}

/// What is done with an entry of an uploaded zip file.
pub open spec fn extract_of(name: Seq<char>, is_dir: bool) -> Extract {
    if name.len() == 0 || is_absolute(name) || climbs(name) {
        Extract::Skip
    } else if is_dir {
        Extract::MakeDirectory
    } else {
        Extract::WriteFile
    }
}

/// Whether a name leads into a folder.
pub open spec fn in_folder(name: Seq<char>) -> bool {
    pieces(name, '/').len() >= 2 && pieces(name, '/')[0] != "."@
}

/// Whether an asset of a `.unitypackage` goes into the directory of its package too. It
/// has to stay there, and must not take the place of a package file, since these lie in
/// that directory themselves.
pub open spec fn fits_directory(asset: Seq<char>) -> bool {
    extract_of(asset, false) == Extract::WriteFile && (in_folder(asset)
        || !".zip"@.is_suffix_of(asset))
}

/// Whether a way of these parts, that starts so deep below a directory, never leads out
/// of the directory.
pub open spec fn stays_below(parts: Seq<Seq<char>>, depth: nat) -> bool
    decreases parts.len(),
{
    if parts.len() == 0 {
        true
    } else if parts[0] == ".."@ {
        depth > 0 && stays_below(parts.drop_first(), (depth - 1) as nat)
    } else if parts[0].len() == 0 || parts[0] == "."@ {
        stays_below(parts.drop_first(), depth)
    } else {
        stays_below(parts.drop_first(), depth + 1)
    }
}

/// Whether a name leads to a place in the directory that it is taken from.
pub open spec fn stays_inside(name: Seq<char>) -> bool {
    !is_absolute(name) && stays_below(pieces(name, '/'), 0)
}

/// Whether a name starts at the root of the file system.
fn absolute(name: &str) -> (r: bool)
    ensures
        r == is_absolute(name@),
{
    let cs = chars_of(name);
    cs.len() > 0 && cs[0] == '/'
}

/// Whether a name leads up the directory tree at some point.
fn leads_up(name: &str) -> (r: bool)
    ensures
        r == climbs(name@),
{
    let parts = split(name, '/');
    contains_text(&parts, "..")
}

/// Whether a name leads to a place in the directory that it is taken from.
fn leads_inside(name: &str) -> (r: bool)
    ensures
        r == stays_inside(name@),
{
    if absolute(name) {
        return false;
    }
    let parts = split(name, '/');
    let ghost all = pieces(name@, '/');
    let mut depth: usize = 0;
    let mut i: usize = 0;
    assert(all.skip(0) =~= all);
    while i < parts.len()
        invariant
            i <= parts.len(),
            depth <= i,
            all == pieces(name@, '/'),
            all == texts(parts@),
            !is_absolute(name@),
            stays_below(all, 0) == stays_below(all.skip(i as int), depth as nat),
        decreases parts.len() - i,
    {
        assert(all.skip(i as int)[0] == parts@[i as int]@);
        assert(all.skip(i as int).drop_first() =~= all.skip(i + 1));
        let part = parts[i].as_str();
        if same(part, "..") {
            if depth == 0 {
                return false;
            }
            depth = depth - 1;
        } else if !empty(part) && !same(part, ".") {
            depth = depth + 1;
        }
        i = i + 1;
    }
    true
}

/// What is done with an entry of an uploaded zip file: an entry without a name, or with
/// one that starts at the root or leads up the directory tree, is left out.
pub fn extract_action(name: &str, is_dir: bool) -> (r: Extract)
    ensures
        r == extract_of(name@, is_dir),
{
    if empty(name) || absolute(name) || leads_up(name) {
        Extract::Skip
    } else if is_dir {
        Extract::MakeDirectory
    } else {
        Extract::WriteFile
    }
}

/// A way without a step up stays below the directory that it starts in.
proof fn lemma_stays_below(parts: Seq<Seq<char>>, depth: nat)
    requires
        !parts.contains(".."@),
    ensures
        stays_below(parts, depth),
    decreases parts.len(),
{
    if parts.len() > 0 {
        let rest = parts.drop_first();
        assert(parts.contains(parts[0]));
        assert forall|i: int| 0 <= i < rest.len() implies rest[i] != ".."@ by {
            assert(rest[i] == parts[i + 1]);
            assert(parts.contains(parts[i + 1]));
        }
        if parts[0].len() == 0 || parts[0] == "."@ {
            lemma_stays_below(rest, depth);
        } else {
            lemma_stays_below(rest, depth + 1);
        }
    }
}

/// Whatever is taken out of an uploaded zip file lands below the directory that it is
/// taken out to.
pub proof fn law_extraction_stays_inside(name: Seq<char>, is_dir: bool)
    requires
        extract_of(name, is_dir) != Extract::Skip,
    ensures
        stays_inside(name),
{
    lemma_stays_below(pieces(name, '/'), 0);
}

/// Whether an asset of a `.unitypackage` goes into the directory of its package too.
pub fn goes_into_directory(asset: &str) -> (r: bool)
    ensures
        r == fits_directory(asset@),
{
    if extract_action(asset, false) != Extract::WriteFile {
        return false;
    }
    let parts = split(asset, '/');
    assert(texts(parts@).len() == parts@.len());
    let folder = parts.len() >= 2 && !same(parts[0].as_str(), ".");
    folder || !ends_with(asset, ".zip")
}

/// Neither an asset in the directory of its package nor what comes beside it takes the
/// place of a package file there. (A version with a slash would have its package file
/// in a folder.)
pub proof fn law_assets_replace_no_package(
    asset: Seq<char>,
    dirname: Seq<char>,
    version: Seq<char>,
)
    requires
        fits_directory(asset),
        !dirname.contains('/'),
        !version.contains('/'),
    ensures
        stays_inside(asset),
        asset != zip_name(dirname, version),
        asset + ".meta"@ != zip_name(dirname, version),
{
    let file = zip_name(dirname, version);
    law_extraction_stays_inside(asset, false);
    reveal_strlit("-");
    reveal_strlit(".zip");
    reveal_strlit(".meta");
    assert(!file.contains('/')) by {
        assert forall|i: int| 0 <= i < file.len() implies file[i] != '/' by {
            if i < dirname.len() {
                assert(file[i] == dirname[i]);
            } else if i > dirname.len() && i < dirname.len() + 1 + version.len() {
                assert(file[i] == version[i - dirname.len() - 1]);
            }
        }
    }
    assert(".zip"@.is_suffix_of(file)) by {
        assert(file.subrange(file.len() - 4, file.len() as int) =~= ".zip"@);
    }
    lemma_pieces_append(Seq::empty(), file, '/');
    assert(Seq::<char>::empty() + file =~= file);
    assert(pieces(file, '/').len() == 1);
    assert(file.last() == 'p');
    assert((asset + ".meta"@).last() == 'a');
}

/// Whether an entry goes from a package file into the package file that is built
/// anew with another manifest. A name that leads out of the package is no part of it.
pub fn kept_in_rebuild(name: &str, is_dir: bool) -> (r: bool)
    ensures
        r == (!is_dir && name@ != "package.json"@ && stays_inside(name@)),
{
    !is_dir && !same(name, "package.json") && leads_inside(name)
}

/// Whether an entry belongs to a folder: it is the folder, or lies in it.
pub open spec fn belongs_to(name: Seq<char>, folder: Seq<char>) -> bool {
    name == folder || (folder + "/"@).is_prefix_of(name)
}

/// Whether an entry goes from a package file into the one that is built anew without
/// a folder.
pub fn kept_in_conversion(name: &str, is_dir: bool, folder: &str) -> (r: bool)
    ensures
        r == (extract_of(name@, is_dir) == Extract::WriteFile && name@ != "package.json"@
            && !belongs_to(name@, folder@)),
{
    let inside = cat2(folder, "/");
    extract_action(name, is_dir) == Extract::WriteFile && !same(name, "package.json") && !same(
        name,
        folder,
    ) && !starts_with(name, inside.as_str())
}

/// A safe name is taken out of an uploaded zip file: one that is not empty, does not
/// start at the root and has no part that leads up.
pub proof fn law_safe_names_are_extracted(name: Seq<char>, is_dir: bool)
    requires
        name.len() > 0,
        name[0] != '/',
        forall|i: int| 0 <= i < pieces(name, '/').len() ==> #[trigger] pieces(name, '/')[i] != ".."@,
    ensures
        extract_of(name, is_dir) == (if is_dir {
            Extract::MakeDirectory
        } else {
            Extract::WriteFile
        }),
        stays_inside(name),
{
    law_extraction_stays_inside(name, is_dir);
}

/// A folder is left out with all that lies in it, and nothing else is: neither what only
/// starts like it nor what lies elsewhere.
pub proof fn law_folder_is_left_out(folder: Seq<char>, rest: Seq<char>, c: char)
    requires
        c != '/',
    ensures
        belongs_to(folder, folder),
        belongs_to(folder + "/"@ + rest, folder),
        !belongs_to(folder + seq![c] + rest, folder),
{
    reveal_strlit("/");
    let inside = folder + "/"@ + rest;
    let front = folder + "/"@;
    assert(inside.subrange(0, front.len() as int) =~= front);
    let beside = folder + seq![c] + rest;
    assert(beside.len() > folder.len());
    assert(beside[folder.len() as int] == c);
    if front.is_prefix_of(beside) {
        assert(front[folder.len() as int] == '/');
        assert(beside.subrange(0, front.len() as int)[folder.len() as int] == c);
    }
}

/// An uploaded file is taken apart by the ending of its name, in capitals or not: a
/// `.unitypackage` and a `.zip`; any other file goes into the package as it is.
pub proof fn law_files_are_ingested_by_their_ending(name: Seq<char>, front: Seq<char>)
    ensures
        lowercase(name) == front + ".unitypackage"@ ==> ingest_of(name) == Ingest::Unitypackage,
        lowercase(name) == front + ".zip"@ ==> ingest_of(name) == Ingest::Zip,
        ingest_of(name) == Ingest::Raw ==> lowercase(name) != front + ".zip"@ && lowercase(name)
            != front + ".unitypackage"@,
        ingest_of(name) == Ingest::Zip ==> ".zip"@.is_suffix_of(lowercase(name)),
        ingest_of(name) == Ingest::Unitypackage ==> ".unitypackage"@.is_suffix_of(lowercase(name)),
{
    reveal_strlit(".unitypackage");
    reveal_strlit(".zip");
    let unity = front + ".unitypackage"@;
    let zip = front + ".zip"@;
    assert(unity.subrange(front.len() as int, unity.len() as int) =~= ".unitypackage"@);
    assert(zip.subrange(front.len() as int, zip.len() as int) =~= ".zip"@);
    if ".unitypackage"@.is_suffix_of(zip) {
        assert(zip.last() == 'p');
        assert(zip.subrange(zip.len() - 13, zip.len() as int).last() == 'e');
    }
}

/// The entry of a file in a package is named by its path, with slashes between the parts
/// and in place of backslashes, and holds that file; the manifest comes first.
pub proof fn law_entries_are_named_by_their_paths(path: Seq<Seq<u8>>, part: Seq<u8>)
    ensures
        file_entry(path).source == Some(path),
        file_entry(path).name == replaced(utf8_lossy(slashed(path)), '\\', '/'),
        slashed(seq![part]) == part,
        path.len() > 0 ==> slashed(path.push(part)) == slashed(path) + seq![0x2fu8] + part,
        manifest_entry().name == "package.json"@,
        manifest_entry().source is None,
{
    assert(path.push(part).drop_last() =~= path);
}

/// The files of a package follow each other by their paths: a folder before what lies in
/// it, and else by the first part that differs, byte by byte.
pub proof fn law_files_follow_each_other(
    front: Seq<Seq<u8>>,
    a: Seq<Seq<u8>>,
    b: Seq<Seq<u8>>,
)
    ensures
        b.len() > 0 ==> path_before(front, front + b),
        a.len() > 0 && b.len() > 0 && name_before(a[0], b[0]) && a[0] != b[0] ==> path_before(
            front + a,
            front + b,
        ),
    decreases front.len(),
{
    if front.len() == 0 {
        assert(front + a =~= a);
        assert(front + b =~= b);
    } else {
        let rest = front.drop_first();
        law_files_follow_each_other(rest, a, b);
        assert((front + a).drop_first() =~= rest + a);
        assert((front + b).drop_first() =~= rest + b);
    }
}

/// Names follow each other byte by byte: a name before all that start with it, and else
/// the one with the smaller byte at the first difference.
pub proof fn law_names_follow_each_other(front: Seq<u8>, a: Seq<u8>, b: Seq<u8>)
    ensures
        b.len() > 0 ==> name_before(front, front + b),
        a.len() > 0 && b.len() > 0 && a[0] < b[0] ==> name_before(front + a, front + b),
    decreases front.len(),
{
    if front.len() == 0 {
        assert(front + a =~= a);
        assert(front + b =~= b);
    } else {
        let rest = front.drop_first();
        law_names_follow_each_other(rest, a, b);
        assert((front + a).drop_first() =~= rest + a);
        assert((front + b).drop_first() =~= rest + b);
    }
}

/// The files of a package stand in the order of their paths, whatever the order in which
/// they were found.
pub proof fn law_files_stand_in_order(paths: Seq<Seq<Seq<u8>>>, i: int, j: int)
    requires
        0 < i < j < layout(paths).len(),
    ensures
        layout(paths)[i].source matches Some(a) && (layout(paths)[j].source matches Some(b) && (a
            == b || path_before(a, b))),
{
    let sorted = in_order(paths);
    let keep = |p: Seq<Seq<u8>>| p != root_manifest();
    let kept = sorted.filter(keep);
    law_order_is_kept(paths);
    lemma_filter_keeps_order(sorted, keep, i - 1, j - 1);
    assert(layout(paths)[i] == file_entry(kept[i - 1]));
    assert(layout(paths)[j] == file_entry(kept[j - 1]));
}

/// What is left of paths in their order is in their order.
proof fn lemma_filter_keeps_order(
    s: Seq<Seq<Seq<u8>>>,
    keep: spec_fn(Seq<Seq<u8>>) -> bool,
    i: int,
    j: int,
)
    requires
        0 <= i < j < s.filter(keep).len(),
        forall|a: int, b: int|
            0 <= a < b < s.len() ==> #[trigger] s[a] == #[trigger] s[b] || path_before(s[a], s[b]),
    ensures
        s.filter(keep)[i] == s.filter(keep)[j] || path_before(s.filter(keep)[i], s.filter(keep)[j]),
    decreases s.len(),
{
    reveal(Seq::filter);
    let head = s.drop_last();
    let sub = head.filter(keep);
    assert forall|a: int, b: int| 0 <= a < b < head.len() implies #[trigger] head[a]
        == #[trigger] head[b] || path_before(head[a], head[b]) by {
        assert(head[a] == s[a] && head[b] == s[b]);
    }
    if j < sub.len() {
        lemma_filter_keeps_order(head, keep, i, j);
    } else {
        assert(s.filter(keep)[j] == s.last());
        assert(s.filter(keep)[i] == sub[i]);
        assert(sub.contains(sub[i]));
        head.lemma_filter_contains_rev(keep, sub[i]);
        let a = choose|a: int| 0 <= a < head.len() && head[a] == sub[i];
        assert(s[a] == sub[i]);
        assert(s[s.len() - 1] == s.last());
    }
}

/// An asset with a safe path goes into the directory of its package: from a folder any,
/// and else any that is no zip file.
pub proof fn law_assets_go_into_the_directory(asset: Seq<char>)
    requires
        asset.len() > 0,
        asset[0] != '/',
        forall|i: int|
            0 <= i < pieces(asset, '/').len() ==> #[trigger] pieces(asset, '/')[i] != ".."@,
        (pieces(asset, '/').len() >= 2 && pieces(asset, '/')[0] != "."@) || !".zip"@.is_suffix_of(
            asset,
        ),
    ensures
        fits_directory(asset),
{
    law_safe_names_are_extracted(asset, false);
}

/// A name that starts with a way up, or at the root, leads out of the directory.
pub proof fn law_ways_up_lead_out(rest: Seq<char>)
    ensures
        !stays_inside("../"@ + rest),
        !stays_inside("/"@ + rest),
{
    reveal_strlit("../");
    reveal_strlit("..");
    reveal_strlit("/");
    let name = "../"@ + rest;
    assert(".."@ =~= seq!['.', '.']);
    assert("../"@.drop_last() =~= ".."@);
    lemma_pieces_append(Seq::empty(), ".."@, '/');
    assert(Seq::<char>::empty() + ".."@ =~= ".."@);
    assert(pieces(Seq::empty(), '/') =~= seq![Seq::<char>::empty()]);
    assert(pieces(".."@, '/') =~= seq![".."@]);
    assert(pieces("../"@, '/') =~= seq![".."@, Seq::<char>::empty()]);
    lemma_first_piece("../"@, rest, '/');
    assert(pieces(name, '/')[0] == ".."@);
    assert(("/"@ + rest)[0] == '/');
}

/// What follows a separator does not change the first piece.
proof fn lemma_first_piece(s: Seq<char>, t: Seq<char>, sep: char)
    requires
        pieces(s, sep).len() >= 2,
    ensures
        pieces(s + t, sep).len() >= 2,
        pieces(s + t, sep)[0] == pieces(s, sep)[0],
    decreases t.len(),
{
    if t.len() == 0 {
        assert(s + t =~= s);
    } else {
        lemma_first_piece(s, t.drop_last(), sep);
        assert((s + t).drop_last() =~= s + t.drop_last());
    }
}

} // verus!
