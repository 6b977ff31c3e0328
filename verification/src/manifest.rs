//! The manifest of a package, and the entry of its version in the registry.

use vstd::prelude::*;
use vstd::string::*;

use crate::codec::{json_text, parse};
use crate::edits::{can_publish, law_publication, member_or_null, package_or_new, published};
use crate::error::Fault;
use crate::json::{Json, JsonView, member, seen, seen_ref, text_of_value};
use crate::paths::FilePath;
use crate::registry::{
    category, file_of_version, first_categorized, is_categorized, is_first_categorized,
    lemma_first_categorized, lemma_first_categorized_exists, package, versions,
};
use crate::text::{chars_of, lemma_precedes_total, lemma_precedes_transitive, precedes};
use crate::urls::{law_address_names_the_file, zip_address, zip_file};

verus! {

// ---------------------------------------------------------------------------
// The manifest that an upload brings along
// ---------------------------------------------------------------------------

/// The bytes of the file name of a manifest.
pub open spec fn manifest_name() -> Seq<u8> {
    "package.json"@.map_values(|c: char| c as u8)
}

/// A file of an upload.
#[derive(Debug)]
pub struct FoundFile {
    pub path: FilePath,
    /// The text of the file, where it could be read.
    pub text: Option<String>,
}

/// Whether a path leads to a manifest.
pub open spec fn names_manifest(path: Seq<Seq<u8>>) -> bool {
    path.len() > 0 && path.last() == manifest_name()
}

/// Whether a path leads to a manifest.
pub fn is_manifest(path: &FilePath) -> (r: bool)
    ensures
        r == names_manifest(path@),
{
    if path.parts.len() == 0 {
        return false;
    }
    let name = &path.parts[path.parts.len() - 1];
    let wanted = chars_of("package.json");
    if name.len() != wanted.len() {
        return false;
    }
    let mut i: usize = 0;
    while i < wanted.len()
        invariant
            i <= wanted.len(),
            name@.len() == wanted@.len(),
            wanted@ == "package.json"@,
            path@.len() > 0,
            name@ == path@.last(),
            forall|j: int| 0 <= j < i ==> name@[j] == (#[trigger] wanted@[j]) as u8,
        decreases wanted.len() - i,
    {
        if name[i] != wanted[i] as u8 {
            assert(name@[i as int] != manifest_name()[i as int]);
            return false;
        }
        i = i + 1;
    }
    assert(name@ =~= manifest_name());
    true
}

/// A value counts as a manifest where it is an object with a name.
pub open spec fn as_manifest(v: Option<JsonView>) -> Option<JsonView> {
    match v {
        Some(j) => if j.get("name"@) is Some {
            Some(j)
        } else {
            None
        },
        None => None,
    }
}

/// A file that may hold a manifest: how deep it lies, and the value that it holds.
#[derive(Debug)]
pub struct Candidate {
    pub depth: usize,
    pub value: Option<Json>,
}

/// What a candidate says.
pub struct CandidateView {
    pub depth: nat,
    pub value: Option<JsonView>,
}

impl View for Candidate {
    type V = CandidateView;

    open spec fn view(&self) -> CandidateView {
        CandidateView { depth: self.depth as nat, value: seen(self.value) }
    }
}

/// What candidates say.
pub open spec fn candidates_view(v: Seq<Candidate>) -> Seq<CandidateView> {
    v.map_values(|c: Candidate| c@)
}

/// The candidate that comes first: one that holds a manifest, such that every other
/// one that does is deeper, or as deep and further back in the list.
pub open spec fn is_nearest(files: Seq<CandidateView>, i: int) -> bool {
    &&& 0 <= i < files.len()
    &&& as_manifest(files[i].value) is Some
    &&& forall|j: int|
        0 <= j < files.len() && as_manifest((#[trigger] files[j]).value) is Some
            ==> files[i].depth < files[j].depth || (files[i].depth == files[j].depth && i <= j)
}

/// The manifest that candidates hold: that of the first one.
pub open spec fn nearest(files: Seq<CandidateView>) -> Option<JsonView> {
    if exists|i: int| is_nearest(files, i) {
        files[choose|i: int| is_nearest(files, i)].value
    } else {
        None
    }
}

/// There is but one candidate that comes first.
proof fn lemma_nearest(files: Seq<CandidateView>, i: int)
    requires
        is_nearest(files, i),
    ensures
        nearest(files) == files[i].value,
{
    let k = choose|k: int| is_nearest(files, k);
    assert(is_nearest(files, k));
    assert(files[k].depth < files[i].depth || (files[k].depth == files[i].depth && k <= i));
}

/// The manifest that candidates hold: that of the one that lies least deep, and of
/// several that lie as deep the first.
pub fn nearest_manifest(files: Vec<Candidate>) -> (r: Option<Json>)
    ensures
        seen(r) == nearest(candidates_view(files@)),
{
    let ghost all = candidates_view(files@);
    let mut best: Option<(usize, Json)> = None;
    let ghost mut at: int = 0;
    for c in it: files.into_iter()
        invariant
            it.seq() == files@,
            all == candidates_view(files@),
            match best {
                Some((d, v)) => is_nearest(all.take(it.index()), at) && d == all[at].depth
                    && all[at].value == Some(v@),
                None => forall|j: int|
                    0 <= j < it.index() ==> as_manifest((#[trigger] all[j]).value) is None,
            },
    {
        let ghost i = it.index();
        let ghost head = all.take(i);
        let ghost longer = all.take(i + 1);
        proof {
            assert(all[i] == c@);
            assert(forall|j: int| 0 <= j < i ==> (#[trigger] longer[j]) == head[j]);
            assert(longer[i] == all[i]);
            assert(forall|j: int| 0 <= j < i ==> head[j] == (#[trigger] all[j]));
        }
        let nearer = match &best {
            Some((d, _)) => c.depth < *d,
            None => true,
        };
        match c.value {
            Some(v) => {
                if v.has("name") && nearer {
                    best = Some((c.depth, v));
                    proof {
                        at = i;
                    }
                }
            },
            None => {},
        }
    }
    proof {
        assert(all.take(all.len() as int) =~= all);
        if best is Some {
            lemma_nearest(all, at);
        }
    }
    match best {
        Some((_, v)) => Some(v),
        None => None,
    }
}

/// The candidate that a file is: it holds the value of its text, where it has the name
/// of a manifest and its text is JSON.
pub open spec fn candidate_in(f: FoundFile) -> CandidateView {
    CandidateView {
        depth: f.path@.len(),
        value: if names_manifest(f.path@) {
            match f.text {
                Some(t) => match json_text(t@) {
                    Ok(v) => Some(v),
                    Err(_) => None,
                },
                None => None,
            }
        } else {
            None
        },
    }
}

/// The candidate that a file is.
fn read_candidate(f: &FoundFile) -> (r: Candidate)
    ensures
        r@ == candidate_in(*f),
{
    let depth = f.path.parts.len();
    if !is_manifest(&f.path) {
        return Candidate { depth, value: None };
    }
    let value = match &f.text {
        Some(t) => match parse(t.as_str()) {
            Ok(v) => Some(v),
            Err(_) => None,
        },
        None => None,
    };
    Candidate { depth, value }
}

/// The manifest that the files of an upload bring along: the one that lies least
/// deep, and of several that lie as deep the first.
pub fn find_internal_pkg_json(files: &Vec<FoundFile>) -> (r: Option<Json>)
    ensures
        seen(r) == nearest(files@.map_values(|f: FoundFile| candidate_in(f))),
{
    let mut list: Vec<Candidate> = Vec::new();
    let mut i: usize = 0;
    while i < files.len()
        invariant
            i <= files.len(),
            list.len() == i,
            forall|j: int| 0 <= j < i ==> (#[trigger] list@[j])@ == candidate_in(files@[j]),
        decreases files.len() - i,
    {
        list.push(read_candidate(&files[i]));
        i = i + 1;
    }
    assert(candidates_view(list@) =~= files@.map_values(|f: FoundFile| candidate_in(f)));
    nearest_manifest(list)
}

// ---------------------------------------------------------------------------
// The manifest that is published
// ---------------------------------------------------------------------------

/// The text of a member, or another text where there is no such member or it is no
/// text.
pub open spec fn text_or(meta: Option<JsonView>, key: Seq<char>, other: Seq<char>) -> Seq<char> {
    match text_of_value(member(meta, key)) {
        Some(t) => t,
        None => other,
    }
}

/// The member of a value, or another value where there is no such member.
pub open spec fn value_or(meta: Option<JsonView>, key: Seq<char>, other: JsonView) -> JsonView {
    match member(meta, key) {
        Some(v) => v,
        None => other,
    }
}

/// An author with this name.
pub open spec fn author_named(name: Seq<char>) -> JsonView {
    JsonView::Object(Map::empty().insert("name"@, JsonView::Text(name)))
}

/// The members that every published manifest has. What the upload says of itself
/// stands, but for the name, the version, the category and the address.
pub open spec fn manifest_base(
    name: Seq<char>,
    version: Seq<char>,
    category: Seq<char>,
    url: Seq<char>,
    meta: Option<JsonView>,
    author: Seq<char>,
) -> Map<Seq<char>, JsonView> {
    Map::<Seq<char>, JsonView>::empty().insert("name"@, JsonView::Text(name)).insert(
        "displayName"@,
        JsonView::Text(text_or(meta, "displayName"@, name)),
    ).insert("version"@, JsonView::Text(version)).insert(
        "unity"@,
        JsonView::Text(text_or(meta, "unity"@, "2022.3"@)),
    ).insert("description"@, JsonView::Text(text_or(meta, "description"@, Seq::empty()))).insert(
        "keywords"@,
        value_or(meta, "keywords"@, JsonView::Array(Seq::empty())),
    ).insert("author"@, value_or(meta, "author"@, author_named(author))).insert(
        "dependencies"@,
        value_or(meta, "dependencies"@, JsonView::Object(Map::empty())),
    ).insert(
        "vpmDependencies"@,
        value_or(meta, "vpmDependencies"@, JsonView::Object(Map::empty())),
    ).insert("category"@, JsonView::Text(category)).insert("url"@, JsonView::Text(url))
}

/// The published manifest. A release of Unity and a list of legacy packages are in
/// it where the upload names any.
pub open spec fn manifest(
    name: Seq<char>,
    version: Seq<char>,
    category: Seq<char>,
    url: Seq<char>,
    meta: Option<JsonView>,
    author: Seq<char>,
) -> JsonView {
    let base = manifest_base(name, version, category, url, meta, author);
    let release = text_or(meta, "unityRelease"@, Seq::empty());
    let released = if release.len() > 0 {
        base.insert("unityRelease"@, JsonView::Text(release))
    } else {
        base
    };
    JsonView::Object(
        match member(meta, "legacyPackages"@) {
            Some(JsonView::Array(items)) => if items.len() > 0 {
                released.insert("legacyPackages"@, JsonView::Array(items))
            } else {
                released
            },
            _ => released,
        },
    )
}

/// What a borrowed manifest that may be missing says.
fn meta_text(meta: Option<&Json>, key: &str, other: &str) -> (r: Json)
    ensures
        r@ == JsonView::Text(text_or(seen_ref(meta), key@, other@)),
{
    match meta {
        Some(m) => match m.text_at(key) {
            Some(t) => Json::of_text(t),
            None => Json::of_text(other),
        },
        None => Json::of_text(other),
    }
}

/// The member of a manifest that may be missing.
fn meta_value(meta: Option<&Json>, key: &str, other: Json) -> (r: Json)
    ensures
        r@ == value_or(seen_ref(meta), key@, other@),
{
    match meta {
        Some(m) => match m.get(key) {
            Some(v) => v.clone(),
            None => other,
        },
        None => other,
    }
}

/// Builds the manifest of a package version, out of what the upload brought along
/// and the author to name where the upload names none.
pub fn build_pkg_json(
    name: &str,
    version: &str,
    category: &str,
    url: &str,
    internal: Option<&Json>,
    author: &str,
) -> (r: Json)
    ensures
        r@ == manifest(name@, version@, category@, url@, seen_ref(internal), author@),
{
    let ghost meta = seen_ref(internal);
    let mut default_author = Json::object();
    default_author.set("name", Json::of_text(author));
    let none: Vec<Json> = Vec::new();
    let no_items = Json::Array(none);
    assert(no_items@ == JsonView::Array(Seq::empty()));
    proof {
        reveal_strlit("");
        assert(""@ =~= Seq::<char>::empty());
    }
    let mut m = Json::object();
    m.set("name", Json::of_text(name));
    m.set("displayName", meta_text(internal, "displayName", name));
    m.set("version", Json::of_text(version));
    m.set("unity", meta_text(internal, "unity", "2022.3"));
    m.set("description", meta_text(internal, "description", ""));
    m.set("keywords", meta_value(internal, "keywords", no_items));
    m.set("author", meta_value(internal, "author", default_author));
    m.set("dependencies", meta_value(internal, "dependencies", Json::object()));
    m.set("vpmDependencies", meta_value(internal, "vpmDependencies", Json::object()));
    m.set("category", Json::of_text(category));
    m.set("url", Json::of_text(url));
    assert(m@ == JsonView::Object(
        manifest_base(name@, version@, category@, url@, meta, author@),
    ));
    let release = meta_text(internal, "unityRelease", "");
    match release {
        Json::Text(t) => {
            let cs = chars_of(t.as_str());
            if cs.len() > 0 {
                m.set("unityRelease", Json::Text(t));
            }
        },
        _ => {},
    }
    match internal {
        Some(v) => match v.get("legacyPackages") {
            Some(l) => if l.has_items() {
                m.set("legacyPackages", l.clone());
            },
            None => {},
        },
        None => {},
    }
    m
}

/// The author to name where an upload names none.
pub open spec fn default_author(given: Option<Seq<char>>) -> Seq<char> {
    match given {
        Some(a) => a,
        None => "VPM Shop"@,
    }
}

/// The author to name where an upload names none: the one that the shop was
/// configured with.
pub fn package_author(given: Option<String>) -> (r: String)
    ensures
        r@ == default_author(
            match given {
                Some(a) => Some(a@),
                None => None,
            },
        ),
{
    match given {
        Some(a) => a,
        None => "VPM Shop".to_string(),
    }
}

// ---------------------------------------------------------------------------
// The entry in the registry
// ---------------------------------------------------------------------------

/// The entry of a version with this manifest.
pub open spec fn version_entry(
    name: Seq<char>,
    version: Seq<char>,
    category: Seq<char>,
    url: Seq<char>,
    pkg: JsonView,
    checksum: Seq<char>,
) -> JsonView {
    JsonView::Object(
        Map::<Seq<char>, JsonView>::empty().insert("name"@, JsonView::Text(name)).insert(
            "displayName"@,
            member_or_null(pkg, "displayName"@),
        ).insert("version"@, JsonView::Text(version)).insert(
            "unity"@,
            member_or_null(pkg, "unity"@),
        ).insert("description"@, member_or_null(pkg, "description"@)).insert(
            "author"@,
            member_or_null(pkg, "author"@),
        ).insert("url"@, JsonView::Text(url)).insert(
            "dependencies"@,
            member_or_null(pkg, "dependencies"@),
        ).insert("vpmDependencies"@, member_or_null(pkg, "vpmDependencies"@)).insert(
            "category"@,
            JsonView::Text(category),
        ).insert("zipSHA256"@, JsonView::Text(checksum)),
    )
}

/// A copy of a member; a null where there is none.
fn copy_or_null(v: &Json, key: &str) -> (r: Json)
    ensures
        r@ == member_or_null(v@, key@),
{
    match v.get(key) {
        Some(j) => j.clone(),
        None => Json::Null,
    }
}

/// The entry of a version with this manifest.
pub fn build_version_entry(
    name: &str,
    version: &str,
    category: &str,
    url: &str,
    pkg: &Json,
    checksum: &str,
) -> (r: Json)
    ensures
        r@ == version_entry(name@, version@, category@, url@, pkg@, checksum@),
{
    let mut e = Json::object();
    e.set("name", Json::of_text(name));
    e.set("displayName", copy_or_null(pkg, "displayName"));
    e.set("version", Json::of_text(version));
    e.set("unity", copy_or_null(pkg, "unity"));
    e.set("description", copy_or_null(pkg, "description"));
    e.set("author", copy_or_null(pkg, "author"));
    e.set("url", Json::of_text(url));
    e.set("dependencies", copy_or_null(pkg, "dependencies"));
    e.set("vpmDependencies", copy_or_null(pkg, "vpmDependencies"));
    e.set("category", Json::of_text(category));
    e.set("zipSHA256", Json::of_text(checksum));
    e
}

// ---------------------------------------------------------------------------
// Laws
// ---------------------------------------------------------------------------

/// The keys of a manifest and of an entry are told apart.
proof fn lemma_keys()
    ensures
        "name"@.len() == 4,
        "displayName"@.len() == 11,
        "displayName"@[1] == 'i',
        "version"@.len() == 7,
        "unity"@.len() == 5,
        "description"@.len() == 11,
        "description"@[1] == 'e',
        "keywords"@.len() == 8,
        "keywords"@[0] == 'k',
        "author"@.len() == 6,
        "dependencies"@.len() == 12,
        "dependencies"@[0] == 'd',
        "vpmDependencies"@.len() == 15,
        "category"@.len() == 8,
        "category"@[0] == 'c',
        "url"@.len() == 3,
        "zipSHA256"@.len() == 9,
        "unityRelease"@.len() == 12,
        "unityRelease"@[0] == 'u',
        "legacyPackages"@.len() == 14,
{
    reveal_strlit("name");
    reveal_strlit("displayName");
    reveal_strlit("version");
    reveal_strlit("unity");
    reveal_strlit("description");
    reveal_strlit("keywords");
    reveal_strlit("author");
    reveal_strlit("dependencies");
    reveal_strlit("vpmDependencies");
    reveal_strlit("category");
    reveal_strlit("url");
    reveal_strlit("zipSHA256");
    reveal_strlit("unityRelease");
    reveal_strlit("legacyPackages");
}

/// The keys that an entry has in common with the manifest of its version.
pub open spec fn is_shared_key(key: Seq<char>) -> bool {
    ||| key == "name"@
    ||| key == "displayName"@
    ||| key == "version"@
    ||| key == "unity"@
    ||| key == "description"@
    ||| key == "author"@
    ||| key == "url"@
    ||| key == "dependencies"@
    ||| key == "vpmDependencies"@
    ||| key == "category"@
}

/// The registry says of a version what its manifest says: the entry is made of the
/// manifest's own members, and of the checksum.
pub proof fn law_entry_agrees_with_manifest(
    name: Seq<char>,
    version: Seq<char>,
    category: Seq<char>,
    url: Seq<char>,
    meta: Option<JsonView>,
    author: Seq<char>,
    checksum: Seq<char>,
    key: Seq<char>,
)
    ensures
        ({
            let pkg = manifest(name, version, category, url, meta, author);
            let entry = version_entry(name, version, category, url, pkg, checksum);
            if is_shared_key(key) {
                entry.get(key) is Some && entry.get(key) == pkg.get(key)
            } else {
                entry.get(key) == (if key == "zipSHA256"@ {
                    Some(JsonView::Text(checksum))
                } else {
                    None
                })
            }
        }),
{
    lemma_keys();
}

/// What an upload says of itself never changes under which name, version, category
/// and address it is published.
pub proof fn law_manifest_is_stamped(
    name: Seq<char>,
    version: Seq<char>,
    category: Seq<char>,
    url: Seq<char>,
    meta: Option<JsonView>,
    author: Seq<char>,
)
    ensures
        ({
            let pkg = manifest(name, version, category, url, meta, author);
            &&& pkg.get("name"@) == Some(JsonView::Text(name))
            &&& pkg.get("version"@) == Some(JsonView::Text(version))
            &&& pkg.get("category"@) == Some(JsonView::Text(category))
            &&& pkg.get("url"@) == Some(JsonView::Text(url))
        }),
{
    lemma_keys();
}

/// The entry of a version names its category.
pub proof fn lemma_entry_category(
    name: Seq<char>,
    version: Seq<char>,
    category: Seq<char>,
    url: Seq<char>,
    pkg: JsonView,
    checksum: Seq<char>,
)
    ensures
        version_entry(name, version, category, url, pkg, checksum).get("category"@) == Some(
            JsonView::Text(category),
        ),
{
    lemma_keys();
}

/// The file of a published version is found again: the registry leads from the
/// version to the file that it was published in. An address with a question mark
/// would be cut off there.
pub proof fn law_published_file_is_found(
    repo: JsonView,
    host: Seq<char>,
    name: Seq<char>,
    version: Seq<char>,
    category: Seq<char>,
    dirname: Seq<char>,
    pkg: JsonView,
    checksum: Seq<char>,
)
    requires
        repo.get("packages"@) is Some,
        can_publish(repo, name),
        !zip_address(host, category, dirname, version).contains('?'),
    ensures
        ({
            let url = zip_address(host, category, dirname, version);
            let entry = version_entry(name, version, category, url, pkg, checksum);
            file_of_version(published(repo, name, version, entry), host, name, version) == Ok::<
                Seq<char>,
                Fault,
            >(zip_file(category, dirname, version))
        }),
{
    let url = zip_address(host, category, dirname, version);
    let entry = version_entry(name, version, category, url, pkg, checksum);
    lemma_keys();
    law_publication(repo, name, version, entry);
    law_address_names_the_file(host, category, dirname, version);
    let after = published(repo, name, version, entry);
    assert(versions(after, name)->0[version] == entry);
    assert(entry.get("url"@) == Some(JsonView::Text(url)));
}

/// A package that is uploaded again without a category stays in the category that
/// it was first published in.
pub proof fn law_category_is_kept(
    repo: JsonView,
    name: Seq<char>,
    version: Seq<char>,
    cat: Seq<char>,
    url: Seq<char>,
    pkg: JsonView,
    checksum: Seq<char>,
)
    requires
        repo.get("packages"@) matches Some(p) && p.assignable(),
        package(repo, name) is None,
    ensures
        category(
            published(
                repo,
                name,
                version,
                version_entry(name, version, cat, url, pkg, checksum),
            ),
            name,
        ) == Some(cat),
{
    let entry = version_entry(name, version, cat, url, pkg, checksum);
    let after = published(repo, name, version, entry);
    lemma_keys();
    law_publication(repo, name, version, entry);
    reveal_strlit("versions");
    assert("versions"@[0] == 'v');
    let m = versions(after, name)->0;
    assert(m == Map::<Seq<char>, JsonView>::empty().insert(version, entry));
    assert(is_first_categorized(m, version));
    lemma_first_categorized(m, version);
    assert(package(after, name)->0 == package_or_new(after, name));
    assert(package_or_new(after, name).get("category"@) == package_or_new(repo, name).get(
        "category"@,
    ));
}

/// A package does not drift: another version of it, uploaded into the category that
/// the package has, leaves the package in that category.
pub proof fn law_category_does_not_drift(
    repo: JsonView,
    name: Seq<char>,
    version: Seq<char>,
    url: Seq<char>,
    pkg: JsonView,
    checksum: Seq<char>,
)
    requires
        repo.get("packages"@) is Some,
        can_publish(repo, name),
        category(repo, name) is Some,
        versions(repo, name) matches Some(m) ==> m.dom().finite(),
    ensures
        category(
            published(
                repo,
                name,
                version,
                version_entry(name, version, category(repo, name)->0, url, pkg, checksum),
            ),
            name,
        ) == category(repo, name),
{
    let cat = category(repo, name)->0;
    let entry = version_entry(name, version, cat, url, pkg, checksum);
    let after = published(repo, name, version, entry);
    lemma_keys();
    law_publication(repo, name, version, entry);
    reveal_strlit("versions");
    assert("versions"@[0] == 'v');
    assert(package(after, name)->0 == package_or_new(after, name));
    assert(package_or_new(after, name).get("category"@) == package_or_new(repo, name).get(
        "category"@,
    ));
    if text_of_value(member(package(repo, name), "category"@)) is None {
        let m = versions(repo, name)->0;
        let n = versions(after, name)->0;
        assert(n == m.insert(version, entry));
        let f = first_categorized(m);
        lemma_first_categorized_exists(m);
        assert(is_categorized(n, version));
        assert forall|other: Seq<char>| other != version implies #[trigger] is_categorized(n, other)
            == is_categorized(m, other) by {}
        let first = if version == f || precedes(version, f) {
            version
        } else {
            f
        };
        lemma_precedes_total(version, f);
        assert forall|other: Seq<char>| #[trigger] is_categorized(n, other) implies other == first
            || precedes(first, other) by {
            if other != version {
                assert(is_categorized(m, other));
                if first == version && other != f && version != f {
                    lemma_precedes_transitive(version, f, other);
                }
            }
        }
        assert(is_first_categorized(n, first));
        lemma_first_categorized(n, first);
    }
}

/// Whether a manifest has the text that an upload names for a member, or another one
/// where it names none.
pub open spec fn has_text_of(
    pkg: JsonView,
    meta: Option<JsonView>,
    key: Seq<char>,
    other: Seq<char>,
) -> bool {
    match member(meta, key) {
        Some(JsonView::Text(t)) => pkg.get(key) == Some(JsonView::Text(t)),
        _ => pkg.get(key) == Some(JsonView::Text(other)),
    }
}

/// Whether a manifest has the member that an upload has, or another one where it has
/// none.
pub open spec fn has_member_of(
    pkg: JsonView,
    meta: Option<JsonView>,
    key: Seq<char>,
    other: JsonView,
) -> bool {
    match member(meta, key) {
        Some(v) => pkg.get(key) == Some(v),
        None => pkg.get(key) == Some(other),
    }
}

/// Whether a manifest says of a package with this name what the upload says of it, as far
/// as it says anything.
pub open spec fn says_of_itself(
    pkg: JsonView,
    meta: Option<JsonView>,
    name: Seq<char>,
    author: Seq<char>,
) -> bool {
    &&& has_text_of(pkg, meta, "displayName"@, name)
    &&& has_text_of(pkg, meta, "unity"@, "2022.3"@)
    &&& has_text_of(pkg, meta, "description"@, Seq::empty())
    &&& has_member_of(pkg, meta, "keywords"@, JsonView::Array(Seq::empty()))
    &&& member(meta, "author"@) matches Some(v) ==> pkg.get("author"@) == Some(v)
    &&& member(meta, "author"@) is None ==> (pkg.get("author"@) matches Some(a) && a.get("name"@)
        == Some(JsonView::Text(author)))
    &&& has_member_of(pkg, meta, "dependencies"@, JsonView::Object(Map::empty()))
    &&& has_member_of(pkg, meta, "vpmDependencies"@, JsonView::Object(Map::empty()))
    &&& match member(meta, "unityRelease"@) {
        Some(JsonView::Text(t)) if t.len() > 0 => pkg.get("unityRelease"@) == Some(
            JsonView::Text(t),
        ),
        _ => pkg.get("unityRelease"@) is None,
    }
    &&& match member(meta, "legacyPackages"@) {
        Some(JsonView::Array(items)) if items.len() > 0 => pkg.get("legacyPackages"@) == Some(
            JsonView::Array(items),
        ),
        _ => pkg.get("legacyPackages"@) is None,
    }
}

/// A published manifest says of the package what the upload says of it: nothing of that
/// is lost, and what the upload leaves out is filled in.
pub proof fn law_manifest_keeps_what_the_upload_says(
    name: Seq<char>,
    version: Seq<char>,
    category: Seq<char>,
    url: Seq<char>,
    meta: Option<JsonView>,
    author: Seq<char>,
)
    ensures
        says_of_itself(manifest(name, version, category, url, meta, author), meta, name, author),
{
    lemma_keys();
}

/// Whether the entry of a version says what a manifest says, and the checksum.
pub open spec fn is_entry_of(entry: JsonView, pkg: JsonView, checksum: Seq<char>) -> bool {
    &&& forall|key: Seq<char>| #[trigger]
        is_shared_key(key) ==> entry.get(key) == pkg.get(key) && entry.get(key) is Some
    &&& entry.get("zipSHA256"@) == Some(JsonView::Text(checksum))
    &&& forall|key: Seq<char>|
        !is_shared_key(key) && key != "zipSHA256"@ ==> #[trigger] entry.get(key) is None
}

/// The entry of a version says what its manifest says, whatever that is, and the
/// checksum.
pub proof fn lemma_entry_of_manifest(
    name: Seq<char>,
    version: Seq<char>,
    category: Seq<char>,
    url: Seq<char>,
    meta: Option<JsonView>,
    author: Seq<char>,
    checksum: Seq<char>,
)
    ensures
        ({
            let pkg = manifest(name, version, category, url, meta, author);
            is_entry_of(version_entry(name, version, category, url, pkg, checksum), pkg, checksum)
        }),
{
    let pkg = manifest(name, version, category, url, meta, author);
    let entry = version_entry(name, version, category, url, pkg, checksum);
    assert forall|key: Seq<char>| #[trigger] is_shared_key(key) implies entry.get(key) == pkg.get(
        key,
    ) && entry.get(key) is Some by {
        law_entry_agrees_with_manifest(name, version, category, url, meta, author, checksum, key);
    }
    assert forall|key: Seq<char>|
        !is_shared_key(key) && key != "zipSHA256"@ implies #[trigger] entry.get(key) is None by {
        law_entry_agrees_with_manifest(name, version, category, url, meta, author, checksum, key);
    }
    law_entry_agrees_with_manifest(
        name,
        version,
        category,
        url,
        meta,
        author,
        checksum,
        "zipSHA256"@,
    );
    lemma_keys();
}

/// The manifest that the files of an upload bring along is one of theirs: it lies in a
/// file with the name of a manifest, is JSON and has a name, and no such file lies less
/// deep, or as deep and before it. There is none only where no file is such.
pub proof fn law_manifest_of_the_files(files: Seq<FoundFile>, k: int)
    requires
        0 <= k < files.len(),
        names_manifest(files[k].path@),
        files[k].text matches Some(t) && json_text(t@) is Ok && json_text(t@)->Ok_0.get(
            "name"@,
        ) is Some,
    ensures
        exists|i: int|
            0 <= i < files.len() && #[trigger] names_manifest(files[i].path@)
                && files[i].path@.len() <= files[k].path@.len() && (files[i].path@.len()
                == files[k].path@.len() ==> i <= k) && (files[i].text matches Some(t)
                && json_text(t@) matches Ok(v) && v.get("name"@) is Some && nearest(
                files.map_values(|f: FoundFile| candidate_in(f)),
            ) == Some(v)),
{
    let all = files.map_values(|f: FoundFile| candidate_in(f));
    assert(all[k] == candidate_in(files[k]));
    lemma_nearest_exists(all, k);
    let i = choose|i: int| is_nearest(all, i);
    assert(is_nearest(all, i));
    assert(all[i] == candidate_in(files[i]));
    assert(names_manifest(files[i].path@));
}

/// Where a candidate holds a manifest, one comes first.
proof fn lemma_nearest_exists(files: Seq<CandidateView>, k: int)
    requires
        0 <= k < files.len(),
        as_manifest(files[k].value) is Some,
    ensures
        exists|i: int| is_nearest(files, i),
    decreases files[k].depth, k,
{
    if !is_nearest(files, k) {
        let j = choose|j: int|
            0 <= j < files.len() && as_manifest((#[trigger] files[j]).value) is Some && !(
            files[k].depth < files[j].depth || (files[k].depth == files[j].depth && k <= j));
        lemma_nearest_exists(files, j);
    }
}

/// Files without a manifest among them bring none along.
pub proof fn law_no_manifest_is_made_up(files: Seq<FoundFile>)
    requires
        nearest(files.map_values(|f: FoundFile| candidate_in(f))) is Some,
    ensures
        exists|i: int|
            0 <= i < files.len() && #[trigger] names_manifest(files[i].path@) && (
            files[i].text matches Some(t) && json_text(t@) matches Ok(v) && nearest(
                files.map_values(|f: FoundFile| candidate_in(f)),
            ) == Some(v)),
{
    let all = files.map_values(|f: FoundFile| candidate_in(f));
    let i = choose|i: int| is_nearest(all, i);
    assert(is_nearest(all, i));
    assert(all[i] == candidate_in(files[i]));
    assert(names_manifest(files[i].path@));
}

} // verus!
