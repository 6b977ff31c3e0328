//! Changes to the master registry: publishing a version, deleting one, and editing
//! the dependencies of one.

use vstd::prelude::*;
use vstd::string::*;
use vstd::utf8::encode_utf8;

use crate::codec::{
    bytes_read_as, depth_limit, json_bytes, json_text, parse, parse_bytes, storable, stored_as,
};
use crate::demotion::{lemma_put_back, with_versions};
use crate::error::{Fault, ShopError, agrees, broken, refused};
use crate::json::{Json, JsonView, member, seen_ref};
use crate::registry::{
    file_of_version, has_room, law_upload_version_is_free, lists, package, resolved, versions,
    zip_of_version,
};
use crate::replies::{deps_value, has_part, lemma_has_part};
use crate::storage::{lemma_plain_keys, lemma_storable_with};
use crate::text::{cat3, cat5, chars_of, lemma_pieces_nonempty, pieces, split, text_of, texts};
use crate::urls::file_of_address;


verus! {

/// The failure on a registry whose parts are not of the kind that they have to be.
pub open spec fn odd_shape() -> Fault {
    Fault::Broken("the registry does not have the shape of a registry"@)
}

fn shape_error() -> (r: ShopError)
    ensures
        r@ == odd_shape(),
{
    broken("the registry does not have the shape of a registry")
}

/// The member `key` of a value, or null where there is none.
pub open spec fn member_or_null(v: JsonView, key: Seq<char>) -> JsonView {
    match v.get(key) {
        Some(j) => j,
        None => JsonView::Null,
    }
}

// ---------------------------------------------------------------------------
// Publishing
// ---------------------------------------------------------------------------

/// The entry of a package, or that of a package without versions.
pub open spec fn package_or_new(repo: JsonView, name: Seq<char>) -> JsonView {
    match package(repo, name) {
        Some(p) => p,
        None => JsonView::Object(
            Map::empty().insert("versions"@, JsonView::Object(Map::empty())),
        ),
    }
}

/// The parts of the registry that a publication assigns to take members.
pub open spec fn can_publish(repo: JsonView, name: Seq<char>) -> bool {
    repo.get("packages"@) matches Some(packages) ==> packages.assignable() && package_or_new(
        repo,
        name,
    ).assignable() && member_or_null(package_or_new(repo, name), "versions"@).assignable()
}

/// The registry after a version was published.
pub open spec fn published(
    repo: JsonView,
    name: Seq<char>,
    version: Seq<char>,
    entry: JsonView,
) -> JsonView {
    let pkg = package_or_new(repo, name);
    repo.with(
        "packages"@,
        repo.get("packages"@)->0.with(
            name,
            pkg.with("versions"@, member_or_null(pkg, "versions"@).with(version, entry)),
        ),
    )
}

/// The registry after a version was published; a registry without packages is
/// refused.
pub open spec fn publication(
    repo: JsonView,
    name: Seq<char>,
    version: Seq<char>,
    entry: JsonView,
) -> Result<JsonView, Fault> {
    if repo.get("packages"@) is None {
        Err(Fault::Refused("master repo has no 'packages'"@))
    } else {
        Ok(published(repo, name, version, entry))
    }
}

/// Takes a member out of a value; a null where there is none.
fn take_or_null(v: &mut Json, key: &str) -> (r: Json)
    ensures
        r@ == member_or_null(old(v)@, key@),
        final(v)@ == old(v)@.without(key@),
{
    match v.take(key) {
        Some(j) => j,
        None => Json::Null,
    }
}

/// A package without versions.
fn new_package() -> (r: Json)
    ensures
        r@ == JsonView::Object(Map::empty().insert("versions"@, JsonView::Object(Map::empty()))),
{
    let mut p = Json::object();
    p.set("versions", Json::object());
    p
}

/// Assigning to a member that was taken out, of a value that takes members.
proof fn lemma_assign_back(v: JsonView, key: Seq<char>, value: JsonView)
    requires
        v.assignable(),
    ensures
        v.without(key).with(key, value) == v.with(key, value),
{
    if v is Object {
        lemma_put_back(v, key, value);
    }
}

/// Enters a version of a package into the registry, in place of an entry that it
/// may have had.
pub fn publish(repo: Json, name: &str, version: &str, entry: Json) -> (r: Result<Json, ShopError>)
    requires
        can_publish(repo@, name@),
    ensures
        agrees(r, publication(repo@, name@, version@, entry@)),
{
    let ghost model = repo@;
    let mut repo = repo;
    let mut packages = match repo.take("packages") {
        Some(p) => p,
        None => {
            return Err(refused("master repo has no 'packages'"));
        },
    };
    let mut pkg = match packages.take(name) {
        Some(p) => p,
        None => new_package(),
    };
    let ghost pkg0 = pkg@;
    assert(pkg0 == package_or_new(model, name@));
    let mut vs = take_or_null(&mut pkg, "versions");
    let ghost vs0 = vs@;
    vs.set(version, entry);
    pkg.set("versions", vs);
    packages.set(name, pkg);
    repo.set("packages", packages);
    proof {
        lemma_assign_back(pkg0, "versions"@, vs0.with(version@, entry@));
        let pkg1 = pkg0.with("versions"@, vs0.with(version@, entry@));
        lemma_assign_back(model.get("packages"@)->0, name@, pkg1);
        lemma_assign_back(
            model,
            "packages"@,
            model.get("packages"@)->0.with(name@, pkg1),
        );
    }
    Ok(repo)
}

/// Whether the registry can take a publication.
pub fn publishable(repo: &Json, name: &str) -> (r: bool)
    ensures
        r == can_publish(repo@, name@),
{
    match repo.get("packages") {
        Some(packages) => {
            if !packages.is_assignable() {
                return false;
            }
            match packages.get(name) {
                Some(pkg) => {
                    pkg.is_assignable() && match pkg.get("versions") {
                        Some(v) => v.is_assignable(),
                        None => true,
                    }
                },
                None => {
                    let p = new_package();
                    assert(p@.get("versions"@) == Some(JsonView::Object(Map::empty())));
                    true
                },
            }
        },
        None => true,
    }
}

/// Enters a version of a package into a registry that is kept as text.
pub fn update_master_repo(registry: &str, name: &str, version: &str, entry: Json) -> (r: Result<
    Json,
    ShopError,
>)
    ensures
        agrees(
            r,
            match json_text(registry@) {
                Ok(repo) => if can_publish(repo, name@) {
                    publication(repo, name@, version@, entry@)
                } else {
                    Err(odd_shape())
                },
                Err(m) => Err(Fault::Refused(m)),
            },
        ),
{
    match parse(registry) {
        Ok(repo) => {
            if !publishable(&repo, name) {
                return Err(shape_error());
            }
            publish(repo, name, version, entry)
        },
        Err(m) => Err(ShopError::Refused(m)),
    }
}

// ---------------------------------------------------------------------------
// Deleting
// ---------------------------------------------------------------------------

/// The registry without a version; and without its package, where that has no
/// other version.
pub open spec fn deleted(repo: JsonView, name: Seq<char>, version: Seq<char>) -> JsonView {
    let rest = versions(repo, name)->0.remove(version);
    if rest == Map::<Seq<char>, JsonView>::empty() {
        repo.with("packages"@, repo.get("packages"@)->0.without(name))
    } else {
        with_versions(repo, name, rest)
    }
}

/// The file of a version and the registry without the version; or the refusal that
/// says what the registry lacks.
pub open spec fn deletion(
    repo: JsonView,
    host: Seq<char>,
    name: Seq<char>,
    version: Seq<char>,
) -> Result<(Seq<char>, JsonView), Fault> {
    if package(repo, name) is None {
        Err(Fault::Refused("package '"@ + name + "' not found"@))
    } else if member(package(repo, name), "versions"@) is None {
        Err(Fault::Refused("no versions"@))
    } else if versions(repo, name) is None {
        Err(Fault::Refused("versions not an object"@))
    } else if !lists(repo, name, version) {
        Err(Fault::Refused("version '"@ + version + "' not found"@))
    } else {
        match file_of_version(repo, host, name, version) {
            Ok(file) => Ok((file, deleted(repo, name, version))),
            Err(f) => Err(f),
        }
    }
}

/// Takes a version out of the registry. Hands back the file of the version and the
/// registry that is left.
pub fn delete(repo: Json, host: &str, name: &str, version: &str) -> (r: Result<
    (String, Json),
    ShopError,
>)
    ensures
        agrees(r, deletion(repo@, host@, name@, version@)),
{
    let ghost model = repo@;
    let file = zip_of_version(&repo, host, name, version);
    let mut repo = repo;
    let found = match repo.take("packages") {
        Some(mut packages) => match packages.take(name) {
            Some(pkg) => Some((packages, pkg)),
            None => None,
        },
        None => None,
    };
    let (mut packages, mut pkg) = match found {
        Some(p) => p,
        None => {
            let m = cat3("package '", name, "' not found");
            return Err(ShopError::Refused(m));
        },
    };
    let mut vs = match pkg.take("versions") {
        Some(v) => v,
        None => {
            return Err(refused("no versions"));
        },
    };
    if !vs.is_object() {
        return Err(refused("versions not an object"));
    }
    let ghost m = vs@->Object_0;
    assert(versions(model, name@) == Some(m));
    match vs.take(version) {
        Some(_) => {},
        None => {
            let m = cat3("version '", version, "' not found");
            return Err(ShopError::Refused(m));
        },
    }
    let file = match file {
        Ok(f) => f,
        Err(e) => {
            return Err(e);
        },
    };
    let left = vs.keys();
    let ghost rest = m.remove(version@);
    if left.len() == 0 {
        proof {
            assert forall|k: Seq<char>| !rest.dom().contains(k) by {
                assert(texts(left@).contains(k) <==> vs@.get(k) is Some);
            }
            assert(rest =~= Map::empty());
        }
        repo.set("packages", packages);
        proof {
            lemma_put_back(model, "packages"@, model.get("packages"@)->0.without(name@));
        }
    } else {
        proof {
            assert(texts(left@)[0] == left@[0]@);
            assert(texts(left@).contains(left@[0]@));
            assert(vs@.get(left@[0]@) is Some);
            assert(rest.contains_key(left@[0]@));
            assert(rest != Map::<Seq<char>, JsonView>::empty());
        }
        pkg.set("versions", vs);
        packages.set(name, pkg);
        repo.set("packages", packages);
        proof {
            let p = package(model, name@)->0;
            lemma_put_back(p, "versions"@, JsonView::Object(rest));
            let q = p.with("versions"@, JsonView::Object(rest));
            lemma_put_back(model.get("packages"@)->0, name@, q);
            lemma_put_back(model, "packages"@, model.get("packages"@)->0.with(name@, q));
        }
    }
    Ok((file, repo))
}

/// What a deletion from the registry that a text holds comes to.
pub open spec fn stored_deletion(
    registry: Seq<char>,
    host: Seq<char>,
    name: Seq<char>,
    version: Seq<char>,
) -> Result<(Seq<char>, JsonView), Fault> {
    match json_text(registry) {
        Ok(repo) => deletion(repo, host, name, version),
        Err(m) => Err(Fault::Refused(m)),
    }
}

/// Takes a version out of a registry that is kept as text. Hands back the file of the
/// version, from the directory that holds the categories on, and the registry that is
/// left.
pub fn run_delete_version(registry: &str, host: &str, name: &str, version: &str) -> (r: Result<
    (String, Json),
    ShopError,
>)
    ensures
        agrees(r, stored_deletion(registry@, host@, name@, version@)),
{
    match parse(registry) {
        Ok(repo) => delete(repo, host, name, version),
        Err(m) => Err(ShopError::Refused(m)),
    }
}

/// The text of the report on a deletion.
pub open spec fn deletion_text(name: Seq<char>, version: Seq<char>, regen: Seq<char>) -> Seq<
    char,
> {
    "removed "@ + name + "@"@ + version + " ("@ + regen + ")"@
}

/// The report on a deletion.
pub fn deletion_note(name: &str, version: &str, regen: &str) -> (r: String)
    ensures
        r@ == deletion_text(name@, version@, regen@),
{
    let mut out = cat5("removed ", name, "@", version, " (");
    out.append(regen);
    out.append(")");
    out
}

// ---------------------------------------------------------------------------
// Dependencies
// ---------------------------------------------------------------------------

/// The entry of a version.
pub open spec fn entry_of(repo: JsonView, name: Seq<char>, version: Seq<char>) -> Option<
    JsonView,
> {
    member(member(package(repo, name), "versions"@), version)
}

/// The registry with another entry for a listed version.
pub open spec fn with_entry(
    repo: JsonView,
    name: Seq<char>,
    version: Seq<char>,
    entry: JsonView,
) -> JsonView {
    with_versions(repo, name, versions(repo, name)->0.insert(version, entry))
}

/// Puts another entry in the place of the entry of a listed version.
fn replace_entry(repo: Json, name: &str, version: &str, entry: Json) -> (r: Json)
    requires
        lists(repo@, name@, version@),
    ensures
        r@ == with_entry(repo@, name@, version@, entry@),
{
    let ghost model = repo@;
    let ghost m = versions(model, name@)->0.insert(version@, entry@);
    let mut repo = repo;
    let mut packages = take_or_null(&mut repo, "packages");
    let mut pkg = take_or_null(&mut packages, name);
    let mut vs = take_or_null(&mut pkg, "versions");
    vs.set(version, entry);
    pkg.set("versions", vs);
    packages.set(name, pkg);
    repo.set("packages", packages);
    proof {
        let p = package(model, name@)->0;
        lemma_put_back(p, "versions"@, JsonView::Object(m));
        let q = p.with("versions"@, JsonView::Object(m));
        lemma_put_back(model.get("packages"@)->0, name@, q);
        lemma_put_back(model, "packages"@, model.get("packages"@)->0.with(name@, q));
    }
    repo
}

/// The parts of the registry on the way to an entry take members, as far as there
/// are any.
pub open spec fn can_reach(repo: JsonView, name: Seq<char>) -> bool {
    &&& repo.assignable()
    &&& member_or_null(repo, "packages"@).assignable()
    &&& member_or_null(member_or_null(repo, "packages"@), name).assignable()
    &&& member_or_null(
        member_or_null(member_or_null(repo, "packages"@), name),
        "versions"@,
    ).assignable()
}

/// The registry with other dependencies of a version, and with the checksum of its
/// rebuilt file.
pub open spec fn with_dependencies(
    repo: JsonView,
    name: Seq<char>,
    version: Seq<char>,
    dependencies: JsonView,
    vpm_dependencies: JsonView,
    checksum: Seq<char>,
) -> Result<JsonView, Fault> {
    match entry_of(repo, name, version) {
        Some(JsonView::Object(m)) => Ok(
            with_entry(
                repo,
                name,
                version,
                JsonView::Object(
                    m.insert("dependencies"@, dependencies).insert(
                        "vpmDependencies"@,
                        vpm_dependencies,
                    ).insert("zipSHA256"@, JsonView::Text(checksum)),
                ),
            ),
        ),
        _ => Err(Fault::Refused("version entry missing for "@ + name + "@"@ + version)),
    }
}

/// The entry of a version, where it is an object.
fn entry_object(repo: &Json, name: &str, version: &str) -> (r: Option<Json>)
    ensures
        match r {
            Some(e) => e@ is Object && entry_of(repo@, name@, version@) == Some(e@) && lists(
                repo@,
                name@,
                version@,
            ),
            None => !(entry_of(repo@, name@, version@) matches Some(e) && e is Object),
        },
{
    match repo.get("packages") {
        Some(packages) => match packages.get(name) {
            Some(pkg) => match pkg.get("versions") {
                Some(v) => match v.get(version) {
                    Some(e) => if e.is_object() {
                        Some(e.clone())
                    } else {
                        None
                    },
                    None => None,
                },
                None => None,
            },
            None => None,
        },
        None => None,
    }
}

/// Gives a version other dependencies, and the checksum of its rebuilt file.
pub fn set_dependencies(
    repo: Json,
    name: &str,
    version: &str,
    dependencies: Json,
    vpm_dependencies: Json,
    checksum: &str,
) -> (r: Result<Json, ShopError>)
    requires
        can_reach(repo@, name@),
    ensures
        agrees(
            r,
            with_dependencies(
                repo@,
                name@,
                version@,
                dependencies@,
                vpm_dependencies@,
                checksum@,
            ),
        ),
{
    match entry_object(&repo, name, version) {
        Some(e) => {
            let mut entry = e;
            entry.set("dependencies", dependencies);
            entry.set("vpmDependencies", vpm_dependencies);
            entry.set("zipSHA256", Json::of_text(checksum));
            Ok(replace_entry(repo, name, version, entry))
        },
        None => {
            let mut m = cat3("version entry missing for ", name, "@");
            m.append(version);
            Err(ShopError::Refused(m))
        },
    }
}

/// Whether a part that may be missing takes members.
fn open_to_members(v: Option<&Json>) -> (r: bool)
    ensures
        r == (seen_ref(v) matches Some(j) ==> j.assignable()),
{
    match v {
        Some(j) => j.is_assignable(),
        None => true,
    }
}

/// Whether the way to an entry of a package can be gone.
pub fn reachable(repo: &Json, name: &str) -> (r: bool)
    ensures
        r == can_reach(repo@, name@),
{
    if !repo.is_assignable() || !open_to_members(repo.get("packages")) {
        return false;
    }
    match repo.get("packages") {
        Some(packages) => {
            if !open_to_members(packages.get(name)) {
                return false;
            }
            match packages.get(name) {
                Some(pkg) => open_to_members(pkg.get("versions")),
                None => true,
            }
        },
        None => true,
    }
}

/// What an edit of dependencies in the registry that a text holds comes to.
pub open spec fn stored_dependencies(
    registry: Seq<char>,
    name: Seq<char>,
    version: Seq<char>,
    dependencies: JsonView,
    vpm_dependencies: JsonView,
    checksum: Seq<char>,
) -> Result<JsonView, Fault> {
    match json_text(registry) {
        Ok(repo) => if can_reach(repo, name) {
            with_dependencies(repo, name, version, dependencies, vpm_dependencies, checksum)
        } else {
            Err(odd_shape())
        },
        Err(m) => Err(Fault::Refused(m)),
    }
}

/// Gives a version other dependencies in a registry that is kept as text.
pub fn run_set_deps(
    registry: &str,
    name: &str,
    version: &str,
    dependencies: Json,
    vpm_dependencies: Json,
    checksum: &str,
) -> (r: Result<Json, ShopError>)
    ensures
        agrees(
            r,
            stored_dependencies(
                registry@,
                name@,
                version@,
                dependencies@,
                vpm_dependencies@,
                checksum@,
            ),
        ),
{
    match parse(registry) {
        Ok(repo) => {
            if !reachable(&repo, name) {
                return Err(shape_error());
            }
            set_dependencies(repo, name, version, dependencies, vpm_dependencies, checksum)
        },
        Err(m) => Err(ShopError::Refused(m)),
    }
}

/// The manifest with other dependencies.
pub open spec fn manifest_with(
    manifest: JsonView,
    dependencies: JsonView,
    vpm_dependencies: JsonView,
) -> Result<JsonView, Fault> {
    if manifest.assignable() {
        Ok(
            manifest.with("dependencies"@, dependencies).with(
                "vpmDependencies"@,
                vpm_dependencies,
            ),
        )
    } else {
        Err(Fault::Broken("package.json is not an object"@))
    }
}

/// The manifest with other dependencies.
pub fn set_manifest_dependencies(manifest: Json, dependencies: Json, vpm_dependencies: Json) -> (r:
    Result<Json, ShopError>)
    ensures
        agrees(r, manifest_with(manifest@, dependencies@, vpm_dependencies@)),
{
    if !manifest.is_assignable() {
        return Err(broken("package.json is not an object"));
    }
    let mut manifest = manifest;
    manifest.set("dependencies", dependencies);
    manifest.set("vpmDependencies", vpm_dependencies);
    Ok(manifest)
}

/// The manifest that bytes hold, with other dependencies.
pub open spec fn manifest_edited(
    bytes: Seq<u8>,
    dependencies: JsonView,
    vpm_dependencies: JsonView,
) -> Result<JsonView, Fault> {
    match json_bytes(bytes) {
        Ok(manifest) => manifest_with(manifest, dependencies, vpm_dependencies),
        Err(m) => Err(Fault::Refused(m)),
    }
}

/// The manifest of a rebuilt file: the one that the file had, with other
/// dependencies.
pub fn edit_manifest(bytes: &[u8], dependencies: Json, vpm_dependencies: Json) -> (r: Result<
    Json,
    ShopError,
>)
    ensures
        agrees(r, manifest_edited(bytes@, dependencies@, vpm_dependencies@)),
{
    match parse_bytes(bytes) {
        Ok(v) => set_manifest_dependencies(v, dependencies, vpm_dependencies),
        Err(m) => Err(ShopError::Refused(m)),
    }
}

/// The first sixteen digits of a checksum, which has more.
pub open spec fn checksum_start(checksum: Seq<char>) -> Seq<char> {
    if checksum.len() < 16 {
        checksum
    } else {
        checksum.take(16)
    }
}

/// The text of the report on an edit of dependencies.
pub open spec fn dependencies_text(
    name: Seq<char>,
    version: Seq<char>,
    checksum: Seq<char>,
) -> Seq<char> {
    "updated dependencies for "@ + name + "@"@ + version + " (zipSHA256: "@ + checksum_start(
        checksum,
    ) + ")"@
}

/// The report on an edit of dependencies.
pub fn dependencies_note(name: &str, version: &str, checksum: &str) -> (r: String)
    ensures
        r@ == dependencies_text(name@, version@, checksum@),
{
    let cs = chars_of(checksum);
    let end: usize = if cs.len() < 16 {
        cs.len()
    } else {
        16
    };
    let start = text_of(&cs, 0, end);
    assert(start@ =~= checksum_start(checksum@));
    let mut out = cat5("updated dependencies for ", name, "@", version, " (zipSHA256: ");
    out.append(start.as_str());
    out.append(")");
    out
}

// ---------------------------------------------------------------------------
// Turning a folder into a dependency
// ---------------------------------------------------------------------------

/// The name of a folder: what stands behind the last slash of its path.
pub open spec fn folder_name(path: Seq<char>) -> Seq<char> {
    pieces(path, '/').last()
}

/// The name of the folder at a path.
pub fn folder_of(path: &str) -> (r: String)
    ensures
        r@ == folder_name(path@),
{
    let parts = split(path, '/');
    proof {
        lemma_pieces_nonempty(path@, '/');
        assert(texts(parts@).last() == parts@[parts@.len() - 1]@);
    }
    parts[parts.len() - 1].clone()
}

/// The members of a value that may be missing; none where it is no object.
pub open spec fn members_or_none(v: Option<JsonView>) -> Map<Seq<char>, JsonView> {
    match v {
        Some(JsonView::Object(m)) => m,
        _ => Map::empty(),
    }
}

/// What a conversion assigns is there: the versions of the package, and in the
/// entry of the version its dependencies and its checksum.
pub open spec fn can_convert(repo: JsonView, name: Seq<char>, version: Seq<char>) -> bool {
    &&& repo.assignable()
    &&& member_or_null(repo, "packages"@).assignable()
    &&& package(repo, name) matches Some(JsonView::Object(p)) ==> (p.contains_key("versions"@)
        && p["versions"@].assignable())
    &&& entry_of(repo, name, version) matches Some(JsonView::Object(e)) ==> (e.contains_key(
        "vpmDependencies"@,
    ) && e.contains_key("zipSHA256"@))
}

/// The registry after a folder of a version became a dependency of it.
pub open spec fn conversion(
    repo: JsonView,
    name: Seq<char>,
    version: Seq<char>,
    folder: Seq<char>,
    checksum: Seq<char>,
) -> Result<JsonView, Fault> {
    match package(repo, name) {
        Some(JsonView::Object(_)) => match entry_of(repo, name, version) {
            Some(JsonView::Object(m)) => Ok(
                with_entry(
                    repo,
                    name,
                    version,
                    JsonView::Object(
                        m.insert(
                            "vpmDependencies"@,
                            JsonView::Object(
                                members_or_none(
                                    JsonView::Object(m).get("vpmDependencies"@),
                                ).insert(folder, JsonView::Text("1.0.0"@)),
                            ),
                        ).insert("zipSHA256"@, JsonView::Text(checksum)),
                    ),
                ),
            ),
            _ => Err(Fault::Refused("version not found"@)),
        },
        _ => Err(Fault::Refused("package not found"@)),
    }
}

/// Attaches a folder of a version to the version as a dependency.
pub fn convert(repo: Json, name: &str, version: &str, folder: &str, checksum: &str) -> (r: Result<
    Json,
    ShopError,
>)
    requires
        can_convert(repo@, name@, version@),
    ensures
        agrees(r, conversion(repo@, name@, version@, folder@, checksum@)),
{
    let found = match repo.get("packages") {
        Some(packages) => match packages.get(name) {
            Some(pkg) => pkg.is_object(),
            None => false,
        },
        None => false,
    };
    if !found {
        return Err(refused("package not found"));
    }
    match entry_object(&repo, name, version) {
        Some(e) => {
            let mut entry = e;
            let mut dependencies = match entry.get("vpmDependencies") {
                Some(d) => if d.is_object() {
                    d.clone()
                } else {
                    Json::object()
                },
                None => Json::object(),
            };
            dependencies.set(folder, Json::of_text("1.0.0"));
            entry.set("vpmDependencies", dependencies);
            entry.set("zipSHA256", Json::of_text(checksum));
            Ok(replace_entry(repo, name, version, entry))
        },
        None => Err(refused("version not found")),
    }
}

/// Whether what a conversion assigns is there.
pub fn convertible(repo: &Json, name: &str, version: &str) -> (r: bool)
    ensures
        r == can_convert(repo@, name@, version@),
{
    if !repo.is_assignable() || !open_to_members(repo.get("packages")) {
        return false;
    }
    match repo.get("packages") {
        Some(packages) => match packages.get(name) {
            Some(pkg) => {
                if pkg.is_object() {
                    match pkg.get("versions") {
                        Some(v) => {
                            if !v.is_assignable() {
                                return false;
                            }
                            match v.get(version) {
                                Some(e) => !e.is_object() || (e.has("vpmDependencies") && e.has(
                                    "zipSHA256",
                                )),
                                None => true,
                            }
                        },
                        None => false,
                    }
                } else {
                    true
                }
            },
            None => true,
        },
        None => true,
    }
}

/// What a conversion in the registry that a text holds comes to.
pub open spec fn stored_conversion(
    registry: Seq<char>,
    name: Seq<char>,
    version: Seq<char>,
    folder: Seq<char>,
    checksum: Seq<char>,
) -> Result<JsonView, Fault> {
    match json_text(registry) {
        Ok(repo) => if can_convert(repo, name, version) {
            conversion(repo, name, version, folder, checksum)
        } else {
            Err(odd_shape())
        },
        Err(m) => Err(Fault::Refused(m)),
    }
}

/// Attaches a folder of a version to the version as a dependency, in a registry
/// that is kept as text.
pub fn run_convert_to_vpm_dep(
    registry: &str,
    name: &str,
    version: &str,
    folder: &str,
    checksum: &str,
) -> (r: Result<Json, ShopError>)
    ensures
        agrees(r, stored_conversion(registry@, name@, version@, folder@, checksum@)),
{
    match parse(registry) {
        Ok(repo) => {
            if !convertible(&repo, name, version) {
                return Err(shape_error());
            }
            convert(repo, name, version, folder, checksum)
        },
        Err(m) => Err(ShopError::Refused(m)),
    }
}

/// The manifest that bytes hold, or an empty one.
pub open spec fn manifest_read(bytes: Seq<u8>) -> JsonView {
    match json_bytes(bytes) {
        Ok(v) => v,
        Err(_) => JsonView::Object(Map::empty()),
    }
}

/// The manifest of a rebuilt file: the one that the file had, or an empty one where
/// that cannot be read.
pub fn manifest_or_empty(bytes: &[u8]) -> (r: Json)
    ensures
        r@ == manifest_read(bytes@),
{
    match parse_bytes(bytes) {
        Ok(v) => v,
        Err(_) => Json::object(),
    }
}

/// The text of the report on a conversion.
pub open spec fn conversion_text(path: Seq<char>, folder: Seq<char>) -> Seq<char> {
    "converted folder '"@ + path + "' to VPM dependency '"@ + folder + "'"@
}

/// The report on a conversion.
pub fn conversion_note(path: &str, folder: &str) -> (r: String)
    ensures
        r@ == conversion_text(path@, folder@),
{
    cat5("converted folder '", path, "' to VPM dependency '", folder, "'")
}

// ---------------------------------------------------------------------------
// What the changes keep
// ---------------------------------------------------------------------------

/// The versions of a package; none of a package that is not listed.
pub open spec fn versions_or_none(repo: JsonView, name: Seq<char>) -> Map<Seq<char>, JsonView> {
    match versions(repo, name) {
        Some(m) => m,
        None => Map::empty(),
    }
}

/// After a publication the package has the versions that it had, and the published
/// one with its entry. The rest of the package, the other packages and the rest of
/// the registry are as before.
pub proof fn law_publication(
    repo: JsonView,
    name: Seq<char>,
    version: Seq<char>,
    entry: JsonView,
)
    requires
        repo.get("packages"@) is Some,
        can_publish(repo, name),
    ensures
        versions(published(repo, name, version, entry), name) == Some(
            versions_or_none(repo, name).insert(version, entry),
        ),
        forall|other: Seq<char>|
            other != name ==> #[trigger] package(published(repo, name, version, entry), other)
                == package(repo, other),
        forall|key: Seq<char>|
            key != "versions"@ ==> #[trigger] package_or_new(
                published(repo, name, version, entry),
                name,
            ).get(key) == package_or_new(repo, name).get(key),
        forall|key: Seq<char>|
            key != "packages"@ ==> #[trigger] published(repo, name, version, entry).get(key)
                == repo.get(key),
{
    let pkg = package_or_new(repo, name);
    let after = published(repo, name, version, entry);
    assert(package(after, name) == Some(
        pkg.with("versions"@, member_or_null(pkg, "versions"@).with(version, entry)),
    ));
    assert(versions(after, name)->0 =~= versions_or_none(repo, name).insert(version, entry));
}

/// An upload that was given its version by [`resolved`] takes nothing away: every
/// version that was listed still is, with the same entry.
pub proof fn law_upload_keeps_what_was_listed(
    repo: JsonView,
    name: Seq<char>,
    requested: Seq<char>,
    entry: JsonView,
    version: Seq<char>,
)
    requires
        has_room(repo, name, requested),
        repo.get("packages"@) is Some,
        can_publish(repo, name),
        lists(repo, name, version),
    ensures
        lists(published(repo, name, resolved(repo, name, requested).0, entry), name, version),
        versions(
            published(repo, name, resolved(repo, name, requested).0, entry),
            name,
        )->0[version] == versions(repo, name)->0[version],
{
    law_upload_version_is_free(repo, name, requested);
    law_publication(repo, name, resolved(repo, name, requested).0, entry);
}

/// After a deletion the version is listed no more, and every other version of the
/// package is listed as before. The package is gone exactly where it had no other
/// version. The other packages and the rest of the registry are as before.
pub proof fn law_deletion(repo: JsonView, name: Seq<char>, version: Seq<char>)
    requires
        lists(repo, name, version),
    ensures
        !lists(deleted(repo, name, version), name, version),
        forall|v: Seq<char>|
            v != version ==> #[trigger] lists(deleted(repo, name, version), name, v) == lists(
                repo,
                name,
                v,
            ),
        forall|v: Seq<char>| #[trigger]
            lists(deleted(repo, name, version), name, v) ==> versions(
                deleted(repo, name, version),
                name,
            )->0[v] == versions(repo, name)->0[v],
        package(deleted(repo, name, version), name) is None <==> (forall|v: Seq<char>|
            #[trigger] lists(repo, name, v) ==> v == version),
        forall|other: Seq<char>|
            other != name ==> #[trigger] package(deleted(repo, name, version), other) == package(
                repo,
                other,
            ),
        forall|key: Seq<char>|
            key != "packages"@ ==> #[trigger] deleted(repo, name, version).get(key) == repo.get(
                key,
            ),
{
    let m = versions(repo, name)->0;
    let rest = m.remove(version);
    let after = deleted(repo, name, version);
    if rest == Map::<Seq<char>, JsonView>::empty() {
        assert forall|v: Seq<char>| #[trigger] lists(repo, name, v) implies v == version by {
            if v != version {
                assert(rest.contains_key(v));
            }
        }
        assert(package(after, name) is None);
    } else {
        assert(package(after, name) == Some(
            package(repo, name)->0.with("versions"@, JsonView::Object(rest)),
        ));
        assert(versions(after, name) == Some(rest));
        let v = choose|v: Seq<char>| rest.contains_key(v);
        if forall|v: Seq<char>| !rest.contains_key(v) {
            assert(rest =~= Map::empty());
        }
        assert(lists(repo, name, v) && v != version);
    }
}

/// A deletion undoes a publication: of a version that was not listed, of a package
/// that was not listed either or that has other versions.
pub proof fn law_deletion_undoes_publication(
    repo: JsonView,
    name: Seq<char>,
    version: Seq<char>,
    entry: JsonView,
)
    requires
        repo.get("packages"@) matches Some(p) && p is Object,
        !lists(repo, name, version),
        package(repo, name) is None || (versions(repo, name) matches Some(m) && m != Map::<
            Seq<char>,
            JsonView,
        >::empty()),
    ensures
        deleted(published(repo, name, version, entry), name, version) == repo,
{
    let after = published(repo, name, version, entry);
    let packages = repo.get("packages"@)->0->Object_0;
    law_publication(repo, name, version, entry);
    let m = versions_or_none(repo, name);
    let rest = m.insert(version, entry).remove(version);
    assert(rest =~= m);
    let back = deleted(after, name, version);
    let root = repo->Object_0;
    if package(repo, name) is None {
        let q = package(after, name)->0;
        assert(packages.insert(name, q).remove(name) =~= packages);
        assert(root.insert("packages"@, after.get("packages"@)->0).insert(
            "packages"@,
            JsonView::Object(packages),
        ) =~= root);
        assert(m =~= Map::empty());
        assert(back == repo);
    } else {
        let p = package(repo, name)->0->Object_0;
        let vs = JsonView::Object(m);
        let vs1 = JsonView::Object(m.insert(version, entry));
        assert(p.insert("versions"@, vs1).insert("versions"@, vs) =~= p);
        let q = JsonView::Object(p.insert("versions"@, vs1));
        assert(package(after, name) == Some(q));
        assert(packages.insert(name, q).insert(name, JsonView::Object(p)) =~= packages);
        assert(root.insert("packages"@, after.get("packages"@)->0).insert(
            "packages"@,
            JsonView::Object(packages),
        ) =~= root);
        assert(back == repo);
    }
}

/// A publication undoes a deletion: of a version of a package that has others.
pub proof fn law_publication_undoes_deletion(
    repo: JsonView,
    name: Seq<char>,
    version: Seq<char>,
    other: Seq<char>,
)
    requires
        lists(repo, name, version),
        lists(repo, name, other),
        other != version,
    ensures
        published(
            deleted(repo, name, version),
            name,
            version,
            versions(repo, name)->0[version],
        ) == repo,
{
    let m = versions(repo, name)->0;
    let entry = m[version];
    let rest = m.remove(version);
    assert(rest.contains_key(other));
    let after = deleted(repo, name, version);
    let root = repo->Object_0;
    let packages = repo.get("packages"@)->0->Object_0;
    let p = package(repo, name)->0->Object_0;
    let q = p.insert("versions"@, JsonView::Object(rest));
    assert(package(after, name) == Some(JsonView::Object(q)));
    assert(rest.insert(version, entry) =~= m);
    assert(q.insert("versions"@, JsonView::Object(m)) =~= p);
    assert(packages.insert(name, JsonView::Object(q)).insert(name, JsonView::Object(p))
        =~= packages);
    assert(root.insert("packages"@, after.get("packages"@)->0).insert(
        "packages"@,
        JsonView::Object(packages),
    ) =~= root);
}

/// Another entry for a version changes nothing else in the registry.
proof fn lemma_with_entry(repo: JsonView, name: Seq<char>, version: Seq<char>, entry: JsonView)
    requires
        lists(repo, name, version),
    ensures
        only_entry_changed(repo, with_entry(repo, name, version, entry), name, version),
        entry_of(with_entry(repo, name, version, entry), name, version) == Some(entry),
{
    let m = versions(repo, name)->0.insert(version, entry);
    let after = with_entry(repo, name, version, entry);
    assert(package(after, name) == Some(
        package(repo, name)->0.with("versions"@, JsonView::Object(m)),
    ));
    assert(versions(after, name) == Some(m));
}

/// Two registries differ in the entry of one version at most: they list the same
/// versions of the package, with the same entries but for this one; and the other
/// packages and the rest of the registry are the same.
pub open spec fn only_entry_changed(
    repo: JsonView,
    after: JsonView,
    name: Seq<char>,
    version: Seq<char>,
) -> bool {
    &&& forall|v: Seq<char>| #[trigger] lists(after, name, v) == lists(repo, name, v)
    &&& forall|v: Seq<char>|
        v != version ==> #[trigger] entry_of(after, name, v) == entry_of(repo, name, v)
    &&& forall|other: Seq<char>|
        other != name ==> #[trigger] package(after, other) == package(repo, other)
    &&& forall|key: Seq<char>|
        key != "packages"@ ==> #[trigger] after.get(key) == repo.get(key)
}

/// An edit of the dependencies of a version changes its entry alone, and in the
/// entry its dependencies and its checksum alone, to what was asked for.
pub proof fn law_dependency_edit(
    repo: JsonView,
    name: Seq<char>,
    version: Seq<char>,
    dependencies: JsonView,
    vpm_dependencies: JsonView,
    checksum: Seq<char>,
)
    requires
        with_dependencies(
            repo,
            name,
            version,
            dependencies,
            vpm_dependencies,
            checksum,
        ) is Ok,
    ensures
        ({
            let after = with_dependencies(
                repo,
                name,
                version,
                dependencies,
                vpm_dependencies,
                checksum,
            )->Ok_0;
            let entry = entry_of(after, name, version);
            &&& only_entry_changed(repo, after, name, version)
            &&& member(entry, "dependencies"@) == Some(dependencies)
            &&& member(entry, "vpmDependencies"@) == Some(vpm_dependencies)
            &&& member(entry, "zipSHA256"@) == Some(JsonView::Text(checksum))
            &&& forall|key: Seq<char>|
                key != "dependencies"@ && key != "vpmDependencies"@ && key != "zipSHA256"@
                    ==> #[trigger] member(entry, key) == member(
                    entry_of(repo, name, version),
                    key,
                )
        }),
{
    reveal_strlit("dependencies");
    reveal_strlit("vpmDependencies");
    reveal_strlit("zipSHA256");
    assert("dependencies"@.len() == 12 && "vpmDependencies"@.len() == 15 && "zipSHA256"@.len()
        == 9);
    let m = entry_of(repo, name, version)->0->Object_0;
    lemma_with_entry(
        repo,
        name,
        version,
        JsonView::Object(
            m.insert("dependencies"@, dependencies).insert(
                "vpmDependencies"@,
                vpm_dependencies,
            ).insert("zipSHA256"@, JsonView::Text(checksum)),
        ),
    );
}

/// A conversion of a folder changes the entry of its version alone: the folder is
/// one of its VPM dependencies then, beside those that it had, and the checksum is
/// the new one.
pub proof fn law_conversion(
    repo: JsonView,
    name: Seq<char>,
    version: Seq<char>,
    folder: Seq<char>,
    checksum: Seq<char>,
)
    requires
        conversion(repo, name, version, folder, checksum) is Ok,
    ensures
        ({
            let after = conversion(repo, name, version, folder, checksum)->Ok_0;
            let entry = entry_of(after, name, version);
            let had = members_or_none(
                member(entry_of(repo, name, version), "vpmDependencies"@),
            );
            &&& only_entry_changed(repo, after, name, version)
            &&& member(entry, "vpmDependencies"@) == Some(
                JsonView::Object(had.insert(folder, JsonView::Text("1.0.0"@))),
            )
            &&& member(entry, "zipSHA256"@) == Some(JsonView::Text(checksum))
            &&& forall|key: Seq<char>|
                key != "vpmDependencies"@ && key != "zipSHA256"@ ==> #[trigger] member(entry, key)
                    == member(entry_of(repo, name, version), key)
        }),
{
    reveal_strlit("vpmDependencies");
    reveal_strlit("zipSHA256");
    assert("vpmDependencies"@.len() == 15 && "zipSHA256"@.len() == 9);
    let m = entry_of(repo, name, version)->0->Object_0;
    lemma_with_entry(
        repo,
        name,
        version,
        JsonView::Object(
            m.insert(
                "vpmDependencies"@,
                JsonView::Object(
                    members_or_none(JsonView::Object(m).get("vpmDependencies"@)).insert(
                        folder,
                        JsonView::Text("1.0.0"@),
                    ),
                ),
            ).insert("zipSHA256"@, JsonView::Text(checksum)),
        ),
    );
}

/// What was set is what is read: once the dependencies in a manifest are edited and the
/// manifest is stored, its bytes hold the edited manifest, and the dependencies that
/// are read in it are the given ones. Its other members stay, and setting the same
/// dependencies again changes nothing.
pub proof fn law_edited_dependencies_are_read(
    bytes: Seq<u8>,
    dependencies: JsonView,
    vpm_dependencies: JsonView,
    text: Seq<char>,
)
    requires
        json_bytes(bytes) is Ok,
        storable(json_bytes(bytes)->Ok_0, depth_limit()),
        storable(dependencies, (depth_limit() - 1) as nat),
        storable(vpm_dependencies, (depth_limit() - 1) as nat),
        manifest_edited(bytes, dependencies, vpm_dependencies) is Ok,
        stored_as(text, manifest_edited(bytes, dependencies, vpm_dependencies)->Ok_0),
    ensures
        ({
            let before = json_bytes(bytes)->Ok_0;
            let after = manifest_edited(bytes, dependencies, vpm_dependencies)->Ok_0;
            let stored = encode_utf8(text);
            &&& bytes_read_as(stored, after)
            &&& deps_value(after).get("dependencies"@) == Some(dependencies)
            &&& deps_value(after).get("vpmDependencies"@) == Some(vpm_dependencies)
            &&& deps_value(after).get("unity"@) == deps_value(before).get("unity"@)
            &&& forall|key: Seq<char>|
                key != "dependencies"@ && key != "vpmDependencies"@ ==> #[trigger] after.get(key)
                    == before.get(key)
            &&& manifest_edited(stored, dependencies, vpm_dependencies) == Ok::<JsonView, Fault>(
                after,
            )
        }),
{
    let before = json_bytes(bytes)->Ok_0;
    let once = before.with("dependencies"@, dependencies);
    let after = once.with("vpmDependencies"@, vpm_dependencies);
    reveal_strlit("dependencies");
    reveal_strlit("vpmDependencies");
    reveal_strlit("unity");
    assert("dependencies"@.len() != "vpmDependencies"@.len());
    assert("unity"@.len() != "dependencies"@.len() && "unity"@.len() != "vpmDependencies"@.len());
    lemma_plain_keys();
    lemma_storable_with(before, "dependencies"@, dependencies, depth_limit());
    lemma_storable_with(once, "vpmDependencies"@, vpm_dependencies, depth_limit());
    assert(after.with("dependencies"@, dependencies).with(
        "vpmDependencies"@,
        vpm_dependencies,
    )->Object_0 =~= after->Object_0);
}

/// A version can be deleted exactly where the registry lists it with an address; what is
/// removed is the file that the address stands for.
pub proof fn law_listed_versions_can_be_deleted(
    repo: JsonView,
    host: Seq<char>,
    name: Seq<char>,
    version: Seq<char>,
)
    ensures
        match member(entry_of(repo, name, version), "url"@) {
            Some(JsonView::Text(url)) => deletion(repo, host, name, version) matches Ok(d) && d.0
                == file_of_address(host, url),
            _ => deletion(repo, host, name, version) is Err,
        },
{
}

/// The dependencies of a version can be edited, and a folder of it converted, exactly
/// where the registry has an entry for it that is an object; and those in a manifest
/// where it is one or nothing.
pub proof fn law_entries_can_be_edited(
    repo: JsonView,
    name: Seq<char>,
    version: Seq<char>,
    a: JsonView,
    b: JsonView,
    folder: Seq<char>,
    checksum: Seq<char>,
)
    ensures
        with_dependencies(repo, name, version, a, b, checksum) is Ok <==> (entry_of(
            repo,
            name,
            version,
        ) matches Some(e) && e is Object),
        conversion(repo, name, version, folder, checksum) is Ok <==> (entry_of(
            repo,
            name,
            version,
        ) matches Some(e) && e is Object),
        manifest_with(a, b, b) is Ok <==> a is Object || a is Null,
{
}

/// A registry with packages takes a publication, and one without refuses it.
pub proof fn law_publication_needs_packages(
    repo: JsonView,
    name: Seq<char>,
    version: Seq<char>,
    entry: JsonView,
)
    ensures
        publication(repo, name, version, entry) is Ok <==> repo.get("packages"@) is Some,
{
}

/// The report on an edit of dependencies names the package, the version and the start of
/// the checksum.
pub proof fn law_edits_are_reported(name: Seq<char>, version: Seq<char>, checksum: Seq<char>)
    requires
        checksum.len() >= 16,
    ensures
        has_part(dependencies_text(name, version, checksum), name + "@"@ + version),
        has_part(dependencies_text(name, version, checksum), checksum.subrange(0, 16)),
{
    let front = "updated dependencies for "@;
    let middle = " (zipSHA256: "@;
    let sum = checksum.subrange(0, 16);
    let text = dependencies_text(name, version, checksum);
    assert(checksum.take(16) =~= sum);
    lemma_has_part(front, name + "@"@ + version, middle + sum + ")"@);
    assert(text =~= front + (name + "@"@ + version) + (middle + sum + ")"@));
    lemma_has_part(front + (name + "@"@ + version) + middle, sum, ")"@);
    assert(text =~= front + (name + "@"@ + version) + middle + sum + ")"@);
}

/// Whether a package says the same in two registries, but for its versions.
pub open spec fn keeps_package(repo: JsonView, after: JsonView, name: Seq<char>) -> bool {
    forall|key: Seq<char>|
        key != "versions"@ ==> #[trigger] member(package(after, name), key) == member(
            package(repo, name),
            key,
        )
}

/// A package keeps all that it says besides its versions, whether a version of it is
/// published, deleted beside others or given another entry.
pub proof fn law_changes_keep_the_package(
    repo: JsonView,
    name: Seq<char>,
    version: Seq<char>,
    entry: JsonView,
    other: Seq<char>,
)
    requires
        lists(repo, name, version),
    ensures
        keeps_package(repo, published(repo, name, version, entry), name),
        keeps_package(repo, with_entry(repo, name, version, entry), name),
        lists(repo, name, other) && other != version ==> keeps_package(
            repo,
            deleted(repo, name, version),
            name,
        ),
{
    let p = package(repo, name)->0;
    let m = versions(repo, name)->0;
    if lists(repo, name, other) && other != version {
        let rest = m.remove(version);
        assert(rest.contains_key(other));
        assert(package(deleted(repo, name, version), name) == Some(
            p.with("versions"@, JsonView::Object(rest)),
        ));
    }
    assert(package(with_entry(repo, name, version, entry), name) == Some(
        p.with("versions"@, JsonView::Object(m.insert(version, entry))),
    ));
}

/// A package that is published for the first time has that version, and nothing else is
/// said of it.
pub proof fn law_new_packages_have_one_version(
    repo: JsonView,
    name: Seq<char>,
    version: Seq<char>,
    entry: JsonView,
)
    requires
        repo.get("packages"@) matches Some(p) && p.assignable(),
        package(repo, name) is None,
    ensures
        package(published(repo, name, version, entry), name) matches Some(p) && {
            &&& forall|key: Seq<char>| key != "versions"@ ==> #[trigger] p.get(key) is None
            &&& forall|v: Seq<char>| #[trigger]
                lists(published(repo, name, version, entry), name, v) <==> v == version
        },
{
    law_publication(repo, name, version, entry);
}

/// The answer to a deletion names the package and the version, and what came of the
/// listings.
pub proof fn law_deletions_are_reported(name: Seq<char>, version: Seq<char>, regen: Seq<char>)
    ensures
        has_part(deletion_text(name, version, regen), name + "@"@ + version),
        has_part(deletion_text(name, version, regen), regen),
{
    let front = "removed "@;
    let text = deletion_text(name, version, regen);
    lemma_has_part(front, name + "@"@ + version, " ("@ + regen + ")"@);
    assert(text =~= front + (name + "@"@ + version) + (" ("@ + regen + ")"@));
    lemma_has_part(front + (name + "@"@ + version) + " ("@, regen, ")"@);
    assert(text =~= front + (name + "@"@ + version) + " ("@ + regen + ")"@);
}

/// A manifest that is kept is read as it stands; one that cannot be read is taken for one
/// that says nothing.
pub proof fn law_manifest_is_read_as_it_stands(bytes: Seq<u8>, key: Seq<char>)
    ensures
        json_bytes(bytes) matches Ok(v) ==> manifest_read(bytes) == v,
        json_bytes(bytes) is Err ==> manifest_read(bytes) is Object && manifest_read(bytes).get(
            key,
        ) is None,
{
}

} // verus!
