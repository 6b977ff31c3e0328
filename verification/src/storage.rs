//! What is written is what is read: a registry that can be stored stays so, whatever
//! the shop does with it.

use vstd::prelude::*;
use vstd::string::*;

use crate::codec::{depth_limit, json_text, raw_key, storable, stored_as};
use crate::demotion::{
    bump_order, candidate, chosen_slot, demoted, demotion_outcome, entry_as, lemma_all_moves_good,
    lemma_bump_order_holds, moved, moves, origin, relabelled, with_versions,
};
use crate::edits::{
    can_publish, conversion, deleted, entry_of, law_publication, member_or_null, members_or_none,
    package_or_new, published, with_dependencies,
};
use crate::error::Fault;
use crate::json::JsonView;
use crate::manifest::{law_published_file_is_found, version_entry};
use crate::names::{is_numeral, valid_id, valid_version, version_core};
use crate::registry::{file_of_version, lists, package, rc_key, rc_number, versions};
use crate::text::{before, decimal, is_digit, lemma_decimal, pieces};
use crate::urls::{zip_address, zip_file};

verus! {

/// What nests less deep than allowed may nest deeper.
pub proof fn lemma_storable_deeper(v: JsonView, depth: nat, deeper: nat)
    requires
        storable(v, depth),
        depth <= deeper,
    ensures
        storable(v, deeper),
    decreases depth,
{
    match v {
        JsonView::Array(items) => {
            assert forall|i: int| 0 <= i < items.len() implies storable(
                #[trigger] items[i],
                (deeper - 1) as nat,
            ) by {
                lemma_storable_deeper(items[i], (depth - 1) as nat, (deeper - 1) as nat);
            }
        },
        JsonView::Object(m) => {
            assert forall|k: Seq<char>| #[trigger] m.contains_key(k) implies storable(
                m[k],
                (deeper - 1) as nat,
            ) by {
                lemma_storable_deeper(m[k], (depth - 1) as nat, (deeper - 1) as nat);
            }
        },
        _ => {},
    }
}

/// The keys that the shop itself writes are none of raw text.
pub proof fn lemma_plain_keys()
    ensures
        "packages"@ != raw_key(),
        "versions"@ != raw_key(),
        "name"@ != raw_key(),
        "displayName"@ != raw_key(),
        "version"@ != raw_key(),
        "unity"@ != raw_key(),
        "description"@ != raw_key(),
        "author"@ != raw_key(),
        "url"@ != raw_key(),
        "dependencies"@ != raw_key(),
        "vpmDependencies"@ != raw_key(),
        "category"@ != raw_key(),
        "zipSHA256"@ != raw_key(),
{
    reveal_strlit("$serde_json::private::RawValue");
    reveal_strlit("packages");
    reveal_strlit("versions");
    reveal_strlit("name");
    reveal_strlit("displayName");
    reveal_strlit("version");
    reveal_strlit("unity");
    reveal_strlit("description");
    reveal_strlit("author");
    reveal_strlit("url");
    reveal_strlit("dependencies");
    reveal_strlit("vpmDependencies");
    reveal_strlit("category");
    reveal_strlit("zipSHA256");
    assert(raw_key().len() == 30);
}

/// Package ids and versions are no keys of raw text.
pub proof fn law_names_are_plain_keys(name: Seq<char>, version: Seq<char>)
    requires
        valid_id(name),
        valid_version(version),
    ensures
        name != raw_key(),
        version != raw_key(),
{
    let key = raw_key();
    reveal_strlit("$serde_json::private::RawValue");
    assert(key[0] == '$');
    if version == key {
        let core = version_core(key);
        lemma_before_start(key, '-');
        lemma_before_start(before(key, '-'), '+');
        assert(core[0] == '$');
        lemma_pieces_start(core, '.');
        let first = pieces(core, '.')[0];
        assert(is_numeral(first));
        assert(first[0] == '$');
    }
}

/// Release candidates are no keys of raw text.
proof fn lemma_candidates_are_plain_keys(base: Seq<char>, n: nat)
    ensures
        rc_key(base, n) != raw_key(),
{
    reveal_strlit("$serde_json::private::RawValue");
    assert(raw_key()[29] == 'e');
    lemma_decimal(n);
    let d = decimal(n);
    assert(rc_key(base, n).last() == d.last());
    assert(is_digit(d[d.len() - 1]));
}

/// A text up to a character that it does not start with starts like the text.
proof fn lemma_before_start(s: Seq<char>, stop: char)
    requires
        s.len() > 0,
        s[0] != stop,
    ensures
        before(s, stop).len() > 0,
        before(s, stop)[0] == s[0],
{
}

/// The first piece of a text starts like the text, unless that starts with the
/// separator.
proof fn lemma_pieces_start(s: Seq<char>, sep: char)
    requires
        s.len() > 0,
        s[0] != sep,
    ensures
        pieces(s, sep).len() > 0,
        pieces(s, sep)[0].len() > 0,
        pieces(s, sep)[0][0] == s[0],
    decreases s.len(),
{
    if s.len() > 1 {
        lemma_pieces_start(s.drop_last(), sep);
    } else {
        assert(pieces(s.drop_last(), sep) =~= seq![Seq::<char>::empty()]);
    }
}

/// A value with another member can be stored.
pub proof fn lemma_storable_with(v: JsonView, key: Seq<char>, value: JsonView, depth: nat)
    requires
        key != raw_key(),
        depth > 0,
        storable(v, depth),
        v.assignable(),
        storable(value, (depth - 1) as nat),
    ensures
        storable(v.with(key, value), depth),
{
}

/// An array can be stored where each of its items can.
pub proof fn lemma_storable_items(items: Seq<JsonView>, depth: nat)
    requires
        depth > 0,
    ensures
        storable(JsonView::Array(items), depth) <==> forall|i: int|
            0 <= i < items.len() ==> storable(#[trigger] items[i], (depth - 1) as nat),
{
    let v = JsonView::Array(items);
    let all = forall|i: int|
        0 <= i < items.len() ==> storable(#[trigger] items[i], (depth - 1) as nat);
    if storable(v, depth) {
        assert forall|i: int| 0 <= i < items.len() implies storable(
            #[trigger] items[i],
            (depth - 1) as nat,
        ) by {
            assert(v->Array_0[i] == items[i]);
        }
    }
    if all {
        assert(storable(v, depth));
    }
}

/// A member of a value that can be stored can be stored.
pub proof fn lemma_storable_member(v: JsonView, key: Seq<char>, depth: nat)
    requires
        storable(v, depth),
        v.get(key) is Some,
    ensures
        depth > 0,
        storable(v.get(key)->0, (depth - 1) as nat),
{
    assert(v->Object_0.contains_key(key));
}

/// A member of a value that can be stored can be stored, and so can the null in its
/// place.
proof fn lemma_storable_slot(v: JsonView, key: Seq<char>, depth: nat)
    requires
        storable(v, (depth + 1) as nat),
    ensures
        storable(member_or_null(v, key), depth),
{
    if v.get(key) is Some {
        lemma_storable_member(v, key, (depth + 1) as nat);
    }
}

/// The depth that is left for the entry of a version.
pub open spec fn entry_depth() -> nat {
    123
}

/// A registry that can be stored still can after a publication of an entry that can
/// be stored in it, unless the name or the version is the key of raw text.
pub proof fn law_publication_can_be_stored(
    repo: JsonView,
    name: Seq<char>,
    version: Seq<char>,
    entry: JsonView,
)
    requires
        repo.get("packages"@) is Some,
        can_publish(repo, name),
        name != raw_key(),
        version != raw_key(),
        storable(repo, depth_limit()),
        storable(entry, entry_depth()),
    ensures
        storable(published(repo, name, version, entry), depth_limit()),
{
    let packages = repo.get("packages"@)->0;
    let pkg = package_or_new(repo, name);
    let vs = member_or_null(pkg, "versions"@);
    lemma_plain_keys();
    lemma_storable_member(repo, "packages"@, 127);
    if package(repo, name) is Some {
        lemma_storable_member(packages, name, 126);
    } else {
        reveal_with_fuel(storable, 3);
    }
    assert(storable(pkg, 125));
    lemma_storable_slot(pkg, "versions"@, 124);
    lemma_storable_with(vs, version, entry, 124);
    lemma_storable_with(pkg, "versions"@, vs.with(version, entry), 125);
    let pkg1 = pkg.with("versions"@, vs.with(version, entry));
    lemma_storable_with(packages, name, pkg1, 126);
    lemma_storable_with(repo, "packages"@, packages.with(name, pkg1), 127);
}

/// A registry with other versions of a listed package can be stored, where each of
/// them can.
proof fn lemma_versions_can_be_stored(
    repo: JsonView,
    name: Seq<char>,
    m: Map<Seq<char>, JsonView>,
)
    requires
        versions(repo, name) is Some,
        storable(repo, depth_limit()),
        !m.contains_key(raw_key()),
        forall|k: Seq<char>| #[trigger] m.contains_key(k) ==> storable(m[k], entry_depth()),
    ensures
        storable(with_versions(repo, name, m), depth_limit()),
{
    let packages = repo.get("packages"@)->0;
    let pkg = package(repo, name)->0;
    lemma_plain_keys();
    lemma_storable_member(repo, "packages"@, 127);
    lemma_storable_member(packages, name, 126);
    assert(storable(JsonView::Object(m), 124));
    lemma_storable_with(pkg, "versions"@, JsonView::Object(m), 125);
    let pkg1 = pkg.with("versions"@, JsonView::Object(m));
    lemma_storable_with(packages, name, pkg1, 126);
    lemma_storable_with(repo, "packages"@, packages.with(name, pkg1), 127);
}

/// The entries of a registry that can be stored can be stored in it.
proof fn lemma_entries_can_be_stored(repo: JsonView, name: Seq<char>, key: Seq<char>)
    requires
        storable(repo, depth_limit()),
        lists(repo, name, key),
    ensures
        storable(versions(repo, name)->0[key], entry_depth()),
        !versions(repo, name)->0.contains_key(raw_key()),
{
    let packages = repo.get("packages"@)->0;
    let pkg = package(repo, name)->0;
    lemma_storable_member(repo, "packages"@, 127);
    lemma_storable_member(packages, name, 126);
    lemma_storable_member(pkg, "versions"@, 125);
    lemma_storable_member(pkg.get("versions"@)->0, key, 124);
}

/// A registry that can be stored still can after a deletion.
pub proof fn law_deletion_can_be_stored(repo: JsonView, name: Seq<char>, version: Seq<char>)
    requires
        storable(repo, depth_limit()),
        lists(repo, name, version),
    ensures
        storable(deleted(repo, name, version), depth_limit()),
{
    let rest = versions(repo, name)->0.remove(version);
    lemma_plain_keys();
    lemma_entries_can_be_stored(repo, name, version);
    if rest == Map::<Seq<char>, JsonView>::empty() {
        let packages = repo.get("packages"@)->0;
        lemma_storable_member(repo, "packages"@, 127);
        assert(storable(packages.without(name), 126));
        lemma_storable_with(repo, "packages"@, packages.without(name), 127);
    } else {
        assert forall|k: Seq<char>| #[trigger] rest.contains_key(k) implies storable(
            rest[k],
            entry_depth(),
        ) by {
            lemma_entries_can_be_stored(repo, name, k);
        }
        lemma_versions_can_be_stored(repo, name, rest);
    }
}

/// A registry that can be stored still can after a demotion.
pub proof fn law_demotion_can_be_stored(
    repo: JsonView,
    host: Seq<char>,
    name: Seq<char>,
    version: Seq<char>,
    rc_slot: Option<u64>,
)
    requires
        storable(repo, depth_limit()),
        demotion_outcome(repo, host, name, version, rc_slot) is Ok,
    ensures
        storable(demotion_outcome(repo, host, name, version, rc_slot)->Ok_0.0, depth_limit()),
{
    let m = versions(repo, name)->0;
    let slot = chosen_slot(m, version, rc_slot);
    let steps = moves(m, version, slot);
    let ns = bump_order(m, version, slot);
    let after = demoted(m, version, slot, host);
    lemma_bump_order_holds(m, version, slot);
    lemma_plain_keys();
    lemma_entries_can_be_stored(repo, name, version);
    lemma_candidates_are_plain_keys(version, slot as nat);
    assert(candidate(version, raw_key()) is None) by {
        if rc_number(version, raw_key()) is Some {
            lemma_candidates_are_plain_keys(version, rc_number(version, raw_key())->0 as nat);
        }
    }
    assert(!after.contains_key(raw_key()));
    assert forall|k: Seq<char>| #[trigger] after.contains_key(k) implies storable(
        after[k],
        entry_depth(),
    ) by {
        let top = rc_key(version, slot as nat);
        let from = if k == top {
            version
        } else {
            origin(m, version, slot as int, k)->0
        };
        assert(after[k] == entry_as(m, host, from, k));
        lemma_entries_can_be_stored(repo, name, from);
        if from != k {
            let i = if k == top {
                steps.len() - 1
            } else {
                let n = (candidate(version, k)->0 - 1) as u64;
                assert(m.contains_key(rc_key(version, n as nat)));
                assert(ns.contains(n));
                choose|i: int| 0 <= i < ns.len() && ns[i] == n
            };
            assert(steps[i] == (from, k));
            lemma_all_moves_good(m, host, steps, i);
            let entry = m[from];
            assert(moved(m, host, steps[i]) is Ok);
            let one = entry.with("version"@, JsonView::Text(k));
            assert(entry is Object);
            lemma_storable_with(entry, "version"@, JsonView::Text(k), entry_depth());
            let url = relabelled(entry, host, k)->Ok_0.0.get("url"@)->0;
            lemma_storable_with(one, "url"@, url, entry_depth());
        }
    }
    lemma_versions_can_be_stored(repo, name, after);
}

/// A registry that can be stored still can after an edit of dependencies that can be
/// stored in it.
pub proof fn law_dependency_edit_can_be_stored(
    repo: JsonView,
    name: Seq<char>,
    version: Seq<char>,
    dependencies: JsonView,
    vpm_dependencies: JsonView,
    checksum: Seq<char>,
)
    requires
        storable(repo, depth_limit()),
        storable(dependencies, (entry_depth() - 1) as nat),
        storable(vpm_dependencies, (entry_depth() - 1) as nat),
        with_dependencies(
            repo,
            name,
            version,
            dependencies,
            vpm_dependencies,
            checksum,
        ) is Ok,
    ensures
        storable(
            with_dependencies(
                repo,
                name,
                version,
                dependencies,
                vpm_dependencies,
                checksum,
            )->Ok_0,
            depth_limit(),
        ),
{
    let m = versions(repo, name)->0;
    let entry = entry_of(repo, name, version)->0;
    lemma_plain_keys();
    lemma_entries_can_be_stored(repo, name, version);
    lemma_storable_with(entry, "dependencies"@, dependencies, entry_depth());
    let one = entry.with("dependencies"@, dependencies);
    lemma_storable_with(one, "vpmDependencies"@, vpm_dependencies, entry_depth());
    let two = one.with("vpmDependencies"@, vpm_dependencies);
    lemma_storable_with(two, "zipSHA256"@, JsonView::Text(checksum), entry_depth());
    let three = two.with("zipSHA256"@, JsonView::Text(checksum));
    let after = m.insert(version, three);
    assert forall|k: Seq<char>| #[trigger] after.contains_key(k) implies storable(
        after[k],
        entry_depth(),
    ) by {
        if k != version {
            lemma_entries_can_be_stored(repo, name, k);
        }
    }
    lemma_versions_can_be_stored(repo, name, after);
}

/// A registry that can be stored still can after a folder of a version became a
/// dependency of it, unless the name of the folder is the key of raw text.
pub proof fn law_conversion_can_be_stored(
    repo: JsonView,
    name: Seq<char>,
    version: Seq<char>,
    folder: Seq<char>,
    checksum: Seq<char>,
)
    requires
        storable(repo, depth_limit()),
        folder != raw_key(),
        conversion(repo, name, version, folder, checksum) is Ok,
    ensures
        storable(conversion(repo, name, version, folder, checksum)->Ok_0, depth_limit()),
{
    let m = versions(repo, name)->0;
    let entry = entry_of(repo, name, version)->0;
    lemma_plain_keys();
    lemma_entries_can_be_stored(repo, name, version);
    let old = JsonView::Object(members_or_none(entry.get("vpmDependencies"@)));
    if entry.get("vpmDependencies"@) is Some {
        lemma_storable_member(entry, "vpmDependencies"@, entry_depth());
    }
    assert(storable(old, 122));
    let deps = old.with(folder, JsonView::Text("1.0.0"@));
    lemma_storable_with(old, folder, JsonView::Text("1.0.0"@), 122);
    lemma_storable_with(entry, "vpmDependencies"@, deps, entry_depth());
    let one = entry.with("vpmDependencies"@, deps);
    lemma_storable_with(one, "zipSHA256"@, JsonView::Text(checksum), entry_depth());
    let after = m.insert(version, one.with("zipSHA256"@, JsonView::Text(checksum)));
    assert forall|k: Seq<char>| #[trigger] after.contains_key(k) implies storable(
        after[k],
        entry_depth(),
    ) by {
        if k != version {
            lemma_entries_can_be_stored(repo, name, k);
        }
    }
    lemma_versions_can_be_stored(repo, name, after);
}

/// A version that was published is there when the registry is read again: it is
/// listed, with its entry, and leads to the file that it was published in. `text` is
/// the text that the registry was stored as. The name and the version are no keys of
/// raw text, as no valid ones are.
pub proof fn law_published_version_is_read_back(
    repo: JsonView,
    host: Seq<char>,
    name: Seq<char>,
    version: Seq<char>,
    category: Seq<char>,
    dirname: Seq<char>,
    pkg: JsonView,
    checksum: Seq<char>,
    text: Seq<char>,
)
    requires
        repo.get("packages"@) is Some,
        can_publish(repo, name),
        name != raw_key(),
        version != raw_key(),
        storable(repo, depth_limit()),
        storable(pkg, entry_depth()),
        !zip_address(host, category, dirname, version).contains('?'),
        ({
            let url = zip_address(host, category, dirname, version);
            stored_as(
                text,
                published(
                    repo,
                    name,
                    version,
                    version_entry(name, version, category, url, pkg, checksum),
                ),
            )
        }),
    ensures
        json_text(text) matches Ok(read) && lists(read, name, version) && versions(
            read,
            name,
        )->0[version] == version_entry(
            name,
            version,
            category,
            zip_address(host, category, dirname, version),
            pkg,
            checksum,
        ) && file_of_version(read, host, name, version) == Ok::<Seq<char>, Fault>(
            zip_file(category, dirname, version),
        ),
{
    let url = zip_address(host, category, dirname, version);
    let entry = version_entry(name, version, category, url, pkg, checksum);
    let m = entry->Object_0;
    lemma_plain_keys();
    assert(storable(entry, entry_depth())) by {
        lemma_storable_slot(pkg, "displayName"@, 122);
        lemma_storable_slot(pkg, "unity"@, 122);
        lemma_storable_slot(pkg, "description"@, 122);
        lemma_storable_slot(pkg, "author"@, 122);
        lemma_storable_slot(pkg, "dependencies"@, 122);
        lemma_storable_slot(pkg, "vpmDependencies"@, 122);
        assert forall|k: Seq<char>| #[trigger] m.contains_key(k) implies storable(m[k], 122) by {
        }
    }
    law_publication_can_be_stored(repo, name, version, entry);
    law_publication(repo, name, version, entry);
    law_published_file_is_found(repo, host, name, version, category, dirname, pkg, checksum);
}

} // verus!
