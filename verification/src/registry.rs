//! The master registry: which versions of which packages the shop offers.

use vstd::prelude::*;
use vstd::string::*;

use crate::codec::{json_text, parse};
use crate::error::{Fault, ShopError, agrees, broken};
use crate::json::{Json, JsonView, member, text_of_value};
use crate::names::{valid_version, version_core};
use crate::text::{
    after_prefix, before, cat3, cat5, comes_before, decimal, decimal_of, lemma_parsed_decimal,
    lemma_precedes_strict, lemma_precedes_total, lemma_precedes_transitive, parse_u64, parsed,
    precedes, strip_prefix, texts,
};
use crate::urls::{file_of_address, url_path};

verus! {

// ---------------------------------------------------------------------------
// Reading
// ---------------------------------------------------------------------------

/// The entry of a package.
pub open spec fn package(repo: JsonView, name: Seq<char>) -> Option<JsonView> {
    member(repo.get("packages"@), name)
}

/// The versions of a package, each with its entry.
pub open spec fn versions(repo: JsonView, name: Seq<char>) -> Option<Map<Seq<char>, JsonView>> {
    match member(package(repo, name), "versions"@) {
        Some(v) => v.members(),
        None => None,
    }
}

/// Whether the registry lists a version of a package.
pub open spec fn lists(repo: JsonView, name: Seq<char>, version: Seq<char>) -> bool {
    versions(repo, name) matches Some(m) && m.contains_key(version)
}

/// The versions of a package, as they stand in the registry.
fn versions_value<'a>(repo: &'a Json, name: &str) -> (r: Option<&'a Json>)
    ensures
        match r {
            Some(v) => v@ is Object && versions(repo@, name@) == Some(v@->Object_0),
            None => versions(repo@, name@) is None,
        },
{
    match repo.get("packages") {
        Some(packages) => match packages.get(name) {
            Some(pkg) => match pkg.get("versions") {
                Some(v) => if v.is_object() {
                    Some(v)
                } else {
                    None
                },
                None => None,
            },
            None => None,
        },
        None => None,
    }
}

/// Whether the registry lists a version of a package.
pub fn has_version(repo: &Json, name: &str, version: &str) -> (r: bool)
    ensures
        r == lists(repo@, name@, version@),
{
    match versions_value(repo, name) {
        Some(v) => v.has(version),
        None => false,
    }
}

/// Whether the registry in a text lists a version of a package. A text that is no
/// JSON is refused with the reason.
pub fn version_exists(registry: &str, name: &str, version: &str) -> (r: Result<bool, ShopError>)
    ensures
        agrees(
            r,
            match json_text(registry@) {
                Ok(repo) => Ok(lists(repo, name@, version@)),
                Err(m) => Err(Fault::Refused(m)),
            },
        ),
{
    match parse(registry) {
        Ok(repo) => Ok(has_version(&repo, name, version)),
        Err(m) => Err(ShopError::Refused(m)),
    }
}

/// The refusal for a package that the registry does not have.
pub open spec fn no_package(name: Seq<char>) -> Fault {
    Fault::Refused("package '"@ + name + "' not found in registry"@)
}

/// The file of a listed version, from the directory that holds the categories on;
/// or the refusal that says what the registry lacks.
pub open spec fn file_of_version(
    repo: JsonView,
    host: Seq<char>,
    name: Seq<char>,
    version: Seq<char>,
) -> Result<Seq<char>, Fault> {
    if package(repo, name) is None {
        Err(no_package(name))
    } else {
        match member(member(package(repo, name), "versions"@), version) {
            None => Err(
                Fault::Refused("version '"@ + version + "' not found for '"@ + name + "'"@),
            ),
            Some(entry) => match text_of_value(entry.get("url"@)) {
                None => Err(
                    Fault::Refused(
                        "no url in ver_entry for '"@ + name + "@"@ + version + "'"@,
                    ),
                ),
                Some(url) => Ok(file_of_address(host, url)),
            },
        }
    }
}

/// The file of a listed version.
pub fn zip_of_version(repo: &Json, host: &str, name: &str, version: &str) -> (r: Result<
    String,
    ShopError,
>)
    ensures
        agrees(r, file_of_version(repo@, host@, name@, version@)),
{
    let pkg = match repo.get("packages") {
        Some(packages) => packages.get(name),
        None => None,
    };
    let pkg = match pkg {
        Some(p) => p,
        None => {
            let m = cat3("package '", name, "' not found in registry");
            return Err(ShopError::Refused(m));
        },
    };
    let entry = match pkg.get("versions") {
        Some(v) => v.get(version),
        None => None,
    };
    let entry = match entry {
        Some(e) => e,
        None => {
            let m = cat5("version '", version, "' not found for '", name, "'");
            return Err(ShopError::Refused(m));
        },
    };
    match entry.text_at("url") {
        Some(url) => Ok(url_path(host, url)),
        None => {
            let m = cat5("no url in ver_entry for '", name, "@", version, "'");
            Err(ShopError::Refused(m))
        },
    }
}

/// The file of a version that the registry in a text lists, from the directory that
/// holds the categories on.
pub open spec fn stored_file(
    registry: Seq<char>,
    host: Seq<char>,
    name: Seq<char>,
    version: Seq<char>,
) -> Result<Seq<char>, Fault> {
    match json_text(registry) {
        Ok(repo) => file_of_version(repo, host, name, version),
        Err(m) => Err(Fault::Refused(m)),
    }
}

/// The file of a version that the registry in a text lists.
pub fn find_zip(registry: &str, host: &str, name: &str, version: &str) -> (r: Result<
    String,
    ShopError,
>)
    ensures
        agrees(r, stored_file(registry@, host@, name@, version@)),
{
    match parse(registry) {
        Ok(repo) => zip_of_version(&repo, host, name, version),
        Err(m) => Err(ShopError::Refused(m)),
    }
}

/// The category that the entry of a version names.
pub open spec fn entry_category(entry: JsonView) -> Option<Seq<char>> {
    text_of_value(entry.get("category"@))
}

/// A version has an entry that names a category.
pub open spec fn is_categorized(m: Map<Seq<char>, JsonView>, key: Seq<char>) -> bool {
    m.contains_key(key) && entry_category(m[key]) is Some
}

/// A version names a category, and comes before every other one that does.
pub open spec fn is_first_categorized(m: Map<Seq<char>, JsonView>, key: Seq<char>) -> bool {
    &&& is_categorized(m, key)
    &&& forall|other: Seq<char>| #[trigger]
        is_categorized(m, other) ==> other == key || precedes(key, other)
}

/// The first version that names a category.
pub open spec fn first_categorized(m: Map<Seq<char>, JsonView>) -> Seq<char> {
    choose|key: Seq<char>| is_first_categorized(m, key)
}

/// Whether any version names a category.
pub open spec fn any_categorized(m: Map<Seq<char>, JsonView>) -> bool {
    exists|key: Seq<char>| is_categorized(m, key)
}

/// The category of a package: its own, or else one that any of its versions names, of
/// several the one that the first of these names. There is none only where neither the
/// package nor any of its versions names one.
pub open spec fn category(repo: JsonView, name: Seq<char>) -> Option<Seq<char>> {
    match text_of_value(member(package(repo, name), "category"@)) {
        Some(c) => Some(c),
        None => match versions(repo, name) {
            Some(m) => if any_categorized(m) {
                entry_category(m[first_categorized(m)])
            } else {
                None
            },
            None => None,
        },
    }
}

pub proof fn lemma_first_categorized(m: Map<Seq<char>, JsonView>, key: Seq<char>)
    requires
        is_first_categorized(m, key),
    ensures
        any_categorized(m),
        first_categorized(m) == key,
{
    let other = first_categorized(m);
    assert(is_first_categorized(m, other));
    if other != key {
        assert(precedes(key, other));
        assert(precedes(other, key));
        lemma_precedes_strict(key, other);
    }
}

/// The category of the first version that names one.
fn first_category(v: &Json) -> (r: Option<String>)
    requires
        v@ is Object,
    ensures
        match r {
            Some(c) => any_categorized(v@->Object_0) && entry_category(
                v@->Object_0[first_categorized(v@->Object_0)],
            ) == Some(c@),
            None => !any_categorized(v@->Object_0),
        },
{
    let keys = v.keys();
    let ghost m = v@->Object_0;
    let mut best: Option<(usize, String)> = None;
    let mut i: usize = 0;
    while i < keys.len()
        invariant
            i <= keys.len(),
            v@ == JsonView::Object(m),
            match best {
                Some((b, c)) => {
                    &&& b < i
                    &&& is_categorized(m, keys@[b as int]@)
                    &&& entry_category(m[keys@[b as int]@]) == Some(c@)
                    &&& forall|j: int|
                        0 <= j < i && is_categorized(m, (#[trigger] keys@[j])@) ==> keys@[j]@
                            == keys@[b as int]@ || precedes(keys@[b as int]@, keys@[j]@)
                },
                None => forall|j: int|
                    0 <= j < i ==> !is_categorized(m, (#[trigger] keys@[j])@),
            },
        decreases keys.len() - i,
    {
        let found = match v.get(keys[i].as_str()) {
            Some(entry) => entry.text_at("category"),
            None => None,
        };
        let ghost key = keys@[i as int]@;
        match found {
            Some(c) => {
                assert(is_categorized(m, key));
                let earlier = match &best {
                    Some((b, _)) => {
                        let less = comes_before(keys[i].as_str(), keys[*b].as_str());
                        proof {
                            let was = keys@[*b as int]@;
                            lemma_precedes_total(key, was);
                            if less {
                                assert forall|j: int|
                                    0 <= j < i && is_categorized(
                                        m,
                                        (#[trigger] keys@[j])@,
                                    ) implies precedes(key, keys@[j]@) by {
                                    if keys@[j]@ != was {
                                        lemma_precedes_transitive(key, was, keys@[j]@);
                                    }
                                }
                            }
                        }
                        less
                    },
                    None => true,
                };
                if earlier {
                    best = Some((i, c.to_string()));
                }
            },
            None => {
                assert(!is_categorized(m, key));
            },
        }
        i = i + 1;
    }
    proof {
        assert forall|key: Seq<char>| #[trigger] is_categorized(m, key) implies exists|j: int|
            0 <= j < keys@.len() && (#[trigger] keys@[j])@ == key by {
            assert(v@.get(key) is Some);
            assert(texts(keys@).contains(key));
            let j = choose|j: int| 0 <= j < texts(keys@).len() && texts(keys@)[j] == key;
            assert(keys@[j]@ == key);
        }
        match best {
            Some((b, _)) => {
                lemma_first_categorized(m, keys@[b as int]@);
            },
            None => {},
        }
    }
    match best {
        Some((_, c)) => Some(c),
        None => None,
    }
}

/// The category of a package.
pub fn category_in(repo: &Json, name: &str) -> (r: Option<String>)
    ensures
        match r {
            Some(c) => category(repo@, name@) == Some(c@),
            None => category(repo@, name@) is None,
        },
{
    let pkg = match repo.get("packages") {
        Some(packages) => packages.get(name),
        None => None,
    };
    match pkg {
        Some(p) => {
            match p.text_at("category") {
                Some(c) => {
                    return Some(c.to_string());
                },
                None => {},
            }
        },
        None => {
            return None;
        },
    }
    match versions_value(repo, name) {
        Some(v) => first_category(v),
        None => None,
    }
}

/// What a text that may be missing says.
pub open spec fn seen_text(t: Option<String>) -> Option<Seq<char>> {
    match t {
        Some(s) => Some(s@),
        None => None,
    }
}

/// The category that the registry in a text has for a package, so that another
/// upload of the package stays in it.
pub fn existing_category(registry: &str, name: &str) -> (r: Result<Option<String>, ShopError>)
    ensures
        match r {
            Ok(c) => json_text(registry@) matches Ok(repo) && category(repo, name@) == seen_text(c),
            Err(e) => json_text(registry@) matches Err(m) && e@ == Fault::Refused(m),
        },
{
    match parse(registry) {
        Ok(repo) => Ok(category_in(&repo, name)),
        Err(m) => Err(ShopError::Refused(m)),
    }
}

// ---------------------------------------------------------------------------
// Release candidates
// ---------------------------------------------------------------------------

/// The key of a release candidate.
pub open spec fn rc_key(base: Seq<char>, n: nat) -> Seq<char> {
    base + "-rc."@ + decimal(n)
}

/// The number of a release candidate of `base`.
pub open spec fn rc_number(base: Seq<char>, key: Seq<char>) -> Option<u64> {
    match after_prefix(key, base + "-rc."@) {
        Some(tail) => match parsed(tail) {
            Ok(n) => Some(n),
            Err(_) => None,
        },
        None => None,
    }
}

/// A number is that of a release candidate of `base`.
pub open spec fn has_rc(m: Map<Seq<char>, JsonView>, base: Seq<char>, n: u64) -> bool {
    exists|key: Seq<char>| #[trigger] m.contains_key(key) && rc_number(base, key) == Some(n)
}

/// A number is the highest of the release candidates of `base`, or zero where
/// there are none.
pub open spec fn is_highest_rc(m: Map<Seq<char>, JsonView>, base: Seq<char>, n: u64) -> bool {
    &&& forall|key: Seq<char>| #[trigger]
        m.contains_key(key) && rc_number(base, key) is Some ==> rc_number(base, key)->0 <= n
    &&& n == 0 || has_rc(m, base, n)
}

/// The highest number of the release candidates of `base`, or zero.
pub open spec fn highest_rc(m: Map<Seq<char>, JsonView>, base: Seq<char>) -> u64 {
    choose|n: u64| is_highest_rc(m, base, n)
}

proof fn lemma_highest_rc_up_to(m: Map<Seq<char>, JsonView>, base: Seq<char>, n: u64)
    requires
        forall|key: Seq<char>| #[trigger]
            m.contains_key(key) && rc_number(base, key) is Some ==> rc_number(base, key)->0 <= n,
    ensures
        is_highest_rc(m, base, highest_rc(m, base)),
    decreases n,
{
    if n == 0 || has_rc(m, base, n) {
        assert(is_highest_rc(m, base, n));
    } else {
        assert forall|key: Seq<char>| #[trigger]
            m.contains_key(key) && rc_number(base, key) is Some implies rc_number(base, key)->0
            <= n - 1 by {
            assert(rc_number(base, key) != Some(n));
        }
        lemma_highest_rc_up_to(m, base, (n - 1) as u64);
    }
}

/// The highest number of the release candidates is what its name says.
pub proof fn lemma_highest_rc_holds(m: Map<Seq<char>, JsonView>, base: Seq<char>)
    ensures
        is_highest_rc(m, base, highest_rc(m, base)),
{
    lemma_highest_rc_up_to(m, base, u64::MAX);
}

proof fn lemma_highest_rc(m: Map<Seq<char>, JsonView>, base: Seq<char>, n: u64)
    requires
        is_highest_rc(m, base, n),
    ensures
        highest_rc(m, base) == n,
{
    let other = highest_rc(m, base);
    assert(is_highest_rc(m, base, other));
    if other > 0 {
        let key = choose|key: Seq<char>| #[trigger]
            m.contains_key(key) && rc_number(base, key) == Some(other);
        assert(other <= n);
    }
    if n > 0 {
        let key = choose|key: Seq<char>| #[trigger]
            m.contains_key(key) && rc_number(base, key) == Some(n);
        assert(n <= other);
    }
}

/// A release candidate has the number that stands in its key.
pub proof fn lemma_rc_number(base: Seq<char>, n: u64)
    ensures
        rc_number(base, rc_key(base, n as nat)) == Some(n),
{
    let prefix = base + "-rc."@;
    let key = rc_key(base, n as nat);
    assert(key.subrange(0, prefix.len() as int) =~= prefix);
    assert(key.skip(prefix.len() as int) =~= decimal(n as nat));
    lemma_parsed_decimal(n);
}

/// The number of a release candidate of `base`.
fn number_of(base: &str, key: &str) -> (r: Option<u64>)
    ensures
        r == rc_number(base@, key@),
{
    let mut prefix = base.to_string();
    prefix.append("-rc.");
    match strip_prefix(key, prefix.as_str()) {
        Some(tail) => match parse_u64(tail.as_str()) {
            Ok(n) => Some(n),
            Err(_) => None,
        },
        None => None,
    }
}

/// The key of a release candidate.
pub fn candidate_key(base: &str, n: u64) -> (r: String)
    ensures
        r@ == rc_key(base@, n as nat),
{
    let mut out = base.to_string();
    out.append("-rc.");
    let d = decimal_of(n);
    out.append(d.as_str());
    out
}

/// The numbers of all release candidates of `base`.
pub(crate) fn rc_numbers(v: &Json, base: &str) -> (r: Vec<u64>)
    requires
        v@ is Object,
    ensures
        forall|n: u64| #[trigger] r@.contains(n) <==> has_rc(v@->Object_0, base@, n),
{
    let keys = v.keys();
    let ghost m = v@->Object_0;
    let mut out: Vec<u64> = Vec::new();
    let mut i: usize = 0;
    while i < keys.len()
        invariant
            i <= keys.len(),
            m == v@->Object_0,
            v@ is Object,
            forall|k: Seq<char>|
                #![trigger texts(keys@).contains(k)]
                #![trigger v@.get(k)]
                texts(keys@).contains(k) <==> v@.get(k) is Some,
            forall|a: int| 0 <= a < out@.len() ==> has_rc(m, base@, #[trigger] out@[a]),
            forall|j: int|
                0 <= j < i && rc_number(base@, (#[trigger] keys@[j])@) is Some ==> out@.contains(
                    rc_number(base@, keys@[j]@)->0,
                ),
        decreases keys.len() - i,
    {
        let ghost before = out@;
        match number_of(base, keys[i].as_str()) {
            Some(n) => {
                proof {
                    let key = keys@[i as int]@;
                    assert(texts(keys@)[i as int] == key);
                    assert(texts(keys@).contains(key));
                    assert(v@.get(key) is Some);
                    assert(m.contains_key(key));
                }
                out.push(n);
                assert(out@[out@.len() - 1] == n);
                assert forall|j: int|
                    0 <= j < i && rc_number(
                        base@,
                        (#[trigger] keys@[j])@,
                    ) is Some implies out@.contains(rc_number(base@, keys@[j]@)->0) by {
                    let w = rc_number(base@, keys@[j]@)->0;
                    let a = choose|a: int| 0 <= a < before.len() && before[a] == w;
                    assert(out@[a] == w);
                }
            },
            None => {},
        }
        i = i + 1;
    }
    assert forall|n: u64| #[trigger] out@.contains(n) <==> has_rc(m, base@, n) by {
        if has_rc(m, base@, n) {
            let key = choose|key: Seq<char>| #[trigger]
                m.contains_key(key) && rc_number(base@, key) == Some(n);
            assert(v@.get(key) is Some);
            assert(texts(keys@).contains(key));
            let j = choose|j: int| 0 <= j < texts(keys@).len() && texts(keys@)[j] == key;
            assert(keys@[j]@ == key);
        }
    }
    out
}

/// The greatest of some numbers, or zero.
fn greatest(ns: &Vec<u64>) -> (r: u64)
    ensures
        forall|i: int| 0 <= i < ns@.len() ==> (#[trigger] ns@[i]) <= r,
        r == 0 || ns@.contains(r),
{
    let mut best: u64 = 0;
    let mut i: usize = 0;
    while i < ns.len()
        invariant
            i <= ns.len(),
            forall|j: int| 0 <= j < i ==> (#[trigger] ns@[j]) <= best,
            best == 0 || ns@.contains(best),
        decreases ns.len() - i,
    {
        if ns[i] > best {
            best = ns[i];
        }
        i = i + 1;
    }
    best
}

/// The highest number of the release candidates of `base`, or zero.
pub(crate) fn highest(v: &Json, base: &str) -> (r: u64)
    requires
        v@ is Object,
    ensures
        r == highest_rc(v@->Object_0, base@),
        is_highest_rc(v@->Object_0, base@, r),
{
    let ns = rc_numbers(v, base);
    let best = greatest(&ns);
    proof {
        let m = v@->Object_0;
        assert forall|key: Seq<char>| #[trigger]
            m.contains_key(key) && rc_number(base@, key) is Some implies rc_number(base@, key)->0
            <= best by {
            let n = rc_number(base@, key)->0;
            assert(has_rc(m, base@, n));
            assert(ns@.contains(n));
        }
        assert(is_highest_rc(m, base@, best));
        lemma_highest_rc(m, base@, best);
    }
    best
}

/// There is a number left for another release candidate of a listed version.
pub open spec fn has_room(repo: JsonView, name: Seq<char>, requested: Seq<char>) -> bool {
    lists(repo, name, requested) ==> highest_rc(versions(repo, name)->0, requested) < u64::MAX
}

/// The version under which an upload is published, and whether that is another one
/// than the requested: a version that is listed already stays as it is, and the
/// upload becomes its next release candidate.
pub open spec fn resolved(repo: JsonView, name: Seq<char>, requested: Seq<char>) -> (
    Seq<char>,
    bool,
) {
    if lists(repo, name, requested) {
        (
            rc_key(requested, (highest_rc(versions(repo, name)->0, requested) + 1) as nat),
            true,
        )
    } else {
        (requested, false)
    }
}

/// The version under which an upload is published.
pub fn resolve_version(repo: &Json, name: &str, requested: &str) -> (r: (String, bool))
    requires
        has_room(repo@, name@, requested@),
    ensures
        (r.0@, r.1) == resolved(repo@, name@, requested@),
{
    match versions_value(repo, name) {
        Some(v) => {
            if v.has(requested) {
                let n = highest(v, requested);
                (candidate_key(requested, n + 1), true)
            } else {
                (requested.to_string(), false)
            }
        },
        None => (requested.to_string(), false),
    }
}

/// Whether there is a number left for another release candidate.
pub fn room_left(repo: &Json, name: &str, requested: &str) -> (r: bool)
    ensures
        r == has_room(repo@, name@, requested@),
{
    match versions_value(repo, name) {
        Some(v) => {
            if v.has(requested) {
                highest(v, requested) < u64::MAX
            } else {
                true
            }
        },
        None => true,
    }
}

/// The version under which an upload is published, by the registry in a text.
pub fn resolve_upload_version(registry: &str, name: &str, requested: &str) -> (r: Result<
    (String, bool),
    ShopError,
>)
    ensures
        agrees(
            r,
            match json_text(registry@) {
                Ok(repo) => if has_room(repo, name@, requested@) {
                    Ok(resolved(repo, name@, requested@))
                } else {
                    Err(Fault::Broken("no release candidate number is left"@))
                },
                Err(m) => Err(Fault::Refused(m)),
            },
        ),
{
    match parse(registry) {
        Ok(repo) => {
            if room_left(&repo, name, requested) {
                Ok(resolve_version(&repo, name, requested))
            } else {
                Err(broken("no release candidate number is left"))
            }
        },
        Err(m) => Err(ShopError::Refused(m)),
    }
}

/// An upload never takes the place of a listed version: the version under which it
/// is published is not listed yet.
pub proof fn law_upload_version_is_free(repo: JsonView, name: Seq<char>, requested: Seq<char>)
    requires
        has_room(repo, name, requested),
    ensures
        !lists(repo, name, resolved(repo, name, requested).0),
{
    if lists(repo, name, requested) {
        let m = versions(repo, name)->0;
        lemma_highest_rc_holds(m, requested);
        let n = (highest_rc(m, requested) + 1) as u64;
        lemma_rc_number(requested, n);
        let key = rc_key(requested, n as nat);
        if m.contains_key(key) {
            assert(rc_number(requested, key)->0 <= highest_rc(m, requested));
        }
    }
}

/// A release candidate of a version is a version, with the same numbers.
pub proof fn law_candidate_is_a_version(version: Seq<char>, n: nat)
    ensures
        version_core(rc_key(version, n)) == version_core(version),
        valid_version(rc_key(version, n)) == valid_version(version),
{
    let key = rc_key(version, n);
    let tail = "-rc."@ + decimal(n);
    reveal_strlit("-rc.");
    assert(key =~= version + tail);
    assert(tail[0] == '-');
    lemma_before_prefix(version, tail, '-');
}

/// What stands before a character in a text does not depend on what follows it.
proof fn lemma_before_prefix(s: Seq<char>, tail: Seq<char>, stop: char)
    requires
        tail.len() > 0,
        tail[0] == stop,
    ensures
        before(s + tail, stop) == before(s, stop),
    decreases s.len(),
{
    if s.len() == 0 {
        assert(s + tail =~= tail);
    } else {
        assert((s + tail)[0] == s[0]);
        assert((s + tail).drop_first() =~= s.drop_first() + tail);
        lemma_before_prefix(s.drop_first(), tail, stop);
    }
}

/// Of finitely many versions that name a category one comes first.
pub proof fn lemma_first_categorized_exists(m: Map<Seq<char>, JsonView>)
    requires
        m.dom().finite(),
        any_categorized(m),
    ensures
        is_first_categorized(m, first_categorized(m)),
    decreases m.dom().len(),
{
    let k = choose|k: Seq<char>| is_categorized(m, k);
    let rest = m.remove(k);
    assert(rest.dom() =~= m.dom().remove(k));
    assert forall|other: Seq<char>| other != k implies #[trigger] is_categorized(m, other)
        == is_categorized(rest, other) by {}
    if !any_categorized(rest) {
        assert forall|other: Seq<char>| #[trigger] is_categorized(m, other) implies other
            == k by {
            if other != k {
                assert(is_categorized(rest, other));
            }
        }
        assert(is_first_categorized(m, k));
    } else {
        lemma_first_categorized_exists(rest);
        let f = first_categorized(rest);
        lemma_precedes_total(k, f);
        let first = if precedes(k, f) {
            k
        } else {
            f
        };
        assert forall|other: Seq<char>| #[trigger] is_categorized(m, other) implies other == first
            || precedes(first, other) by {
            if other != k {
                assert(is_categorized(rest, other));
                if other != f && first == k {
                    lemma_precedes_transitive(k, f, other);
                }
            }
        }
        assert(is_categorized(m, first)) by {
            assert(is_categorized(rest, f));
        }
        assert(is_first_categorized(m, first));
    }
}

/// Where any version of a package names a category, the package has one: its own, or
/// one that a version of it names.
pub proof fn law_category_of_any_version(repo: JsonView, name: Seq<char>, version: Seq<char>)
    requires
        versions(repo, name) matches Some(m) && m.dom().finite() && is_categorized(m, version),
    ensures
        ({
            let own = text_of_value(member(package(repo, name), "category"@));
            let m = versions(repo, name)->0;
            category(repo, name) matches Some(c) && (own == Some(c) || (own is None && exists|
                v: Seq<char>,
            | #[trigger]
                is_categorized(m, v) && entry_category(m[v]) == Some(c)))
        }),
{
    let m = versions(repo, name)->0;
    lemma_first_categorized_exists(m);
    assert(is_categorized(m, first_categorized(m)));
}

/// The category of a package is its own where it names one; it is never made up, but one
/// that the package or a version of it names.
pub proof fn law_category_is_not_made_up(repo: JsonView, name: Seq<char>)
    requires
        versions(repo, name) matches Some(m) ==> m.dom().finite(),
    ensures
        member(package(repo, name), "category"@) matches Some(JsonView::Text(c)) ==> category(
            repo,
            name,
        ) == Some(c),
        category(repo, name) matches Some(c) ==> {
            ||| member(package(repo, name), "category"@) == Some(JsonView::Text(c))
            ||| exists|v: Seq<char>| #[trigger]
                lists(repo, name, v) && versions(repo, name)->0[v].get("category"@) == Some(
                    JsonView::Text(c),
                )
        },
{
    if category(repo, name) is Some && !(member(package(repo, name), "category"@) matches Some(
        JsonView::Text(_),
    )) {
        let m = versions(repo, name)->0;
        lemma_first_categorized_exists(m);
        let v = first_categorized(m);
        assert(is_categorized(m, v));
        assert(lists(repo, name, v));
    }
}

/// The file of a version is found exactly where the registry lists the version with an
/// address, and is the one that the address stands for.
pub proof fn law_listed_files_are_found(
    repo: JsonView,
    host: Seq<char>,
    name: Seq<char>,
    version: Seq<char>,
)
    ensures
        match member(member(member(member(repo.get("packages"@), name), "versions"@), version), "url"@) {
            Some(JsonView::Text(url)) => file_of_version(repo, host, name, version) == Ok::<
                Seq<char>,
                Fault,
            >(file_of_address(host, url)),
            _ => file_of_version(repo, host, name, version) is Err,
        },
{
}

/// A version is listed exactly where the registry has an entry for it.
pub proof fn law_listed_versions_have_entries(repo: JsonView, name: Seq<char>, version: Seq<char>)
    ensures
        lists(repo, name, version) <==> member(
            member(member(repo.get("packages"@), name), "versions"@),
            version,
        ) is Some,
{
}

} // verus!
