//! Demoting a stable version to a release candidate, to make room for another
//! stable version under the same number.

use vstd::prelude::*;
use vstd::string::*;

use crate::codec::{json_text, parse};
use crate::edits::{entry_of, keeps_package};
use crate::error::{Fault, ShopError, agrees, broken, refused};
use crate::json::{Json, JsonView, text_of_value};
use crate::registry::{
    candidate_key, has_rc, has_room, has_version, highest, highest_rc, is_highest_rc,
    lemma_highest_rc_holds, lemma_rc_number, lists, no_package, package, rc_key, rc_number,
    rc_numbers, room_left, versions,
};
use crate::replies::{has_part, lemma_has_part};
use crate::text::{
    cat2, cat3, cat5, decimal, decimal_of, join, joined, pieces, split, texts, without_end_slashes,
};
use crate::urls::{
    file_of_address, law_address_names_the_file, url_path, zip_address, zip_file_name, zip_name,
    zip_url,
};



verus! {

// ---------------------------------------------------------------------------
// Giving one version another name
// ---------------------------------------------------------------------------

/// A file of the shop that gets another name in its directory.
#[derive(Debug)]
pub struct ZipRename {
    /// The file, from the directory that holds the categories on.
    pub file: String,
    /// The new name of the file.
    pub name: String,
}

/// What a renaming says.
pub struct RenameView {
    pub file: Seq<char>,
    pub name: Seq<char>,
}

impl View for ZipRename {
    type V = RenameView;

    open spec fn view(&self) -> RenameView {
        RenameView { file: self.file@, name: self.name@ }
    }
}

/// The renamings of a list.
pub open spec fn renames_view(v: Seq<ZipRename>) -> Seq<RenameView> {
    v.map_values(|r: ZipRename| r@)
}

/// The entry of a version under another version, and the renaming of its file. The
/// category and the directory are those of the address that the entry has.
pub open spec fn relabelled(entry: JsonView, host: Seq<char>, version: Seq<char>) -> Result<
    (JsonView, RenameView),
    Fault,
> {
    match text_of_value(entry.get("url"@)) {
        None => Err(Fault::Refused("ver_entry has no url"@)),
        Some(url) => {
            let file = file_of_address(host, url);
            let parts = pieces(file, '/');
            if parts[0].len() == 0 {
                Err(Fault::Refused("cannot derive category from url "@ + url))
            } else if parts.len() < 2 {
                Err(Fault::Refused("cannot derive dirname from url "@ + url))
            } else {
                Ok(
                    (
                        entry.with("version"@, JsonView::Text(version)).with(
                            "url"@,
                            JsonView::Text(zip_address(host, parts[0], parts[1], version)),
                        ),
                        RenameView { file: file, name: zip_name(parts[1], version) },
                    ),
                )
            }
        },
    }
}

/// The entry of a version under another version, and the renaming of its file.
pub fn rename_zip_version(entry: Json, host: &str, new_version: &str) -> (r: Result<
    (Json, ZipRename),
    ShopError,
>)
    ensures
        match r {
            Ok((e, z)) => relabelled(entry@, host@, new_version@) == Ok::<
                (JsonView, RenameView),
                Fault,
            >((e@, z@)),
            Err(e) => relabelled(entry@, host@, new_version@) == Err::<
                (JsonView, RenameView),
                Fault,
            >(e@),
        },
{
    let mut entry = entry;
    let url = match entry.text_at("url") {
        Some(u) => u.to_string(),
        None => {
            return Err(refused("ver_entry has no url"));
        },
    };
    let file = url_path(host, url.as_str());
    let parts = split(file.as_str(), '/');
    assert(texts(parts@)[0] == parts@[0]@);
    assert(texts(parts@).len() == parts@.len());
    if parts[0].as_str().is_empty() {
        let m = cat2("cannot derive category from url ", url.as_str());
        return Err(ShopError::Refused(m));
    }
    if parts.len() < 2 {
        let m = cat2("cannot derive dirname from url ", url.as_str());
        return Err(ShopError::Refused(m));
    }
    assert(texts(parts@)[1] == parts@[1]@);
    let name = zip_file_name(parts[1].as_str(), new_version);
    let address = zip_url(host, parts[0].as_str(), parts[1].as_str(), new_version);
    entry.set("version", Json::of_text(new_version));
    entry.set("url", Json::Text(address));
    Ok((entry, ZipRename { file, name }))
}

// ---------------------------------------------------------------------------
// Making room
// ---------------------------------------------------------------------------

/// The number of a release candidate of `base` whose key is written without
/// leading zeros or a sign.
pub open spec fn candidate(base: Seq<char>, key: Seq<char>) -> Option<u64> {
    match rc_number(base, key) {
        Some(n) => if key == rc_key(base, n as nat) {
            Some(n)
        } else {
            None
        },
        None => None,
    }
}

/// Where the entry under `key` comes from once the release candidates from `slot`
/// on have moved up by one.
pub open spec fn origin(
    m: Map<Seq<char>, JsonView>,
    base: Seq<char>,
    slot: int,
    key: Seq<char>,
) -> Option<Seq<char>> {
    match candidate(base, key) {
        Some(n) if n > slot && m.contains_key(rc_key(base, (n - 1) as nat)) => Some(
            rc_key(base, (n - 1) as nat),
        ),
        Some(n) if n >= slot => None,
        _ => if m.contains_key(key) {
            Some(key)
        } else {
            None
        },
    }
}

/// The entry that `m` has under `from`, as it reads under `key`.
pub open spec fn entry_as(
    m: Map<Seq<char>, JsonView>,
    host: Seq<char>,
    from: Seq<char>,
    key: Seq<char>,
) -> JsonView {
    if from == key {
        m[from]
    } else {
        relabelled(m[from], host, key)->Ok_0.0
    }
}

/// The versions once the release candidates from `slot` on have moved up by one.
pub open spec fn bumped(
    m: Map<Seq<char>, JsonView>,
    base: Seq<char>,
    slot: int,
    host: Seq<char>,
) -> Map<Seq<char>, JsonView> {
    Map::new(
        |key: Seq<char>| origin(m, base, slot, key) is Some,
        |key: Seq<char>| entry_as(m, host, origin(m, base, slot, key)->0, key),
    )
}

/// The versions once the stable version has become the release candidate `slot`
/// and those from there on have moved up by one.
pub open spec fn demoted(
    m: Map<Seq<char>, JsonView>,
    base: Seq<char>,
    slot: u64,
    host: Seq<char>,
) -> Map<Seq<char>, JsonView> {
    bumped(m, base, slot as int, host).remove(base).insert(
        rc_key(base, slot as nat),
        entry_as(m, host, base, rc_key(base, slot as nat)),
    )
}

/// Numbers are those of the release candidates from `slot` on, highest first.
pub open spec fn is_bump_order(
    m: Map<Seq<char>, JsonView>,
    base: Seq<char>,
    slot: u64,
    ns: Seq<u64>,
) -> bool {
    &&& forall|i: int|
        0 <= i < ns.len() ==> (#[trigger] ns[i]) >= slot && m.contains_key(
            rc_key(base, ns[i] as nat),
        )
    &&& forall|i: int, j: int| 0 <= i < j < ns.len() ==> (#[trigger] ns[i]) > (#[trigger] ns[j])
    &&& forall|n: u64|
        n >= slot && #[trigger] m.contains_key(rc_key(base, n as nat)) ==> ns.contains(n)
}

/// The numbers of the release candidates from `slot` on, highest first.
pub open spec fn bump_order(m: Map<Seq<char>, JsonView>, base: Seq<char>, slot: u64) -> Seq<u64> {
    choose|ns: Seq<u64>| is_bump_order(m, base, slot, ns)
}

proof fn lemma_bump_order_at(
    m: Map<Seq<char>, JsonView>,
    base: Seq<char>,
    slot: u64,
    a: Seq<u64>,
    b: Seq<u64>,
    i: int,
)
    requires
        is_bump_order(m, base, slot, a),
        is_bump_order(m, base, slot, b),
        0 <= i < a.len(),
    ensures
        i < b.len(),
        a[i] == b[i],
    decreases i,
{
    assert(m.contains_key(rc_key(base, a[i] as nat)));
    assert(b.contains(a[i]));
    let j = choose|j: int| 0 <= j < b.len() && b[j] == a[i];
    if j < i {
        lemma_bump_order_at(m, base, slot, a, b, j);
        assert(a[j] > a[i]);
    } else {
        assert(b[i] >= b[j]);
        assert(m.contains_key(rc_key(base, b[i] as nat)));
        assert(a.contains(b[i]));
        let k = choose|k: int| 0 <= k < a.len() && a[k] == b[i];
        if k < i {
            lemma_bump_order_at(m, base, slot, a, b, k);
            assert(b[k] > b[i]);
        } else {
            assert(a[i] >= a[k]);
        }
    }
}

proof fn lemma_bump_order(m: Map<Seq<char>, JsonView>, base: Seq<char>, slot: u64, ns: Seq<u64>)
    requires
        is_bump_order(m, base, slot, ns),
    ensures
        bump_order(m, base, slot) == ns,
{
    let other = bump_order(m, base, slot);
    assert forall|i: int| 0 <= i < ns.len() implies i < other.len() && #[trigger] ns[i]
        == other[i] by {
        lemma_bump_order_at(m, base, slot, ns, other, i);
    }
    if ns.len() < other.len() {
        lemma_bump_order_at(m, base, slot, other, ns, ns.len() as int);
    }
    if other.len() < ns.len() {
        lemma_bump_order_at(m, base, slot, ns, other, other.len() as int);
    }
    assert(other =~= ns);
}

/// There is such an order, of the candidates below `top`.
proof fn lemma_order_below(
    m: Map<Seq<char>, JsonView>,
    base: Seq<char>,
    slot: u64,
    top: int,
) -> (ns: Seq<u64>)
    requires
        0 <= top <= u64::MAX + 1,
    ensures
        forall|i: int|
            0 <= i < ns.len() ==> slot <= (#[trigger] ns[i]) < top && m.contains_key(
                rc_key(base, ns[i] as nat),
            ),
        forall|i: int, j: int| 0 <= i < j < ns.len() ==> (#[trigger] ns[i]) > (#[trigger] ns[j]),
        forall|n: u64|
            slot <= n < top && #[trigger] m.contains_key(rc_key(base, n as nat)) ==> ns.contains(n),
    decreases top,
{
    if top <= slot {
        Seq::empty()
    } else {
        let n = (top - 1) as u64;
        let rest = lemma_order_below(m, base, slot, top - 1);
        if m.contains_key(rc_key(base, n as nat)) {
            let ns = seq![n] + rest;
            assert forall|k: u64| slot <= k < top && #[trigger] m.contains_key(
                rc_key(base, k as nat),
            ) implies ns.contains(k) by {
                if k == n {
                    assert(ns[0] == k);
                } else {
                    assert(rest.contains(k));
                    let i = choose|i: int| 0 <= i < rest.len() && rest[i] == k;
                    assert(ns[i + 1] == k);
                }
            }
            ns
        } else {
            rest
        }
    }
}

/// The order of the candidates is what it is said to be.
pub proof fn lemma_bump_order_holds(m: Map<Seq<char>, JsonView>, base: Seq<char>, slot: u64)
    ensures
        is_bump_order(m, base, slot, bump_order(m, base, slot)),
{
    let ns = lemma_order_below(m, base, slot, u64::MAX + 1);
    assert(is_bump_order(m, base, slot, ns));
}

/// Every move of a demotion that succeeds does.
pub proof fn lemma_all_moves_good(
    m: Map<Seq<char>, JsonView>,
    host: Seq<char>,
    steps: Seq<(Seq<char>, Seq<char>)>,
    i: int,
)
    requires
        good_moves(m, host, steps) == steps.len(),
        0 <= i < steps.len(),
    ensures
        moved(m, host, steps[i]) is Ok,
    decreases steps.len(),
{
    if i > 0 {
        lemma_all_moves_good(m, host, steps.drop_first(), i - 1);
    }
}

/// The number of a release candidate that exists, the highest one from `slot` up
/// to `top`.
fn highest_between(v: &Json, base: &str, ns: &Vec<u64>, slot: u64, top: u64) -> (r: Option<u64>)
    requires
        v@ is Object,
        forall|n: u64| #[trigger] ns@.contains(n) <==> has_rc(v@->Object_0, base@, n),
    ensures
        match r {
            Some(n) => slot <= n <= top && v@->Object_0.contains_key(rc_key(base@, n as nat))
                && forall|k: u64|
                n < k <= top ==> !#[trigger] v@->Object_0.contains_key(rc_key(base@, k as nat)),
            None => forall|k: u64|
                slot <= k <= top ==> !#[trigger] v@->Object_0.contains_key(
                    rc_key(base@, k as nat),
                ),
        },
{
    let ghost m = v@->Object_0;
    let mut best: Option<u64> = None;
    let mut i: usize = 0;
    while i < ns.len()
        invariant
            i <= ns.len(),
            v@ is Object,
            m == v@->Object_0,
            best matches Some(n) ==> slot <= n <= top && m.contains_key(rc_key(base@, n as nat)),
            forall|j: int|
                0 <= j < i && slot <= (#[trigger] ns@[j]) <= top && m.contains_key(
                    rc_key(base@, ns@[j] as nat),
                ) ==> (best matches Some(n) && ns@[j] <= n),
        decreases ns.len() - i,
    {
        let n = ns[i];
        if slot <= n && n <= top {
            let key = candidate_key(base, n);
            if v.has(key.as_str()) {
                match best {
                    Some(b) => {
                        if b < n {
                            best = Some(n);
                        }
                    },
                    None => {
                        best = Some(n);
                    },
                }
            }
        }
        i = i + 1;
    }
    assert forall|k: u64| slot <= k <= top && #[trigger] m.contains_key(
        rc_key(base@, k as nat),
    ) implies (best matches Some(n) && k <= n) by {
        lemma_rc_number(base@, k);
        assert(has_rc(m, base@, k));
        assert(ns@.contains(k));
    }
    best
}

/// The numbers of the release candidates from `slot` on, highest first.
fn bump_list(v: &Json, base: &str, slot: u64) -> (r: Vec<u64>)
    requires
        v@ is Object,
    ensures
        is_bump_order(v@->Object_0, base@, slot, r@),
{
    let ghost m = v@->Object_0;
    let ns = rc_numbers(v, base);
    let mut out: Vec<u64> = Vec::new();
    let mut top: u64 = u64::MAX;
    loop
        invariant_except_break
            v@ is Object,
            m == v@->Object_0,
            forall|n: u64| #[trigger] ns@.contains(n) <==> has_rc(m, base@, n),
            forall|i: int|
                0 <= i < out@.len() ==> (#[trigger] out@[i]) >= slot && m.contains_key(
                    rc_key(base@, out@[i] as nat),
                ) && out@[i] > top,
            forall|i: int, j: int|
                0 <= i < j < out@.len() ==> (#[trigger] out@[i]) > (#[trigger] out@[j]),
            forall|n: u64|
                n >= slot && n > top && #[trigger] m.contains_key(rc_key(base@, n as nat))
                    ==> out@.contains(n),
        ensures
            is_bump_order(m, base@, slot, out@),
        decreases top,
    {
        match highest_between(v, base, &ns, slot, top) {
            Some(n) => {
                let ghost before = out@;
                if n == 0 {
                    // Zero is the least number: the list ends with it.
                    out.push(n);
                    proof {
                        assert(out@[before.len() as int] == n);
                        assert forall|k: u64|
                            k >= slot && #[trigger] m.contains_key(
                                rc_key(base@, k as nat),
                            ) implies out@.contains(k) by {
                            if k > top {
                                assert(before.contains(k));
                                let a = choose|a: int| 0 <= a < before.len() && before[a] == k;
                                assert(out@[a] == k);
                            }
                        }
                    }
                    break ;
                }
                out.push(n);
                proof {
                    assert(out@[before.len() as int] == n);
                    assert forall|k: u64|
                        k >= slot && k > n - 1 && #[trigger] m.contains_key(
                            rc_key(base@, k as nat),
                        ) implies out@.contains(k) by {
                        if k > top {
                            assert(before.contains(k));
                            let a = choose|a: int| 0 <= a < before.len() && before[a] == k;
                            assert(out@[a] == k);
                        }
                    }
                }
                top = n - 1;
            },
            None => {
                break ;
            },
        }
    }
    out
}

/// One version moved to another key: from where, and to where.
pub open spec fn moves(m: Map<Seq<char>, JsonView>, base: Seq<char>, slot: u64) -> Seq<
    (Seq<char>, Seq<char>),
> {
    bumps(base, bump_order(m, base, slot)).push((base, rc_key(base, slot as nat)))
}

/// The moves of the release candidates with these numbers, each up by one.
pub open spec fn bumps(base: Seq<char>, ns: Seq<u64>) -> Seq<(Seq<char>, Seq<char>)> {
    ns.map_values(|n: u64| (rc_key(base, n as nat), rc_key(base, (n + 1) as nat)))
}

/// What becomes of the entry that one move concerns.
pub open spec fn moved(
    m: Map<Seq<char>, JsonView>,
    host: Seq<char>,
    step: (Seq<char>, Seq<char>),
) -> Result<(JsonView, RenameView), Fault> {
    relabelled(m[step.0], host, step.1)
}

/// How many moves succeed before one fails.
pub open spec fn good_moves(
    m: Map<Seq<char>, JsonView>,
    host: Seq<char>,
    steps: Seq<(Seq<char>, Seq<char>)>,
) -> nat
    decreases steps.len(),
{
    if steps.len() > 0 && moved(m, host, steps[0]) is Ok {
        1 + good_moves(m, host, steps.drop_first())
    } else {
        0
    }
}

/// The renamings of the moves before the first one that fails.
pub open spec fn good_renames(
    m: Map<Seq<char>, JsonView>,
    host: Seq<char>,
    steps: Seq<(Seq<char>, Seq<char>)>,
) -> Seq<RenameView> {
    steps.take(good_moves(m, host, steps) as int).map_values(
        |step: (Seq<char>, Seq<char>)| moved(m, host, step)->Ok_0.1,
    )
}

proof fn lemma_good_moves(
    m: Map<Seq<char>, JsonView>,
    host: Seq<char>,
    steps: Seq<(Seq<char>, Seq<char>)>,
    n: int,
)
    requires
        0 <= n <= steps.len(),
        forall|i: int| 0 <= i < n ==> moved(m, host, #[trigger] steps[i]) is Ok,
        n < steps.len() ==> moved(m, host, steps[n]) is Err,
    ensures
        good_moves(m, host, steps) == n,
    decreases n,
{
    if n > 0 {
        let rest = steps.drop_first();
        assert forall|i: int| 0 <= i < n - 1 implies moved(m, host, #[trigger] rest[i]) is Ok by {
            assert(rest[i] == steps[i + 1]);
        }
        lemma_good_moves(m, host, rest, n - 1);
    }
}

/// The versions after their demotion, or the failure of the first move that fails.
pub open spec fn demotion(
    m: Map<Seq<char>, JsonView>,
    base: Seq<char>,
    slot: u64,
    host: Seq<char>,
) -> Result<Map<Seq<char>, JsonView>, Fault> {
    let steps = moves(m, base, slot);
    let n = good_moves(m, host, steps);
    if n == steps.len() {
        Ok(demoted(m, base, slot, host))
    } else {
        Err(moved(m, host, steps[n as int])->Err_0)
    }
}

/// No candidate from `low` up to below `high` means that both bounds move the same
/// candidates.
proof fn lemma_bumped_gap(
    m: Map<Seq<char>, JsonView>,
    base: Seq<char>,
    low: int,
    high: int,
    host: Seq<char>,
)
    requires
        0 <= low <= high,
        forall|n: u64| low <= n < high ==> !#[trigger] m.contains_key(rc_key(base, n as nat)),
    ensures
        bumped(m, base, low, host) == bumped(m, base, high, host),
{
    let a = bumped(m, base, low, host);
    let b = bumped(m, base, high, host);
    assert forall|key: Seq<char>|
        origin(m, base, low, key) == origin(m, base, high, key) by {
        match candidate(base, key) {
            Some(n) => {
                if low <= n < high {
                    assert(!m.contains_key(rc_key(base, n as nat)));
                }
                if low < n <= high {
                    let k = (n - 1) as u64;
                    assert(!m.contains_key(rc_key(base, k as nat)));
                }
            },
            None => {},
        }
    }
    assert(a =~= b);
}

/// Moving the highest candidate below the bound up by one lowers the bound to it.
proof fn lemma_bumped_step(
    m: Map<Seq<char>, JsonView>,
    base: Seq<char>,
    n: u64,
    high: int,
    host: Seq<char>,
)
    requires
        n < high,
        n < u64::MAX,
        m.contains_key(rc_key(base, n as nat)),
        forall|k: u64| n < k < high ==> !#[trigger] m.contains_key(rc_key(base, k as nat)),
    ensures
        bumped(m, base, high, host).contains_key(rc_key(base, n as nat)),
        bumped(m, base, high, host)[rc_key(base, n as nat)] == m[rc_key(base, n as nat)],
        bumped(m, base, n as int, host) == bumped(m, base, high, host).remove(
            rc_key(base, n as nat),
        ).insert(
            rc_key(base, (n + 1) as nat),
            relabelled(m[rc_key(base, n as nat)], host, rc_key(base, (n + 1) as nat))->Ok_0.0,
        ),
{
    let from = rc_key(base, n as nat);
    let up = (n + 1) as u64;
    let to = rc_key(base, up as nat);
    lemma_rc_number(base, n);
    lemma_rc_number(base, up);
    assert(candidate(base, from) == Some(n));
    assert(candidate(base, to) == Some(up));
    assert(origin(m, base, high, from) == Some(from));
    let a = bumped(m, base, n as int, host);
    let b = bumped(m, base, high, host);
    assert(origin(m, base, n as int, to) == Some(from));
    assert forall|key: Seq<char>| key != from && key != to implies origin(m, base, n as int, key)
        == origin(m, base, high, key) by {
        match candidate(base, key) {
            Some(k) => {
                assert(k != n && k != up);
                if n < k < high {
                    assert(!m.contains_key(rc_key(base, k as nat)));
                }
                if up < k <= high {
                    let j = (k - 1) as u64;
                    assert(!m.contains_key(rc_key(base, j as nat)));
                }
            },
            None => {},
        }
    }
    assert(a =~= b.remove(from).insert(
        to,
        relabelled(m[from], host, to)->Ok_0.0,
    ));
}

/// No candidate moves where the bound is above every number.
proof fn lemma_bumped_none(m: Map<Seq<char>, JsonView>, base: Seq<char>, host: Seq<char>)
    ensures
        bumped(m, base, u64::MAX + 1, host) == m,
{
    let a = bumped(m, base, u64::MAX + 1, host);
    assert forall|key: Seq<char>|
        origin(m, base, u64::MAX + 1, key) == (if m.contains_key(key) {
            Some(key)
        } else {
            None::<Seq<char>>
        }) by {}
    assert(a =~= m);
}

/// A version is no release candidate of itself.
proof fn lemma_base_is_no_candidate(base: Seq<char>)
    ensures
        rc_number(base, base) is None,
        forall|n: nat| #[trigger] rc_key(base, n) != base,
{
    reveal_strlit("-rc.");
    let prefix = base + "-rc."@;
    assert(!prefix.is_prefix_of(base));
    assert forall|n: nat| #[trigger] rc_key(base, n) != base by {
        assert(rc_key(base, n).len() > base.len());
    }
}

/// Between one number of the bump order and the one before it there is no
/// candidate.
proof fn lemma_next_bump(
    m: Map<Seq<char>, JsonView>,
    base: Seq<char>,
    slot: u64,
    ns: Seq<u64>,
    i: int,
    bound: int,
)
    requires
        is_bump_order(m, base, slot, ns),
        0 <= i < ns.len(),
        bound == if i == 0 {
            u64::MAX + 1
        } else {
            ns[i - 1] as int
        },
    ensures
        ns[i] < bound,
        forall|k: u64| ns[i] < k < bound ==> !#[trigger] m.contains_key(rc_key(base, k as nat)),
{
    assert forall|k: u64| ns[i] < k < bound implies !#[trigger] m.contains_key(
        rc_key(base, k as nat),
    ) by {
        if m.contains_key(rc_key(base, k as nat)) {
            assert(k >= slot);
            assert(ns.contains(k));
            let j = choose|j: int| 0 <= j < ns.len() && ns[j] == k;
            if j < i {
                assert(i > 0);
                assert(ns[j] >= ns[i - 1]);
            } else {
                assert(ns[i] >= ns[j]);
            }
        }
    }
}

/// Moves the candidates with the numbers `ns` up by one, then the stable version
/// to `slot`. Hands back the renamings up to the first move that fails.
fn demote_versions(v: Json, base: &str, slot: u64, ns: &Vec<u64>, host: &str) -> (r: (
    Vec<ZipRename>,
    Result<Json, ShopError>,
))
    requires
        v@ is Object,
        v@->Object_0.contains_key(base@),
        is_bump_order(v@->Object_0, base@, slot, ns@),
        highest_rc(v@->Object_0, base@) < u64::MAX,
    ensures
        renames_view(r.0@) == good_renames(v@->Object_0, host@, moves(v@->Object_0, base@, slot)),
        match r.1 {
            Ok(j) => demotion(v@->Object_0, base@, slot, host@) matches Ok(m) && j@
                == JsonView::Object(m),
            Err(e) => demotion(v@->Object_0, base@, slot, host@) matches Err(f) && f == e@,
        },
{
    let ghost m = v@->Object_0;
    let ghost steps = moves(m, base@, slot);
    let ghost mut bound: int = u64::MAX + 1;
    proof {
        lemma_bump_order(m, base@, slot, ns@);
        lemma_bumped_none(m, base@, host@);
        lemma_highest_rc_holds(m, base@);
        lemma_base_is_no_candidate(base@);
        assert(steps.len() == ns@.len() + 1);
    }
    let mut cur = v;
    let mut renames: Vec<ZipRename> = Vec::new();
    let mut i: usize = 0;
    while i < ns.len()
        invariant
            i <= ns.len(),
            m == v@->Object_0,
            m.contains_key(base@),
            is_bump_order(m, base@, slot, ns@),
            is_highest_rc(m, base@, highest_rc(m, base@)),
            highest_rc(m, base@) < u64::MAX,
            steps == moves(m, base@, slot),
            bump_order(m, base@, slot) == ns@,
            steps.len() == ns@.len() + 1,
            bound == if i == 0 {
                u64::MAX + 1
            } else {
                ns@[i - 1] as int
            },
            cur@ == JsonView::Object(bumped(m, base@, bound, host@)),
            renames.len() == i,
            forall|k: int| 0 <= k < i ==> moved(m, host@, #[trigger] steps[k]) is Ok,
            forall|k: int|
                0 <= k < i ==> (#[trigger] renames@[k])@ == moved(m, host@, steps[k])->Ok_0.1,
        decreases ns.len() - i,
    {
        let n = ns[i];
        let ghost from = rc_key(base@, n as nat);
        let ghost to = rc_key(base@, (n + 1) as nat);
        proof {
            lemma_rc_number(base@, n);
            assert(m.contains_key(from));
            assert(n <= highest_rc(m, base@));
            lemma_next_bump(m, base@, slot, ns@, i as int, bound);
            lemma_bumped_step(m, base@, n, bound, host@);
            assert(steps[i as int] == (from, to));
        }
        let old_key = candidate_key(base, n);
        let new_key = candidate_key(base, n + 1);
        match cur.take(old_key.as_str()) {
            Some(entry) => {
                match rename_zip_version(entry, host, new_key.as_str()) {
                    Ok((renamed, rename)) => {
                        cur.set(new_key.as_str(), renamed);
                        renames.push(rename);
                    },
                    Err(e) => {
                        proof {
                            lemma_good_moves(m, host@, steps, i as int);
                            assert(renames_view(renames@) =~= good_renames(m, host@, steps));
                        }
                        return (renames, Err(e));
                    },
                }
            },
            None => {},
        }
        proof {
            bound = n as int;
        }
        i = i + 1;
    }
    let ghost last = rc_key(base@, slot as nat);
    proof {
        assert forall|k: u64| slot <= k < bound implies !#[trigger] m.contains_key(
            rc_key(base@, k as nat),
        ) by {
            if m.contains_key(rc_key(base@, k as nat)) {
                assert(ns@.contains(k));
                let j = choose|j: int| 0 <= j < ns@.len() && ns@[j] == k;
                assert(ns@[j] >= ns@[i - 1]);
            }
        }
        if ns@.len() > 0 {
            assert(ns@[i - 1] >= slot);
        }
        lemma_bumped_gap(m, base@, slot as int, bound, host@);
        assert(origin(m, base@, slot as int, base@) == Some(base@));
        assert(steps[i as int] == (base@, last));
    }
    let rc = candidate_key(base, slot);
    match cur.take(base) {
        Some(entry) => {
            match rename_zip_version(entry, host, rc.as_str()) {
                Ok((renamed, rename)) => {
                    cur.set(rc.as_str(), renamed);
                    renames.push(rename);
                },
                Err(e) => {
                    proof {
                        lemma_good_moves(m, host@, steps, i as int);
                        assert(renames_view(renames@) =~= good_renames(m, host@, steps));
                    }
                    return (renames, Err(e));
                },
            }
        },
        None => {},
    }
    proof {
        lemma_good_moves(m, host@, steps, steps.len() as int);
        assert(renames_view(renames@) =~= good_renames(m, host@, steps));
    }
    (renames, Ok(cur))
}

// ---------------------------------------------------------------------------
// The demotion of a version in the registry
// ---------------------------------------------------------------------------

/// The registry with other versions of a package.
pub open spec fn with_versions(
    repo: JsonView,
    name: Seq<char>,
    m: Map<Seq<char>, JsonView>,
) -> JsonView {
    repo.with(
        "packages"@,
        repo.get("packages"@)->0.with(
            name,
            package(repo, name)->0.with("versions"@, JsonView::Object(m)),
        ),
    )
}

/// The candidate that a stable version becomes: the one asked for, or the next
/// after the highest.
pub open spec fn chosen_slot(
    m: Map<Seq<char>, JsonView>,
    base: Seq<char>,
    rc_slot: Option<u64>,
) -> u64 {
    match rc_slot {
        Some(s) => s,
        None => (highest_rc(m, base) + 1) as u64,
    }
}

/// One move in words.
pub open spec fn move_text(step: (Seq<char>, Seq<char>)) -> Seq<char> {
    step.0 + "→"@ + step.1
}

/// The report on a demotion.
pub open spec fn demotion_note(
    m: Map<Seq<char>, JsonView>,
    version: Seq<char>,
    slot: u64,
) -> Seq<char> {
    let head = "Existing stable version <b>"@ + version + "</b> demoted to <b>"@ + rc_key(
        version,
        slot as nat,
    ) + "</b>."@;
    let steps = bumps(version, bump_order(m, version, slot));
    if steps.len() == 0 {
        head
    } else {
        head + (" Existing rc candidates at/after slot "@ + decimal(slot as nat)
            + " upgraded by 1: "@ + joined(
            steps.map_values(|step: (Seq<char>, Seq<char>)| move_text(step)),
            ", "@,
        ) + "."@)
    }
}

/// Why a version cannot be demoted at all.
pub open spec fn demotion_refusal(
    repo: JsonView,
    name: Seq<char>,
    version: Seq<char>,
    rc_slot: Option<u64>,
) -> Option<Fault> {
    if repo.get("packages"@) is None {
        Some(Fault::Refused("master repo has no 'packages'"@))
    } else if package(repo, name) is None {
        Some(no_package(name))
    } else if versions(repo, name) is None {
        Some(Fault::Refused("no versions for '"@ + name + "'"@))
    } else if !lists(repo, name, version) {
        Some(
            Fault::Refused(
                "version '"@ + version + "' not found for '"@ + name + "' — nothing to demote"@,
            ),
        )
    } else if rc_slot == Some(0u64) {
        Some(Fault::Refused("rc_slot must be >= 1"@))
    } else {
        None
    }
}

/// The files to rename for a demotion, in this order.
pub open spec fn demotion_renames(
    repo: JsonView,
    host: Seq<char>,
    name: Seq<char>,
    version: Seq<char>,
    rc_slot: Option<u64>,
) -> Seq<RenameView> {
    if demotion_refusal(repo, name, version, rc_slot) is Some {
        Seq::empty()
    } else {
        let m = versions(repo, name)->0;
        good_renames(m, host, moves(m, version, chosen_slot(m, version, rc_slot)))
    }
}

/// The registry after a demotion, and the report on it; or the failure.
pub open spec fn demotion_outcome(
    repo: JsonView,
    host: Seq<char>,
    name: Seq<char>,
    version: Seq<char>,
    rc_slot: Option<u64>,
) -> Result<(JsonView, Seq<char>), Fault> {
    match demotion_refusal(repo, name, version, rc_slot) {
        Some(f) => Err(f),
        None => {
            let m = versions(repo, name)->0;
            let slot = chosen_slot(m, version, rc_slot);
            match demotion(m, version, slot, host) {
                Ok(after) => Ok(
                    (with_versions(repo, name, after), demotion_note(m, version, slot)),
                ),
                Err(f) => Err(f),
            }
        },
    }
}

/// What has to be done for a demotion.
#[derive(Debug)]
pub struct Demotion {
    /// The files to rename first, in this order.
    pub renames: Vec<ZipRename>,
    /// What to do then: keep the new registry and report, or report the failure.
    pub outcome: Result<(Json, String), ShopError>,
}

/// The report on a demotion.
fn note_of(version: &str, slot: u64, ns: &Vec<u64>) -> (r: String)
    requires
        forall|i: int| 0 <= i < ns@.len() ==> (#[trigger] ns@[i]) < u64::MAX,
    ensures
        forall|m: Map<Seq<char>, JsonView>| #[trigger]
            bump_order(m, version@, slot) == ns@ ==> r@ == demotion_note(m, version@, slot),
{
    let rc = candidate_key(version, slot);
    let mut out = cat5(
        "Existing stable version <b>",
        version,
        "</b> demoted to <b>",
        rc.as_str(),
        "</b>.",
    );
    let ghost steps = bumps(version@, ns@);
    let ghost words = steps.map_values(|step: (Seq<char>, Seq<char>)| move_text(step));
    if ns.len() > 0 {
        let mut list: Vec<String> = Vec::new();
        let mut i: usize = 0;
        while i < ns.len()
            invariant
                i <= ns.len(),
                forall|i: int| 0 <= i < ns@.len() ==> (#[trigger] ns@[i]) < u64::MAX,
                steps == bumps(version@, ns@),
                words == steps.map_values(|step: (Seq<char>, Seq<char>)| move_text(step)),
                list.len() == i,
                forall|k: int| 0 <= k < i ==> (#[trigger] list@[k])@ == words[k],
            decreases ns.len() - i,
        {
            let old_key = candidate_key(version, ns[i]);
            let new_key = candidate_key(version, ns[i] + 1);
            assert(steps[i as int] == (old_key@, new_key@));
            list.push(cat3(old_key.as_str(), "→", new_key.as_str()));
            i = i + 1;
        }
        assert(texts(list@) =~= words);
        let number = decimal_of(slot);
        let moved = join(&list, ", ");
        let tail = cat5(
            " Existing rc candidates at/after slot ",
            number.as_str(),
            " upgraded by 1: ",
            moved.as_str(),
            ".",
        );
        out.append(tail.as_str());
    }
    out
}

/// A stable version may be demoted without running out of candidate numbers.
pub open spec fn can_demote(
    repo: JsonView,
    name: Seq<char>,
    version: Seq<char>,
    rc_slot: Option<u64>,
) -> bool {
    demotion_refusal(repo, name, version, rc_slot) is None ==> has_room(repo, name, version)
}

/// Demotes a stable version of a package to a release candidate.
pub fn demote(repo: Json, host: &str, name: &str, version: &str, rc_slot: Option<u64>) -> (r:
    Demotion)
    requires
        can_demote(repo@, name@, version@, rc_slot),
    ensures
        renames_view(r.renames@) == demotion_renames(repo@, host@, name@, version@, rc_slot),
        match r.outcome {
            Ok((after, note)) => demotion_outcome(
                repo@,
                host@,
                name@,
                version@,
                rc_slot,
            ) matches Ok(o) && o == (after@, note@),
            Err(e) => demotion_outcome(repo@, host@, name@, version@, rc_slot) matches Err(f) && f
                == e@,
        },
{
    let ghost model = repo@;
    let mut repo = repo;
    let none: Vec<ZipRename> = Vec::new();
    assert(renames_view(none@) =~= Seq::<RenameView>::empty());
    let mut packages = match repo.take("packages") {
        Some(p) => p,
        None => {
            return Demotion { renames: none, outcome: Err(refused("master repo has no 'packages'")) };
        },
    };
    let mut pkg = match packages.take(name) {
        Some(p) => p,
        None => {
            let m = cat3("package '", name, "' not found in registry");
            return Demotion { renames: none, outcome: Err(ShopError::Refused(m)) };
        },
    };
    let vs = match pkg.take("versions") {
        Some(v) if v.is_object() => v,
        _ => {
            let m = cat3("no versions for '", name, "'");
            return Demotion { renames: none, outcome: Err(ShopError::Refused(m)) };
        },
    };
    let ghost m = vs@->Object_0;
    assert(versions(model, name@) == Some(m));
    if !vs.has(version) {
        let text = cat5(
            "version '",
            version,
            "' not found for '",
            name,
            "' — nothing to demote",
        );
        return Demotion { renames: none, outcome: Err(ShopError::Refused(text)) };
    }
    let slot: u64 = match rc_slot {
        Some(s) => {
            if s < 1 {
                return Demotion { renames: none, outcome: Err(refused("rc_slot must be >= 1")) };
            }
            s
        },
        None => highest(&vs, version) + 1,
    };
    let ns = bump_list(&vs, version, slot);
    proof {
        lemma_bump_order(m, version@, slot, ns@);
        lemma_highest_rc_holds(m, version@);
        assert forall|i: int| 0 <= i < ns@.len() implies (#[trigger] ns@[i]) < u64::MAX by {
            lemma_rc_number(version@, ns@[i]);
            assert(m.contains_key(rc_key(version@, ns@[i] as nat)));
        }
    }
    let note = note_of(version, slot, &ns);
    let (renames, after) = demote_versions(vs, version, slot, &ns, host);
    match after {
        Ok(v) => {
            pkg.set("versions", v);
            packages.set(name, pkg);
            repo.set("packages", packages);
            proof {
                let after_m = demotion(m, version@, slot, host@)->Ok_0;
                lemma_put_back(package(model, name@)->0, "versions"@, JsonView::Object(after_m));
                lemma_put_back(
                    model.get("packages"@)->0,
                    name@,
                    package(model, name@)->0.with("versions"@, JsonView::Object(after_m)),
                );
                lemma_put_back(
                    model,
                    "packages"@,
                    model.get("packages"@)->0.with(
                        name@,
                        package(model, name@)->0.with("versions"@, JsonView::Object(after_m)),
                    ),
                );
            }
            Demotion { renames, outcome: Ok((repo, note)) }
        },
        Err(e) => Demotion { renames, outcome: Err(e) },
    }
}

/// Putting another value in the place of a member that was taken out is assigning
/// to that member.
pub proof fn lemma_put_back(v: JsonView, key: Seq<char>, value: JsonView)
    requires
        v is Object,
    ensures
        v.without(key).with(key, value) == v.with(key, value),
{
    let m = v->Object_0;
    assert(m.remove(key).insert(key, value) =~= m.insert(key, value));
}

/// The renamings for a demotion in the registry that a text holds.
pub open spec fn stored_renames(
    registry: Seq<char>,
    host: Seq<char>,
    name: Seq<char>,
    version: Seq<char>,
    rc_slot: Option<u64>,
) -> Seq<RenameView> {
    match json_text(registry) {
        Ok(repo) => if can_demote(repo, name, version, rc_slot) {
            demotion_renames(repo, host, name, version, rc_slot)
        } else {
            Seq::empty()
        },
        Err(_) => Seq::empty(),
    }
}

/// The outcome of a demotion in the registry that a text holds.
pub open spec fn stored_outcome(
    registry: Seq<char>,
    host: Seq<char>,
    name: Seq<char>,
    version: Seq<char>,
    rc_slot: Option<u64>,
) -> Result<(JsonView, Seq<char>), Fault> {
    match json_text(registry) {
        Ok(repo) => if can_demote(repo, name, version, rc_slot) {
            demotion_outcome(repo, host, name, version, rc_slot)
        } else {
            Err(Fault::Broken("no release candidate number is left"@))
        },
        Err(m) => Err(Fault::Refused(m)),
    }
}

/// Whether the candidate numbers suffice for a demotion.
fn demotable(repo: &Json, name: &str, version: &str, rc_slot: Option<u64>) -> (r: bool)
    ensures
        r == can_demote(repo@, name@, version@, rc_slot),
{
    match rc_slot {
        Some(s) => {
            if s == 0 {
                return true;
            }
        },
        None => {},
    }
    if has_version(repo, name, version) {
        room_left(repo, name, version)
    } else {
        true
    }
}

/// Demotes a stable version of a package, in a registry that is kept as text, to a
/// release candidate: at `rc_slot`, or after the highest one. The candidates from
/// there on move up by one.
pub fn demote_existing_version(
    registry: &str,
    host: &str,
    name: &str,
    version: &str,
    rc_slot: Option<u64>,
) -> (r: Demotion)
    ensures
        renames_view(r.renames@) == stored_renames(registry@, host@, name@, version@, rc_slot),
        agrees(r.outcome, stored_outcome(registry@, host@, name@, version@, rc_slot)),
{
    let none: Vec<ZipRename> = Vec::new();
    assert(renames_view(none@) =~= Seq::<RenameView>::empty());
    match parse(registry) {
        Ok(repo) => {
            if !demotable(&repo, name, version, rc_slot) {
                return Demotion {
                    renames: none,
                    outcome: Err(broken("no release candidate number is left")),
                };
            }
            demote(repo, host, name, version, rc_slot)
        },
        Err(m) => Demotion { renames: none, outcome: Err(ShopError::Refused(m)) },
    }
}

// ---------------------------------------------------------------------------
// Laws
// ---------------------------------------------------------------------------

/// The key under which an entry stands after a demotion.
pub open spec fn target(base: Seq<char>, slot: u64, key: Seq<char>) -> Seq<char> {
    if key == base {
        rc_key(base, slot as nat)
    } else {
        match candidate(base, key) {
            Some(n) if n >= slot => rc_key(base, (n + 1) as nat),
            _ => key,
        }
    }
}

/// A demotion loses no version: each is found under its new key, with nothing
/// changed but its name and its address, and two versions never get one key.
pub proof fn law_demotion_keeps_every_version(
    m: Map<Seq<char>, JsonView>,
    base: Seq<char>,
    slot: u64,
    host: Seq<char>,
    key: Seq<char>,
    other: Seq<char>,
)
    requires
        m.contains_key(base),
        highest_rc(m, base) < u64::MAX,
        m.contains_key(key),
        m.contains_key(other),
    ensures
        demoted(m, base, slot, host).contains_key(target(base, slot, key)),
        demoted(m, base, slot, host)[target(base, slot, key)] == entry_as(
            m,
            host,
            key,
            target(base, slot, key),
        ),
        target(base, slot, key) == target(base, slot, other) ==> key == other,
{
    lemma_highest_rc_holds(m, base);
    lemma_base_is_no_candidate(base);
    lemma_rc_number(base, slot);
    lemma_target(m, base, slot, host, key);
    lemma_target(m, base, slot, host, other);
}

proof fn lemma_target(
    m: Map<Seq<char>, JsonView>,
    base: Seq<char>,
    slot: u64,
    host: Seq<char>,
    key: Seq<char>,
)
    requires
        m.contains_key(base),
        highest_rc(m, base) < u64::MAX,
        is_highest_rc(m, base, highest_rc(m, base)),
        m.contains_key(key),
    ensures
        demoted(m, base, slot, host).contains_key(target(base, slot, key)),
        demoted(m, base, slot, host)[target(base, slot, key)] == entry_as(
            m,
            host,
            key,
            target(base, slot, key),
        ),
        key != base && candidate(base, key) is None ==> candidate(
            base,
            target(base, slot, key),
        ) is None,
        candidate(base, key) matches Some(n) ==> n < u64::MAX && candidate(
            base,
            target(base, slot, key),
        ) == Some(
            if n >= slot {
                (n + 1) as u64
            } else {
                n
            },
        ),
{
    lemma_base_is_no_candidate(base);
    lemma_rc_number(base, slot);
    if key != base {
        match candidate(base, key) {
            Some(n) => {
                assert(rc_number(base, key)->0 <= highest_rc(m, base));
                let up = (n + 1) as u64;
                lemma_rc_number(base, up);
                if n >= slot {
                    assert(origin(m, base, slot as int, rc_key(base, up as nat)) == Some(key));
                    assert(candidate(base, rc_key(base, up as nat)) == Some(up));
                    assert(rc_key(base, up as nat) != rc_key(base, slot as nat));
                } else {
                    assert(origin(m, base, slot as int, key) == Some(key));
                }
            },
            None => {
                assert(origin(m, base, slot as int, key) == Some(key));
            },
        }
    }
}

/// A demotion adds no version: what stands under a key afterwards stood under a key
/// before.
pub proof fn law_demotion_adds_no_version(
    m: Map<Seq<char>, JsonView>,
    base: Seq<char>,
    slot: u64,
    host: Seq<char>,
    key: Seq<char>,
) -> (from: Seq<char>)
    requires
        m.contains_key(base),
        demoted(m, base, slot, host).contains_key(key),
    ensures
        m.contains_key(from),
        target(base, slot, from) == key,
{
    lemma_base_is_no_candidate(base);
    lemma_rc_number(base, slot);
    if key == rc_key(base, slot as nat) {
        base
    } else {
        let from = origin(m, base, slot as int, key)->0;
        match candidate(base, key) {
            Some(n) => {
                if n > slot {
                    lemma_rc_number(base, (n - 1) as u64);
                }
            },
            None => {},
        }
        from
    }
}

/// A demotion frees the number of the stable version, and puts the stable version
/// at the candidate that was asked for.
pub proof fn law_demotion_frees_the_version(
    m: Map<Seq<char>, JsonView>,
    base: Seq<char>,
    slot: u64,
    host: Seq<char>,
)
    ensures
        !demoted(m, base, slot, host).contains_key(base),
        demoted(m, base, slot, host).contains_key(rc_key(base, slot as nat)),
        demoted(m, base, slot, host)[rc_key(base, slot as nat)] == entry_as(
            m,
            host,
            base,
            rc_key(base, slot as nat),
        ),
{
    lemma_base_is_no_candidate(base);
}

/// A demotion leaves the versions alone that are neither the stable version nor a
/// candidate of it from the slot on.
pub proof fn law_demotion_leaves_the_rest(
    m: Map<Seq<char>, JsonView>,
    base: Seq<char>,
    slot: u64,
    host: Seq<char>,
    key: Seq<char>,
)
    requires
        m.contains_key(key),
        key != base,
        candidate(base, key) matches Some(n) ==> n < slot,
    ensures
        demoted(m, base, slot, host).contains_key(key),
        demoted(m, base, slot, host)[key] == m[key],
{
    lemma_rc_number(base, slot);
    assert(origin(m, base, slot as int, key) == Some(key));
}

/// An entry under another version has that version and the address of its file:
/// looking the file up in the entry gives the file that it was renamed to, where
/// no part of the address holds a question mark.
pub proof fn law_relabelled_entry_names_its_file(
    entry: JsonView,
    host: Seq<char>,
    version: Seq<char>,
)
    requires
        relabelled(entry, host, version) is Ok,
    ensures
        ({
            let (after, rename) = relabelled(entry, host, version)->Ok_0;
            let parts = pieces(file_of_address(host, text_of_value(entry.get("url"@))->0), '/');
            &&& text_of_value(after.get("version"@)) == Some(version)
            &&& rename.file == file_of_address(host, text_of_value(entry.get("url"@))->0)
            &&& text_of_value(after.get("url"@)) == Some(
                zip_address(host, parts[0], parts[1], version),
            )
            &&& !zip_address(host, parts[0], parts[1], version).contains('?')
                ==> file_of_address(host, text_of_value(after.get("url"@))->0) == parts[0] + "/"@
                + parts[1] + "/"@ + rename.name
            &&& forall|key: Seq<char>|
                key != "version"@ && key != "url"@ ==> #[trigger] after.get(key) == entry.get(key)
        }),
{
    let url = text_of_value(entry.get("url"@))->0;
    let parts = pieces(file_of_address(host, url), '/');
    reveal_strlit("version");
    reveal_strlit("url");
    assert("version"@.len() != "url"@.len());
    if !zip_address(host, parts[0], parts[1], version).contains('?') {
        law_address_names_the_file(host, parts[0], parts[1], version);
    }
}

/// A file under another name in its directory.
pub open spec fn renamed_file(r: RenameView) -> Seq<char> {
    joined(pieces(r.file, '/').drop_last().push(r.name), "/"@)
}

/// A version that was given another name still leads to its file: the file of its new
/// entry is the one that its old file was renamed to. That is so of an address of a
/// category, a directory and a file, as the shop gives out, without a question mark.
pub proof fn law_relabelled_entry_leads_to_its_file(
    entry: JsonView,
    host: Seq<char>,
    version: Seq<char>,
)
    requires
        relabelled(entry, host, version) is Ok,
        ({
            let parts = pieces(file_of_address(host, text_of_value(entry.get("url"@))->0), '/');
            &&& parts.len() == 3
            &&& !zip_address(host, parts[0], parts[1], version).contains('?')
        }),
    ensures
        ({
            let (after, rename) = relabelled(entry, host, version)->Ok_0;
            file_of_address(host, text_of_value(after.get("url"@))->0) == renamed_file(rename)
        }),
{
    law_relabelled_entry_names_its_file(entry, host, version);
    let (after, rename) = relabelled(entry, host, version)->Ok_0;
    let parts = pieces(rename.file, '/');
    let all = parts.drop_last().push(rename.name);
    assert(all =~= seq![parts[0], parts[1], rename.name]);
    assert(all.drop_last() =~= seq![parts[0], parts[1]]);
    assert(all.drop_last().drop_last() =~= seq![parts[0]]);
    reveal_with_fuel(joined, 3);
}

// What a demotion comes to, in the registry and on disk.

/// The candidate of a version with this number.
pub open spec fn numbered(version: Seq<char>, n: nat) -> Seq<char> {
    version + "-rc."@ + decimal(n)
}

/// Whether an entry is another one under a new version: it has the version, and the
/// address of the file of the version in the category and the directory of the old
/// address, and says the same in everything else.
pub open spec fn is_same_entry_under(
    old: Option<JsonView>,
    new: Option<JsonView>,
    host: Seq<char>,
    version: Seq<char>,
) -> bool {
    &&& old is Some
    &&& new is Some
    &&& new->0.get("version"@) == Some(JsonView::Text(version))
    &&& text_of_value(old->0.get("url"@)) is Some
    &&& ({
        let parts = pieces(file_of_address(host, text_of_value(old->0.get("url"@))->0), '/');
        new->0.get("url"@) == Some(
            JsonView::Text(
                without_end_slashes(host) + "/"@ + (parts[0] + "/"@ + parts[1] + "/"@ + (parts[1]
                    + "-"@ + version + ".zip"@)),
            ),
        )
    })
    &&& forall|key: Seq<char>|
        key != "version"@ && key != "url"@ ==> #[trigger] new->0.get(key) == old->0.get(key)
}

/// Whether a renaming gives the file of an entry the name that a new version has.
pub open spec fn renames_to(
    r: RenameView,
    entry: Option<JsonView>,
    host: Seq<char>,
    version: Seq<char>,
) -> bool {
    &&& entry is Some
    &&& text_of_value(entry->0.get("url"@)) is Some
    &&& r.file == file_of_address(host, text_of_value(entry->0.get("url"@))->0)
    &&& r.name == pieces(r.file, '/')[1] + "-"@ + version + ".zip"@
}

/// Whether the stable version of a package became its candidate with this number: the
/// candidates from there on have moved up by one, each with all that its entry says, and
/// nothing else has changed.
pub open spec fn is_demoted_to(
    repo: JsonView,
    after: JsonView,
    host: Seq<char>,
    name: Seq<char>,
    version: Seq<char>,
    n: u64,
) -> bool {
    &&& lists(repo, name, version)
    &&& !lists(after, name, version)
    &&& is_same_entry_under(
        entry_of(repo, name, version),
        entry_of(after, name, numbered(version, n as nat)),
        host,
        numbered(version, n as nat),
    )
    &&& forall|k: u64|
        n <= k && #[trigger] lists(repo, name, numbered(version, k as nat)) ==> is_same_entry_under(
            entry_of(repo, name, numbered(version, k as nat)),
            entry_of(after, name, numbered(version, (k + 1) as nat)),
            host,
            numbered(version, (k + 1) as nat),
        )
    &&& forall|v: Seq<char>| #[trigger]
        lists(repo, name, v) && v != version && !is_numbered_from(version, n, v) ==> entry_of(
            after,
            name,
            v,
        ) == entry_of(repo, name, v)
    &&& forall|v: Seq<char>| #[trigger]
        lists(after, name, v) ==> v == numbered(version, n as nat) || is_moved_up(
            repo,
            name,
            version,
            n,
            v,
        ) || lists(repo, name, v)
    &&& forall|other: Seq<char>|
        other != name ==> #[trigger] package(after, other) == package(repo, other)
    &&& forall|key: Seq<char>|
        key != "packages"@ ==> #[trigger] after.get(key) == repo.get(key)
}

/// Whether a version is a candidate from a number on.
pub open spec fn is_numbered_from(version: Seq<char>, n: u64, v: Seq<char>) -> bool {
    exists|k: u64| n <= k && v == #[trigger] numbered(version, k as nat)
}

/// Whether a version is where a candidate from a number on has moved up to.
pub open spec fn is_moved_up(
    repo: JsonView,
    name: Seq<char>,
    version: Seq<char>,
    n: u64,
    v: Seq<char>,
) -> bool {
    exists|k: u64|
        n <= k && #[trigger] lists(repo, name, numbered(version, k as nat)) && v == numbered(
            version,
            (k + 1) as nat,
        )
}

/// Whether renamings give the files of the candidates with these numbers the names of
/// the next ones.
pub open spec fn rename_candidates(
    repo: JsonView,
    host: Seq<char>,
    name: Seq<char>,
    version: Seq<char>,
    n: u64,
    renames: Seq<RenameView>,
    ns: Seq<u64>,
) -> bool {
    &&& renames.len() == ns.len() + 1
    &&& forall|i: int|
        0 <= i < ns.len() ==> n <= #[trigger] ns[i] && renames_to(
            renames[i],
            entry_of(repo, name, numbered(version, ns[i] as nat)),
            host,
            numbered(version, (ns[i] + 1) as nat),
        )
    &&& forall|i: int, j: int| 0 <= i < j < ns.len() ==> #[trigger] ns[i] > #[trigger] ns[j]
    &&& forall|k: u64|
        n <= k && #[trigger] lists(repo, name, numbered(version, k as nat)) ==> ns.contains(k)
}

/// Whether renamings make room on disk for a stable version that becomes the candidate
/// with this number: the files of the candidates from there on get the names of the next
/// ones, the highest first, and the file of the stable version gets its new name last.
/// So no file takes the place of another.
pub open spec fn renames_make_room(
    repo: JsonView,
    host: Seq<char>,
    name: Seq<char>,
    version: Seq<char>,
    n: u64,
    renames: Seq<RenameView>,
) -> bool {
    &&& renames.len() > 0
    &&& renames_to(
        renames.last(),
        entry_of(repo, name, version),
        host,
        numbered(version, n as nat),
    )
    &&& exists|ns: Seq<u64>| #[trigger]
        rename_candidates(repo, host, name, version, n, renames, ns)
}

/// A move of a demotion that succeeds keeps what the entry says, and renames its file.
proof fn lemma_move_keeps_entry(
    m: Map<Seq<char>, JsonView>,
    host: Seq<char>,
    from: Seq<char>,
    to: Seq<char>,
)
    requires
        m.contains_key(from),
        from != to,
        moved(m, host, (from, to)) is Ok,
    ensures
        is_same_entry_under(Some(m[from]), Some(entry_as(m, host, from, to)), host, to),
        renames_to(moved(m, host, (from, to))->Ok_0.1, Some(m[from]), host, to),
{
    law_relabelled_entry_names_its_file(m[from], host, to);
    reveal_strlit("version");
    reveal_strlit("url");
    assert("version"@.len() != "url"@.len());
}

/// All moves of a demotion that succeeds, one by one.
proof fn lemma_demotion_moves(
    m: Map<Seq<char>, JsonView>,
    host: Seq<char>,
    base: Seq<char>,
    slot: u64,
    k: u64,
)
    requires
        demotion(m, base, slot, host) is Ok,
    ensures
        moved(m, host, (base, rc_key(base, slot as nat))) is Ok,
        slot <= k && m.contains_key(rc_key(base, k as nat)) ==> moved(
            m,
            host,
            (rc_key(base, k as nat), rc_key(base, (k + 1) as nat)),
        ) is Ok,
{
    let steps = moves(m, base, slot);
    let ns = bump_order(m, base, slot);
    lemma_bump_order_holds(m, base, slot);
    lemma_all_moves_good(m, host, steps, steps.len() - 1);
    assert(steps[steps.len() - 1] == (base, rc_key(base, slot as nat)));
    if slot <= k && m.contains_key(rc_key(base, k as nat)) {
        assert(ns.contains(k));
        let i = choose|i: int| 0 <= i < ns.len() && ns[i] == k;
        lemma_all_moves_good(m, host, steps, i);
        assert(steps[i] == (rc_key(base, k as nat), rc_key(base, (k + 1) as nat)));
    }
}

/// The numbers of candidates are told apart by their keys.
proof fn lemma_numbers_are_told_apart(base: Seq<char>, a: u64, b: u64)
    ensures
        rc_key(base, a as nat) == rc_key(base, b as nat) ==> a == b,
        rc_key(base, a as nat) != base,
{
    lemma_rc_number(base, a);
    lemma_rc_number(base, b);
    lemma_base_is_no_candidate(base);
}

/// The registry after a demotion that succeeds, with the slot that was chosen.
proof fn lemma_demoted_to(
    repo: JsonView,
    host: Seq<char>,
    name: Seq<char>,
    version: Seq<char>,
    slot: u64,
)
    requires
        lists(repo, name, version),
        has_room(repo, name, version),
        demotion(versions(repo, name)->0, version, slot, host) is Ok,
    ensures
        is_demoted_to(
            repo,
            with_versions(repo, name, demotion(versions(repo, name)->0, version, slot, host)->Ok_0),
            host,
            name,
            version,
            slot,
        ),
{
    let m = versions(repo, name)->0;
    let d = demoted(m, version, slot, host);
    let after = with_versions(repo, name, d);
    let top = rc_key(version, slot as nat);
    lemma_highest_rc_holds(m, version);
    lemma_demotion_moves(m, host, version, slot, slot);
    lemma_numbers_are_told_apart(version, slot, slot);
    law_demotion_frees_the_version(m, version, slot, host);
    lemma_move_keeps_entry(m, host, version, top);
    assert(package(after, name) == Some(
        package(repo, name)->0.with("versions"@, JsonView::Object(d)),
    ));
    assert(versions(after, name) == Some(d));
    assert(forall|v: Seq<char>| #[trigger]
        lists(after, name, v) ==> entry_of(after, name, v) == Some(d[v]));
    assert(forall|v: Seq<char>| #[trigger]
        lists(repo, name, v) ==> entry_of(repo, name, v) == Some(m[v]));
    assert(numbered(version, slot as nat) == top);
    assert forall|k: u64|
        slot <= k && #[trigger] lists(
            repo,
            name,
            numbered(version, k as nat),
        ) implies is_same_entry_under(
        entry_of(repo, name, numbered(version, k as nat)),
        entry_of(after, name, numbered(version, (k + 1) as nat)),
        host,
        numbered(version, (k + 1) as nat),
    ) by {
        let from = rc_key(version, k as nat);
        let to = rc_key(version, (k + 1) as nat);
        lemma_rc_number(version, k);
        assert(m.contains_key(from));
        assert(k < u64::MAX);
        lemma_numbers_are_told_apart(version, k, (k + 1) as u64);
        lemma_demotion_moves(m, host, version, slot, k);
        lemma_move_keeps_entry(m, host, from, to);
        law_demotion_keeps_every_version(m, version, slot, host, from, from);
        assert(target(version, slot, from) == to);
        assert(lists(after, name, to));
    }
    assert forall|v: Seq<char>| #[trigger]
        lists(repo, name, v) && v != version && !is_numbered_from(
            version,
            slot,
            v,
        ) implies entry_of(after, name, v) == entry_of(repo, name, v) by {
        if candidate(version, v) is Some {
            let k = candidate(version, v)->0;
            assert(v == numbered(version, k as nat));
        }
        law_demotion_leaves_the_rest(m, version, slot, host, v);
        assert(lists(after, name, v));
    }
    assert forall|v: Seq<char>| #[trigger] lists(after, name, v) implies v == numbered(
        version,
        slot as nat,
    ) || is_moved_up(repo, name, version, slot, v) || lists(repo, name, v) by {
        let from = law_demotion_adds_no_version(m, version, slot, host, v);
        if from != version && v != from {
            let k = candidate(version, from)->0;
            assert(lists(repo, name, numbered(version, k as nat)));
            assert(v == numbered(version, (k + 1) as nat));
        }
    }
}

/// The renamings of a demotion that succeeds, with the slot that was chosen.
proof fn lemma_renames_make_room(
    repo: JsonView,
    host: Seq<char>,
    name: Seq<char>,
    version: Seq<char>,
    slot: u64,
)
    requires
        lists(repo, name, version),
        has_room(repo, name, version),
        demotion(versions(repo, name)->0, version, slot, host) is Ok,
    ensures
        renames_make_room(
            repo,
            host,
            name,
            version,
            slot,
            good_renames(
                versions(repo, name)->0,
                host,
                moves(versions(repo, name)->0, version, slot),
            ),
        ),
{
    let m = versions(repo, name)->0;
    let steps = moves(m, version, slot);
    let ns = bump_order(m, version, slot);
    let renames = good_renames(m, host, steps);
    lemma_highest_rc_holds(m, version);
    lemma_bump_order_holds(m, version, slot);
    lemma_demotion_moves(m, host, version, slot, slot);
    lemma_numbers_are_told_apart(version, slot, slot);
    lemma_move_keeps_entry(m, host, version, rc_key(version, slot as nat));
    assert(entry_of(repo, name, version) == Some(m[version]));
    assert(steps.take(steps.len() as int) =~= steps);
    assert(steps[steps.len() - 1] == (version, rc_key(version, slot as nat)));
    assert(renames.last() == moved(m, host, steps.last())->Ok_0.1);
    assert forall|i: int| 0 <= i < ns.len() implies slot <= #[trigger] ns[i] && renames_to(
        renames[i],
        entry_of(repo, name, numbered(version, ns[i] as nat)),
        host,
        numbered(version, (ns[i] + 1) as nat),
    ) by {
        let k = ns[i];
        let from = rc_key(version, k as nat);
        let to = rc_key(version, (k + 1) as nat);
        assert(m.contains_key(from));
        lemma_rc_number(version, k);
        assert(k < u64::MAX);
        lemma_numbers_are_told_apart(version, k, (k + 1) as u64);
        lemma_demotion_moves(m, host, version, slot, k);
        lemma_move_keeps_entry(m, host, from, to);
        assert(steps[i] == (from, to));
        assert(renames[i] == moved(m, host, steps[i])->Ok_0.1);
        assert(entry_of(repo, name, from) == Some(m[from]));
    }
    assert forall|k: u64|
        slot <= k && #[trigger] lists(
            repo,
            name,
            numbered(version, k as nat),
        ) implies ns.contains(k) by {
        assert(m.contains_key(rc_key(version, k as nat)));
    }
    assert(rename_candidates(repo, host, name, version, slot, renames, ns));
}

/// A demotion that is asked for with a number puts the stable version there: in the
/// registry, where the candidates from that number on have moved up by one, and on disk,
/// where the files get the names that the registry leads to.
pub proof fn law_demotion_takes_the_number_asked_for(
    registry: Seq<char>,
    host: Seq<char>,
    name: Seq<char>,
    version: Seq<char>,
    n: u64,
)
    requires
        stored_outcome(registry, host, name, version, Some(n)) is Ok,
    ensures
        n >= 1,
        json_text(registry) is Ok,
        is_demoted_to(
            json_text(registry)->Ok_0,
            stored_outcome(registry, host, name, version, Some(n))->Ok_0.0,
            host,
            name,
            version,
            n,
        ),
        renames_make_room(
            json_text(registry)->Ok_0,
            host,
            name,
            version,
            n,
            stored_renames(registry, host, name, version, Some(n)),
        ),
{
    let repo = json_text(registry)->Ok_0;
    lemma_demoted_to(repo, host, name, version, n);
    lemma_renames_make_room(repo, host, name, version, n);
}

/// Whether a number is above those of all candidates of a version that are listed.
pub open spec fn is_above_candidates(
    repo: JsonView,
    name: Seq<char>,
    version: Seq<char>,
    n: u64,
) -> bool {
    forall|k: u64| #[trigger] lists(repo, name, numbered(version, k as nat)) ==> k < n
}

/// Whether the stable version of a package became its newest candidate, and made room on
/// disk as well.
pub open spec fn is_demoted_to_the_end(
    repo: JsonView,
    after: JsonView,
    host: Seq<char>,
    name: Seq<char>,
    version: Seq<char>,
    renames: Seq<RenameView>,
    n: u64,
) -> bool {
    &&& n >= 1
    &&& is_above_candidates(repo, name, version, n)
    &&& n == 1 || has_rc(versions(repo, name)->0, version, (n - 1) as u64)
    &&& is_demoted_to(repo, after, host, name, version, n)
    &&& renames_make_room(repo, host, name, version, n, renames)
}

/// A demotion that is asked for without a number makes the stable version the newest
/// candidate: its number is above those of all others, none of which moves.
pub proof fn law_demotion_takes_the_next_number(
    registry: Seq<char>,
    host: Seq<char>,
    name: Seq<char>,
    version: Seq<char>,
)
    requires
        stored_outcome(registry, host, name, version, None) is Ok,
    ensures
        json_text(registry) is Ok,
        exists|n: u64| #[trigger]
            is_demoted_to_the_end(
                json_text(registry)->Ok_0,
                stored_outcome(registry, host, name, version, None)->Ok_0.0,
                host,
                name,
                version,
                stored_renames(registry, host, name, version, None),
                n,
            ),
{
    let repo = json_text(registry)->Ok_0;
    let m = versions(repo, name)->0;
    let n = (highest_rc(m, version) + 1) as u64;
    lemma_highest_rc_holds(m, version);
    lemma_demoted_to(repo, host, name, version, n);
    lemma_renames_make_room(repo, host, name, version, n);
    assert forall|k: u64| #[trigger]
        lists(repo, name, numbered(version, k as nat)) implies k < n by {
        lemma_rc_number(version, k);
        assert(m.contains_key(rc_key(version, k as nat)));
    }
    assert(is_demoted_to_the_end(
        repo,
        stored_outcome(registry, host, name, version, None)->Ok_0.0,
        host,
        name,
        version,
        stored_renames(registry, host, name, version, None),
        n,
    ));
}

/// The report on a demotion names the version and the candidate that it became.
pub proof fn law_demotion_is_reported(
    m: Map<Seq<char>, JsonView>,
    version: Seq<char>,
    slot: u64,
)
    ensures
        ("Existing stable version <b>"@ + version + "</b> demoted to <b>"@ + numbered(
            version,
            slot as nat,
        ) + "</b>."@).is_prefix_of(demotion_note(m, version, slot)),
{
    let head = "Existing stable version <b>"@ + version + "</b> demoted to <b>"@ + numbered(
        version,
        slot as nat,
    ) + "</b>."@;
    let note = demotion_note(m, version, slot);
    assert(note.subrange(0, head.len() as int) =~= head);
}

/// A demotion leaves all that the package says besides its versions.
pub proof fn law_demotion_keeps_the_package(
    repo: JsonView,
    name: Seq<char>,
    m: Map<Seq<char>, JsonView>,
)
    requires
        versions(repo, name) is Some,
    ensures
        keeps_package(repo, with_versions(repo, name, m), name),
        versions(with_versions(repo, name, m), name) == Some(m),
{
    assert(package(with_versions(repo, name, m), name) == Some(
        package(repo, name)->0.with("versions"@, JsonView::Object(m)),
    ));
}

/// Whether an entry has an address of the shop, with a category and a directory.
pub open spec fn has_place(entry: JsonView, host: Seq<char>) -> bool {
    entry.get("url"@) matches Some(JsonView::Text(url)) && {
        let parts = pieces(file_of_address(host, url), '/');
        parts.len() >= 2 && parts[0].len() > 0
    }
}

/// A listed version can be demoted, to any number from one on or to the next one, where
/// the versions of its package have addresses and the numbers suffice.
pub proof fn law_listed_versions_can_be_demoted(
    registry: Seq<char>,
    host: Seq<char>,
    name: Seq<char>,
    version: Seq<char>,
    rc_slot: Option<u64>,
)
    requires
        json_text(registry) is Ok,
        lists(json_text(registry)->Ok_0, name, version),
        has_room(json_text(registry)->Ok_0, name, version),
        rc_slot != Some(0u64),
        forall|v: Seq<char>| #[trigger]
            lists(json_text(registry)->Ok_0, name, v) ==> has_place(
                versions(json_text(registry)->Ok_0, name)->0[v],
                host,
            ),
    ensures
        stored_outcome(registry, host, name, version, rc_slot) is Ok,
{
    let repo = json_text(registry)->Ok_0;
    let m = versions(repo, name)->0;
    let slot = chosen_slot(m, version, rc_slot);
    let steps = moves(m, version, slot);
    let ns = bump_order(m, version, slot);
    lemma_bump_order_holds(m, version, slot);
    assert forall|i: int| 0 <= i < steps.len() implies moved(m, host, #[trigger] steps[i]) is Ok by {
        if i < ns.len() {
            assert(m.contains_key(rc_key(version, ns[i] as nat)));
            assert(steps[i].0 == rc_key(version, ns[i] as nat));
        } else {
            assert(steps[i].0 == version);
        }
        assert(lists(repo, name, steps[i].0));
    }
    lemma_good_moves(m, host, steps, steps.len() as int);
}

/// A text that is joined in is a part of the whole.
proof fn lemma_joined_part(parts: Seq<Seq<char>>, sep: Seq<char>, i: int)
    requires
        0 <= i < parts.len(),
    ensures
        has_part(joined(parts, sep), parts[i]),
    decreases parts.len(),
{
    let none = Seq::<char>::empty();
    let whole = joined(parts, sep);
    if parts.len() == 1 {
        lemma_has_part(none, parts[0], none);
        assert(none + parts[0] + none =~= parts[0]);
    } else if i == parts.len() - 1 {
        let front = joined(parts.drop_last(), sep) + sep;
        lemma_has_part(front, parts[i], none);
        assert(front + parts[i] + none =~= whole);
    } else {
        let head = parts.drop_last();
        lemma_joined_part(head, sep, i);
        let inner = joined(head, sep);
        let k = choose|k: int|
            0 <= k && k + parts[i].len() <= inner.len() && #[trigger] inner.subrange(
                k,
                k + parts[i].len(),
            ) == parts[i];
        assert(whole.subrange(k, k + parts[i].len()) =~= inner.subrange(k, k + parts[i].len()));
    }
}

/// The report on a demotion names every candidate that moved up, with the number that it
/// has now.
pub proof fn law_moves_are_reported(
    m: Map<Seq<char>, JsonView>,
    version: Seq<char>,
    slot: u64,
    k: u64,
)
    requires
        slot <= k,
        m.contains_key(numbered(version, k as nat)),
        m.dom().finite(),
    ensures
        has_part(
            demotion_note(m, version, slot),
            numbered(version, k as nat) + "→"@ + numbered(version, (k + 1) as nat),
        ),
{
    lemma_bump_order_holds(m, version, slot);
    let ns = bump_order(m, version, slot);
    assert(m.contains_key(rc_key(version, k as nat)));
    let i = choose|i: int| 0 <= i < ns.len() && ns[i] == k;
    let steps = bumps(version, ns);
    let texts = steps.map_values(|step: (Seq<char>, Seq<char>)| move_text(step));
    let part = numbered(version, k as nat) + "→"@ + numbered(version, (k + 1) as nat);
    assert(texts[i] == part);
    lemma_joined_part(texts, ", "@, i);
    let list = joined(texts, ", "@);
    let note = demotion_note(m, version, slot);
    let head = "Existing stable version <b>"@ + version + "</b> demoted to <b>"@ + rc_key(
        version,
        slot as nat,
    ) + "</b>."@;
    let front = head + (" Existing rc candidates at/after slot "@ + decimal(slot as nat)
        + " upgraded by 1: "@);
    assert(note =~= front + list + "."@);
    let j = choose|j: int|
        0 <= j && j + part.len() <= list.len() && #[trigger] list.subrange(j, j + part.len())
            == part;
    let at = front.len() + j;
    assert(note.subrange(at, at + part.len()) =~= list.subrange(j, j + part.len()));
}

/// The report on a demotion for which candidates moved up names the number from which on
/// they did.
pub proof fn law_first_move_is_reported(
    m: Map<Seq<char>, JsonView>,
    version: Seq<char>,
    slot: u64,
    k: u64,
)
    requires
        slot <= k,
        m.contains_key(numbered(version, k as nat)),
        m.dom().finite(),
    ensures
        has_part(
            demotion_note(m, version, slot),
            "at/after slot "@ + decimal(slot as nat) + " upgraded by 1"@,
        ),
{
    lemma_bump_order_holds(m, version, slot);
    let ns = bump_order(m, version, slot);
    assert(m.contains_key(rc_key(version, k as nat)));
    assert(ns.contains(k));
    let steps = bumps(version, ns);
    let list = joined(
        steps.map_values(|step: (Seq<char>, Seq<char>)| move_text(step)),
        ", "@,
    );
    let head = "Existing stable version <b>"@ + version + "</b> demoted to <b>"@ + rc_key(
        version,
        slot as nat,
    ) + "</b>."@;
    reveal_strlit(" Existing rc candidates at/after slot ");
    reveal_strlit(" Existing rc candidates ");
    reveal_strlit("at/after slot ");
    reveal_strlit(" upgraded by 1: ");
    reveal_strlit(" upgraded by 1");
    reveal_strlit(": ");
    assert(" Existing rc candidates at/after slot "@ =~= " Existing rc candidates "@
        + "at/after slot "@);
    assert(" upgraded by 1: "@ =~= " upgraded by 1"@ + ": "@);
    let part = "at/after slot "@ + decimal(slot as nat) + " upgraded by 1"@;
    let front = head + " Existing rc candidates "@;
    let back = ": "@ + list + "."@;
    lemma_has_part(front, part, back);
    assert(demotion_note(m, version, slot) =~= front + part + back);
}

} // verus!
