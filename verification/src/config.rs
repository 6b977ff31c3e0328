//! What the shop needs to know before it can run.

use vstd::prelude::*;
use vstd::string::*;

use crate::codec::{depth_limit, storable};
use crate::edits::can_publish;
use crate::error::{Fault, ShopError, agrees, refused};
use crate::json::{Json, JsonView};
use crate::manifest::{default_author, package_author};
use crate::registry::{package, seen_text};
use crate::storage::lemma_plain_keys;
use crate::text::{
    cat2, cat3, empty, join, joined, lemma_pieces_joined, pieces, split, texts, trim, trimmed,
    without_end_slashes,
};
use crate::upload::{Settings, SettingsView};
use crate::urls::{index_address, index_url};


verus! {

// ---------------------------------------------------------------------------
// Categories
// ---------------------------------------------------------------------------

/// The categories that a file lists: one on each line that is not blank.
pub open spec fn category_lines(text: Seq<char>) -> Seq<Seq<char>> {
    pieces(text, '\n').map_values(|l: Seq<char>| trimmed(l)).filter(|l: Seq<char>| l.len() > 0)
}

/// The text of a file that lists these categories.
pub open spec fn category_file(names: Seq<Seq<char>>) -> Seq<char> {
    joined(names, "\n"@) + "\n"@
}

/// The categories that a file lists.
fn lines_of(text: &str) -> (r: Vec<String>)
    ensures
        texts(r@) == category_lines(text@),
{
    let lines = split(text, '\n');
    let ghost bare = pieces(text@, '\n').map_values(|l: Seq<char>| trimmed(l));
    let keep = Ghost(|l: Seq<char>| l.len() > 0);
    let mut out: Vec<String> = Vec::new();
    let mut i: usize = 0;
    proof {
        reveal(Seq::filter);
        assert(texts(out@) =~= bare.take(0).filter(keep@));
    }
    while i < lines.len()
        invariant
            i <= lines.len(),
            texts(lines@) == pieces(text@, '\n'),
            bare == pieces(text@, '\n').map_values(|l: Seq<char>| trimmed(l)),
            keep@ == (|l: Seq<char>| l.len() > 0),
            texts(out@) == bare.take(i as int).filter(keep@),
        decreases lines.len() - i,
    {
        let ghost before = out@;
        let line = trim(lines[i].as_str());
        let ghost l = line@;
        proof {
            reveal(Seq::filter);
            assert(texts(lines@)[i as int] == lines@[i as int]@);
            assert(bare[i as int] == l);
            assert(bare.take(i + 1).drop_last() =~= bare.take(i as int));
        }
        if !empty(line.as_str()) {
            out.push(line);
            assert(texts(out@) =~= texts(before).push(l));
        }
        i = i + 1;
    }
    assert(bare.take(i as int) =~= bare);
    out
}

/// Reads the categories in the text of the file at this path. A shop has at least
/// one.
pub fn load_categories(path: &str, text: &str) -> (r: Result<Vec<String>, ShopError>)
    ensures
        match r {
            Ok(v) => texts(v@) == category_lines(text@) && v@.len() > 0,
            Err(e) => category_lines(text@).len() == 0 && e@ == Fault::Refused(
                "categories file "@ + path@ + " is empty"@,
            ),
        },
{
    let lines = lines_of(text);
    assert(texts(lines@).len() == lines@.len());
    if lines.len() == 0 {
        let m = cat3("categories file ", path, " is empty");
        return Err(ShopError::Refused(m));
    }
    Ok(lines)
}

/// The text of the file at this path for a shop that has none yet: the categories are
/// those of `repos.conf`.
pub fn initial_categories(path: &str, names: &Vec<String>) -> (r: Result<String, ShopError>)
    ensures
        match r {
            Ok(text) => names@.len() > 0 && text@ == category_file(texts(names@)),
            Err(e) => names@.len() == 0 && e@ == Fault::Refused(
                "no categories file "@ + path@
                    + " and no categories in repos.conf — add a 'categories' entry or create the file"@,
            ),
        },
{
    if names.len() == 0 {
        let m = cat3(
            "no categories file ",
            path,
            " and no categories in repos.conf — add a 'categories' entry or create the file",
        );
        return Err(ShopError::Refused(m));
    }
    let lines = join(names, "\n");
    Ok(cat2(lines.as_str(), "\n"))
}

/// The categories that were written are the categories that are read: of names that fit
/// on a line, those that are not blank, without white space at their ends. Names that
/// are neither blank nor have such white space are read as they are.
pub proof fn law_categories_are_read_back(names: Seq<Seq<char>>)
    requires
        forall|i: int| 0 <= i < names.len() ==> !(#[trigger] names[i]).contains('\n'),
    ensures
        category_lines(category_file(names)) == names.map_values(
            |n: Seq<char>| trimmed(n),
        ).filter(|n: Seq<char>| n.len() > 0),
        (forall|i: int|
            0 <= i < names.len() ==> (#[trigger] names[i]).len() > 0 && trimmed(names[i])
                == names[i]) ==> category_lines(category_file(names)) == names,
{
    reveal_strlit("\n");
    assert("\n"@ =~= seq!['\n']);
    let text = joined(names, "\n"@);
    let file = text + "\n"@;
    let own = names.map_values(|n: Seq<char>| trimmed(n));
    let bare = pieces(file, '\n').map_values(|l: Seq<char>| trimmed(l));
    let keep = |l: Seq<char>| l.len() > 0;
    assert(file.drop_last() =~= text);
    assert(trimmed(Seq::empty()) =~= Seq::empty());
    reveal(Seq::filter);
    if names.len() == 0 {
        assert(text =~= Seq::<char>::empty());
        assert(pieces(text, '\n') =~= seq![Seq::<char>::empty()]);
        assert(bare =~= seq![Seq::<char>::empty(), Seq::<char>::empty()]);
        assert(bare.drop_last().drop_last() =~= own);
        assert(bare.drop_last().filter(keep) == own.filter(keep));
    } else {
        lemma_pieces_joined(names, '\n');
        assert(pieces(file, '\n') == names.push(Seq::empty()));
        assert(bare.drop_last() =~= own);
    }
    assert(!keep(bare.last()));
    assert(bare.filter(keep) == own.filter(keep));
    if forall|i: int|
        0 <= i < names.len() ==> (#[trigger] names[i]).len() > 0 && trimmed(names[i]) == names[i] {
        assert(own =~= names) by {
            assert forall|i: int| 0 <= i < names.len() implies own[i] == names[i] by {
                assert(trimmed(names[i]) == names[i]);
            }
        }
        lemma_filter_all(names, keep);
    }
}

proof fn lemma_filter_all(s: Seq<Seq<char>>, keep: spec_fn(Seq<char>) -> bool)
    requires
        forall|i: int| 0 <= i < s.len() ==> keep(#[trigger] s[i]),
    ensures
        s.filter(keep) == s,
    decreases s.len(),
{
    reveal(Seq::filter);
    if s.len() > 0 {
        let head = s.drop_last();
        assert forall|i: int| 0 <= i < head.len() implies keep(#[trigger] head[i]) by {
            assert(head[i] == s[i]);
        }
        lemma_filter_all(head, keep);
        assert(keep(s[s.len() - 1]));
        assert(head.push(s.last()) =~= s);
    } else {
        assert(s.filter(keep) =~= s);
    }
}

// ---------------------------------------------------------------------------
// Settings
// ---------------------------------------------------------------------------

/// What the environment says, as far as the shop asks.
#[derive(Debug)]
pub struct Environment {
    pub master_host: Option<String>,
    /// The value of `API_USER`, or why there is none.
    pub api_user: Result<String, String>,
    /// The value of `API_PASS`, or why there is none.
    pub api_pass: Result<String, String>,
    pub pkg_author: Option<String>,
}

/// What an environment says.
pub struct EnvironmentView {
    pub master_host: Option<Seq<char>>,
    pub api_user: Result<Seq<char>, Seq<char>>,
    pub api_pass: Result<Seq<char>, Seq<char>>,
    pub pkg_author: Option<Seq<char>>,
}

/// What a value of the environment says, or the reason why there is none.
pub open spec fn value_view(v: Result<String, String>) -> Result<Seq<char>, Seq<char>> {
    match v {
        Ok(t) => Ok(t@),
        Err(t) => Err(t@),
    }
}

impl View for Environment {
    type V = EnvironmentView;

    open spec fn view(&self) -> EnvironmentView {
        EnvironmentView {
            master_host: seen_text(self.master_host),
            api_user: value_view(self.api_user),
            api_pass: value_view(self.api_pass),
            pkg_author: seen_text(self.pkg_author),
        }
    }
}

/// The public address of the shop: that of the environment, or else that of
/// `repos.conf`. None is made up.
pub open spec fn host_of(env: Option<Seq<char>>, conf: Seq<char>) -> Option<Seq<char>> {
    if env matches Some(h) && trimmed(h).len() > 0 {
        Some(trimmed(env->0))
    } else if trimmed(conf).len() > 0 {
        Some(trimmed(conf))
    } else {
        None
    }
}

/// The settings of a shop; or why it does not start.
pub open spec fn settings_of(
    env: EnvironmentView,
    conf_host: Seq<char>,
    categories: Seq<Seq<char>>,
) -> Result<SettingsView, Fault> {
    match host_of(env.master_host, conf_host) {
        None => Err(
            Fault::Refused(
                "MASTER_HOST is not set — set it in vpm-shop.conf (or repos.conf \"master_host\") before publishing"@,
            ),
        ),
        Some(host) => match (env.api_user, env.api_pass) {
            (Err(why), _) => Err(
                Fault::Refused(
                    "API_USER is not set — run ./launch.sh to generate vpm-shop.conf: "@ + why,
                ),
            ),
            (_, Err(why)) => Err(
                Fault::Refused(
                    "API_PASS is not set — run ./launch.sh to generate vpm-shop.conf: "@ + why,
                ),
            ),
            (Ok(username), Ok(password)) => Ok(
                SettingsView {
                    username,
                    password,
                    host,
                    categories,
                    author: default_author(env.pkg_author),
                },
            ),
        },
    }
}

/// The public address of the shop.
fn master_host(env: &Option<String>, conf: &str) -> (r: Option<String>)
    ensures
        seen_text(r) == host_of(seen_text(*env), conf@),
{
    match env {
        Some(h) => {
            let h = trim(h.as_str());
            if !empty(h.as_str()) {
                return Some(h);
            }
        },
        None => {},
    }
    let c = trim(conf);
    if empty(c.as_str()) {
        None
    } else {
        Some(c)
    }
}

/// Puts the settings of a shop together. Without an address or without credentials
/// it does not start.
pub fn configure(env: Environment, conf_host: &str, categories: Vec<String>) -> (r: Result<
    Settings,
    ShopError,
>)
    ensures
        agrees(r, settings_of(env@, conf_host@, texts(categories@))),
{
    let host = match master_host(&env.master_host, conf_host) {
        Some(h) => h,
        None => {
            return Err(
                refused(
                    "MASTER_HOST is not set — set it in vpm-shop.conf (or repos.conf \"master_host\") before publishing",
                ),
            );
        },
    };
    let username = match env.api_user {
        Ok(u) => u,
        Err(why) => {
            let m = cat2(
                "API_USER is not set — run ./launch.sh to generate vpm-shop.conf: ",
                why.as_str(),
            );
            return Err(ShopError::Refused(m));
        },
    };
    let password = match env.api_pass {
        Ok(p) => p,
        Err(why) => {
            let m = cat2(
                "API_PASS is not set — run ./launch.sh to generate vpm-shop.conf: ",
                why.as_str(),
            );
            return Err(ShopError::Refused(m));
        },
    };
    let author = package_author(env.pkg_author);
    Ok(Settings { username, password, host, categories, author })
}

/// A shop that starts has the credentials that the environment gives it, and none
/// other: without them it does not start.
pub proof fn law_credentials_are_never_made_up(
    env: EnvironmentView,
    conf_host: Seq<char>,
    categories: Seq<Seq<char>>,
)
    ensures
        match settings_of(env, conf_host, categories) {
            Ok(s) => {
                &&& env.api_user matches Ok(u) && u == s.username
                &&& env.api_pass matches Ok(p) && p == s.password
                &&& s.host.len() > 0
            },
            Err(_) => env.api_user is Err || env.api_pass is Err || host_of(
                env.master_host,
                conf_host,
            ) is None,
        },
{
}

// ---------------------------------------------------------------------------
// The first registry
// ---------------------------------------------------------------------------

/// The registry of a shop that offers nothing yet.
pub open spec fn fresh_registry(host: Seq<char>) -> JsonView {
    JsonView::Object(
        Map::<Seq<char>, JsonView>::empty().insert("name"@, JsonView::Text("VPM Shop"@)).insert(
            "url"@,
            JsonView::Text(index_address(host)),
        ).insert("packages"@, JsonView::Object(Map::empty())),
    )
}

/// The registry of a shop that offers nothing yet.
pub fn initial_registry(host: &str) -> (r: Json)
    ensures
        r@ == fresh_registry(host@),
{
    let mut r = Json::object();
    let url = index_url(host);
    r.set("name", Json::of_text("VPM Shop"));
    r.set("url", Json::Text(url));
    r.set("packages", Json::object());
    r
}

/// A fresh registry offers no package, takes any, and can be stored.
pub proof fn law_fresh_registry(host: Seq<char>, name: Seq<char>)
    ensures
        package(fresh_registry(host), name) is None,
        fresh_registry(host).get("packages"@) is Some,
        can_publish(fresh_registry(host), name),
        storable(fresh_registry(host), depth_limit()),
{
    reveal_strlit("versions");
    assert(fresh_registry(host).get("packages"@) == Some(JsonView::Object(Map::empty())));
    lemma_plain_keys();
    reveal_with_fuel(storable, 3);
}

/// A shop that starts has the address of the environment, or that of `repos.conf` where
/// the environment has none, without white space at its ends; the categories that it was
/// given; and the author of the environment, or the shop itself.
pub proof fn law_settings_come_from_the_environment(
    env: EnvironmentView,
    conf_host: Seq<char>,
    categories: Seq<Seq<char>>,
)
    requires
        settings_of(env, conf_host, categories) is Ok,
    ensures
        ({
            let s = settings_of(env, conf_host, categories)->Ok_0;
            &&& s.categories == categories
            &&& (env.master_host matches Some(h) && trimmed(h).len() > 0) ==> s.host == trimmed(
                env.master_host->0,
            )
            &&& !(env.master_host matches Some(h) && trimmed(h).len() > 0) ==> s.host == trimmed(
                conf_host,
            )
            &&& env.pkg_author matches Some(a) ==> s.author == a
            &&& env.pkg_author is None ==> s.author == "VPM Shop"@
        }),
{
}

/// A shop with credentials and an address starts.
pub proof fn law_configured_shops_start(
    env: EnvironmentView,
    conf_host: Seq<char>,
    categories: Seq<Seq<char>>,
)
    requires
        env.api_user is Ok,
        env.api_pass is Ok,
        (env.master_host matches Some(h) && trimmed(h).len() > 0) || trimmed(conf_host).len() > 0,
    ensures
        settings_of(env, conf_host, categories) is Ok,
{
}

/// A fresh registry has a name, and names the address of the published listing.
pub proof fn law_fresh_registry_is_named(host: Seq<char>)
    ensures
        fresh_registry(host).get("name"@) == Some(JsonView::Text("VPM Shop"@)),
        fresh_registry(host).get("url"@) == Some(
            JsonView::Text(without_end_slashes(host) + "/index.json"@),
        ),
{
    reveal_strlit("name");
    reveal_strlit("url");
    reveal_strlit("packages");
    assert("name"@.len() == 4 && "url"@.len() == 3 && "packages"@.len() == 8);
}

} // verus!
