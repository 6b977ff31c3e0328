//! The names and ids of the published listings, as `repos.conf` keeps them.

use vstd::prelude::*;
use vstd::string::*;

use crate::codec::{depth_limit, json_text, parse, raw_key, reads_as, storable, stored_as};
use crate::error::{Fault, ShopError, agrees, broken, refused};
use crate::json::{Json, JsonView, items_view, lemma_item, lemma_items_len, text_of_value};
use crate::manifest::text_or;
use crate::registry::seen_text;
use crate::replies::{category_json, category_value};
use crate::storage::{lemma_storable_items, lemma_storable_member, lemma_storable_with};
use crate::text::{
    cat2, cat3, contains_text, empty, lowercase, same, texts, to_lowercase, trim, trimmed,
};

verus! {

// ---------------------------------------------------------------------------
// Reading
// ---------------------------------------------------------------------------

/// The listing of a category.
#[derive(Debug)]
pub struct RepoCategory {
    pub name: String,
    pub sub: String,
    pub repo_name: String,
    pub repo_id: String,
}

/// What the listing of a category says.
pub struct CategoryView {
    pub name: Seq<char>,
    pub sub: Seq<char>,
    pub repo_name: Seq<char>,
    pub repo_id: Seq<char>,
}

impl View for RepoCategory {
    type V = CategoryView;

    open spec fn view(&self) -> CategoryView {
        CategoryView {
            name: self.name@,
            sub: self.sub@,
            repo_name: self.repo_name@,
            repo_id: self.repo_id@,
        }
    }
}

/// What the listings of categories say.
pub open spec fn categories_view(v: Seq<RepoCategory>) -> Seq<CategoryView> {
    v.map_values(|c: RepoCategory| c@)
}

/// What `repos.conf` says of the listings.
#[derive(Debug)]
pub struct RepoConf {
    pub master_host: String,
    pub subdomain_host: String,
    pub author: String,
    pub master_name: String,
    pub master_id: String,
    pub categories: Vec<RepoCategory>,
}

/// What a `RepoConf` says.
pub struct ConfView {
    pub master_host: Seq<char>,
    pub subdomain_host: Seq<char>,
    pub author: Seq<char>,
    pub master_name: Seq<char>,
    pub master_id: Seq<char>,
    pub categories: Seq<CategoryView>,
}

impl View for RepoConf {
    type V = ConfView;

    open spec fn view(&self) -> ConfView {
        ConfView {
            master_host: self.master_host@,
            subdomain_host: self.subdomain_host@,
            author: self.author@,
            master_name: self.master_name@,
            master_id: self.master_id@,
            categories: categories_view(self.categories@),
        }
    }
}

/// The listing of a category that `repos.conf` does not know.
pub open spec fn default_category(name: Seq<char>) -> CategoryView {
    CategoryView {
        name,
        sub: lowercase(name),
        repo_name: "VPM – "@ + name,
        repo_id: "com.vpm."@ + lowercase(name),
    }
}

/// The listing of a category with this name and this name in lower case, that
/// `repos.conf` does not know.
pub fn category_with_sub(name: &str, sub: String) -> (r: RepoCategory)
    ensures
        r@ == (CategoryView {
            name: name@,
            sub: sub@,
            repo_name: "VPM – "@ + name@,
            repo_id: "com.vpm."@ + sub@,
        }),
{
    let repo_id = cat2("com.vpm.", sub.as_str());
    RepoCategory { name: name.to_string(), sub, repo_name: cat2("VPM – ", name), repo_id }
}

/// The listing of a category that `repos.conf` does not know.
pub fn default_repo_category(name: &str) -> (r: RepoCategory)
    ensures
        r@ == default_category(name@),
{
    let sub = to_lowercase(name);
    category_with_sub(name, sub)
}

/// The listing of a category, as `repos.conf` has it.
pub open spec fn listed_category(v: JsonView) -> CategoryView {
    let name = text_or(Some(v), "name"@, "Misc"@);
    CategoryView {
        name,
        sub: text_or(Some(v), "sub"@, "misc"@),
        repo_name: text_or(Some(v), "repo_name"@, "VPM – "@ + name),
        repo_id: text_or(Some(v), "repo_id"@, Seq::empty()),
    }
}

/// Whether a category is among the listings.
pub open spec fn has_category(listed: Seq<CategoryView>, name: Seq<char>) -> bool {
    exists|i: int| 0 <= i < listed.len() && (#[trigger] listed[i]).name == name
}

/// The listings, with one for each category that was missing.
pub open spec fn completed(listed: Seq<CategoryView>, names: Seq<Seq<char>>) -> Seq<CategoryView>
    decreases names.len(),
{
    if names.len() == 0 {
        listed
    } else {
        let done = completed(listed, names.drop_last());
        if has_category(done, names.last()) {
            done
        } else {
            done.push(default_category(names.last()))
        }
    }
}

/// The listings that `repos.conf` has.
pub open spec fn listed_categories(v: JsonView) -> Seq<CategoryView> {
    match v.get("categories"@) {
        Some(JsonView::Array(items)) => items.map_values(|c: JsonView| listed_category(c)),
        _ => Seq::empty(),
    }
}

/// What `repos.conf` says, where it is this value, for a shop with these categories.
pub open spec fn conf_of(v: JsonView, names: Seq<Seq<char>>) -> ConfView {
    ConfView {
        master_host: text_or(Some(v), "master_host"@, Seq::empty()),
        subdomain_host: text_or(Some(v), "subdomain_host"@, Seq::empty()),
        author: text_or(Some(v), "author"@, Seq::empty()),
        master_name: text_or(Some(v), "master_name"@, "VPM Shop – Master"@),
        master_id: text_or(Some(v), "master_id"@, Seq::empty()),
        categories: completed(listed_categories(v), names),
    }
}

/// What there is without a `repos.conf`, for a shop with these categories: nothing is
/// made up but the listings of the categories.
pub open spec fn conf_without_file(names: Seq<Seq<char>>) -> ConfView {
    ConfView {
        master_host: Seq::empty(),
        subdomain_host: Seq::empty(),
        author: Seq::empty(),
        master_name: Seq::empty(),
        master_id: Seq::empty(),
        categories: names.map_values(|n: Seq<char>| default_category(n)),
    }
}

/// The text of a member, or another text.
fn text_at_or(v: &Json, key: &str, other: &str) -> (r: String)
    ensures
        r@ == text_or(Some(v@), key@, other@),
{
    match v.text_at(key) {
        Some(t) => t.to_string(),
        None => other.to_string(),
    }
}

/// The listing of a category, as `repos.conf` has it.
fn read_category(v: &Json) -> (r: RepoCategory)
    ensures
        r@ == listed_category(v@),
{
    proof {
        reveal_strlit("");
        assert(""@ =~= Seq::<char>::empty());
    }
    let name = text_at_or(v, "name", "Misc");
    let sub = text_at_or(v, "sub", "misc");
    let other = cat2("VPM – ", name.as_str());
    let repo_name = text_at_or(v, "repo_name", other.as_str());
    let repo_id = text_at_or(v, "repo_id", "");
    RepoCategory { name, sub, repo_name, repo_id }
}

/// Whether a category is among the listings.
fn knows(listed: &Vec<RepoCategory>, name: &str) -> (r: bool)
    ensures
        r == has_category(categories_view(listed@), name@),
{
    let mut i: usize = 0;
    while i < listed.len()
        invariant
            i <= listed.len(),
            forall|j: int| 0 <= j < i ==> (#[trigger] categories_view(listed@)[j]).name != name@,
        decreases listed.len() - i,
    {
        if same(listed[i].name.as_str(), name) {
            assert(categories_view(listed@)[i as int].name == name@);
            return true;
        }
        i = i + 1;
    }
    false
}

/// The listings that `repos.conf` has.
fn read_categories(v: &Json) -> (r: Vec<RepoCategory>)
    ensures
        categories_view(r@) == listed_categories(v@),
{
    let mut out: Vec<RepoCategory> = Vec::new();
    assert(categories_view(out@) =~= Seq::<CategoryView>::empty());
    match v.get("categories") {
        Some(Json::Array(items)) => {
            let ghost all = items_view(items@);
            let mut i: usize = 0;
            proof {
                lemma_items_len(items@);
                assert(all.take(0).map_values(|c: JsonView| listed_category(c)) =~= Seq::<
                    CategoryView,
                >::empty());
            }
            while i < items.len()
                invariant
                    i <= items.len(),
                    all == items_view(items@),
                    all.len() == items.len(),
                    categories_view(out@) == all.take(i as int).map_values(
                        |c: JsonView| listed_category(c),
                    ),
                decreases items.len() - i,
            {
                let ghost before = out@;
                let c = read_category(&items[i]);
                let ghost seen = c@;
                out.push(c);
                proof {
                    lemma_item(items@, i as int);
                    assert(categories_view(out@) =~= categories_view(before).push(seen));
                    assert(all.take(i + 1).map_values(|c: JsonView| listed_category(c))
                        =~= all.take(i as int).map_values(
                        |c: JsonView| listed_category(c),
                    ).push(listed_category(all[i as int])));
                }
                i = i + 1;
            }
            assert(all.take(i as int) =~= all);
        },
        _ => {},
    }
    out
}

/// Adds a listing for each category that is missing.
fn complete(listed: Vec<RepoCategory>, names: &Vec<String>) -> (r: Vec<RepoCategory>)
    ensures
        categories_view(r@) == completed(categories_view(listed@), texts(names@)),
{
    let ghost start = categories_view(listed@);
    let mut out = listed;
    let mut i: usize = 0;
    assert(texts(names@).take(0) =~= Seq::<Seq<char>>::empty());
    while i < names.len()
        invariant
            i <= names.len(),
            categories_view(out@) == completed(start, texts(names@).take(i as int)),
        decreases names.len() - i,
    {
        let ghost longer = texts(names@).take(i + 1);
        let ghost before = out@;
        assert(longer.drop_last() =~= texts(names@).take(i as int));
        assert(longer.last() == names@[i as int]@);
        if !knows(&out, names[i].as_str()) {
            let c = default_repo_category(names[i].as_str());
            let ghost seen = c@;
            out.push(c);
            assert(categories_view(out@) =~= categories_view(before).push(seen));
        }
        i = i + 1;
    }
    assert(texts(names@).take(i as int) =~= texts(names@));
    out
}

/// The listings of a shop without a `repos.conf`.
fn default_categories(names: &Vec<String>) -> (r: Vec<RepoCategory>)
    ensures
        categories_view(r@) == texts(names@).map_values(|n: Seq<char>| default_category(n)),
{
    let mut out: Vec<RepoCategory> = Vec::new();
    let mut i: usize = 0;
    while i < names.len()
        invariant
            i <= names.len(),
            out.len() == i,
            forall|j: int|
                0 <= j < i ==> (#[trigger] out@[j])@ == default_category(texts(names@)[j]),
        decreases names.len() - i,
    {
        out.push(default_repo_category(names[i].as_str()));
        i = i + 1;
    }
    assert(categories_view(out@) =~= texts(names@).map_values(
        |n: Seq<char>| default_category(n),
    ));
    out
}

/// Reads what `repos.conf` says, where it is this value, for a shop with these
/// categories.
pub fn read_conf(v: &Json, names: &Vec<String>) -> (r: RepoConf)
    ensures
        r@ == conf_of(v@, texts(names@)),
{
    proof {
        reveal_strlit("");
        assert(""@ =~= Seq::<char>::empty());
    }
    let categories = complete(read_categories(v), names);
    RepoConf {
        master_host: text_at_or(v, "master_host", ""),
        subdomain_host: text_at_or(v, "subdomain_host", ""),
        author: text_at_or(v, "author", ""),
        master_name: text_at_or(v, "master_name", "VPM Shop – Master"),
        master_id: text_at_or(v, "master_id", ""),
        categories,
    }
}

/// The refusal of a `repos.conf` at this path that cannot be read as JSON.
pub open spec fn unreadable(path: Seq<char>, m: Seq<char>) -> Fault {
    Fault::Refused("cannot parse repos.conf "@ + path + ": "@ + m)
}

fn unreadable_error(path: &str, m: String) -> (r: ShopError)
    ensures
        r@ == unreadable(path@, m@),
{
    let mut text = cat3("cannot parse repos.conf ", path, ": ");
    text.append(m.as_str());
    ShopError::Refused(text)
}

/// Reads the text of `repos.conf` at this path, if there is such a file, for a shop
/// with these categories.
pub fn load_repo_conf(path: &str, text: Option<&str>, names: &Vec<String>) -> (r: Result<
    RepoConf,
    ShopError,
>)
    ensures
        agrees(
            r,
            match text {
                Some(t) => match json_text(t@) {
                    Ok(v) => Ok(conf_of(v, texts(names@))),
                    Err(m) => Err(unreadable(path@, m)),
                },
                None => Ok(conf_without_file(texts(names@))),
            },
        ),
{
    match text {
        Some(t) => match parse(t) {
            Ok(v) => Ok(read_conf(&v, names)),
            Err(m) => Err(unreadable_error(path, m)),
        },
        None => {
            let categories = default_categories(names);
            let r = RepoConf {
                master_host: String::new(),
                subdomain_host: String::new(),
                author: String::new(),
                master_name: String::new(),
                master_id: String::new(),
                categories,
            };
            Ok(r)
        },
    }
}

/// The names of the categories that have a listing.
pub fn category_names(conf: &RepoConf) -> (r: Vec<String>)
    ensures
        texts(r@) == conf@.categories.map_values(|c: CategoryView| c.name),
{
    let mut out: Vec<String> = Vec::new();
    let mut i: usize = 0;
    while i < conf.categories.len()
        invariant
            i <= conf.categories.len(),
            out.len() == i,
            forall|j: int| 0 <= j < i ==> (#[trigger] out@[j])@ == conf.categories@[j].name@,
        decreases conf.categories.len() - i,
    {
        out.push(conf.categories[i].name.clone());
        i = i + 1;
    }
    assert(texts(out@) =~= conf@.categories.map_values(|c: CategoryView| c.name));
    out
}

// ---------------------------------------------------------------------------
// Editing
// ---------------------------------------------------------------------------

/// Another name and id for the listing of a category.
#[derive(Debug)]
pub struct RepoCategoryUpdate {
    pub name: String,
    pub repo_name: Option<String>,
    pub repo_id: Option<String>,
}

/// What an update of a listing says.
pub struct CategoryUpdateView {
    pub name: Seq<char>,
    pub repo_name: Option<Seq<char>>,
    pub repo_id: Option<Seq<char>>,
}

impl View for RepoCategoryUpdate {
    type V = CategoryUpdateView;

    open spec fn view(&self) -> CategoryUpdateView {
        CategoryUpdateView {
            name: self.name@,
            repo_name: seen_text(self.repo_name),
            repo_id: seen_text(self.repo_id),
        }
    }
}

/// What updates of listings say.
pub open spec fn updates_view(v: Seq<RepoCategoryUpdate>) -> Seq<CategoryUpdateView> {
    v.map_values(|u: RepoCategoryUpdate| u@)
}

/// Other names and ids for the listings.
#[derive(Debug)]
pub struct ReposUpdate {
    pub master_name: Option<String>,
    pub master_id: Option<String>,
    pub categories: Vec<RepoCategoryUpdate>,
}

/// What an update of the listings says.
pub struct UpdateView {
    pub master_name: Option<Seq<char>>,
    pub master_id: Option<Seq<char>>,
    pub categories: Seq<CategoryUpdateView>,
}

impl View for ReposUpdate {
    type V = UpdateView;

    open spec fn view(&self) -> UpdateView {
        UpdateView {
            master_name: seen_text(self.master_name),
            master_id: seen_text(self.master_id),
            categories: updates_view(self.categories@),
        }
    }
}

/// Whether a text is given and is not blank.
pub open spec fn is_given(text: Option<Seq<char>>) -> bool {
    text matches Some(t) && trimmed(t).len() > 0
}

/// A value with a text for a member, where one is given.
pub open spec fn with_given(v: JsonView, key: Seq<char>, text: Option<Seq<char>>) -> JsonView {
    if is_given(text) {
        v.with(key, JsonView::Text(text->0))
    } else {
        v
    }
}

/// Whether a value has this name.
pub open spec fn is_named(v: JsonView, name: Seq<char>) -> bool {
    text_of_value(v.get("name"@)) == Some(name)
}

/// The place of the first value with this name; the end where there is none.
pub open spec fn first_named(items: Seq<JsonView>, name: Seq<char>) -> nat
    decreases items.len(),
{
    if items.len() == 0 {
        0
    } else if is_named(items[0], name) {
        0
    } else {
        1 + first_named(items.drop_first(), name)
    }
}

/// The entry of a category after an update.
pub open spec fn entry_updated(v: JsonView, u: CategoryUpdateView) -> JsonView {
    with_given(with_given(v, "repo_name"@, u.repo_name), "repo_id"@, u.repo_id)
}

/// The entry of a category that had none: its listing was the default one, and what is
/// given takes the place of that.
pub open spec fn new_entry(u: CategoryUpdateView) -> JsonView {
    entry_updated(category_value(default_category(u.name)), u)
}

/// Whether an update gives something.
pub open spec fn gives_something(u: CategoryUpdateView) -> bool {
    is_given(u.repo_name) || is_given(u.repo_id)
}

/// The entries of the categories after one update, in a shop with these categories: the
/// first entry with its name has what is given. A category of the shop without an entry
/// gets one.
pub open spec fn updated(
    items: Seq<JsonView>,
    u: CategoryUpdateView,
    names: Seq<Seq<char>>,
) -> Seq<JsonView> {
    let i = first_named(items, u.name);
    if i < items.len() {
        items.update(i as int, entry_updated(items[i as int], u))
    } else if names.contains(u.name) && gives_something(u) {
        items.push(new_entry(u))
    } else {
        items
    }
}

/// The entries of the categories after updates, one after another.
pub open spec fn all_updated(
    items: Seq<JsonView>,
    us: Seq<CategoryUpdateView>,
    names: Seq<Seq<char>>,
) -> Seq<JsonView>
    decreases us.len(),
{
    if us.len() == 0 {
        items
    } else {
        updated(all_updated(items, us.drop_last(), names), us.last(), names)
    }
}

/// The value of `repos.conf` with another name and id of the master listing.
pub open spec fn with_master(v: JsonView, u: UpdateView) -> JsonView {
    with_given(with_given(v, "master_name"@, u.master_name), "master_id"@, u.master_id)
}

/// The value of a `repos.conf` that does not exist yet.
pub open spec fn empty_conf() -> JsonView {
    JsonView::Object(Map::empty().insert("categories"@, JsonView::Array(Seq::empty())))
}

/// The value of `repos.conf` takes the members that an update assigns.
pub open spec fn can_update(v: JsonView, u: UpdateView) -> bool {
    (is_given(u.master_name) || is_given(u.master_id)) ==> v.assignable()
}

/// The value of `repos.conf` after an update, in a shop with these categories.
pub open spec fn conf_updated(v: JsonView, u: UpdateView, names: Seq<Seq<char>>) -> Result<
    JsonView,
    Fault,
> {
    let m = with_master(v, u);
    match m.get("categories"@) {
        Some(JsonView::Array(items)) => Ok(
            m.with("categories"@, JsonView::Array(all_updated(items, u.categories, names))),
        ),
        _ => Err(Fault::Refused("repos.conf has no 'categories' array"@)),
    }
}

/// Assigns a text to a member, where one is given.
fn assign_given(v: &mut Json, key: &str, text: &Option<String>)
    requires
        is_given(seen_text(*text)) ==> old(v)@.assignable(),
    ensures
        final(v)@ == with_given(old(v)@, key@, seen_text(*text)),
{
    match text {
        Some(t) => {
            let bare = trim(t.as_str());
            if !empty(bare.as_str()) {
                v.set(key, Json::of_text(t.as_str()));
            }
        },
        None => {},
    }
}

proof fn lemma_first_named(items: Seq<JsonView>, name: Seq<char>, n: int)
    requires
        0 <= n <= items.len(),
        forall|j: int| 0 <= j < n ==> !is_named(#[trigger] items[j], name),
    ensures
        first_named(items, name) == n + first_named(items.skip(n), name),
    decreases n,
{
    if n == 0 {
        assert(items.skip(0) =~= items);
    } else {
        let rest = items.drop_first();
        assert(!is_named(items[0], name));
        assert forall|j: int| 0 <= j < n - 1 implies !is_named(#[trigger] rest[j], name) by {
            assert(rest[j] == items[j + 1]);
        }
        lemma_first_named(rest, name, n - 1);
        assert(rest.skip(n - 1) =~= items.skip(n));
    }
}

/// The place of the first value with this name.
fn find_named(items: &Vec<Json>, name: &str) -> (r: usize)
    ensures
        r == first_named(items_view(items@), name@),
        r <= items.len(),
{
    let ghost all = items_view(items@);
    let mut i: usize = 0;
    proof {
        lemma_items_len(items@);
    }
    while i < items.len()
        invariant
            i <= items.len(),
            all == items_view(items@),
            all.len() == items.len(),
            forall|j: int| 0 <= j < i ==> !is_named(#[trigger] all[j], name@),
        decreases items.len() - i,
    {
        proof {
            lemma_item(items@, i as int);
        }
        let named = match items[i].text_at("name") {
            Some(t) => same(t, name),
            None => false,
        };
        if named {
            proof {
                lemma_first_named(all, name@, i as int);
                assert(all.skip(i as int)[0] == all[i as int]);
            }
            return i;
        }
        i = i + 1;
    }
    proof {
        lemma_first_named(all, name@, i as int);
    }
    i
}

proof fn lemma_items_update(items: Seq<Json>, i: int, v: Json)
    requires
        0 <= i < items.len(),
    ensures
        items_view(items.update(i, v)) == items_view(items).update(i, v@),
{
    let after = items.update(i, v);
    lemma_items_len(items);
    lemma_items_len(after);
    assert forall|j: int| 0 <= j < items.len() implies items_view(after)[j] == items_view(
        items,
    ).update(i, v@)[j] by {
        lemma_item(items, j);
        lemma_item(after, j);
    }
    assert(items_view(after) =~= items_view(items).update(i, v@));
}

/// Applies one update to the entries of the categories.
fn apply(items: &mut Vec<Json>, u: &RepoCategoryUpdate, names: &Vec<String>)
    ensures
        items_view(final(items)@) == updated(items_view(old(items)@), u@, texts(names@)),
{
    let i = find_named(items, u.name.as_str());
    proof {
        lemma_items_len(items@);
    }
    if i < items.len() {
        let ghost before = items@;
        proof {
            lemma_item(before, i as int);
            lemma_named(items_view(before), u.name@);
        }
        let mut e = items[i].clone();
        assign_given(&mut e, "repo_name", &u.repo_name);
        assign_given(&mut e, "repo_id", &u.repo_id);
        proof {
            lemma_items_update(before, i as int, e);
        }
        items.set(i, e);
    } else if contains_text(names, u.name.as_str()) && (given(&u.repo_name) || given(&u.repo_id)) {
        let ghost before = items@;
        let c = default_repo_category(u.name.as_str());
        let mut e = category_json(&c);
        assign_given(&mut e, "repo_name", &u.repo_name);
        assign_given(&mut e, "repo_id", &u.repo_id);
        items.push(e);
        assert(items@.drop_last() =~= before);
    }
}

/// The first value with a name has the name.
proof fn lemma_named(items: Seq<JsonView>, name: Seq<char>)
    requires
        first_named(items, name) < items.len(),
    ensures
        is_named(items[first_named(items, name) as int], name),
    decreases items.len(),
{
    if !is_named(items[0], name) {
        lemma_named(items.drop_first(), name);
    }
}

/// Gives the listings other names and ids, in a shop with these categories. Blank ones
/// are passed over, and so are those of a category that neither has an entry nor is one
/// of the shop; everything else stays as it is.
pub fn update_conf(v: Json, u: &ReposUpdate, names: &Vec<String>) -> (r: Result<Json, ShopError>)
    requires
        can_update(v@, u@),
    ensures
        agrees(r, conf_updated(v@, u@, texts(names@))),
{
    let mut v = v;
    assign_given(&mut v, "master_name", &u.master_name);
    assign_given(&mut v, "master_id", &u.master_id);
    let ghost model = v@;
    match v.take("categories") {
        Some(Json::Array(list)) => {
            let ghost start = items_view(list@);
            let mut items = list;
            let mut i: usize = 0;
            assert(updates_view(u.categories@).take(0) =~= Seq::<CategoryUpdateView>::empty());
            while i < u.categories.len()
                invariant
                    i <= u.categories.len(),
                    items_view(items@) == all_updated(
                        start,
                        updates_view(u.categories@).take(i as int),
                        texts(names@),
                    ),
                decreases u.categories.len() - i,
            {
                let ghost longer = updates_view(u.categories@).take(i + 1);
                assert(longer.drop_last() =~= updates_view(u.categories@).take(i as int));
                assert(longer.last() == u.categories@[i as int]@);
                apply(&mut items, &u.categories[i], names);
                i = i + 1;
            }
            assert(updates_view(u.categories@).take(i as int) =~= updates_view(u.categories@));
            let ghost done = JsonView::Array(items_view(items@));
            v.set("categories", Json::Array(items));
            proof {
                let m = model->Object_0;
                assert(m.remove("categories"@).insert("categories"@, done) =~= m.insert(
                    "categories"@,
                    done,
                ));
            }
            Ok(v)
        },
        _ => Err(refused("repos.conf has no 'categories' array")),
    }
}

/// The failure on a `repos.conf` that is no object.
pub open spec fn odd_conf() -> Fault {
    Fault::Broken("repos.conf is not an object"@)
}

/// Whether one of the members of the master listing is given.
fn gives_master(u: &ReposUpdate) -> (r: bool)
    ensures
        r == (is_given(u@.master_name) || is_given(u@.master_id)),
{
    given(&u.master_name) || given(&u.master_id)
}

/// Whether a text is given and is not blank.
fn given(text: &Option<String>) -> (r: bool)
    ensures
        r == is_given(seen_text(*text)),
{
    match text {
        Some(t) => {
            let bare = trim(t.as_str());
            !empty(bare.as_str())
        },
        None => false,
    }
}

/// What an update of the text of `repos.conf` at this path comes to, if there is such
/// a file.
pub open spec fn stored_update(
    path: Seq<char>,
    text: Option<Seq<char>>,
    u: UpdateView,
    names: Seq<Seq<char>>,
) -> Result<JsonView, Fault> {
    match text {
        Some(t) => match json_text(t) {
            Ok(v) => if can_update(v, u) {
                conf_updated(v, u, names)
            } else {
                Err(odd_conf())
            },
            Err(m) => Err(unreadable(path, m)),
        },
        None => conf_updated(empty_conf(), u, names),
    }
}

/// Gives the listings other names and ids in the text of `repos.conf` at this path, if
/// there is such a file, in a shop with these categories.
pub fn run_repos_save(
    path: &str,
    text: Option<&str>,
    u: &ReposUpdate,
    names: &Vec<String>,
) -> (r: Result<Json, ShopError>)
    ensures
        agrees(
            r,
            stored_update(
                path@,
                match text {
                    Some(t) => Some(t@),
                    None => None,
                },
                u@,
                texts(names@),
            ),
        ),
{
    let v = match text {
        Some(t) => match parse(t) {
            Ok(v) => v,
            Err(m) => {
                return Err(unreadable_error(path, m));
            },
        },
        None => {
            let none: Vec<Json> = Vec::new();
            let mut v = Json::object();
            v.set("categories", Json::Array(none));
            assert(items_view(none@) =~= Seq::<JsonView>::empty());
            v
        },
    };
    if gives_master(u) && !v.is_assignable() {
        return Err(broken("repos.conf is not an object"));
    }
    update_conf(v, u, names)
}

/// The text of the report on an update of the listings.
pub open spec fn saved_text(regen: Seq<char>) -> Seq<char> {
    "Saved repos.conf and regenerated category repos.\n"@ + regen
}

/// The report on an update of the listings.
pub fn saved_note(regen: &str) -> (r: String)
    ensures
        r@ == saved_text(regen@),
{
    cat2("Saved repos.conf and regenerated category repos.\n", regen)
}

// ---------------------------------------------------------------------------
// Laws
// ---------------------------------------------------------------------------

/// The keys of `repos.conf` are told apart.
proof fn lemma_keys()
    ensures
        "name"@.len() == 4,
        "sub"@.len() == 3,
        "repo_name"@.len() == 9,
        "repo_id"@.len() == 7,
        "master_host"@.len() == 11,
        "master_host"@[7] == 'h',
        "subdomain_host"@.len() == 14,
        "author"@.len() == 6,
        "master_name"@.len() == 11,
        "master_name"@[7] == 'n',
        "master_id"@.len() == 9,
        "categories"@.len() == 10,
{
    reveal_strlit("name");
    reveal_strlit("sub");
    reveal_strlit("repo_name");
    reveal_strlit("repo_id");
    reveal_strlit("master_host");
    reveal_strlit("subdomain_host");
    reveal_strlit("author");
    reveal_strlit("master_name");
    reveal_strlit("master_id");
    reveal_strlit("categories");
}

/// Every category of the shop has a listing, and the listings of `repos.conf` come
/// first, as they are.
pub proof fn law_every_category_is_listed(listed: Seq<CategoryView>, names: Seq<Seq<char>>)
    ensures
        listed.is_prefix_of(completed(listed, names)),
        forall|i: int|
            0 <= i < names.len() ==> has_category(
                completed(listed, names),
                #[trigger] names[i],
            ),
    decreases names.len(),
{
    if names.len() > 0 {
        let head = names.drop_last();
        let done = completed(listed, head);
        let all = completed(listed, names);
        law_every_category_is_listed(listed, head);
        assert(all == done || all == done.push(default_category(names.last())));
        assert forall|i: int| 0 <= i < names.len() implies has_category(
            all,
            #[trigger] names[i],
        ) by {
            if i < head.len() {
                assert(has_category(done, head[i]));
                let k = choose|k: int| 0 <= k < done.len() && (#[trigger] done[k]).name == head[i];
                assert(all[k].name == names[i]);
            } else if all != done {
                assert(all[done.len() as int].name == names[i]);
            }
        }
        assert(listed =~= all.subrange(0, listed.len() as int));
    }
}

/// An update of a listing changes the first entry with its name alone, and that to
/// the name and the id that are given; the names of the categories stay.
pub proof fn law_update_of_a_listing(
    items: Seq<JsonView>,
    u: CategoryUpdateView,
    names: Seq<Seq<char>>,
    i: int,
)
    requires
        0 <= i < items.len(),
    ensures
        updated(items, u, names).len() >= items.len(),
        ({
            let before = listed_category(items[i]);
            let after = listed_category(updated(items, u, names)[i]);
            &&& after.name == before.name
            &&& after.sub == before.sub
            &&& if i == first_named(items, u.name) {
                &&& after.repo_name == (if is_given(u.repo_name) {
                    u.repo_name->0
                } else {
                    before.repo_name
                })
                &&& after.repo_id == (if is_given(u.repo_id) {
                    u.repo_id->0
                } else {
                    before.repo_id
                })
            } else {
                updated(items, u, names)[i] == items[i]
            }
        }),
{
    lemma_keys();
    if i == first_named(items, u.name) {
        lemma_named(items, u.name);
        assert(items[i] is Object);
    }
}

/// The entry that a category of the shop gets is its default listing, with the name and
/// the id that are given.
pub proof fn law_new_listing(u: CategoryUpdateView)
    ensures
        is_named(new_entry(u), u.name),
        listed_category(new_entry(u)) == (CategoryView {
            name: u.name,
            sub: default_category(u.name).sub,
            repo_name: if is_given(u.repo_name) {
                u.repo_name->0
            } else {
                default_category(u.name).repo_name
            },
            repo_id: if is_given(u.repo_id) {
                u.repo_id->0
            } else {
                default_category(u.name).repo_id
            },
        }),
{
    lemma_keys();
}

/// Updates of listings leave the entries that there were in their places, with the
/// names of their categories.
pub proof fn law_updates_keep_the_categories(
    items: Seq<JsonView>,
    us: Seq<CategoryUpdateView>,
    names: Seq<Seq<char>>,
)
    ensures
        all_updated(items, us, names).len() >= items.len(),
        forall|i: int|
            0 <= i < items.len() ==> listed_category(
                #[trigger] all_updated(items, us, names)[i],
            ).name == listed_category(items[i]).name,
        forall|i: int|
            0 <= i < items.len() ==> listed_category(
                #[trigger] all_updated(items, us, names)[i],
            ).sub == listed_category(items[i]).sub,
    decreases us.len(),
{
    if us.len() > 0 {
        let done = all_updated(items, us.drop_last(), names);
        law_updates_keep_the_categories(items, us.drop_last(), names);
        assert forall|i: int| 0 <= i < items.len() implies listed_category(
            #[trigger] all_updated(items, us, names)[i],
        ).name == listed_category(items[i]).name && listed_category(
            all_updated(items, us, names)[i],
        ).sub == listed_category(items[i]).sub by {
            law_update_of_a_listing(done, us.last(), names, i);
            assert(listed_category(done[i]).name == listed_category(items[i]).name);
        }
        if items.len() > 0 {
            law_update_of_a_listing(done, us.last(), names, 0);
        }
    }
}

/// No value before the first one with a name has the name.
proof fn lemma_not_named_before(items: Seq<JsonView>, name: Seq<char>, j: int)
    requires
        0 <= j < items.len(),
        j < first_named(items, name),
    ensures
        !is_named(items[j], name),
    decreases items.len(),
{
    if j > 0 {
        lemma_not_named_before(items.drop_first(), name, j - 1);
    }
}

/// The place of the first value with a name is where the name is, and not before.
proof fn lemma_first_named_at(items: Seq<JsonView>, name: Seq<char>, i: int)
    requires
        0 <= i < items.len(),
        is_named(items[i], name),
        forall|j: int| 0 <= j < i ==> !is_named(#[trigger] items[j], name),
    ensures
        first_named(items, name) == i,
{
    lemma_first_named(items, name, i);
    assert(items.skip(i)[0] == items[i]);
}

/// The fields that an update gives are those of a listing.
pub open spec fn shows_update(c: CategoryView, u: CategoryUpdateView) -> bool {
    &&& c.name == u.name
    &&& is_given(u.repo_name) ==> c.repo_name == u.repo_name->0
    &&& is_given(u.repo_id) ==> c.repo_id == u.repo_id->0
}

/// Whether a category has an entry.
pub open spec fn has_entry(items: Seq<JsonView>, name: Seq<char>) -> bool {
    first_named(items, name) < items.len()
}

/// After an update the first entry with its name shows it.
proof fn lemma_update_shown(items: Seq<JsonView>, u: CategoryUpdateView, names: Seq<Seq<char>>)
    requires
        has_entry(items, u.name) || (names.contains(u.name) && gives_something(u)),
    ensures
        ({
            let after = updated(items, u, names);
            let k = first_named(after, u.name) as int;
            k < after.len() && shows_update(listed_category(after[k]), u)
        }),
{
    let after = updated(items, u, names);
    let i = first_named(items, u.name) as int;
    lemma_keys();
    lemma_first_named_bound(items, u.name);
    if i < items.len() {
        lemma_named(items, u.name);
        law_update_of_a_listing(items, u, names, i);
        assert(is_named(after[i], u.name));
    } else {
        law_new_listing(u);
    }
    assert forall|j: int| 0 <= j < i implies !is_named(#[trigger] after[j], u.name) by {
        lemma_not_named_before(items, u.name, j);
        assert(after[j] == items[j]);
    }
    lemma_first_named_at(after, u.name, i);
}

/// The first value with a name is at the end at the latest.
proof fn lemma_first_named_bound(items: Seq<JsonView>, name: Seq<char>)
    ensures
        first_named(items, name) <= items.len(),
    decreases items.len(),
{
    if items.len() > 0 && !is_named(items[0], name) {
        lemma_first_named_bound(items.drop_first(), name);
    }
}

/// An update leaves the first entry with another name alone.
proof fn lemma_others_stay(
    items: Seq<JsonView>,
    u: CategoryUpdateView,
    names: Seq<Seq<char>>,
    name: Seq<char>,
)
    requires
        name != u.name,
        first_named(items, name) < items.len(),
    ensures
        first_named(updated(items, u, names), name) == first_named(items, name),
        updated(items, u, names)[first_named(items, name) as int] == items[first_named(
            items,
            name,
        ) as int],
{
    let after = updated(items, u, names);
    let i = first_named(items, name) as int;
    let k = first_named(items, u.name) as int;
    lemma_keys();
    lemma_named(items, name);
    if k < items.len() {
        lemma_named(items, u.name);
    }
    assert(after[i] == items[i]);
    assert forall|j: int| 0 <= j < i implies !is_named(#[trigger] after[j], name) by {
        lemma_not_named_before(items, name, j);
        if j == k {
            assert(is_named(after[j], u.name));
        }
    }
    lemma_first_named_at(after, name, i);
}

/// A category that has an entry keeps one.
proof fn lemma_keeps_entry(
    items: Seq<JsonView>,
    us: Seq<CategoryUpdateView>,
    names: Seq<Seq<char>>,
    name: Seq<char>,
)
    requires
        has_entry(items, name),
    ensures
        has_entry(all_updated(items, us, names), name),
    decreases us.len(),
{
    if us.len() > 0 {
        let before = all_updated(items, us.drop_last(), names);
        lemma_keeps_entry(items, us.drop_last(), names, name);
        if us.last().name == name {
            lemma_update_shown(before, us.last(), names);
        } else {
            lemma_others_stay(before, us.last(), names, name);
        }
    }
}

/// After updates the first entry with the name of one of them shows it, unless a later
/// one has the name too.
proof fn lemma_updates_shown(
    items: Seq<JsonView>,
    us: Seq<CategoryUpdateView>,
    names: Seq<Seq<char>>,
    i: int,
)
    requires
        0 <= i < us.len(),
        has_entry(items, us[i].name) || (names.contains(us[i].name) && gives_something(us[i])),
        forall|j: int| i < j < us.len() ==> (#[trigger] us[j]).name != us[i].name,
    ensures
        ({
            let after = all_updated(items, us, names);
            let k = first_named(after, us[i].name) as int;
            k < after.len() && shows_update(listed_category(after[k]), us[i])
        }),
    decreases us.len(),
{
    let head = us.drop_last();
    let before = all_updated(items, head, names);
    if i == us.len() - 1 {
        if has_entry(items, us[i].name) {
            lemma_keeps_entry(items, head, names, us[i].name);
        }
        lemma_update_shown(before, us.last(), names);
    } else {
        assert(head[i] == us[i]);
        assert forall|j: int| i < j < head.len() implies (#[trigger] head[j]).name
            != head[i].name by {
            assert(head[j] == us[j]);
        }
        lemma_updates_shown(items, head, names, i);
        assert(us[us.len() - 1].name != us[i].name);
        lemma_others_stay(before, us.last(), names, us[i].name);
        law_update_of_a_listing(
            before,
            us.last(),
            names,
            first_named(before, us[i].name) as int,
        );
    }
}

/// Whether one of the listings shows an update.
pub open spec fn is_shown(shown: Seq<CategoryView>, u: CategoryUpdateView) -> bool {
    exists|k: int| 0 <= k < shown.len() && shows_update(#[trigger] shown[k], u)
}

/// What was saved is what is shown: an update of the listing of a category that is one
/// of the shop, or has an entry, is among the listings that are read afterwards, with
/// the name and the id that it gives. Of two updates of one category the later counts.
pub proof fn law_saved_listing_is_shown(
    v: JsonView,
    u: UpdateView,
    names: Seq<Seq<char>>,
    i: int,
)
    requires
        conf_updated(v, u, names) is Ok,
        0 <= i < u.categories.len(),
        names.contains(u.categories[i].name) || has_entry(
            with_master(v, u).get("categories"@)->0->Array_0,
            u.categories[i].name,
        ),
        forall|j: int|
            i < j < u.categories.len() ==> (#[trigger] u.categories[j]).name
                != u.categories[i].name,
    ensures
        is_shown(conf_of(conf_updated(v, u, names)->Ok_0, names).categories, u.categories[i]),
{
    let after = conf_updated(v, u, names)->Ok_0;
    let items = with_master(v, u).get("categories"@)->0->Array_0;
    let now = all_updated(items, u.categories, names);
    let c = u.categories[i];
    let listed = listed_categories(after);
    let shown = completed(listed, names);
    law_every_category_is_listed(listed, names);
    if has_entry(items, c.name) || gives_something(c) {
        lemma_updates_shown(items, u.categories, names, i);
        let k = first_named(now, c.name) as int;
        assert(listed[k] == listed_category(now[k]));
        assert(shown[k] == shown.subrange(0, listed.len() as int)[k]);
        assert(shows_update(shown[k], c));
    } else {
        assert(has_category(shown, c.name));
        let k = choose|k: int| 0 <= k < shown.len() && (#[trigger] shown[k]).name == c.name;
        assert(shows_update(shown[k], c));
    }
}

/// What was saved is what is read: the name and the id of the master listing are the
/// given ones, or stay; and nothing changes but them and the entries of the
/// categories.
pub proof fn law_saved_conf_is_read(v: JsonView, u: UpdateView, names: Seq<Seq<char>>)
    requires
        can_update(v, u),
        conf_updated(v, u, names) is Ok,
    ensures
        ({
            let after = conf_updated(v, u, names)->Ok_0;
            let was = conf_of(v, names);
            let now = conf_of(after, names);
            &&& now.master_name == (if is_given(u.master_name) {
                u.master_name->0
            } else {
                was.master_name
            })
            &&& now.master_id == (if is_given(u.master_id) {
                u.master_id->0
            } else {
                was.master_id
            })
            &&& now.master_host == was.master_host
            &&& now.subdomain_host == was.subdomain_host
            &&& now.author == was.author
            &&& forall|key: Seq<char>|
                key != "master_name"@ && key != "master_id"@ && key != "categories"@
                    ==> #[trigger] after.get(key) == v.get(key)
            &&& after.get("categories"@) == Some(
                JsonView::Array(
                    all_updated(v.get("categories"@)->0->Array_0, u.categories, names),
                ),
            )
        }),
{
    lemma_keys();
    let m = with_master(v, u);
    assert(v is Object);
    assert(m.get("categories"@) == v.get("categories"@));
}

/// The entries of categories can be stored after an update where they could before.
proof fn lemma_updated_can_be_stored(
    items: Seq<JsonView>,
    us: Seq<CategoryUpdateView>,
    names: Seq<Seq<char>>,
    depth: nat,
)
    requires
        depth > 1,
        storable(JsonView::Array(items), depth),
    ensures
        storable(JsonView::Array(all_updated(items, us, names)), depth),
    decreases us.len(),
{
    if us.len() > 0 {
        let before = all_updated(items, us.drop_last(), names);
        let after = all_updated(items, us, names);
        let u = us.last();
        let d = (depth - 1) as nat;
        lemma_updated_can_be_stored(items, us.drop_last(), names, depth);
        lemma_storable_items(before, depth);
        lemma_storable_items(after, depth);
        let i = first_named(before, u.name) as int;
        if i < before.len() {
            lemma_named(before, u.name);
            lemma_entry_can_be_stored(before[i], u, d);
        } else {
            let fresh = category_value(default_category(u.name));
            lemma_keys();
            lemma_keys_are_plain();
            assert(storable(fresh, d)) by {
                let m = fresh->Object_0;
                assert forall|k: Seq<char>| #[trigger] m.contains_key(k) implies storable(
                    m[k],
                    (d - 1) as nat,
                ) by {
                    assert(m[k] is Text);
                }
            }
            lemma_entry_can_be_stored(fresh, u, d);
        }
    }
}

/// The keys that an update assigns are none of raw text.
proof fn lemma_keys_are_plain()
    ensures
        "name"@ != raw_key(),
        "sub"@ != raw_key(),
        "repo_name"@ != raw_key(),
        "repo_id"@ != raw_key(),
        "master_name"@ != raw_key(),
        "master_id"@ != raw_key(),
        "categories"@ != raw_key(),
{
    lemma_keys();
    reveal_strlit("$serde_json::private::RawValue");
    assert(raw_key().len() == 30);
}

/// The entry of a category can be stored after an update where it could before.
proof fn lemma_entry_can_be_stored(v: JsonView, u: CategoryUpdateView, depth: nat)
    requires
        depth > 0,
        v is Object,
        storable(v, depth),
    ensures
        storable(entry_updated(v, u), depth),
{
    let one = with_given(v, "repo_name"@, u.repo_name);
    lemma_keys_are_plain();
    if is_given(u.repo_name) {
        lemma_storable_with(v, "repo_name"@, JsonView::Text(u.repo_name->0), depth);
    }
    if is_given(u.repo_id) {
        lemma_storable_with(one, "repo_id"@, JsonView::Text(u.repo_id->0), depth);
    }
}

/// What was saved is what is read, by way of the stored text: a `repos.conf` that can be
/// stored still can after an update, and the text that it is stored as is read as the
/// updated one.
pub proof fn law_saved_conf_is_read_back(
    v: JsonView,
    u: UpdateView,
    names: Seq<Seq<char>>,
    text: Seq<char>,
)
    requires
        can_update(v, u),
        storable(v, depth_limit()),
        conf_updated(v, u, names) is Ok,
        stored_as(text, conf_updated(v, u, names)->Ok_0),
    ensures
        storable(conf_updated(v, u, names)->Ok_0, depth_limit()),
        reads_as(text, conf_updated(v, u, names)->Ok_0),
{
    let m = with_master(v, u);
    let items = m.get("categories"@)->0->Array_0;
    lemma_keys();
    lemma_keys_are_plain();
    assert(v is Object);
    let one = with_given(v, "master_name"@, u.master_name);
    if is_given(u.master_name) {
        lemma_storable_with(v, "master_name"@, JsonView::Text(u.master_name->0), depth_limit());
    }
    if is_given(u.master_id) {
        lemma_storable_with(one, "master_id"@, JsonView::Text(u.master_id->0), depth_limit());
    }
    assert(storable(m, depth_limit()));
    lemma_storable_member(m, "categories"@, depth_limit());
    lemma_updated_can_be_stored(items, u.categories, names, (depth_limit() - 1) as nat);
    let list = JsonView::Array(all_updated(items, u.categories, names));
    lemma_storable_with(m, "categories"@, list, depth_limit());
}

/// Whether a text is that of a member, or another one where the member is no text.
pub open spec fn is_text_of(text: Seq<char>, v: JsonView, key: Seq<char>, other: Seq<char>) -> bool {
    match v.get(key) {
        Some(JsonView::Text(t)) => text == t,
        _ => text == other,
    }
}

/// What `repos.conf` says is read member by member. The listings come first as they
/// stand in it, and each category of the shop that it does not list has the listing that
/// its name gives.
pub proof fn law_conf_is_read_as_it_stands(v: JsonView, names: Seq<Seq<char>>, i: int)
    ensures
        ({
            let c = conf_of(v, names);
            &&& is_text_of(c.master_host, v, "master_host"@, Seq::empty())
            &&& is_text_of(c.subdomain_host, v, "subdomain_host"@, Seq::empty())
            &&& is_text_of(c.author, v, "author"@, Seq::empty())
            &&& is_text_of(c.master_name, v, "master_name"@, "VPM Shop – Master"@)
            &&& is_text_of(c.master_id, v, "master_id"@, Seq::empty())
            &&& v.get("categories"@) matches Some(JsonView::Array(items)) ==> items.len()
                <= c.categories.len() && (0 <= i < items.len() ==> {
                &&& is_text_of(c.categories[i].name, items[i], "name"@, "Misc"@)
                &&& is_text_of(c.categories[i].sub, items[i], "sub"@, "misc"@)
                &&& is_text_of(
                    c.categories[i].repo_name,
                    items[i],
                    "repo_name"@,
                    "VPM – "@ + c.categories[i].name,
                )
                &&& is_text_of(c.categories[i].repo_id, items[i], "repo_id"@, Seq::empty())
            })
            &&& !(v.get("categories"@) matches Some(JsonView::Array(_))) && 0 <= i
                < c.categories.len() ==> is_made_of_name(c.categories[i], names)
            &&& v.get("categories"@) matches Some(JsonView::Array(items)) ==> (items.len() <= i
                < c.categories.len() ==> is_made_of_name(c.categories[i], names))
        }),
{
    let c = conf_of(v, names);
    let listed = listed_categories(v);
    law_every_category_is_listed(listed, names);
    lemma_completed(listed, names);
    if 0 <= i < listed.len() {
        assert(c.categories[i] == c.categories.subrange(0, listed.len() as int)[i]);
    }
}

/// Whether a listing is the one that the name of a category of the shop gives.
pub open spec fn is_made_of_name(c: CategoryView, names: Seq<Seq<char>>) -> bool {
    &&& names.contains(c.name)
    &&& c.sub == lowercase(c.name)
    &&& c.repo_name == "VPM – "@ + c.name
    &&& c.repo_id == "com.vpm."@ + lowercase(c.name)
}

/// What is added to the listings is made of the names of categories.
proof fn lemma_completed(listed: Seq<CategoryView>, names: Seq<Seq<char>>)
    ensures
        forall|i: int|
            listed.len() <= i < completed(listed, names).len() ==> is_made_of_name(
                #[trigger] completed(listed, names)[i],
                names,
            ),
        completed(listed, names).len() >= listed.len(),
    decreases names.len(),
{
    if names.len() > 0 {
        let head = names.drop_last();
        let done = completed(listed, head);
        let all = completed(listed, names);
        lemma_completed(listed, head);
        assert forall|i: int| listed.len() <= i < all.len() implies is_made_of_name(
            #[trigger] all[i],
            names,
        ) by {
            if i < done.len() {
                assert(is_made_of_name(done[i], head));
                let k = choose|k: int| 0 <= k < head.len() && head[k] == done[i].name;
                assert(names[k] == done[i].name);
            } else {
                assert(names[names.len() - 1] == all[i].name);
            }
        }
    }
}

/// Without a `repos.conf` nothing is made up but the listings of the categories, one for
/// each, as their names give them.
pub proof fn law_nothing_is_made_up_without_a_conf(names: Seq<Seq<char>>, i: int)
    ensures
        ({
            let c = conf_without_file(names);
            &&& c.master_host.len() == 0
            &&& c.subdomain_host.len() == 0
            &&& c.author.len() == 0
            &&& c.master_name.len() == 0
            &&& c.master_id.len() == 0
            &&& c.categories.len() == names.len()
            &&& 0 <= i < names.len() ==> c.categories[i].name == names[i] && is_made_of_name(
                c.categories[i],
                names,
            )
        }),
{
    if 0 <= i < names.len() {
        assert(names.contains(names[i]));
    }
}

/// An update is refused only where `repos.conf` cannot be read or has no list of
/// categories; a shop without the file starts one.
pub proof fn law_updates_are_refused_for_a_reason(
    path: Seq<char>,
    text: Option<Seq<char>>,
    u: UpdateView,
    names: Seq<Seq<char>>,
)
    ensures
        text is None ==> stored_update(path, text, u, names) is Ok,
        text matches Some(t) ==> (stored_update(path, text, u, names) is Ok <==> (json_text(
            t,
        ) matches Ok(v) && v.get("categories"@) matches Some(JsonView::Array(_)))),
{
    lemma_keys();
    match text {
        Some(t) => {
            if json_text(t) is Ok {
                let v = json_text(t)->Ok_0;
                let m = with_master(v, u);
                if can_update(v, u) {
                    assert(m.get("categories"@) == v.get("categories"@));
                }
            }
        },
        None => {
            let m = with_master(empty_conf(), u);
            assert(m.get("categories"@) == Some(JsonView::Array(Seq::empty())));
        },
    }
}

} // verus!
