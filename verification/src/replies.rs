//! The answers of the shop.

use vstd::prelude::*;
use vstd::string::*;

use crate::codec::{json_bytes, json_text, parse, parse_bytes};
use crate::error::{Fault, ShopError, agrees};
use crate::json::{Json, JsonView, items_view, member};
use crate::manifest::{text_or, value_or};
use crate::repos::{CategoryView, ConfView, RepoCategory, RepoConf};
use crate::text::{
    cat3, cat5, decimal, decimal_of, from_utf8_lossy, starts_with, texts, trim, trimmed, utf8_lossy,
};
use crate::urls::{index_address, index_url};


verus! {

/// An answer: the status code of the response, and its body.
#[derive(Debug)]
pub struct Reply {
    pub status: u16,
    pub body: Json,
}

/// What an answer says.
pub struct ReplyView {
    pub status: u16,
    pub body: JsonView,
}

impl View for Reply {
    type V = ReplyView;

    open spec fn view(&self) -> ReplyView {
        ReplyView { status: self.status, body: self.body@ }
    }
}

// ---------------------------------------------------------------------------
// The page after an upload
// ---------------------------------------------------------------------------

/// The page that answers an upload.
pub open spec fn result_page(ok: bool, body: Seq<char>) -> Seq<char> {
    "<!doctype html><html><head><meta charset=utf-8><title>Upload result</title></head><body style=\"font-family:system-ui,sans-serif;max-width:900px;margin:2rem auto;padding:0 1rem\"><h2 style=\"color:"@
        + (if ok {
        "#1a7f37"@
    } else {
        "#b35900"@
    }) + "\">"@ + (if ok {
        "✅ Upload successful"@
    } else {
        "❌ Upload failed"@
    }) + "</h2>"@ + body + "<hr><p><a href=\"/\">← back</a></p></body></html>"@
}

/// The status code and the page that answer an upload.
pub fn html_result(ok: bool, body: &str) -> (r: (u16, String))
    ensures
        r.0 == (if ok {
            200u16
        } else {
            400u16
        }),
        r.1@ == result_page(ok, body@),
{
    let color = if ok {
        "#1a7f37"
    } else {
        "#b35900"
    };
    let title = if ok {
        "✅ Upload successful"
    } else {
        "❌ Upload failed"
    };
    let mut out = cat5(
        "<!doctype html><html><head><meta charset=utf-8><title>Upload result</title></head><body style=\"font-family:system-ui,sans-serif;max-width:900px;margin:2rem auto;padding:0 1rem\"><h2 style=\"color:",
        color,
        "\">",
        title,
        "</h2>",
    );
    out.append(body);
    out.append("<hr><p><a href=\"/\">← back</a></p></body></html>");
    let status: u16 = if ok {
        200
    } else {
        400
    };
    (status, out)
}

// ---------------------------------------------------------------------------
// Plain answers
// ---------------------------------------------------------------------------

/// A value as an answer.
pub fn json_response(body: Json) -> (r: Reply)
    ensures
        r@ == (ReplyView { status: 200, body: body@ }),
{
    Reply { status: 200, body }
}

/// An object with a word on success and one text.
pub open spec fn verdict(ok: bool, key: Seq<char>, text: Seq<char>) -> JsonView {
    JsonView::Object(
        Map::<Seq<char>, JsonView>::empty().insert("ok"@, JsonView::Bool(ok)).insert(
            key,
            JsonView::Text(text),
        ),
    )
}

/// An object with a word on success and one text.
fn verdict_value(ok: bool, key: &str, text: &str) -> (r: Json)
    ensures
        r@ == verdict(ok, key@, text@),
{
    let mut v = Json::object();
    v.set("ok", Json::Bool(ok));
    v.set(key, Json::of_text(text));
    v
}

/// The answer to a request that was done.
pub fn message_response(message: &str) -> (r: Reply)
    ensures
        r@ == (ReplyView { status: 200, body: verdict(true, "message"@, message@) }),
{
    json_response(verdict_value(true, "message", message))
}

/// The answer to a request that failed.
pub fn err_response(message: &str) -> (r: Reply)
    ensures
        r@ == (ReplyView { status: 404, body: verdict(false, "error"@, message@) }),
{
    Reply { status: 404, body: verdict_value(false, "error", message) }
}

/// The answer to a request without the password that it needs.
pub open spec fn unauthorized() -> ReplyView {
    ReplyView { status: 401, body: verdict(false, "error"@, "authentication required"@) }
}

/// The answer to a request without the password that it needs.
pub fn unauthorized_response() -> (r: Reply)
    ensures
        r@ == unauthorized(),
{
    Reply { status: 401, body: verdict_value(false, "error", "authentication required") }
}

/// The categories of the shop, as an answer.
pub fn api_categories(categories: &Vec<String>) -> (r: Reply)
    ensures
        r@ == (ReplyView {
            status: 200,
            body: JsonView::Array(
                texts(categories@).map_values(|c: Seq<char>| JsonView::Text(c)),
            ),
        }),
{
    let mut items: Vec<Json> = Vec::new();
    let ghost all = texts(categories@).map_values(|c: Seq<char>| JsonView::Text(c));
    let mut i: usize = 0;
    while i < categories.len()
        invariant
            i <= categories.len(),
            all == texts(categories@).map_values(|c: Seq<char>| JsonView::Text(c)),
            items_view(items@) == all.take(i as int),
        decreases categories.len() - i,
    {
        let ghost before = items@;
        items.push(Json::of_text(categories[i].as_str()));
        assert(items@.drop_last() =~= before);
        assert(all.take(i + 1) =~= all.take(i as int).push(all[i as int]));
        i = i + 1;
    }
    assert(all.take(i as int) =~= all);
    json_response(Json::Array(items))
}

/// The addresses of the shop, as an answer.
pub fn api_config(host: &str, vault: &str) -> (r: Reply)
    ensures
        r@ == (ReplyView {
            status: 200,
            body: JsonView::Object(
                Map::<Seq<char>, JsonView>::empty().insert(
                    "master_url"@,
                    JsonView::Text(host@),
                ).insert("vault_url"@, JsonView::Text(vault@)).insert(
                    "master_repo_url"@,
                    JsonView::Text(index_address(host@)),
                ),
            ),
        }),
{
    let url = index_url(host);
    let mut v = Json::object();
    v.set("master_url", Json::of_text(host));
    v.set("vault_url", Json::of_text(vault));
    v.set("master_repo_url", Json::Text(url));
    json_response(v)
}

/// The listing of a category, as a value.
pub open spec fn category_value(c: CategoryView) -> JsonView {
    JsonView::Object(
        Map::<Seq<char>, JsonView>::empty().insert("name"@, JsonView::Text(c.name)).insert(
            "sub"@,
            JsonView::Text(c.sub),
        ).insert("repo_name"@, JsonView::Text(c.repo_name)).insert(
            "repo_id"@,
            JsonView::Text(c.repo_id),
        ),
    )
}

/// The listing of a category, as a value.
pub(crate) fn category_json(c: &RepoCategory) -> (r: Json)
    ensures
        r@ == category_value(c@),
{
    let mut v = Json::object();
    v.set("name", Json::of_text(c.name.as_str()));
    v.set("sub", Json::of_text(c.sub.as_str()));
    v.set("repo_name", Json::of_text(c.repo_name.as_str()));
    v.set("repo_id", Json::of_text(c.repo_id.as_str()));
    v
}

/// The names and ids of the listings, as a value.
pub open spec fn conf_value(c: ConfView) -> JsonView {
    JsonView::Object(
        Map::<Seq<char>, JsonView>::empty().insert(
            "master_name"@,
            JsonView::Text(c.master_name),
        ).insert("master_id"@, JsonView::Text(c.master_id)).insert(
            "categories"@,
            JsonView::Array(c.categories.map_values(|k: CategoryView| category_value(k))),
        ),
    )
}

/// The names and ids of the listings, as an answer.
pub fn api_repos(conf: &RepoConf) -> (r: Reply)
    ensures
        r@ == (ReplyView { status: 200, body: conf_value(conf@) }),
{
    let mut items: Vec<Json> = Vec::new();
    let ghost all = conf@.categories.map_values(|k: CategoryView| category_value(k));
    let mut i: usize = 0;
    while i < conf.categories.len()
        invariant
            i <= conf.categories.len(),
            all == conf@.categories.map_values(|k: CategoryView| category_value(k)),
            items_view(items@) == all.take(i as int),
        decreases conf.categories.len() - i,
    {
        let ghost before = items@;
        items.push(category_json(&conf.categories[i]));
        assert(items@.drop_last() =~= before);
        assert(all.take(i + 1) =~= all.take(i as int).push(all[i as int]));
        i = i + 1;
    }
    assert(all.take(i as int) =~= all);
    let mut v = Json::object();
    v.set("master_name", Json::of_text(conf.master_name.as_str()));
    v.set("master_id", Json::of_text(conf.master_id.as_str()));
    v.set("categories", Json::Array(items));
    json_response(v)
}

// ---------------------------------------------------------------------------
// What a package file holds
// ---------------------------------------------------------------------------

/// An entry of a package file, as it is listed.
#[derive(Debug)]
pub struct ListedEntry {
    pub name: String,
    pub size: u64,
    pub is_dir: bool,
}

/// What a listed entry says.
pub struct ListedView {
    pub name: Seq<char>,
    pub size: u64,
    pub is_dir: bool,
}

impl View for ListedEntry {
    type V = ListedView;

    open spec fn view(&self) -> ListedView {
        ListedView { name: self.name@, size: self.size, is_dir: self.is_dir }
    }
}

/// What listed entries say.
pub open spec fn listed_view(v: Seq<ListedEntry>) -> Seq<ListedView> {
    v.map_values(|e: ListedEntry| e@)
}

/// A listed entry, as a value.
pub open spec fn listed_value(e: ListedView) -> JsonView {
    JsonView::Object(
        Map::<Seq<char>, JsonView>::empty().insert("name"@, JsonView::Text(e.name)).insert(
            "size"@,
            JsonView::Integer(e.size as int),
        ).insert("is_dir"@, JsonView::Bool(e.is_dir)),
    )
}

/// A listed entry, as a value.
fn listed_json(e: &ListedEntry) -> (r: Json)
    ensures
        r@ == listed_value(e@),
{
    let mut v = Json::object();
    v.set("name", Json::of_text(e.name.as_str()));
    v.set("size", Json::Unsigned(e.size));
    v.set("is_dir", Json::Bool(e.is_dir));
    v
}

/// The entries of the file of a version, as an answer.
pub fn api_package_files(name: &str, version: &str, zip: &str, entries: &Vec<ListedEntry>) -> (r:
    Reply)
    ensures
        r@ == (ReplyView {
            status: 200,
            body: JsonView::Object(
                Map::<Seq<char>, JsonView>::empty().insert(
                    "package"@,
                    JsonView::Text(name@),
                ).insert("version"@, JsonView::Text(version@)).insert(
                    "zip"@,
                    JsonView::Text(zip@),
                ).insert(
                    "files"@,
                    JsonView::Array(
                        listed_view(entries@).map_values(|e: ListedView| listed_value(e)),
                    ),
                ),
            ),
        }),
{
    let mut items: Vec<Json> = Vec::new();
    let ghost all = listed_view(entries@).map_values(|e: ListedView| listed_value(e));
    let mut i: usize = 0;
    while i < entries.len()
        invariant
            i <= entries.len(),
            all == listed_view(entries@).map_values(|e: ListedView| listed_value(e)),
            items_view(items@) == all.take(i as int),
        decreases entries.len() - i,
    {
        let ghost before = items@;
        items.push(listed_json(&entries[i]));
        assert(items@.drop_last() =~= before);
        assert(all.take(i + 1) =~= all.take(i as int).push(all[i as int]));
        i = i + 1;
    }
    assert(all.take(i as int) =~= all);
    let mut v = Json::object();
    v.set("package", Json::of_text(name));
    v.set("version", Json::of_text(version));
    v.set("zip", Json::of_text(zip));
    v.set("files", Json::Array(items));
    json_response(v)
}

/// The size from which on a file is not shown: two mebibytes.
pub open spec fn shown_limit() -> nat {
    2 * 1024 * 1024
}

/// Whether a file is not shown: it holds a zero byte, or is too long.
pub open spec fn is_hidden(bytes: Seq<u8>) -> bool {
    bytes.contains(0u8) || bytes.len() > shown_limit()
}

/// What is shown of a file.
pub open spec fn shown_content(bytes: Seq<u8>) -> Seq<char> {
    if is_hidden(bytes) {
        "[binary file, "@ + decimal(bytes.len()) + " bytes — not shown]"@
    } else {
        utf8_lossy(bytes)
    }
}

/// Whether a file holds a zero byte.
fn has_zero(bytes: &[u8]) -> (r: bool)
    ensures
        r == bytes@.contains(0u8),
{
    let mut i: usize = 0;
    while i < bytes.len()
        invariant
            i <= bytes.len(),
            forall|j: int| 0 <= j < i ==> bytes@[j] != 0u8,
        decreases bytes.len() - i,
    {
        if bytes[i] == 0 {
            assert(bytes@[i as int] == 0u8);
            return true;
        }
        i = i + 1;
    }
    false
}

/// What is shown of a file.
pub fn file_content(bytes: &[u8]) -> (r: String)
    ensures
        r@ == shown_content(bytes@),
{
    if has_zero(bytes) || bytes.len() > 2097152 {
        let n = decimal_of(bytes.len() as u64);
        cat3("[binary file, ", n.as_str(), " bytes — not shown]")
    } else {
        from_utf8_lossy(bytes)
    }
}

/// The answer that shows a file with this name, size and shown content. It is told
/// by its shown content whether it counts as binary.
pub open spec fn file_value(path: Seq<char>, size: nat, content: Seq<char>) -> JsonView {
    JsonView::Object(
        Map::<Seq<char>, JsonView>::empty().insert("name"@, JsonView::Text(path)).insert(
            "size"@,
            JsonView::Integer(size as int),
        ).insert("content"@, JsonView::Text(content)).insert(
            "is_binary"@,
            JsonView::Bool("[binary"@.is_prefix_of(content)),
        ),
    )
}

/// The answer that shows a file, by what is shown of it.
pub fn file_reply(path: &str, size: usize, content: String) -> (r: Reply)
    ensures
        r@ == (ReplyView { status: 200, body: file_value(path@, size as nat, content@) }),
{
    let binary = starts_with(content.as_str(), "[binary");
    let mut v = Json::object();
    v.set("name", Json::of_text(path));
    v.set("size", Json::Unsigned(size as u64));
    v.set("content", Json::Text(content));
    v.set("is_binary", Json::Bool(binary));
    json_response(v)
}

/// A file of a package, as an answer.
pub fn api_package_file(path: &str, bytes: &[u8]) -> (r: Reply)
    ensures
        r@ == (ReplyView {
            status: 200,
            body: file_value(path@, bytes@.len(), shown_content(bytes@)),
        }),
{
    let content = file_content(bytes);
    file_reply(path, bytes.len(), content)
}

/// A file that is not shown counts as binary.
pub proof fn law_hidden_files_are_binary(path: Seq<char>, bytes: Seq<u8>)
    requires
        is_hidden(bytes),
    ensures
        file_value(path, bytes.len(), shown_content(bytes)).get("is_binary"@) == Some(
            JsonView::Bool(true),
        ),
{
    reveal_strlit("[binary file, ");
    reveal_strlit("[binary");
    let content = shown_content(bytes);
    assert("[binary"@ =~= content.subrange(0, "[binary"@.len() as int));
}

/// The dependencies that a manifest names, as a value.
pub open spec fn deps_value(manifest: JsonView) -> JsonView {
    JsonView::Object(
        Map::<Seq<char>, JsonView>::empty().insert(
            "dependencies"@,
            value_or(Some(manifest), "dependencies"@, JsonView::Object(Map::empty())),
        ).insert(
            "vpmDependencies"@,
            value_or(Some(manifest), "vpmDependencies"@, JsonView::Object(Map::empty())),
        ).insert("unity"@, JsonView::Text(text_or(Some(manifest), "unity"@, Seq::empty()))),
    )
}

/// The member of a manifest, or an empty object.
fn member_or_object(v: &Json, key: &str) -> (r: Json)
    ensures
        r@ == value_or(Some(v@), key@, JsonView::Object(Map::empty())),
{
    match v.get(key) {
        Some(j) => j.clone(),
        None => Json::object(),
    }
}

/// The dependencies that a manifest names, as an answer.
pub fn deps_reply(manifest: &Json) -> (r: Reply)
    ensures
        r@ == (ReplyView { status: 200, body: deps_value(manifest@) }),
{
    proof {
        reveal_strlit("");
        assert(""@ =~= Seq::<char>::empty());
    }
    let unity = match manifest.text_at("unity") {
        Some(t) => t,
        None => "",
    };
    let mut v = Json::object();
    v.set("dependencies", member_or_object(manifest, "dependencies"));
    v.set("vpmDependencies", member_or_object(manifest, "vpmDependencies"));
    v.set("unity", Json::of_text(unity));
    json_response(v)
}

/// The dependencies of a version, as an answer, out of the manifest in its file.
pub fn api_package_deps(bytes: &[u8]) -> (r: Reply)
    ensures
        r@ == (match json_bytes(bytes@) {
            Ok(manifest) => ReplyView { status: 200, body: deps_value(manifest) },
            Err(_) => ReplyView {
                status: 404,
                body: verdict(false, "error"@, "package.json in zip is not valid JSON"@),
            },
        }),
{
    match parse_bytes(bytes) {
        Ok(manifest) => deps_reply(&manifest),
        Err(_) => err_response("package.json in zip is not valid JSON"),
    }
}

/// The manifest in the file of a version, as an answer: as a value, or as text where
/// it is none.
pub fn api_package_json(bytes: &[u8]) -> (r: Reply)
    ensures
        r@ == (ReplyView {
            status: 200,
            body: match json_bytes(bytes@) {
                Ok(manifest) => manifest,
                Err(_) => JsonView::Object(
                    Map::<Seq<char>, JsonView>::empty().insert(
                        "raw"@,
                        JsonView::Text(utf8_lossy(bytes@)),
                    ),
                ),
            },
        }),
{
    match parse_bytes(bytes) {
        Ok(manifest) => json_response(manifest),
        Err(_) => {
            let text = from_utf8_lossy(bytes);
            let mut v = Json::object();
            v.set("raw", Json::Text(text));
            json_response(v)
        },
    }
}

/// The registry in a text, as an answer.
pub fn api_packages(registry: &str) -> (r: Reply)
    ensures
        r@ == (match json_text(registry@) {
            Ok(repo) => ReplyView { status: 200, body: repo },
            Err(m) => ReplyView { status: 404, body: verdict(false, "error"@, m) },
        }),
{
    match parse(registry) {
        Ok(repo) => json_response(repo),
        Err(m) => err_response(m.as_str()),
    }
}

// ---------------------------------------------------------------------------
// Programs that the shop runs
// ---------------------------------------------------------------------------

/// What a program that succeeded has to say, out of what it printed.
pub open spec fn output_text(stdout: Seq<char>, stderr: Seq<char>) -> Seq<char> {
    trimmed(stdout + "\n"@ + stderr)
}

/// The outcome of a program: what it has to say, or that it failed.
pub open spec fn outcome_of(
    program: Seq<char>,
    success: bool,
    status: Seq<char>,
    stdout: Seq<char>,
    stderr: Seq<char>,
) -> Result<Seq<char>, Fault> {
    if success {
        Ok(output_text(stdout, stderr))
    } else {
        Err(
            Fault::Refused(
                program + " exited "@ + status + ":\n"@ + stdout + "\n"@ + stderr,
            ),
        )
    }
}

/// The outcome of a program, by the texts that it printed.
pub fn outcome(program: &str, success: bool, status: &str, stdout: &str, stderr: &str) -> (r:
    Result<String, ShopError>)
    ensures
        agrees(r, outcome_of(program@, success, status@, stdout@, stderr@)),
{
    if success {
        let both = cat3(stdout, "\n", stderr);
        Ok(trim(both.as_str()))
    } else {
        let mut m = cat5(program, " exited ", status, ":\n", stdout);
        m.append("\n");
        m.append(stderr);
        Err(ShopError::Refused(m))
    }
}

/// The outcome of a program, by the bytes that it printed.
pub fn command_outcome(
    program: &str,
    success: bool,
    status: &str,
    stdout: &[u8],
    stderr: &[u8],
) -> (r: Result<String, ShopError>)
    ensures
        agrees(
            r,
            outcome_of(program@, success, status@, utf8_lossy(stdout@), utf8_lossy(stderr@)),
        ),
{
    let out = from_utf8_lossy(stdout);
    let err = from_utf8_lossy(stderr);
    outcome(program, success, status, out.as_str(), err.as_str())
}

/// The keys of answers are told apart.
proof fn lemma_reply_keys()
    ensures
        "ok"@.len() == 2,
        "error"@.len() == 5,
        "error"@[0] == 'e',
        "message"@.len() == 7,
        "name"@.len() == 4,
        "name"@[0] == 'n',
        "sub"@.len() == 3,
        "repo_name"@.len() == 9,
        "repo_name"@[0] == 'r',
        "repo_id"@.len() == 7,
        "master_name"@.len() == 11,
        "master_id"@.len() == 9,
        "master_id"@[0] == 'm',
        "categories"@.len() == 10,
        "size"@.len() == 4,
        "size"@[0] == 's',
        "is_dir"@.len() == 6,
        "content"@.len() == 7,
        "is_binary"@.len() == 9,
        "dependencies"@.len() == 12,
        "vpmDependencies"@.len() == 15,
        "unity"@.len() == 5,
        "unity"@[0] == 'u',
{
    reveal_strlit("ok");
    reveal_strlit("error");
    reveal_strlit("message");
    reveal_strlit("name");
    reveal_strlit("sub");
    reveal_strlit("repo_name");
    reveal_strlit("repo_id");
    reveal_strlit("master_name");
    reveal_strlit("master_id");
    reveal_strlit("categories");
    reveal_strlit("size");
    reveal_strlit("is_dir");
    reveal_strlit("content");
    reveal_strlit("is_binary");
    reveal_strlit("dependencies");
    reveal_strlit("vpmDependencies");
    reveal_strlit("unity");
}

/// An answer that tells of success or failure says which, and gives its text; a request
/// without the password is told that it needs one.
pub proof fn law_verdicts_say_how_it_went(ok: bool, text: Seq<char>)
    ensures
        verdict(ok, "message"@, text).get("ok"@) == Some(JsonView::Bool(ok)),
        verdict(ok, "message"@, text).get("message"@) == Some(JsonView::Text(text)),
        verdict(ok, "error"@, text).get("ok"@) == Some(JsonView::Bool(ok)),
        verdict(ok, "error"@, text).get("error"@) == Some(JsonView::Text(text)),
        unauthorized().status == 401,
        unauthorized().body.get("ok"@) == Some(JsonView::Bool(false)),
        unauthorized().body.get("error"@) == Some(JsonView::Text("authentication required"@)),
{
    lemma_reply_keys();
}

/// The editor of the listings is shown each of them with its name and its id, in the
/// order of the listings, and the name and the id of the master listing.
pub proof fn law_listings_are_shown(c: ConfView, i: int)
    ensures
        conf_value(c).get("master_name"@) == Some(JsonView::Text(c.master_name)),
        conf_value(c).get("master_id"@) == Some(JsonView::Text(c.master_id)),
        conf_value(c).get("categories"@) matches Some(JsonView::Array(items)) && items.len()
            == c.categories.len() && (0 <= i < items.len() ==> {
            &&& items[i].get("name"@) == Some(JsonView::Text(c.categories[i].name))
            &&& items[i].get("sub"@) == Some(JsonView::Text(c.categories[i].sub))
            &&& items[i].get("repo_name"@) == Some(JsonView::Text(c.categories[i].repo_name))
            &&& items[i].get("repo_id"@) == Some(JsonView::Text(c.categories[i].repo_id))
        }),
{
    lemma_reply_keys();
}

/// A listed entry of a package file is shown with its name, its size and its kind.
pub proof fn law_entries_are_shown(e: ListedView)
    ensures
        listed_value(e).get("name"@) == Some(JsonView::Text(e.name)),
        listed_value(e).get("size"@) == Some(JsonView::Integer(e.size as int)),
        listed_value(e).get("is_dir"@) == Some(JsonView::Bool(e.is_dir)),
{
    lemma_reply_keys();
}

/// A file of a package is shown with its path, its size and its text. Of a file with a
/// zero byte, or of more than two mebibytes, the text is not shown, and it counts as
/// binary.
pub proof fn law_files_are_shown(path: Seq<char>, bytes: Seq<u8>)
    ensures
        ({
            let v = file_value(path, bytes.len(), shown_content(bytes));
            &&& v.get("name"@) == Some(JsonView::Text(path))
            &&& v.get("size"@) == Some(JsonView::Integer(bytes.len() as int))
            &&& if bytes.contains(0u8) || bytes.len() > 2097152 {
                v.get("is_binary"@) == Some(JsonView::Bool(true)) && v.get("content"@)
                    == Some(
                    JsonView::Text(
                        "[binary file, "@ + decimal(bytes.len()) + " bytes — not shown]"@,
                    ),
                )
            } else {
                &&& v.get("content"@) == Some(JsonView::Text(utf8_lossy(bytes)))
                &&& v.get("is_binary"@) == Some(
                    JsonView::Bool("[binary"@.is_prefix_of(utf8_lossy(bytes))),
                )
            }
        }),
{
    lemma_reply_keys();
    if is_hidden(bytes) {
        law_hidden_files_are_binary(path, bytes);
    }
}

/// The dependencies of a version are shown as its manifest names them: those of either
/// kind under its own key, an empty object where the manifest has none, and its version
/// of Unity.
pub proof fn law_dependencies_are_shown(manifest: JsonView)
    ensures
        ({
            let v = deps_value(manifest);
            &&& match manifest.get("dependencies"@) {
                Some(d) => v.get("dependencies"@) == Some(d),
                None => v.get("dependencies"@) == Some(JsonView::Object(Map::empty())),
            }
            &&& match manifest.get("vpmDependencies"@) {
                Some(d) => v.get("vpmDependencies"@) == Some(d),
                None => v.get("vpmDependencies"@) == Some(JsonView::Object(Map::empty())),
            }
            &&& match manifest.get("unity"@) {
                Some(JsonView::Text(t)) => v.get("unity"@) == Some(JsonView::Text(t)),
                _ => v.get("unity"@) == Some(JsonView::Text(Seq::empty())),
            }
        }),
{
    lemma_reply_keys();
    assert(member(Some(manifest), "dependencies"@) == manifest.get("dependencies"@));
    assert(member(Some(manifest), "vpmDependencies"@) == manifest.get("vpmDependencies"@));
    assert(member(Some(manifest), "unity"@) == manifest.get("unity"@));
}

/// Whether a text holds another one.
pub open spec fn has_part(text: Seq<char>, part: Seq<char>) -> bool {
    exists|i: int|
        0 <= i && i + part.len() <= text.len() && #[trigger] text.subrange(i, i + part.len())
            == part
}

/// What stands between two texts is a part of the whole.
pub proof fn lemma_has_part(front: Seq<char>, part: Seq<char>, back: Seq<char>)
    ensures
        has_part(front + part + back, part),
{
    let text = front + part + back;
    let i = front.len() as int;
    assert(text.subrange(i, i + part.len()) =~= part);
}

/// The page that answers an upload holds the answer, and says whether it went well.
pub proof fn law_result_page_holds_the_answer(ok: bool, body: Seq<char>)
    ensures
        has_part(result_page(ok, body), "</h2>"@ + body + "<hr>"@),
        ok ==> has_part(result_page(ok, body), "✅ Upload successful"@),
        !ok ==> has_part(result_page(ok, body), "❌ Upload failed"@),
{
    let start =
        "<!doctype html><html><head><meta charset=utf-8><title>Upload result</title></head><body style=\"font-family:system-ui,sans-serif;max-width:900px;margin:2rem auto;padding:0 1rem\"><h2 style=\"color:"@
        + (if ok {
        "#1a7f37"@
    } else {
        "#b35900"@
    }) + "\">"@;
    let title = if ok {
        "✅ Upload successful"@
    } else {
        "❌ Upload failed"@
    };
    let end = "<hr><p><a href=\"/\">← back</a></p></body></html>"@;
    let tail = "<p><a href=\"/\">← back</a></p></body></html>"@;
    reveal_strlit("<hr>");
    reveal_strlit("<p><a href=\"/\">← back</a></p></body></html>");
    reveal_strlit("<hr><p><a href=\"/\">← back</a></p></body></html>");
    assert(end =~= "<hr>"@ + tail);
    let page = result_page(ok, body);
    lemma_has_part(start, title, "</h2>"@ + body + end);
    assert(page =~= start + title + ("</h2>"@ + body + end));
    lemma_has_part(start + title, "</h2>"@ + body + "<hr>"@, tail);
    assert(page =~= start + title + ("</h2>"@ + body + "<hr>"@) + tail);
}

/// A program that succeeded is reported with what it printed, and one that failed with
/// its name, its status and what it printed.
pub proof fn law_programs_are_reported(
    program: Seq<char>,
    success: bool,
    status: Seq<char>,
    stdout: Seq<char>,
    stderr: Seq<char>,
)
    ensures
        match outcome_of(program, success, status, stdout, stderr) {
            Ok(text) => success && text == trimmed(stdout + "\n"@ + stderr),
            Err(f) => !success && (f matches Fault::Refused(text) && has_part(text, stdout)
                && has_part(text, stderr) && (program + " exited "@ + status).is_prefix_of(text)),
        },
{
    if !success {
        let text = program + " exited "@ + status + ":\n"@ + stdout + "\n"@ + stderr;
        let head = program + " exited "@ + status;
        lemma_has_part(head + ":\n"@, stdout, "\n"@ + stderr);
        assert(text =~= head + ":\n"@ + stdout + ("\n"@ + stderr));
        lemma_has_part(head + ":\n"@ + stdout + "\n"@, stderr, Seq::empty());
        assert(text =~= head + ":\n"@ + stdout + "\n"@ + stderr + Seq::<char>::empty());
        assert(text.subrange(0, head.len() as int) =~= head);
    }
}

} // verus!
