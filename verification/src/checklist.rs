//! The private checklist of the shop keeper.

use vstd::prelude::*;
use vstd::string::*;

use crate::codec::{depth_limit, json_text, parse, storable, stored_as};
use crate::error::{Fault, ShopError, refused};
use crate::json::{Json, JsonView, items_view};
use crate::replies::{
    Reply, ReplyView, err_response, json_response, law_verdicts_say_how_it_went, message_response,
    unauthorized, unauthorized_response, verdict,
};
use crate::text::{cat2, same};
use crate::upload::fault_text;


verus! {

/// What a borrowed text that may be missing says.
pub open spec fn seen_str(t: Option<&str>) -> Option<Seq<char>> {
    match t {
        Some(s) => Some(s@),
        None => None,
    }
}

/// The file of the checklist, from the directory of the shop on.
pub fn checklist_path() -> (r: String)
    ensures
        r@ == ".checklist.json"@,
{
    ".checklist.json".to_string()
}

/// Whether a request may see the checklist: it names the password of the shop.
pub fn checklist_auth_ok(given: Option<&str>, password: &str) -> (r: bool)
    ensures
        r == (seen_str(given) == Some(password@)),
{
    match given {
        Some(p) => same(p, password),
        None => false,
    }
}

/// A checklist with nothing on it.
pub open spec fn blank_checklist() -> JsonView {
    JsonView::Object(Map::empty().insert("items"@, JsonView::Array(Seq::empty())))
}

/// The checklist that a text holds, if there is one.
pub open spec fn checklist_in(text: Option<Seq<char>>) -> JsonView {
    match text {
        Some(t) => match json_text(t) {
            Ok(v) => v,
            Err(_) => blank_checklist(),
        },
        None => blank_checklist(),
    }
}

/// A checklist with nothing on it.
fn blank() -> (r: Json)
    ensures
        r@ == blank_checklist(),
{
    let none: Vec<Json> = Vec::new();
    assert(items_view(none@) =~= Seq::<JsonView>::empty());
    let mut v = Json::object();
    v.set("items", Json::Array(none));
    v
}

/// Reads the checklist in the text of its file, if there is such a file; a blank one
/// where the text is none.
pub fn read_checklist(text: Option<&str>) -> (r: Json)
    ensures
        r@ == checklist_in(seen_str(text)),
{
    match text {
        Some(t) => match parse(t) {
            Ok(v) => v,
            Err(_) => blank(),
        },
        None => blank(),
    }
}

/// Why a value is no checklist.
pub open spec fn checklist_problem(body: JsonView) -> Option<Fault> {
    match body.get("items"@) {
        None => Some(Fault::Refused("body must include an 'items' array"@)),
        Some(JsonView::Array(_)) => None,
        Some(_) => Some(Fault::Refused("'items' must be an array"@)),
    }
}

/// Looks whether a value is a checklist.
pub fn check_checklist(body: &Json) -> (r: Result<(), ShopError>)
    ensures
        match r {
            Ok(_) => checklist_problem(body@) is None,
            Err(e) => checklist_problem(body@) == Some(e@),
        },
{
    match body.get("items") {
        None => Err(refused("body must include an 'items' array")),
        Some(items) => if items.is_array() {
            Ok(())
        } else {
            Err(refused("'items' must be an array"))
        },
    }
}

/// The answer to a request for the checklist, where its file holds this text, if there
/// is such a file.
pub open spec fn checklist_shown(
    given: Option<Seq<char>>,
    password: Seq<char>,
    text: Option<Seq<char>>,
) -> ReplyView {
    if given == Some(password) {
        ReplyView { status: 200, body: checklist_in(text) }
    } else {
        unauthorized()
    }
}

/// Answers a request for the checklist.
pub fn api_checklist_get(given: Option<&str>, password: &str, text: Option<&str>) -> (r: Reply)
    ensures
        r@ == checklist_shown(seen_str(given), password@, seen_str(text)),
{
    if checklist_auth_ok(given, password) {
        json_response(read_checklist(text))
    } else {
        unauthorized_response()
    }
}

/// The checklist to store, or the answer to a request that is refused.
pub open spec fn checklist_to_save(
    given: Option<Seq<char>>,
    password: Seq<char>,
    body: JsonView,
) -> Result<JsonView, ReplyView> {
    if given != Some(password) {
        Err(unauthorized())
    } else {
        match checklist_problem(body) {
            Some(f) => Err(
                ReplyView { status: 404, body: verdict(false, "error"@, fault_text(f)) },
            ),
            None => Ok(body),
        }
    }
}

/// Decides on a request to store a checklist: it is stored as it is, or the request is
/// answered.
pub fn api_checklist_save(given: Option<&str>, password: &str, body: Json) -> (r: Result<
    Json,
    Reply,
>)
    ensures
        match r {
            Ok(j) => checklist_to_save(seen_str(given), password@, body@) == Ok::<
                JsonView,
                ReplyView,
            >(j@),
            Err(e) => checklist_to_save(seen_str(given), password@, body@) == Err::<
                JsonView,
                ReplyView,
            >(e@),
        },
{
    if !checklist_auth_ok(given, password) {
        return Err(unauthorized_response());
    }
    match check_checklist(&body) {
        Ok(_) => Ok(body),
        Err(e) => Err(err_response(e.text())),
    }
}

/// The answer to a request whose checklist was stored, or could not be for some reason.
pub fn checklist_saved(outcome: Result<(), String>) -> (r: Reply)
    ensures
        r@ == (match outcome {
            Ok(_) => ReplyView {
                status: 200,
                body: verdict(true, "message"@, "checklist saved"@),
            },
            Err(why) => ReplyView {
                status: 404,
                body: verdict(false, "error"@, "failed to save checklist: "@ + why@),
            },
        }),
{
    match outcome {
        Ok(_) => message_response("checklist saved"),
        Err(why) => {
            let m = cat2("failed to save checklist: ", why.as_str());
            err_response(m.as_str())
        },
    }
}

/// A request without the password of the shop learns nothing of the checklist, and
/// changes nothing of it.
pub proof fn law_checklist_is_private(
    given: Option<Seq<char>>,
    password: Seq<char>,
    text: Option<Seq<char>>,
    body: JsonView,
)
    requires
        given != Some(password),
    ensures
        checklist_shown(given, password, text) == unauthorized(),
        checklist_to_save(given, password, body) == Err::<JsonView, ReplyView>(unauthorized()),
{
}

/// A checklist that was saved is the checklist that is shown. `text` is the text that
/// it was stored as.
pub proof fn law_checklist_is_read_back(password: Seq<char>, body: JsonView, text: Seq<char>)
    requires
        checklist_to_save(Some(password), password, body) is Ok,
        storable(body, depth_limit()),
        stored_as(text, body),
    ensures
        checklist_shown(Some(password), password, Some(text)) == (ReplyView {
            status: 200,
            body,
        }),
{
}

/// What is stored as a checklist is the body of the request, and only where that has a
/// list of items; the answer to any other body is a failure. A checklist is shown as it
/// is stored, and one that is missing or cannot be read as an empty list of items.
pub proof fn law_checklist_is_kept_as_it_is(
    password: Seq<char>,
    body: JsonView,
    text: Option<Seq<char>>,
)
    ensures
        match checklist_to_save(Some(password), password, body) {
            Ok(stored) => stored == body && body.get("items"@) is Some && body.get("items"@)->0
                is Array,
            Err(r) => r.status == 404 && r.body.get("ok"@) == Some(JsonView::Bool(false)) && !(
            body.get("items"@) is Some && body.get("items"@)->0 is Array),
        },
        checklist_shown(Some(password), password, text).status == 200,
        text matches Some(t) && json_text(t) is Ok ==> checklist_shown(
            Some(password),
            password,
            text,
        ).body == json_text(text->0)->Ok_0,
        text is None || json_text(text->0) is Err ==> checklist_shown(
            Some(password),
            password,
            text,
        ).body.get("items"@) == Some(JsonView::Array(Seq::empty())),
{
    law_verdicts_say_how_it_went(false, "body must include an 'items' array"@);
    law_verdicts_say_how_it_went(false, "'items' must be an array"@);
}

} // verus!
