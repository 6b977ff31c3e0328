use serde_json::Value;
use vpm_shop::checklist::{
    api_checklist_get, api_checklist_save, check_checklist, checklist_auth_ok, checklist_path,
    checklist_saved, read_checklist,
};
use vpm_shop::codec::{encode, parse, pretty};

fn value(text: &str) -> Value {
    serde_json::from_str(text).unwrap()
}

#[test]
fn the_checklist_has_its_file() {
    assert_eq!(checklist_path(), ".checklist.json");
}

#[test]
fn the_checklist_needs_the_password() {
    assert!(checklist_auth_ok(Some("pw"), "pw"));
    assert!(!checklist_auth_ok(Some("pw "), "pw"));
    assert!(!checklist_auth_ok(Some(""), "pw"));
    assert!(!checklist_auth_ok(None, "pw"));
}

#[test]
fn a_missing_checklist_is_blank() {
    let blank = value("{\"items\": []}");
    assert_eq!(encode(read_checklist(None)), blank);
    assert_eq!(encode(read_checklist(Some("{"))), blank);
    assert_eq!(encode(read_checklist(Some("[3]"))), value("[3]"));
}

#[test]
fn checklists_are_checked() {
    assert!(check_checklist(&parse("{\"items\": [1]}").unwrap()).is_ok());
    assert_eq!(
        check_checklist(&parse("{}").unwrap()).unwrap_err().text(),
        "body must include an 'items' array"
    );
    assert_eq!(
        check_checklist(&parse("[]").unwrap()).unwrap_err().text(),
        "body must include an 'items' array"
    );
    assert_eq!(
        check_checklist(&parse("{\"items\": {}}").unwrap()).unwrap_err().text(),
        "'items' must be an array"
    );
}

#[test]
fn saved_checklists_are_read_back() {
    let body = "{\"items\": [{\"text\": \"upload it\", \"done\": false}], \"n\": 1}";
    let text = pretty(parse(body).unwrap());
    assert_eq!(encode(read_checklist(Some(&text))), value(body));
}

#[test]
fn strangers_learn_nothing_of_the_checklist() {
    for given in [None, Some("no")] {
        let r = api_checklist_get(given, "pw", Some("{\"items\": [1]}"));
        assert_eq!(r.status, 401);
        assert_eq!(
            encode(r.body),
            value("{\"ok\": false, \"error\": \"authentication required\"}")
        );
        let r = api_checklist_save(given, "pw", parse("{\"items\": []}").unwrap());
        assert_eq!(r.unwrap_err().status, 401);
    }
}

#[test]
fn the_checklist_is_shown_and_stored() {
    let r = api_checklist_get(Some("pw"), "pw", Some("{\"items\": [1]}"));
    assert_eq!(r.status, 200);
    assert_eq!(encode(r.body), value("{\"items\": [1]}"));
    let body = parse("{\"items\": [2], \"x\": 1}").unwrap();
    let stored = api_checklist_save(Some("pw"), "pw", body).unwrap();
    assert_eq!(encode(stored), value("{\"items\": [2], \"x\": 1}"));
    let refused = api_checklist_save(Some("pw"), "pw", parse("{\"items\": 2}").unwrap());
    let reply = refused.unwrap_err();
    assert_eq!(reply.status, 404);
    assert_eq!(
        encode(reply.body),
        value("{\"ok\": false, \"error\": \"'items' must be an array\"}")
    );
}

#[test]
fn saves_of_the_checklist_are_answered() {
    let r = checklist_saved(Ok(()));
    assert_eq!(r.status, 200);
    assert_eq!(encode(r.body), value("{\"ok\": true, \"message\": \"checklist saved\"}"));
    let r = checklist_saved(Err("disk full".to_string()));
    assert_eq!(r.status, 404);
    assert_eq!(
        encode(r.body),
        value("{\"ok\": false, \"error\": \"failed to save checklist: disk full\"}")
    );
}
