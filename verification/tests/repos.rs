use serde_json::Value;
use vpm_shop::codec::{encode, pretty};
use vpm_shop::error::ShopError;
use vpm_shop::repos::{
    RepoCategoryUpdate, ReposUpdate, category_names, default_repo_category, load_repo_conf,
    run_repos_save, saved_note,
};

fn value(text: &str) -> Value {
    serde_json::from_str(text).unwrap()
}

fn names(list: &[&str]) -> Vec<String> {
    list.iter().map(|n| n.to_string()).collect()
}

fn some(s: &str) -> Option<String> {
    Some(s.to_string())
}

const CONF: &str = r#"{
    "master_host": "https://x.y",
    "subdomain_host": "y",
    "author": "A",
    "master_id": 5,
    "categories": [
        {"name": "Props", "sub": "props", "repo_name": "The Props", "repo_id": "com.x.props"},
        {"name": "Worlds"},
        {"name": "Props", "repo_name": "Shadow"},
        7
    ],
    "other": true
}"#;

fn update(name: Option<String>, id: Option<String>) -> ReposUpdate {
    ReposUpdate { master_name: name, master_id: id, categories: vec![] }
}

fn category(name: &str, repo_name: Option<String>, repo_id: Option<String>) -> RepoCategoryUpdate {
    RepoCategoryUpdate { name: name.to_string(), repo_name, repo_id }
}

#[test]
fn unknown_categories_have_a_listing() {
    let c = default_repo_category("Big Props");
    assert_eq!(c.name, "Big Props");
    assert_eq!(c.sub, "big props");
    assert_eq!(c.repo_name, "VPM – Big Props");
    assert_eq!(c.repo_id, "com.vpm.big props");
}

#[test]
fn a_missing_conf_has_no_made_up_values() {
    let conf = load_repo_conf("/r.conf", None, &names(&["A", "B"])).unwrap();
    assert_eq!(conf.master_host, "");
    assert_eq!(conf.subdomain_host, "");
    assert_eq!(conf.author, "");
    assert_eq!(conf.master_name, "");
    assert_eq!(conf.master_id, "");
    assert_eq!(category_names(&conf), vec!["A", "B"]);
    assert_eq!(conf.categories[1].repo_id, "com.vpm.b");
}

#[test]
fn a_conf_is_read() {
    let conf = load_repo_conf("/r.conf", Some(CONF), &names(&["Worlds", "New", "New"])).unwrap();
    assert_eq!(conf.master_host, "https://x.y");
    assert_eq!(conf.subdomain_host, "y");
    assert_eq!(conf.author, "A");
    assert_eq!(conf.master_name, "VPM Shop – Master");
    assert_eq!(conf.master_id, "");
    assert_eq!(category_names(&conf), vec!["Props", "Worlds", "Props", "Misc", "New"]);
    assert_eq!(conf.categories[0].repo_name, "The Props");
    assert_eq!(conf.categories[1].sub, "misc");
    assert_eq!(conf.categories[1].repo_name, "VPM – Worlds");
    assert_eq!(conf.categories[1].repo_id, "");
    assert_eq!(conf.categories[3].repo_name, "VPM – Misc");
    assert_eq!(conf.categories[4].repo_id, "com.vpm.new");
}

#[test]
fn a_conf_that_is_no_json_is_refused() {
    match load_repo_conf("/r.conf", Some("{"), &names(&[])) {
        Err(ShopError::Refused(m)) => {
            assert_eq!(
                m,
                "cannot parse repos.conf /r.conf: EOF while parsing an object at line 1 column 1"
            )
        }
        _ => panic!("not refused"),
    }
    assert!(category_names(&load_repo_conf("/r.conf", Some("[]"), &names(&[])).unwrap()).is_empty());
}

#[test]
fn names_and_ids_are_saved() {
    let mut u = update(some(" New name "), some("id"));
    u.categories.push(category("Props", some("P2"), some("  ")));
    u.categories.push(category("Worlds", None, some("w.id")));
    u.categories.push(category("Nowhere", some("x"), some("y")));
    let shop = names(&["Props", "Worlds"]);
    let after = encode(run_repos_save("/r.conf", Some(CONF), &u, &shop).unwrap());
    let mut expected = value(CONF);
    expected["master_name"] = value("\" New name \"");
    expected["master_id"] = value("\"id\"");
    expected["categories"][0]["repo_name"] = value("\"P2\"");
    expected["categories"][1]["repo_id"] = value("\"w.id\"");
    assert_eq!(after, expected);
}

#[test]
fn saved_names_and_ids_are_read() {
    let mut u = update(some("N"), None);
    u.categories.push(category("Props", some("first"), None));
    u.categories.push(category("Props", some("second"), None));
    let text = pretty(run_repos_save("/r.conf", Some(CONF), &u, &names(&["Props"])).unwrap());
    let conf = load_repo_conf("/r.conf", Some(&text), &names(&[])).unwrap();
    assert_eq!(conf.master_name, "N");
    assert_eq!(conf.master_host, "https://x.y");
    assert_eq!(conf.categories[0].repo_name, "second");
    assert_eq!(conf.categories[0].repo_id, "com.x.props");
    assert_eq!(conf.categories[2].repo_name, "Shadow");
    assert_eq!(category_names(&conf), vec!["Props", "Worlds", "Props", "Misc"]);
}

#[test]
fn categories_of_the_shop_get_an_entry() {
    let shop = names(&["Props", "New", "Other"]);
    let mut u = update(None, None);
    u.categories.push(category("New", None, some("x.y")));
    u.categories.push(category("Other", None, some(" ")));
    u.categories.push(category("Nowhere", some("x"), some("y")));
    let after = run_repos_save("/r.conf", Some(CONF), &u, &shop).unwrap();
    let mut expected = value(CONF);
    expected["categories"].as_array_mut().unwrap().push(value(
        r#"{"name": "New", "sub": "new", "repo_name": "VPM – New", "repo_id": "x.y"}"#,
    ));
    assert_eq!(encode(after.clone()), expected);
    let conf = load_repo_conf("/r.conf", Some(&pretty(after)), &shop).unwrap();
    assert_eq!(
        category_names(&conf),
        vec!["Props", "Worlds", "Props", "Misc", "New", "Other"]
    );
    assert_eq!(conf.categories[4].repo_id, "x.y");
    assert_eq!(conf.categories[4].repo_name, "VPM – New");
    assert_eq!(conf.categories[5].repo_id, "com.vpm.other");
}

#[test]
fn an_entry_is_added_once() {
    let shop = names(&["Props"]);
    let mut u = update(None, None);
    u.categories.push(category("Props", some("first"), some("x.y")));
    u.categories.push(category("Props", some("second"), None));
    let after = encode(run_repos_save("/r.conf", None, &u, &shop).unwrap());
    assert_eq!(
        after,
        value(
            r#"{"categories": [
                {"name": "Props", "sub": "props", "repo_name": "second", "repo_id": "x.y"}
            ]}"#
        )
    );
}

#[test]
fn blank_names_change_nothing() {
    let u = update(some(" \t"), some(""));
    let after = run_repos_save("/r.conf", Some(CONF), &u, &names(&["New"])).unwrap();
    assert_eq!(encode(after), value(CONF));
}

#[test]
fn a_missing_conf_is_started() {
    let mut u = update(some("N"), None);
    u.categories.push(category("A", some("x"), None));
    assert_eq!(
        encode(run_repos_save("/r.conf", None, &u, &names(&[])).unwrap()),
        value("{\"categories\": [], \"master_name\": \"N\"}")
    );
}

#[test]
fn saves_are_refused_without_categories() {
    for text in ["{}", "{\"categories\": {}}"] {
        match run_repos_save("/r.conf", Some(text), &update(some("N"), None), &names(&[])) {
            Err(ShopError::Refused(m)) => assert_eq!(m, "repos.conf has no 'categories' array"),
            _ => panic!("not refused"),
        }
    }
    assert!(matches!(
        run_repos_save("/r.conf", Some("[]"), &update(some("N"), None), &names(&[])),
        Err(ShopError::Broken(_))
    ));
    match run_repos_save("/r.conf", Some("[]"), &update(None, None), &names(&[])) {
        Err(ShopError::Refused(m)) => assert_eq!(m, "repos.conf has no 'categories' array"),
        _ => panic!("not refused"),
    }
    assert_eq!(
        run_repos_save("/r.conf", Some("x"), &update(None, None), &names(&[])).unwrap_err().text(),
        "cannot parse repos.conf /r.conf: expected value at line 1 column 1"
    );
}

#[test]
fn saves_are_reported() {
    assert_eq!(
        saved_note("all good"),
        "Saved repos.conf and regenerated category repos.\nall good"
    );
}
