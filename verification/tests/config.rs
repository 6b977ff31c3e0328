use serde_json::Value;
use vpm_shop::codec::{encode, pretty};
use vpm_shop::config::{
    Environment, configure, initial_categories, initial_registry, load_categories,
};
use vpm_shop::error::ShopError;
use vpm_shop::json::Json;

fn value(text: &str) -> Value {
    serde_json::from_str(text).unwrap()
}

fn names(list: &[&str]) -> Vec<String> {
    list.iter().map(|n| n.to_string()).collect()
}

fn environment() -> Environment {
    Environment {
        master_host: Some(" https://x.y ".to_string()),
        api_user: Ok("me".to_string()),
        api_pass: Ok("pw".to_string()),
        pkg_author: None,
    }
}

fn refused(env: Environment, host: &str) -> String {
    match configure(env, host, names(&["A"])) {
        Err(ShopError::Refused(m)) => m,
        _ => panic!("not refused"),
    }
}

#[test]
fn categories_are_read() {
    let text = "  Props \r\n\n\t\nWorlds\nBig Things";
    assert_eq!(
        load_categories("/c.txt", text).unwrap(),
        vec!["Props", "Worlds", "Big Things"]
    );
}

#[test]
fn a_shop_has_categories() {
    for text in ["", "\n \r\n"] {
        assert_eq!(
            load_categories("/c.txt", text).unwrap_err().text(),
            "categories file /c.txt is empty"
        );
    }
    assert_eq!(
        initial_categories("/c.txt", &names(&[])).unwrap_err().text(),
        "no categories file /c.txt and no categories in repos.conf — add a 'categories' entry or create the file"
    );
}

#[test]
fn written_categories_are_read_back() {
    let list = names(&["Props", "Big Things", "Ä"]);
    let text = initial_categories("/c.txt", &list).unwrap();
    assert_eq!(text, "Props\nBig Things\nÄ\n");
    assert_eq!(load_categories("/c.txt", &text).unwrap(), list);
    let text = initial_categories("/c.txt", &names(&[" A ", "", "\t", "B C"])).unwrap();
    assert_eq!(load_categories("/c.txt", &text).unwrap(), vec!["A", "B C"]);
}

#[test]
fn settings_are_put_together() {
    let s = configure(environment(), "https://conf", names(&["A", "B"])).unwrap();
    assert_eq!(s.username, "me");
    assert_eq!(s.password, "pw");
    assert_eq!(s.host, "https://x.y");
    assert_eq!(s.categories, vec!["A", "B"]);
    assert_eq!(s.author, "VPM Shop");
    let mut env = environment();
    env.master_host = Some("  ".to_string());
    env.pkg_author = Some("Me".to_string());
    let s = configure(env, " https://conf\n", names(&["A"])).unwrap();
    assert_eq!(s.host, "https://conf");
    assert_eq!(s.author, "Me");
}

#[test]
fn a_shop_needs_an_address_and_credentials() {
    let mut env = environment();
    env.master_host = None;
    env.api_user = Err("x".to_string());
    assert_eq!(
        refused(env, " "),
        "MASTER_HOST is not set — set it in vpm-shop.conf (or repos.conf \"master_host\") before publishing"
    );
    let mut env = environment();
    env.api_user = Err("environment variable not found".to_string());
    env.api_pass = Err("x".to_string());
    assert_eq!(
        refused(env, ""),
        "API_USER is not set — run ./launch.sh to generate vpm-shop.conf: environment variable not found"
    );
    let mut env = environment();
    env.api_pass = Err("environment variable not found".to_string());
    assert_eq!(
        refused(env, ""),
        "API_PASS is not set — run ./launch.sh to generate vpm-shop.conf: environment variable not found"
    );
}

#[test]
fn a_fresh_registry_is_empty_and_takes_packages() {
    let text = pretty(initial_registry("https://x.y/"));
    assert_eq!(
        value(&text),
        value(r#"{"name": "VPM Shop", "url": "https://x.y/index.json", "packages": {}}"#)
    );
    let after =
        vpm_shop::edits::update_master_repo(&text, "p", "1.0.0", Json::object()).unwrap();
    assert_eq!(encode(after)["packages"], value(r#"{"p": {"versions": {"1.0.0": {}}}}"#));
}
