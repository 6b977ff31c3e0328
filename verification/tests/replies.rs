use serde_json::Value;
use vpm_shop::codec::{encode, parse};
use vpm_shop::error::ShopError;
use vpm_shop::replies::{
    ListedEntry, Reply, api_categories, api_config, api_package_deps, api_package_file,
    api_package_files, api_package_json, api_packages, api_repos, command_outcome, deps_reply,
    err_response, file_content, file_reply, html_result, json_response, message_response,
    outcome, unauthorized_response,
};
use vpm_shop::repos::load_repo_conf;

fn value(text: &str) -> Value {
    serde_json::from_str(text).unwrap()
}

fn check(r: Reply, status: u16, body: &str) {
    assert_eq!(r.status, status);
    assert_eq!(encode(r.body), value(body));
}

#[test]
fn uploads_are_answered_with_a_page() {
    let (status, page) = html_result(true, "<i>x</i>");
    assert_eq!(status, 200);
    assert_eq!(
        page,
        "<!doctype html><html><head><meta charset=utf-8><title>Upload result</title></head>\
         <body style=\"font-family:system-ui,sans-serif;max-width:900px;margin:2rem auto;padding:0 1rem\">\
         <h2 style=\"color:#1a7f37\">✅ Upload successful</h2><i>x</i>\
         <hr><p><a href=\"/\">← back</a></p></body></html>"
    );
    let (status, page) = html_result(false, "why");
    assert_eq!(status, 400);
    assert!(page.contains("<h2 style=\"color:#b35900\">❌ Upload failed</h2>why<hr>"));
}

#[test]
fn plain_answers_have_their_status() {
    check(json_response(parse("[1]").unwrap()), 200, "[1]");
    check(message_response("m"), 200, "{\"ok\": true, \"message\": \"m\"}");
    check(err_response("e"), 404, "{\"ok\": false, \"error\": \"e\"}");
    check(
        unauthorized_response(),
        401,
        "{\"ok\": false, \"error\": \"authentication required\"}",
    );
}

#[test]
fn the_shop_describes_itself() {
    let cats = vec!["A".to_string(), "B".to_string()];
    check(api_categories(&cats), 200, "[\"A\", \"B\"]");
    check(api_categories(&vec![]), 200, "[]");
    check(
        api_config("https://x.y/", ""),
        200,
        r#"{"master_url": "https://x.y/", "vault_url": "",
            "master_repo_url": "https://x.y/index.json"}"#,
    );
}

#[test]
fn listings_are_shown() {
    let conf = load_repo_conf(
        "/r.conf",
        Some(r#"{"master_name": "M", "master_id": "m", "categories": [{"name": "A"}]}"#),
        &vec!["B".to_string()],
    )
    .unwrap();
    check(
        api_repos(&conf),
        200,
        r#"{"master_name": "M", "master_id": "m", "categories": [
            {"name": "A", "sub": "misc", "repo_name": "VPM – A", "repo_id": ""},
            {"name": "B", "sub": "b", "repo_name": "VPM – B", "repo_id": "com.vpm.b"}]}"#,
    );
}

#[test]
fn entries_of_package_files_are_listed() {
    let entries = vec![
        ListedEntry { name: "d/".to_string(), size: 0, is_dir: true },
        ListedEntry { name: "d/f".to_string(), size: 18446744073709551615, is_dir: false },
    ];
    check(
        api_package_files("p", "1.0.0", "/s/p.zip", &entries),
        200,
        r#"{"package": "p", "version": "1.0.0", "zip": "/s/p.zip", "files": [
            {"name": "d/", "size": 0, "is_dir": true},
            {"name": "d/f", "size": 18446744073709551615, "is_dir": false}]}"#,
    );
}

#[test]
fn text_files_are_shown() {
    check(
        api_package_file("a.txt", "h\u{e9}".as_bytes()),
        200,
        r#"{"name": "a.txt", "size": 3, "content": "hé", "is_binary": false}"#,
    );
    check(
        api_package_file("a.txt", b""),
        200,
        r#"{"name": "a.txt", "size": 0, "content": "", "is_binary": false}"#,
    );
    assert_eq!(file_content(&[b'a', 0xff]), "a\u{fffd}");
}

#[test]
fn other_files_are_not_shown() {
    check(
        api_package_file("a.bin", &[1, 0, 2]),
        200,
        r#"{"name": "a.bin", "size": 3,
            "content": "[binary file, 3 bytes — not shown]", "is_binary": true}"#,
    );
    let limit = vec![b'a'; 2 * 1024 * 1024];
    assert_eq!(file_content(&limit).len(), limit.len());
    let long = vec![b'a'; 2 * 1024 * 1024 + 1];
    assert_eq!(file_content(&long), "[binary file, 2097153 bytes — not shown]");
}

#[test]
fn binary_is_told_by_the_shown_content() {
    check(
        file_reply("a", 7, "[binary".to_string()),
        200,
        r#"{"name": "a", "size": 7, "content": "[binary", "is_binary": true}"#,
    );
}

#[test]
fn dependencies_are_shown() {
    check(
        api_package_deps(br#"{"dependencies": {"a": "1"}, "unity": "2019.4", "x": 1}"#),
        200,
        r#"{"dependencies": {"a": "1"}, "vpmDependencies": {}, "unity": "2019.4"}"#,
    );
    check(
        deps_reply(&parse("{\"vpmDependencies\": null, \"unity\": 5}").unwrap()),
        200,
        r#"{"dependencies": {}, "vpmDependencies": null, "unity": ""}"#,
    );
    check(
        api_package_deps(b"nope"),
        404,
        r#"{"ok": false, "error": "package.json in zip is not valid JSON"}"#,
    );
}

#[test]
fn manifests_are_shown() {
    check(api_package_json(b"{\"a\": 1}"), 200, "{\"a\": 1}");
    check(api_package_json(b"{a\xff"), 200, "{\"raw\": \"{a\u{fffd}\"}");
}

#[test]
fn the_registry_is_shown() {
    check(api_packages("{\"packages\": {}}"), 200, "{\"packages\": {}}");
    check(
        api_packages(""),
        404,
        r#"{"ok": false, "error": "EOF while parsing a value at line 1 column 0"}"#,
    );
}

#[test]
fn programs_are_reported_on() {
    assert_eq!(
        command_outcome("dotnet", true, "exit status: 0", b" out\n", b"err \n").unwrap(),
        "out\n\nerr"
    );
    assert_eq!(outcome("dotnet", true, "", "", "").unwrap(), "");
    match command_outcome("dotnet", false, "exit status: 3", b"o\xff", b"e") {
        Err(ShopError::Refused(m)) => {
            assert_eq!(m, "dotnet exited exit status: 3:\no\u{fffd}\ne")
        }
        _ => panic!("not refused"),
    }
}
