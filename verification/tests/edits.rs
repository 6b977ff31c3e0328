use serde_json::Value;
use vpm_shop::codec::{encode, parse, pretty};
use vpm_shop::edits::{
    conversion_note, deletion_note, dependencies_note, edit_manifest, folder_of,
    manifest_or_empty, run_convert_to_vpm_dep, run_delete_version, run_set_deps,
    set_manifest_dependencies, update_master_repo,
};
use vpm_shop::error::ShopError;
use vpm_shop::json::Json;
use vpm_shop::registry::{find_zip, version_exists};
use vpm_shop::replies::api_package_deps;

const HOST: &str = "https://x.y";

fn value(text: &str) -> Value {
    serde_json::from_str(text).unwrap()
}

fn refused(r: Result<Json, ShopError>) -> String {
    match r {
        Err(ShopError::Refused(m)) => m,
        _ => panic!("not refused"),
    }
}

const TWO: &str = r#"{"n": 1, "packages": {
    "p": {"x": 2, "versions": {
        "1.0.0": {"url": "https://x.y/C/p/p-1.0.0.zip", "vpmDependencies": {"a": "1"}, "zipSHA256": "00", "k": 1},
        "2.0.0": {"url": "https://x.y/C/p/p-2.0.0.zip", "vpmDependencies": null, "zipSHA256": "01"}
    }},
    "q": {"versions": {"1.0.0": {"url": "https://x.y/C/q/q-1.0.0.zip"}}}
}}"#;

#[test]
fn versions_are_published() {
    let entry = parse("{\"url\": \"https://x.y/C/p/p-3.0.0.zip\"}").unwrap();
    let after = update_master_repo(TWO, "p", "3.0.0", entry).unwrap();
    let text = pretty(after);
    let mut expected = value(TWO);
    expected["packages"]["p"]["versions"]["3.0.0"] =
        value("{\"url\": \"https://x.y/C/p/p-3.0.0.zip\"}");
    assert_eq!(value(&text), expected);
    assert!(version_exists(&text, "p", "3.0.0").unwrap());
    assert_eq!(find_zip(&text, HOST, "p", "3.0.0").unwrap(), "C/p/p-3.0.0.zip");
}

#[test]
fn packages_are_published() {
    let after = update_master_repo("{\"packages\": {}}", "p", "1.0.0", Json::object()).unwrap();
    assert_eq!(encode(after), value(r#"{"packages": {"p": {"versions": {"1.0.0": {}}}}}"#));
    let after = update_master_repo("{\"packages\": null}", "p", "1.0.0", Json::Null).unwrap();
    assert_eq!(encode(after), value(r#"{"packages": {"p": {"versions": {"1.0.0": null}}}}"#));
    let text = r#"{"packages": {"p": {"category": "C"}}}"#;
    let after = update_master_repo(text, "p", "1.0.0", Json::object()).unwrap();
    assert_eq!(
        encode(after),
        value(r#"{"packages": {"p": {"category": "C", "versions": {"1.0.0": {}}}}}"#)
    );
}

#[test]
fn publications_need_packages() {
    assert_eq!(
        refused(update_master_repo("{}", "p", "1.0.0", Json::Null)),
        "master repo has no 'packages'"
    );
    assert_eq!(
        refused(update_master_repo("", "p", "1.0.0", Json::Null)),
        "EOF while parsing a value at line 1 column 0"
    );
    for text in [
        "{\"packages\": []}",
        "{\"packages\": {\"p\": 1}}",
        "{\"packages\": {\"p\": {\"versions\": \"v\"}}}",
    ] {
        assert!(matches!(
            update_master_repo(text, "p", "1.0.0", Json::Null),
            Err(ShopError::Broken(_))
        ));
    }
}

#[test]
fn versions_are_deleted() {
    let (file, after) = run_delete_version(TWO, HOST, "p", "1.0.0").unwrap();
    assert_eq!(file, "C/p/p-1.0.0.zip");
    let after = encode(after);
    let versions = after["packages"]["p"]["versions"].as_object().unwrap();
    assert_eq!(versions.len(), 1);
    assert!(versions.contains_key("2.0.0"));
    assert_eq!(after["packages"]["q"], value(TWO)["packages"]["q"]);
}

#[test]
fn a_package_goes_with_its_last_version() {
    let (file, after) = run_delete_version(TWO, HOST, "q", "1.0.0").unwrap();
    assert_eq!(file, "C/q/q-1.0.0.zip");
    let after = encode(after);
    assert!(after["packages"].get("q").is_none());
    assert_eq!(after["packages"]["p"], value(TWO)["packages"]["p"]);
    assert_eq!(after["n"], value("1"));
}

#[test]
fn deletions_are_refused_for_what_is_missing() {
    let why = |text: &str, name: &str, version: &str| match run_delete_version(
        text, HOST, name, version,
    ) {
        Err(ShopError::Refused(m)) => m,
        _ => panic!("not refused"),
    };
    assert_eq!(why(TWO, "z", "1.0.0"), "package 'z' not found");
    assert_eq!(why("{\"packages\": {\"p\": {}}}", "p", "1.0.0"), "no versions");
    assert_eq!(
        why("{\"packages\": {\"p\": {\"versions\": []}}}", "p", "1.0.0"),
        "versions not an object"
    );
    assert_eq!(why(TWO, "p", "3.0.0"), "version '3.0.0' not found");
    assert_eq!(
        why("{\"packages\": {\"p\": {\"versions\": {\"1.0.0\": {}}}}}", "p", "1.0.0"),
        "no url in ver_entry for 'p@1.0.0'"
    );
    assert_eq!(why("", "p", "1.0.0"), "EOF while parsing a value at line 1 column 0");
}

#[test]
fn deleting_undoes_publishing() {
    let entry = || parse("{\"url\": \"https://x.y/C/n/n-1.0.0.zip\"}").unwrap();
    for name in ["p", "new"] {
        let text = pretty(update_master_repo(TWO, name, "9.0.0", entry()).unwrap());
        let (_, back) = run_delete_version(&text, HOST, name, "9.0.0").unwrap();
        assert_eq!(encode(back), value(TWO));
    }
}

#[test]
fn publishing_undoes_deleting() {
    let entry = value(TWO)["packages"]["p"]["versions"]["1.0.0"].to_string();
    let (_, after) = run_delete_version(TWO, HOST, "p", "1.0.0").unwrap();
    let back = update_master_repo(&pretty(after), "p", "1.0.0", parse(&entry).unwrap()).unwrap();
    assert_eq!(encode(back), value(TWO));
}

#[test]
fn dependencies_are_set() {
    let deps = parse("{\"d\": \"1.0\"}").unwrap();
    let after = run_set_deps(TWO, "p", "1.0.0", deps, Json::Null, "ab").unwrap();
    let mut expected = value(TWO);
    let entry = &mut expected["packages"]["p"]["versions"]["1.0.0"];
    entry["dependencies"] = value("{\"d\": \"1.0\"}");
    entry["vpmDependencies"] = Value::Null;
    entry["zipSHA256"] = value("\"ab\"");
    assert_eq!(encode(after), expected);
}

#[test]
fn dependencies_need_an_entry() {
    let set = |text: &str, name: &str, version: &str| {
        run_set_deps(text, name, version, Json::Null, Json::Null, "ab")
    };
    assert_eq!(refused(set(TWO, "p", "3.0.0")), "version entry missing for p@3.0.0");
    assert_eq!(refused(set(TWO, "z", "1.0.0")), "version entry missing for z@1.0.0");
    assert_eq!(refused(set("null", "z", "1.0.0")), "version entry missing for z@1.0.0");
    assert_eq!(
        refused(set("{\"packages\": {\"p\": {\"versions\": {\"1.0.0\": 5}}}}", "p", "1.0.0")),
        "version entry missing for p@1.0.0"
    );
    assert!(matches!(set("[]", "p", "1.0.0"), Err(ShopError::Broken(_))));
    assert!(matches!(
        set("{\"packages\": {\"p\": {\"versions\": 1}}}", "p", "1.0.0"),
        Err(ShopError::Broken(_))
    ));
}

#[test]
fn manifests_get_other_dependencies() {
    let edited = edit_manifest(
        b"{\"name\": \"p\", \"dependencies\": 1}",
        parse("{\"a\": \"1\"}").unwrap(),
        Json::object(),
    )
    .unwrap();
    assert_eq!(
        encode(edited),
        value("{\"name\": \"p\", \"dependencies\": {\"a\": \"1\"}, \"vpmDependencies\": {}}")
    );
    let edited =
        set_manifest_dependencies(Json::Null, Json::Bool(true), Json::Unsigned(1)).unwrap();
    assert_eq!(encode(edited), value("{\"dependencies\": true, \"vpmDependencies\": 1}"));
    assert_eq!(
        refused(edit_manifest(b"{", Json::Null, Json::Null)),
        "EOF while parsing an object at line 1 column 1"
    );
    assert!(matches!(
        edit_manifest(b"[]", Json::Null, Json::Null),
        Err(ShopError::Broken(_))
    ));
}

#[test]
fn edited_dependencies_are_read() {
    let deps = || parse("{\"a\": \"1\"}").unwrap();
    let vpm = || parse("{\"b\": \"2\"}").unwrap();
    let manifest = b"{\"name\": \"p\", \"unity\": \"2022.3\", \"dependencies\": 1}";
    let text = pretty(edit_manifest(manifest, deps(), vpm()).unwrap());
    let reply = api_package_deps(text.as_bytes());
    assert_eq!(reply.status, 200);
    assert_eq!(
        encode(reply.body),
        value(
            r#"{"dependencies": {"a": "1"}, "vpmDependencies": {"b": "2"}, "unity": "2022.3"}"#
        )
    );
    let again = pretty(edit_manifest(text.as_bytes(), deps(), vpm()).unwrap());
    assert_eq!(again, text);
}

#[test]
fn folders_become_dependencies() {
    let after = run_convert_to_vpm_dep(TWO, "p", "1.0.0", "f", "cd").unwrap();
    let mut expected = value(TWO);
    let entry = &mut expected["packages"]["p"]["versions"]["1.0.0"];
    entry["vpmDependencies"] = value("{\"a\": \"1\", \"f\": \"1.0.0\"}");
    entry["zipSHA256"] = value("\"cd\"");
    assert_eq!(encode(after), expected);
    let after = run_convert_to_vpm_dep(TWO, "p", "2.0.0", "f", "cd").unwrap();
    assert_eq!(
        encode(after)["packages"]["p"]["versions"]["2.0.0"]["vpmDependencies"],
        value("{\"f\": \"1.0.0\"}")
    );
}

#[test]
fn converted_folders_are_read_back() {
    let after = run_convert_to_vpm_dep(TWO, "p", "1.0.0", "lib", "ff").unwrap();
    let text = pretty(after.clone());
    assert_eq!(encode(parse(&text).unwrap()), encode(after));
    let raw = "$serde_json::private::RawValue";
    let after = run_convert_to_vpm_dep(TWO, "p", "2.0.0", raw, "ff").unwrap();
    assert!(parse(&pretty(after)).is_err());
}

#[test]
fn conversions_need_an_entry() {
    let convert =
        |text: &str, name: &str, version: &str| run_convert_to_vpm_dep(text, name, version, "f", "cd");
    assert_eq!(refused(convert(TWO, "z", "1.0.0")), "package not found");
    assert_eq!(refused(convert(TWO, "p", "3.0.0")), "version not found");
    // The entry has no dependencies and no checksum to replace.
    assert!(matches!(convert(TWO, "q", "1.0.0"), Err(ShopError::Broken(_))));
    assert!(matches!(
        convert("{\"packages\": {\"p\": {}}}", "p", "1.0.0"),
        Err(ShopError::Broken(_))
    ));
    assert_eq!(refused(convert("null", "p", "1.0.0")), "package not found");
    assert!(convert("", "p", "1.0.0").is_err());
}

#[test]
fn folders_are_named_by_their_last_part() {
    assert_eq!(folder_of("Assets/Shaders"), "Shaders");
    assert_eq!(folder_of("Assets"), "Assets");
    assert_eq!(folder_of("Assets/"), "");
    assert_eq!(folder_of(""), "");
}

#[test]
fn unreadable_manifests_count_as_empty() {
    assert_eq!(encode(manifest_or_empty(b"{\"a\": 1}")), value("{\"a\": 1}"));
    assert_eq!(encode(manifest_or_empty(b"\xff")), value("{}"));
}

#[test]
fn edits_are_reported() {
    assert_eq!(deletion_note("p", "1.0.0", "done"), "removed p@1.0.0 (done)");
    assert_eq!(
        dependencies_note("p", "1.0.0", "0123456789abcdef0123"),
        "updated dependencies for p@1.0.0 (zipSHA256: 0123456789abcdef)"
    );
    assert_eq!(
        dependencies_note("p", "1.0.0", "0123"),
        "updated dependencies for p@1.0.0 (zipSHA256: 0123)"
    );
    assert_eq!(
        conversion_note("Assets/f", "f"),
        "converted folder 'Assets/f' to VPM dependency 'f'"
    );
}
