use serde_json::Value;
use vpm_shop::codec::{encode, parse};
use vpm_shop::manifest::{
    Candidate, FoundFile, build_pkg_json, build_version_entry, find_internal_pkg_json,
    is_manifest, nearest_manifest, package_author,
};
use vpm_shop::paths::FilePath;
use vpm_shop::registry::{existing_category, find_zip};

fn value(text: &str) -> Value {
    serde_json::from_str(text).unwrap()
}

fn path(text: &str) -> FilePath {
    FilePath { parts: text.split('/').map(|p| p.as_bytes().to_vec()).collect() }
}

fn found(at: &str, text: &str) -> FoundFile {
    FoundFile { path: path(at), text: Some(text.to_string()) }
}

#[test]
fn manifests_have_their_name() {
    assert!(is_manifest(&path("package.json")));
    assert!(is_manifest(&path("a/b/package.json")));
    assert!(!is_manifest(&path("a/package.jsonx")));
    assert!(!is_manifest(&path("a/xpackage.json")));
    assert!(!is_manifest(&path("package.json/a")));
    assert!(!is_manifest(&path("Package.json")));
    assert!(!is_manifest(&FilePath { parts: vec![] }));
}

#[test]
fn the_nearest_manifest_is_taken() {
    let files = vec![
        found("a/b/package.json", "{\"name\": \"deep\"}"),
        found("readme.txt", "{\"name\": \"no\"}"),
        found("a/package.json", "{\"name\": \"first\"}"),
        found("b/package.json", "{\"name\": \"second\"}"),
    ];
    assert_eq!(
        encode(find_internal_pkg_json(&files).unwrap()),
        value("{\"name\": \"first\"}")
    );
}

#[test]
fn manifests_without_a_name_are_passed_over() {
    let files = vec![
        found("package.json", "{\"version\": \"1\"}"),
        found("a/package.json", "not json"),
        FoundFile { path: path("b/package.json"), text: None },
        found("c/d/package.json", "{\"name\": null}"),
    ];
    assert_eq!(encode(find_internal_pkg_json(&files).unwrap()), value("{\"name\": null}"));
    assert!(find_internal_pkg_json(&vec![]).is_none());
    assert!(find_internal_pkg_json(&vec![found("x", "{\"name\": 1}")]).is_none());
}

#[test]
fn manifests_have_defaults() {
    let m = build_pkg_json("p", "1.0.0", "C", "https://x.y/p.zip", None, "Me");
    assert_eq!(
        encode(m),
        value(
            r#"{"name": "p", "displayName": "p", "version": "1.0.0", "unity": "2022.3",
                "description": "", "keywords": [], "author": {"name": "Me"},
                "dependencies": {}, "vpmDependencies": {}, "category": "C",
                "url": "https://x.y/p.zip"}"#
        )
    );
}

#[test]
fn manifests_keep_what_the_upload_says() {
    let meta = parse(
        r#"{"name": "other", "displayName": "P!", "version": "9", "unity": "2019.4",
            "unityRelease": "31f1", "description": "d", "author": "A", "keywords": ["k"],
            "dependencies": {"a": "1"}, "vpmDependencies": null, "legacyPackages": ["l"],
            "category": "X", "url": "u", "ignored": true}"#,
    )
    .unwrap();
    let m = build_pkg_json("p", "1.0.0", "C", "https://x.y/p.zip", Some(&meta), "Me");
    assert_eq!(
        encode(m),
        value(
            r#"{"name": "p", "displayName": "P!", "version": "1.0.0", "unity": "2019.4",
                "unityRelease": "31f1", "description": "d", "author": "A", "keywords": ["k"],
                "dependencies": {"a": "1"}, "vpmDependencies": null, "legacyPackages": ["l"],
                "category": "C", "url": "https://x.y/p.zip"}"#
        )
    );
}

#[test]
fn manifests_drop_what_says_nothing() {
    let meta = parse(
        r#"{"displayName": 5, "unity": null, "unityRelease": "", "legacyPackages": []}"#,
    )
    .unwrap();
    let m = encode(build_pkg_json("p", "1.0.0", "C", "u", Some(&meta), "Me"));
    assert_eq!(m["displayName"], value("\"p\""));
    assert_eq!(m["unity"], value("\"2022.3\""));
    assert!(m.get("unityRelease").is_none());
    assert!(m.get("legacyPackages").is_none());
    let meta = parse(r#"{"legacyPackages": {"a": 1}}"#).unwrap();
    let m = encode(build_pkg_json("p", "1.0.0", "C", "u", Some(&meta), "Me"));
    assert!(m.get("legacyPackages").is_none());
}

#[test]
fn the_author_has_a_default() {
    assert_eq!(package_author(None), "VPM Shop");
    assert_eq!(package_author(Some("Me".to_string())), "Me");
}

#[test]
fn entries_agree_with_manifests() {
    let m = build_pkg_json("p", "1.0.0", "C", "https://x.y/C/p/p-1.0.0.zip", None, "Me");
    let url = "https://x.y/C/p/p-1.0.0.zip";
    let entry = encode(build_version_entry("p", "1.0.0", "C", url, &m, "ff"));
    let m = encode(m);
    assert_eq!(entry["zipSHA256"], value("\"ff\""));
    assert_eq!(entry.as_object().unwrap().len(), 11);
    for key in [
        "name", "displayName", "version", "unity", "description", "author", "url",
        "dependencies", "vpmDependencies", "category",
    ] {
        assert_eq!(entry[key], m[key]);
    }
    assert!(entry.get("keywords").is_none());
}

#[test]
fn published_entries_lead_to_their_file_and_category() {
    let host = "https://x.y/";
    let url = vpm_shop::urls::zip_url(host, "C", "p", "1.0.0");
    let m = build_pkg_json("p", "1.0.0", "C", &url, None, "Me");
    let entry = build_version_entry("p", "1.0.0", "C", &url, &m, "ff");
    let after =
        vpm_shop::edits::update_master_repo("{\"packages\": {}}", "p", "1.0.0", entry).unwrap();
    let text = vpm_shop::codec::pretty(after);
    assert_eq!(find_zip(&text, host, "p", "1.0.0").unwrap(), "C/p/p-1.0.0.zip");
    assert_eq!(existing_category(&text, "p").unwrap(), Some("C".to_string()));
}

#[test]
fn the_first_of_the_nearest_candidates_is_taken() {
    let candidate = |depth: usize, text: &str| Candidate { depth, value: parse(text).ok() };
    let nearest = nearest_manifest(vec![
        candidate(3, "{\"name\": 1}"),
        candidate(2, "{\"name\": 2}"),
        candidate(1, "{}"),
        candidate(1, "x"),
        candidate(2, "{\"name\": 3}"),
    ]);
    assert_eq!(encode(nearest.unwrap()), value("{\"name\": 2}"));
    assert!(nearest_manifest(vec![candidate(1, "[]")]).is_none());
}

#[test]
fn categories_do_not_drift() {
    let text = r#"{"packages": {"p": {"versions": {"2.0.0": {"category": "C"}}}}}"#;
    for version in ["1.0.0", "2.0.0", "3.0.0"] {
        let m = build_pkg_json("p", version, "C", "u", None, "Me");
        let entry = build_version_entry("p", version, "C", "u", &m, "ff");
        let after = vpm_shop::edits::update_master_repo(text, "p", version, entry).unwrap();
        let after = vpm_shop::codec::pretty(after);
        assert_eq!(existing_category(&after, "p").unwrap(), Some("C".to_string()));
    }
}
