use vpm_shop::error::ShopError;
use vpm_shop::registry::{existing_category, find_zip, resolve_upload_version, version_exists};

const REGISTRY: &str = r#"{
    "name": "VPM Shop",
    "packages": {
        "com.a.one": {
            "versions": {
                "1.0.0": {"url": "https://x.y/Props/com.a.one/com.a.one-1.0.0.zip?d=1", "category": "Props"},
                "1.0.0-rc.2": {"url": "https://x.y/Props/com.a.one/com.a.one-1.0.0-rc.2.zip"},
                "1.0.0-rc.x": {},
                "1.0.0-rc.10": {"url": 5},
                "2.0.0": {"category": "Avatars"}
            }
        },
        "com.a.two": {"category": "Worlds", "versions": {"1.0.0": {"category": "Props"}}},
        "com.a.three": {"versions": []},
        "com.a.four": {"versions": {}}
    }
}"#;

fn refusal<T>(r: Result<T, ShopError>) -> String {
    match r {
        Err(ShopError::Refused(m)) => m,
        _ => panic!("not refused"),
    }
}

#[test]
fn listed_versions_exist() {
    assert!(version_exists(REGISTRY, "com.a.one", "1.0.0").unwrap());
    assert!(!version_exists(REGISTRY, "com.a.one", "3.0.0").unwrap());
    assert!(!version_exists(REGISTRY, "com.a.zero", "1.0.0").unwrap());
    assert!(!version_exists(REGISTRY, "com.a.three", "1.0.0").unwrap());
    assert!(!version_exists("[]", "com.a.one", "1.0.0").unwrap());
    assert_eq!(
        refusal(version_exists("", "com.a.one", "1.0.0")),
        "EOF while parsing a value at line 1 column 0"
    );
}

#[test]
fn files_of_versions_are_found() {
    assert_eq!(
        find_zip(REGISTRY, "https://x.y/", "com.a.one", "1.0.0").unwrap(),
        "Props/com.a.one/com.a.one-1.0.0.zip"
    );
    assert_eq!(
        find_zip(REGISTRY, "https://other", "com.a.one", "1.0.0-rc.2").unwrap(),
        "https://x.y/Props/com.a.one/com.a.one-1.0.0-rc.2.zip"
    );
}

#[test]
fn missing_files_are_refused() {
    let host = "https://x.y";
    assert_eq!(
        refusal(find_zip(REGISTRY, host, "com.a.zero", "1.0.0")),
        "package 'com.a.zero' not found in registry"
    );
    assert_eq!(
        refusal(find_zip(REGISTRY, host, "com.a.one", "3.0.0")),
        "version '3.0.0' not found for 'com.a.one'"
    );
    assert_eq!(
        refusal(find_zip(REGISTRY, host, "com.a.one", "1.0.0-rc.10")),
        "no url in ver_entry for 'com.a.one@1.0.0-rc.10'"
    );
    assert_eq!(
        refusal(find_zip(REGISTRY, host, "com.a.three", "1.0.0")),
        "version '1.0.0' not found for 'com.a.three'"
    );
}

#[test]
fn categories_of_packages_are_found() {
    assert_eq!(existing_category(REGISTRY, "com.a.one").unwrap(), Some("Props".to_string()));
    assert_eq!(existing_category(REGISTRY, "com.a.two").unwrap(), Some("Worlds".to_string()));
    assert_eq!(existing_category(REGISTRY, "com.a.three").unwrap(), None);
    assert_eq!(existing_category(REGISTRY, "com.a.four").unwrap(), None);
    assert_eq!(existing_category(REGISTRY, "com.a.zero").unwrap(), None);
    assert!(existing_category("{", "com.a.one").is_err());
}

#[test]
fn the_first_version_in_key_order_names_the_category() {
    let text = r#"{"packages": {"p": {"versions": {
        "2.0.0": {"category": "B"}, "10.0.0": {"category": "A"}}}}}"#;
    assert_eq!(existing_category(text, "p").unwrap(), Some("A".to_string()));
}

#[test]
fn any_version_can_name_the_category() {
    let text = r#"{"packages": {"p": {"category": 1, "versions": {
        "2.0.0": {"category": "B"}, "10.0.0": {}}}}}"#;
    assert_eq!(existing_category(text, "p").unwrap(), Some("B".to_string()));
    let odd = r#"{"packages": {"p": {"versions": {
        "1.0.0": 7, "1.1.0": {"category": null}, "1.2.0": {"category": ["C"]},
        "1.3.0": {"category": "D"}, "1.4.0": {"category": "E"}}}}}"#;
    assert_eq!(existing_category(odd, "p").unwrap(), Some("D".to_string()));
    let own = r#"{"packages": {"p": {"category": "Own", "versions": {
        "1.0.0": {"category": "B"}}}}}"#;
    assert_eq!(existing_category(own, "p").unwrap(), Some("Own".to_string()));
    let none = r#"{"packages": {"p": {"category": 1, "versions": {
        "2.0.0": {"category": 2}, "10.0.0": {}}}}}"#;
    assert_eq!(existing_category(none, "p").unwrap(), None);
}

#[test]
fn free_versions_stay_as_they_are() {
    assert_eq!(
        resolve_upload_version(REGISTRY, "com.a.one", "3.0.0").unwrap(),
        ("3.0.0".to_string(), false)
    );
    assert_eq!(
        resolve_upload_version(REGISTRY, "com.a.zero", "1.0.0").unwrap(),
        ("1.0.0".to_string(), false)
    );
}

#[test]
fn listed_versions_get_the_next_candidate() {
    let (version, bumped) = resolve_upload_version(REGISTRY, "com.a.one", "1.0.0").unwrap();
    assert_eq!((version.as_str(), bumped), ("1.0.0-rc.11", true));
    assert!(!version_exists(REGISTRY, "com.a.one", &version).unwrap());
    assert_eq!(
        resolve_upload_version(REGISTRY, "com.a.one", "2.0.0").unwrap(),
        ("2.0.0-rc.1".to_string(), true)
    );
    assert_eq!(
        resolve_upload_version(REGISTRY, "com.a.one", "1.0.0-rc.2").unwrap(),
        ("1.0.0-rc.2-rc.1".to_string(), true)
    );
}

#[test]
fn odd_candidate_numbers_are_read_as_numbers_are() {
    let text = r#"{"packages": {"p": {"versions": {
        "1.0.0": {}, "1.0.0-rc.007": {}, "1.0.0-rc.+8": {}, "1.0.0-rc.-9": {},
        "1.0.0-rc.99999999999999999999": {}, "1.0.0-rc.": {}}}}}"#;
    assert_eq!(
        resolve_upload_version(text, "p", "1.0.0").unwrap(),
        ("1.0.0-rc.9".to_string(), true)
    );
}

#[test]
fn no_candidate_is_left_after_the_last() {
    let text = r#"{"packages": {"p": {"versions": {
        "1.0.0": {}, "1.0.0-rc.18446744073709551615": {}}}}}"#;
    assert!(matches!(
        resolve_upload_version(text, "p", "1.0.0"),
        Err(ShopError::Broken(_))
    ));
}
