use serde_json::Value;
use vpm_shop::codec::{encode, parse};
use vpm_shop::demotion::{demote_existing_version, rename_zip_version};
use vpm_shop::error::ShopError;
use vpm_shop::registry::{find_zip, version_exists};

const HOST: &str = "https://x.y/";

fn value(text: &str) -> Value {
    serde_json::from_str(text).unwrap()
}

fn registry() -> String {
    r#"{"packages": {"p": {"extra": 1, "versions": {
        "1.0.0": {"version": "1.0.0", "url": "https://x.y/C/p/p-1.0.0.zip", "k": true},
        "1.0.0-rc.1": {"version": "1.0.0-rc.1", "url": "https://x.y/C/p/p-1.0.0-rc.1.zip"},
        "1.0.0-rc.2": {"version": "1.0.0-rc.2", "url": "https://x.y/C/p/p-1.0.0-rc.2.zip"},
        "1.0.0-rc.4": {"version": "1.0.0-rc.4", "url": "https://x.y/D/q/old.zip?a"},
        "2.0.0": {}
    }}}}"#
        .to_string()
}

fn refusal(text: &str, name: &str, version: &str, slot: Option<u64>) -> String {
    match demote_existing_version(text, HOST, name, version, slot).outcome {
        Err(ShopError::Refused(m)) => m,
        _ => panic!("not refused"),
    }
}

#[test]
fn a_version_becomes_the_next_candidate() {
    let d = demote_existing_version(&registry(), HOST, "p", "1.0.0", None);
    let (after, note) = d.outcome.unwrap();
    assert_eq!(note, "Existing stable version <b>1.0.0</b> demoted to <b>1.0.0-rc.5</b>.");
    assert_eq!(d.renames.len(), 1);
    assert_eq!(d.renames[0].file, "C/p/p-1.0.0.zip");
    assert_eq!(d.renames[0].name, "p-1.0.0-rc.5.zip");
    let after = encode(after);
    let versions = after["packages"]["p"]["versions"].as_object().unwrap();
    assert_eq!(versions.len(), 5);
    assert!(!versions.contains_key("1.0.0"));
    assert_eq!(
        versions["1.0.0-rc.5"],
        value(r#"{"version": "1.0.0-rc.5", "url": "https://x.y/C/p/p-1.0.0-rc.5.zip", "k": true}"#)
    );
}

#[test]
fn candidates_from_the_slot_on_move_up() {
    let d = demote_existing_version(&registry(), HOST, "p", "1.0.0", Some(2));
    let (after, note) = d.outcome.unwrap();
    assert_eq!(
        note,
        "Existing stable version <b>1.0.0</b> demoted to <b>1.0.0-rc.2</b>. Existing rc candidates at/after slot 2 upgraded by 1: 1.0.0-rc.4→1.0.0-rc.5, 1.0.0-rc.2→1.0.0-rc.3."
    );
    let renames: Vec<(String, String)> =
        d.renames.into_iter().map(|r| (r.file, r.name)).collect();
    assert_eq!(
        renames,
        vec![
            ("D/q/old.zip".to_string(), "q-1.0.0-rc.5.zip".to_string()),
            ("C/p/p-1.0.0-rc.2.zip".to_string(), "p-1.0.0-rc.3.zip".to_string()),
            ("C/p/p-1.0.0.zip".to_string(), "p-1.0.0-rc.2.zip".to_string()),
        ]
    );
    assert_eq!(
        encode(after),
        value(
            r#"{"packages": {"p": {"extra": 1, "versions": {
                "1.0.0-rc.1": {"version": "1.0.0-rc.1", "url": "https://x.y/C/p/p-1.0.0-rc.1.zip"},
                "1.0.0-rc.2": {"version": "1.0.0-rc.2", "url": "https://x.y/C/p/p-1.0.0-rc.2.zip", "k": true},
                "1.0.0-rc.3": {"version": "1.0.0-rc.3", "url": "https://x.y/C/p/p-1.0.0-rc.3.zip"},
                "1.0.0-rc.5": {"version": "1.0.0-rc.5", "url": "https://x.y/D/q/q-1.0.0-rc.5.zip"},
                "2.0.0": {}
            }}}}"#
        )
    );
}

#[test]
fn a_slot_beyond_all_candidates_moves_none() {
    let d = demote_existing_version(&registry(), HOST, "p", "1.0.0", Some(40));
    let (after, note) = d.outcome.unwrap();
    assert_eq!(note, "Existing stable version <b>1.0.0</b> demoted to <b>1.0.0-rc.40</b>.");
    let text = serde_json::to_string(&encode(after)).unwrap();
    assert!(version_exists(&text, "p", "1.0.0-rc.40").unwrap());
    assert!(version_exists(&text, "p", "1.0.0-rc.4").unwrap());
    assert!(!version_exists(&text, "p", "1.0.0").unwrap());
}

#[test]
fn the_first_candidate_is_number_one() {
    let text = r#"{"packages": {"p": {"versions": {
        "1.0.0": {"url": "https://x.y/C/p/p-1.0.0.zip"}}}}}"#;
    let (after, _) = demote_existing_version(text, HOST, "p", "1.0.0", None).outcome.unwrap();
    assert_eq!(
        encode(after),
        value(
            r#"{"packages": {"p": {"versions": {"1.0.0-rc.1": {
                "version": "1.0.0-rc.1", "url": "https://x.y/C/p/p-1.0.0-rc.1.zip"}}}}}"#
        )
    );
}

#[test]
fn demotions_are_refused_for_what_is_missing() {
    assert_eq!(refusal("{}", "p", "1.0.0", None), "master repo has no 'packages'");
    assert_eq!(refusal(&registry(), "q", "1.0.0", None), "package 'q' not found in registry");
    assert_eq!(
        refusal(r#"{"packages": {"p": {"versions": 1}}}"#, "p", "1.0.0", None),
        "no versions for 'p'"
    );
    assert_eq!(
        refusal(&registry(), "p", "9.0.0", None),
        "version '9.0.0' not found for 'p' — nothing to demote"
    );
    assert_eq!(refusal(&registry(), "p", "1.0.0", Some(0)), "rc_slot must be >= 1");
    assert_eq!(refusal(&registry(), "p", "2.0.0", None), "ver_entry has no url");
    assert!(demote_existing_version("x", HOST, "p", "1.0.0", None).outcome.is_err());
}

#[test]
fn renames_before_a_failure_are_still_asked_for() {
    let text = r#"{"packages": {"p": {"versions": {
        "1.0.0": {}, "1.0.0-rc.3": {"url": "https://x.y/C/p/a.zip"},
        "1.0.0-rc.1": {"url": "https://x.y/C/p/b.zip"}}}}}"#;
    let d = demote_existing_version(text, HOST, "p", "1.0.0", Some(2));
    assert_eq!(d.renames.len(), 1);
    assert_eq!(d.renames[0].file, "C/p/a.zip");
    assert_eq!(d.renames[0].name, "p-1.0.0-rc.4.zip");
    assert_eq!(d.outcome.unwrap_err().text(), "ver_entry has no url");
}

#[test]
fn no_room_is_left_after_the_last_candidate() {
    let text = r#"{"packages": {"p": {"versions": {
        "1.0.0": {"url": "https://x.y/C/p/a.zip"},
        "1.0.0-rc.18446744073709551615": {"url": "https://x.y/C/p/b.zip"}}}}}"#;
    let d = demote_existing_version(text, HOST, "p", "1.0.0", None);
    assert!(d.renames.is_empty());
    assert!(matches!(d.outcome, Err(ShopError::Broken(_))));
}

#[test]
fn entries_get_another_version() {
    let entry = parse(r#"{"url": "https://x.y/C/p/anything.zip?x", "n": 1}"#).unwrap();
    let (after, rename) = rename_zip_version(entry, HOST, "3.0.0").unwrap();
    assert_eq!(
        encode(after),
        value(r#"{"url": "https://x.y/C/p/p-3.0.0.zip", "n": 1, "version": "3.0.0"}"#)
    );
    assert_eq!(rename.file, "C/p/anything.zip");
    assert_eq!(rename.name, "p-3.0.0.zip");
}

#[test]
fn entries_without_a_good_address_are_refused() {
    let text = |j: &str| rename_zip_version(parse(j).unwrap(), HOST, "3.0.0").unwrap_err();
    assert_eq!(text("{}").text(), "ver_entry has no url");
    assert_eq!(text("{\"url\": 1}").text(), "ver_entry has no url");
    assert_eq!(
        text("{\"url\": \"https://x.y//p/f.zip\"}").text(),
        "cannot derive category from url https://x.y//p/f.zip"
    );
    assert_eq!(
        text("{\"url\": \"https://x.y/f.zip\"}").text(),
        "cannot derive dirname from url https://x.y/f.zip"
    );
    assert_eq!(text("{\"url\": \"\"}").text(), "cannot derive category from url ");
}

#[test]
fn demoted_versions_lead_to_their_renamed_files() {
    let d = demote_existing_version(&registry(), HOST, "p", "1.0.0", Some(1));
    let text = vpm_shop::codec::pretty(d.outcome.unwrap().0);
    for (rename, version) in d.renames.iter().zip(["1.0.0-rc.5", "1.0.0-rc.3", "1.0.0-rc.2"]) {
        let dir = rename.file.rsplit_once('/').unwrap().0;
        assert_eq!(
            find_zip(&text, HOST, "p", version).unwrap(),
            format!("{dir}/{}", rename.name)
        );
    }
}
