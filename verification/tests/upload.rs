use serde_json::Value;
use vpm_shop::codec::{encode, parse, pretty};
use vpm_shop::registry::{find_zip, version_exists};
use vpm_shop::request::{Field, UploadForm};
use vpm_shop::upload::{Action, Event, Settings, Stage, advance, start};

fn value(text: &str) -> Value {
    serde_json::from_str(text).unwrap()
}

fn settings() -> Settings {
    Settings {
        username: "me".to_string(),
        password: "pw".to_string(),
        host: "https://x.y/".to_string(),
        categories: vec!["Props".to_string(), "Misc".to_string()],
        author: "Me".to_string(),
    }
}

fn form(demote: bool) -> UploadForm {
    let mut f = UploadForm::new();
    f.fill(Field::Username, Some("me".to_string()));
    f.fill(Field::Password, Some("pw".to_string()));
    f.fill(Field::Name, Some("com.a.one".to_string()));
    f.fill(Field::Version, Some("1.0.0".to_string()));
    if demote {
        f.fill(Field::Demote, Some("1".to_string()));
    }
    f.add_file(Some("a.zip".to_string()), Some(10));
    f
}

const EMPTY: &str = "{\"packages\": {}}";

fn registry_event(text: &str) -> Event {
    Event::Registry(text.to_string())
}

fn report(text: &str) -> Event {
    Event::Report(text.to_string())
}

#[test]
fn a_new_package_is_published() {
    let s = settings();
    let (st, a) = start(&s, form(false));
    assert!(matches!(a, Action::ReadRegistry));
    let (st, a) = advance(&s, st, registry_event(EMPTY));
    assert!(matches!(a, Action::Ingest { directory } if directory == "Misc/com.a.one"));
    let meta = parse("{\"name\": \"x\", \"unity\": \"2019.4\"}").unwrap();
    let (st, a) = advance(&s, st, Event::Manifest(Some(meta)));
    match a {
        Action::Build { directory, zip, manifest } => {
            assert_eq!(directory, "Misc/com.a.one");
            assert_eq!(zip, "com.a.one-1.0.0.zip");
            let manifest = encode(manifest);
            assert_eq!(manifest["name"], value("\"com.a.one\""));
            assert_eq!(manifest["unity"], value("\"2019.4\""));
            assert_eq!(manifest["author"], value("{\"name\": \"Me\"}"));
            assert_eq!(
                manifest["url"],
                value("\"https://x.y/Misc/com.a.one/com.a.one-1.0.0.zip\"")
            );
        }
        _ => panic!("not built"),
    }
    let (st, a) = advance(&s, st, Event::Done);
    assert!(matches!(a, Action::ValidateManifest));
    let (st, a) = advance(&s, st, report("manifest fine"));
    match a {
        Action::MoveZip(file) => assert_eq!(file, "Misc/com.a.one/com.a.one-1.0.0.zip"),
        _ => panic!("not moved"),
    }
    let (st, a) = advance(&s, st, Event::Done);
    assert!(matches!(a, Action::Hash));
    let (st, a) = advance(&s, st, Event::Checksum("c0ffee".to_string()));
    assert!(matches!(a, Action::ReadRegistry));
    let (st, a) = advance(&s, st, registry_event(EMPTY));
    let text = match a {
        Action::StoreRegistry(after) => pretty(after),
        _ => panic!("not stored"),
    };
    assert!(version_exists(&text, "com.a.one", "1.0.0").unwrap());
    assert_eq!(
        find_zip(&text, &s.host, "com.a.one", "1.0.0").unwrap(),
        "Misc/com.a.one/com.a.one-1.0.0.zip"
    );
    assert_eq!(
        value(&text)["packages"]["com.a.one"]["versions"]["1.0.0"]["zipSHA256"],
        value("\"c0ffee\"")
    );
    let (st, a) = advance(&s, st, Event::Done);
    assert!(matches!(a, Action::Regenerate));
    let (st, a) = advance(&s, st, report("regenerated"));
    assert!(matches!(a, Action::ValidateListing));
    let (st, a) = advance(&s, st, report("listing fine"));
    assert!(matches!(st, Stage::Over));
    match a {
        Action::Reply(ok, text) => {
            assert!(ok);
            assert_eq!(
                text,
                "Package <b>com.a.one</b> v1.0.0 uploaded and published.<br>\
                 <b>Zip:</b> <a href=\"https://x.y/Misc/com.a.one/com.a.one-1.0.0.zip\">com.a.one</a><br>\
                 <b>Master repo:</b> <a href=\"https://x.y/index.json\">https://x.y/index.json</a><br>\
                 <b>zipSHA256:</b> <code>c0ffee</code><br>\
                 <hr><b>Manifest validation (VCC DLL):</b><br><pre>manifest fine</pre>\
                 <b>Repo validation:</b><br><pre>listing fine</pre>\
                 <b>Category regen:</b><br><pre>regenerated</pre>"
            );
        }
        _ => panic!("not answered"),
    }
}

const LISTED: &str = r#"{"packages": {"com.a.one": {"versions": {
    "1.0.0": {"url": "https://x.y/Props/com.a.one/com.a.one-1.0.0.zip", "category": "Props"}}}}}"#;

/// Brings an upload to the end of the validation of its manifest.
fn validated(s: &Settings, demote: bool) -> (Stage, Action) {
    let (st, _) = start(s, form(demote));
    let (st, _) = advance(s, st, registry_event(LISTED));
    let (st, _) = advance(s, st, Event::Manifest(None));
    let (st, _) = advance(s, st, Event::Done);
    advance(s, st, report("fine"))
}

/// Brings an upload from its move to its answer.
fn finish(s: &Settings, st: Stage, registry: &str) -> (bool, String) {
    let (st, _) = advance(s, st, Event::Done);
    let (st, _) = advance(s, st, Event::Checksum("00".to_string()));
    let (st, _) = advance(s, st, registry_event(registry));
    let (st, _) = advance(s, st, Event::Done);
    let (st, _) = advance(s, st, report("r"));
    match advance(s, st, report("l")) {
        (Stage::Over, Action::Reply(ok, text)) => (ok, text),
        _ => panic!("not answered"),
    }
}

#[test]
fn another_upload_becomes_a_candidate() {
    let s = settings();
    let (st, a) = validated(&s, false);
    match a {
        Action::MoveZip(file) => {
            assert_eq!(file, "Props/com.a.one/com.a.one-1.0.0-rc.1.zip")
        }
        _ => panic!("not moved"),
    }
    let (ok, text) = finish(&s, st, LISTED);
    assert!(ok);
    assert!(text.starts_with(
        "Version <b>1.0.0</b> already existed, so this upload was published as \
         <b>rc candidate 1.0.0-rc.1</b> and the old version was kept intact.<br>\
         Package <b>com.a.one</b> v1.0.0-rc.1 uploaded and published.<br>"
    ));
}

#[test]
fn a_demotion_makes_room_first() {
    let s = settings();
    let (st, a) = validated(&s, true);
    assert!(matches!(a, Action::ReadRegistry));
    let (st, a) = advance(&s, st, registry_event(LISTED));
    match a {
        Action::Rename(renames) => {
            assert_eq!(renames.len(), 1);
            assert_eq!(renames[0].file, "Props/com.a.one/com.a.one-1.0.0.zip");
            assert_eq!(renames[0].name, "com.a.one-1.0.0-rc.1.zip");
        }
        _ => panic!("not renamed"),
    }
    let (st, a) = advance(&s, st, Event::Done);
    let text = match a {
        Action::StoreRegistry(after) => pretty(after),
        _ => panic!("not stored"),
    };
    assert!(!version_exists(&text, "com.a.one", "1.0.0").unwrap());
    assert!(version_exists(&text, "com.a.one", "1.0.0-rc.1").unwrap());
    let (st, a) = advance(&s, st, Event::Done);
    match a {
        Action::MoveZip(file) => assert_eq!(file, "Props/com.a.one/com.a.one-1.0.0.zip"),
        _ => panic!("not moved"),
    }
    let (ok, answer) = finish(&s, st, &text);
    assert!(ok);
    assert!(answer.starts_with(
        "Existing stable version <b>1.0.0</b> demoted to <b>1.0.0-rc.1</b>.Package <b>com.a.one</b> v1.0.0"
    ));
}

#[test]
fn nothing_makes_room_where_nothing_is_listed() {
    let s = settings();
    let (st, _) = validated(&s, true);
    let (st, a) = advance(&s, st, registry_event(EMPTY));
    assert!(matches!(a, Action::MoveZip(_)));
    let (ok, answer) = finish(&s, st, EMPTY);
    assert!(ok);
    assert!(answer.starts_with(
        "No existing stable version <b>1.0.0</b> to demote — published as-is.<br>Package"
    ));
}

#[test]
fn a_demotion_that_fails_ends_the_upload() {
    let s = settings();
    let (st, _) = validated(&s, true);
    let bad = r#"{"packages": {"com.a.one": {"versions": {"1.0.0": {}}}}}"#;
    let (st, a) = advance(&s, st, registry_event(bad));
    match a {
        Action::Rename(renames) => assert!(renames.is_empty()),
        _ => panic!("not renamed"),
    }
    match advance(&s, st, Event::Done) {
        (Stage::Over, Action::Reply(ok, text)) => {
            assert!(!ok);
            assert_eq!(text, "ver_entry has no url");
        }
        _ => panic!("not answered"),
    }
}

#[test]
fn bad_requests_are_answered_at_once() {
    let s = settings();
    match start(&s, UploadForm::new()) {
        (Stage::Over, Action::Reply(ok, text)) => {
            assert!(!ok);
            assert_eq!(text, "authentication failed (wrong username/password)");
        }
        _ => panic!("not answered"),
    }
    let mut f = form(false);
    f.add_file(Some("b.zip".to_string()), Some(0));
    let (st, _) = start(&s, f);
    match advance(&s, st, registry_event(EMPTY)) {
        (Stage::Over, Action::Reply(ok, text)) => {
            assert!(!ok);
            assert_eq!(text, "uploaded file 'b.zip' is empty or unreadable");
        }
        _ => panic!("not answered"),
    }
}

#[test]
fn the_registry_is_left_alone_where_it_has_no_say() {
    let s = settings();
    let mut f = form(true);
    f.fill(Field::Category, Some("Props".to_string()));
    let (st, a) = start(&s, f);
    assert!(matches!(a, Action::Ingest { directory } if directory == "Props/com.a.one"));
    assert!(matches!(st, Stage::Ingesting(_)));
    let mut f = form(true);
    f.fill(Field::Category, Some("Nope".to_string()));
    match start(&s, f) {
        (Stage::Over, Action::Reply(false, text)) => {
            assert_eq!(text, "invalid category 'Nope' (choose from: Props, Misc)")
        }
        _ => panic!("not answered"),
    }
}

#[test]
fn failures_are_answered_with_the_reason() {
    let s = settings();
    let (st, _) = validated(&s, false);
    match advance(&s, st, Event::Failed("disk full".to_string())) {
        (Stage::Over, Action::Reply(ok, text)) => {
            assert!(!ok);
            assert_eq!(text, "disk full");
        }
        _ => panic!("not answered"),
    }
    let (st, _) = start(&s, form(false));
    match advance(&s, st, Event::Done) {
        (Stage::Over, Action::Reply(ok, _)) => assert!(!ok),
        _ => panic!("not answered"),
    }
}

#[test]
fn an_odd_registry_is_not_entered() {
    let s = settings();
    let (st, _) = validated(&s, false);
    let (st, _) = advance(&s, st, Event::Done);
    let (st, _) = advance(&s, st, Event::Checksum("00".to_string()));
    match advance(&s, st, registry_event("{}")) {
        (Stage::Over, Action::Reply(ok, text)) => {
            assert!(!ok);
            assert_eq!(text, "master repo has no 'packages'");
        }
        _ => panic!("not answered"),
    }
}
