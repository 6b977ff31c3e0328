use vpm_shop::error::ShopError;
use vpm_shop::request::{
    Field, Plan, Request, UploadForm, UploadedFile, check_files, check_request, field_kind,
    needs_registry, plan_upload,
};

fn text(s: &str) -> Option<String> {
    Some(s.to_string())
}

fn form() -> UploadForm {
    let mut f = UploadForm::new();
    f.fill(Field::Username, text("me"));
    f.fill(Field::Password, text("pw"));
    f.fill(Field::Name, text(" Com.Author Package "));
    f.fill(Field::Version, text(" 1.0.0 "));
    f.add_file(text("a.zip"), Some(3));
    f
}

fn refused(f: &UploadForm) -> String {
    match check_request(f, "me", "pw") {
        Err(ShopError::Refused(m)) => m,
        _ => panic!("not refused"),
    }
}

fn plan_refused(r: Result<Plan, ShopError>) -> String {
    match r {
        Err(ShopError::Refused(m)) => m,
        _ => panic!("not refused"),
    }
}

#[test]
fn fields_are_told_by_their_names() {
    assert_eq!(field_kind("username"), Field::Username);
    assert_eq!(field_kind("password"), Field::Password);
    assert_eq!(field_kind("name"), Field::Name);
    assert_eq!(field_kind("version"), Field::Version);
    assert_eq!(field_kind("category"), Field::Category);
    assert_eq!(field_kind("demote"), Field::Demote);
    assert_eq!(field_kind("rc_slot"), Field::RcSlot);
    assert_eq!(field_kind("file"), Field::File);
    assert_eq!(field_kind("File"), Field::Other);
    assert_eq!(field_kind(""), Field::Other);
}

#[test]
fn forms_are_filled_in() {
    let mut f = UploadForm::new();
    f.fill(Field::Category, text("a"));
    f.fill(Field::Category, text("b"));
    f.fill(Field::Demote, text("1"));
    f.fill(Field::Demote, None);
    f.fill(Field::Other, text("x"));
    f.fill(Field::File, text("x"));
    f.add_file(None, Some(0));
    assert_eq!(f.category, text("b"));
    assert_eq!(f.demote, None);
    assert_eq!(f.files.len(), 1);
    assert_eq!(f.files[0].name, "upload.bin");
    assert_eq!(f.files[0].size, Some(0));
}

#[test]
fn requests_are_read() {
    let mut f = form();
    f.fill(Field::Category, text("Props"));
    f.fill(Field::Demote, text("YES"));
    f.fill(Field::RcSlot, text(" 7 "));
    let r = check_request(&f, "me", "pw").unwrap();
    assert_eq!(r.name, "com.author.package");
    assert_eq!(r.version, "1.0.0");
    assert_eq!(r.category, text("Props"));
    assert!(r.demote);
    assert_eq!(r.rc_slot, Some(7));
}

#[test]
fn strangers_are_refused_first() {
    let auth = "authentication failed (wrong username/password)";
    assert_eq!(refused(&UploadForm::new()), auth);
    let mut f = form();
    f.fill(Field::Password, text("PW"));
    assert_eq!(refused(&f), auth);
    let mut f = form();
    f.fill(Field::Username, None);
    f.fill(Field::Name, None);
    assert_eq!(refused(&f), auth);
}

#[test]
fn requests_are_refused_in_turn() {
    let mut f = UploadForm::new();
    f.fill(Field::Username, text("me"));
    f.fill(Field::Password, text("pw"));
    assert_eq!(refused(&f), "no file uploaded");
    f.add_file(None, None);
    assert_eq!(refused(&f), "missing 'name'");
    f.fill(Field::Name, text("  "));
    assert_eq!(refused(&f), "missing 'name'");
    f.fill(Field::Name, text("Bad/Name"));
    assert_eq!(
        refused(&f),
        "invalid package id 'bad/name' (expected lowercase reverse-domain, e.g. com.author.package)"
    );
    f.fill(Field::Name, text("good.name"));
    assert_eq!(refused(&f), "missing 'version'");
    f.fill(Field::Version, text("1"));
    assert_eq!(refused(&f), "invalid version '1' (expected semver, e.g. 1.0.0)");
    f.fill(Field::Version, text("1.0"));
    f.fill(Field::RcSlot, text("x"));
    assert_eq!(
        refused(&f),
        "rc_slot must be a positive integer: invalid digit found in string"
    );
    f.fill(Field::RcSlot, text("99999999999999999999"));
    assert_eq!(
        refused(&f),
        "rc_slot must be a positive integer: number too large to fit in target type"
    );
    f.fill(Field::RcSlot, text("+"));
    assert_eq!(
        refused(&f),
        "rc_slot must be a positive integer: invalid digit found in string"
    );
    f.fill(Field::RcSlot, text("0"));
    assert_eq!(refused(&f), "rc_slot must be >= 1");
    f.fill(Field::RcSlot, text(" "));
    assert_eq!(check_request(&f, "me", "pw").unwrap().rc_slot, None);
}

#[test]
fn yes_has_four_spellings() {
    for (given, expected) in [
        ("1", true), ("true", true), ("On", true), ("yEs", true), ("no", false), ("0", false),
        ("", false), (" 1", false), ("y", false),
    ] {
        let mut f = form();
        f.fill(Field::Demote, text(given));
        assert_eq!(check_request(&f, "me", "pw").unwrap().demote, expected);
    }
    assert!(!check_request(&form(), "me", "pw").unwrap().demote);
}

const REGISTRY: &str = r#"{"packages": {"p": {"versions": {"1.0.0": {"category": "Props"}}}}}"#;

fn request(name: &str, category: Option<String>, demote: bool) -> Request {
    Request {
        name: name.to_string(),
        version: "1.0.0".to_string(),
        category,
        demote,
        rc_slot: None,
    }
}

fn cats() -> Vec<String> {
    vec!["Misc".to_string(), "Props".to_string()]
}

#[test]
fn uploads_are_planned() {
    let p = plan_upload(request("p", None, false), &cats(), REGISTRY).unwrap();
    assert_eq!((p.version.as_str(), p.bumped), ("1.0.0-rc.1", true));
    assert_eq!(p.asked, "1.0.0");
    assert_eq!(p.category, "Props");
    let p = plan_upload(request("new", None, false), &cats(), REGISTRY).unwrap();
    assert_eq!((p.version.as_str(), p.bumped), ("1.0.0", false));
    assert_eq!(p.category, "Misc");
    let p = plan_upload(request("p", None, true), &cats(), REGISTRY).unwrap();
    assert_eq!((p.version.as_str(), p.bumped), ("1.0.0", false));
    assert!(p.demote);
}

#[test]
fn categories_have_to_be_known() {
    let r = request("p", text("Worlds"), false);
    assert_eq!(
        plan_refused(plan_upload(r, &cats(), REGISTRY)),
        "invalid category 'Worlds' (choose from: Misc, Props)"
    );
    let r = request("new", None, false);
    assert_eq!(
        plan_refused(plan_upload(r, &vec!["Props".to_string()], REGISTRY)),
        "invalid category 'Misc' (choose from: Props)"
    );
}

#[test]
fn the_registry_is_read_where_it_is_needed() {
    let r = request("p", text("Props"), true);
    assert!(!needs_registry(&r));
    assert!(plan_upload(r, &cats(), "not json").is_ok());
    assert!(needs_registry(&request("p", None, true)));
    assert!(needs_registry(&request("p", text("Props"), false)));
    assert!(plan_upload(request("p", None, true), &cats(), "not json").is_err());
    let full = r#"{"packages": {"p": {"versions": {
        "1.0.0": {}, "1.0.0-rc.18446744073709551615": {}}}}}"#;
    assert!(matches!(
        plan_upload(request("p", text("Props"), false), &cats(), full),
        Err(ShopError::Broken(_))
    ));
}

#[test]
fn empty_files_are_refused() {
    let file = |name: &str, size| UploadedFile { name: name.to_string(), size };
    assert!(check_files(&vec![file("a", Some(1)), file("b", Some(2))]).is_ok());
    assert_eq!(
        check_files(&vec![file("a", Some(1)), file("b", Some(0)), file("c", None)])
            .unwrap_err()
            .text(),
        "uploaded file 'b' is empty or unreadable"
    );
    assert_eq!(
        check_files(&vec![file("c", None)]).unwrap_err().text(),
        "uploaded file 'c' is empty or unreadable"
    );
}
