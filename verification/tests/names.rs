use vpm_shop::names::{
    id_of_lowercase, is_valid_pkg_id, is_valid_version, sanitize_dir, sanitize_name,
};
use vpm_shop::urls::{index_url, url_path, zip_file_name, zip_path, zip_url};

#[test]
fn names_are_sanitized() {
    assert_eq!(sanitize_name("  My Cool Package "), "my.cool.package");
    assert_eq!(sanitize_name("com.author.package"), "com.author.package");
    assert_eq!(sanitize_name("A  B"), "a..b");
    assert_eq!(sanitize_name(" \t\n"), "");
    assert_eq!(sanitize_name("ÄÖ Ü"), "äö.ü");
    assert_eq!(id_of_lowercase("a b  c"), "a.b..c");
}

#[test]
fn names_are_sanitized_once() {
    for name in ["  My Cool Package ", "A  B", "", " \t", "a\tB", "com.author.package"] {
        let once = sanitize_name(name);
        assert_eq!(sanitize_name(&once), once);
        assert_eq!(once.trim(), once);
        assert!(!once.contains(' '));
        assert!(!once.contains(|c: char| c.is_ascii_uppercase()));
    }
    assert_eq!(sanitize_name("\ta\tB "), "a\tb");
    assert_eq!(sanitize_name(" \u{212a}ÄΑΣ B "), "käας.b");
}

#[test]
fn directories_are_sanitized() {
    assert_eq!(sanitize_dir("com.author.package-1_x"), "com.author.package-1_x");
    assert_eq!(sanitize_dir("a/b\\c d"), "a-b-c-d");
    assert_eq!(sanitize_dir("ä"), "-");
    assert_eq!(sanitize_dir(&sanitize_dir("ä b/c.d")), sanitize_dir("ä b/c.d"));
    assert_eq!(sanitize_dir(""), "");
}

#[test]
fn directories_of_ids_are_the_ids() {
    let id = "com.author.package_2";
    assert!(is_valid_pkg_id(id));
    assert_eq!(sanitize_dir(id), id);
    assert_eq!(sanitize_name(id), id);
}

#[test]
fn package_ids_are_told_apart() {
    assert!(is_valid_pkg_id("com.author.package"));
    assert!(is_valid_pkg_id("0"));
    assert!(is_valid_pkg_id("a-b_c.d"));
    assert!(!is_valid_pkg_id(""));
    assert!(!is_valid_pkg_id(".com"));
    assert!(!is_valid_pkg_id("-a"));
    assert!(!is_valid_pkg_id("Com.author"));
    assert!(!is_valid_pkg_id("com author"));
    assert!(!is_valid_pkg_id("com.äuthor"));
    let longest = "a".repeat(128);
    let longer = "a".repeat(129);
    assert!(is_valid_pkg_id(&longest));
    assert!(!is_valid_pkg_id(&longer));
}

#[test]
fn versions_are_told_apart() {
    assert!(is_valid_version("1.0"));
    assert!(is_valid_version("1.0.0"));
    assert!(is_valid_version("1.2.3.4"));
    assert!(is_valid_version("1.0.0-rc.1"));
    assert!(is_valid_version("1.0.0+build"));
    assert!(is_valid_version("1.0.0-anything goes / here"));
    assert!(!is_valid_version("1"));
    assert!(!is_valid_version(""));
    assert!(!is_valid_version("1."));
    assert!(!is_valid_version(".1"));
    assert!(!is_valid_version("1..2"));
    assert!(!is_valid_version("1.x"));
    assert!(!is_valid_version("v1.0"));
    assert!(!is_valid_version("-1.0"));
    assert!(!is_valid_version("1.0 -rc"));
}

#[test]
fn addresses_are_built() {
    assert_eq!(index_url("https://x.y/"), "https://x.y/index.json");
    assert_eq!(index_url("https://x.y///"), "https://x.y/index.json");
    assert_eq!(zip_file_name("pkg", "1.0.0"), "pkg-1.0.0.zip");
    assert_eq!(zip_path("Props", "pkg", "1.0.0"), "Props/pkg/pkg-1.0.0.zip");
    assert_eq!(
        zip_url("https://x.y/", "Props", "pkg", "1.0.0"),
        "https://x.y/Props/pkg/pkg-1.0.0.zip"
    );
}

#[test]
fn addresses_lead_to_their_files() {
    let url = zip_url("https://x.y", "Props", "pkg", "1.0.0");
    assert_eq!(url_path("https://x.y/", &url), zip_path("Props", "pkg", "1.0.0"));
    assert_eq!(url_path("https://x.y", "https://x.y/A/b/c.zip?dl=1"), "A/b/c.zip");
    assert_eq!(url_path("https://x.y", "https://z/A/b/c.zip"), "https://z/A/b/c.zip");
    assert_eq!(url_path("https://x.y", "https://x.yz/A"), "https://x.yz/A");
}
