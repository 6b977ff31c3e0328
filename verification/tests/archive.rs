use vpm_shop::archive::{
    Extract, Ingest, asset_target, extract_action, goes_into_directory, ingest_by_suffix, ingest_kind,
    is_gzip, kept_in_conversion, kept_in_rebuild, with_slashes, zip_layout,
};
use vpm_shop::paths::{FilePath, sort_paths};

fn path(text: &str) -> FilePath {
    FilePath { parts: text.split('/').map(|p| p.as_bytes().to_vec()).collect() }
}

fn shown(p: &FilePath) -> String {
    let parts: Vec<String> =
        p.parts.iter().map(|b| String::from_utf8(b.clone()).unwrap()).collect();
    parts.join("/")
}

fn names(list: &[&str]) -> Vec<String> {
    zip_layout(list.iter().map(|t| path(t)).collect()).into_iter().map(|e| e.name).collect()
}

#[test]
fn paths_are_sorted_by_their_names() {
    let sorted = sort_paths(vec![
        path("b"),
        path("a/c"),
        path("a.b"),
        path("a/b/z"),
        path("a"),
        path("B"),
        path("a/b"),
    ]);
    let shown: Vec<String> = sorted.iter().map(shown).collect();
    assert_eq!(shown, vec!["B", "a", "a/b", "a/b/z", "a/c", "a.b", "b"]);
}

#[test]
fn many_paths_are_sorted() {
    let mut list: Vec<String> = Vec::new();
    let mut x: u64 = 7;
    for _ in 0..200 {
        x = x.wrapping_mul(6364136223846793005).wrapping_add(1442695040888963407);
        list.push(format!("d{}/f{}", (x >> 33) % 7, (x >> 40) % 50));
    }
    let sorted = sort_paths(list.iter().map(|t| path(t)).collect());
    let got: Vec<Vec<Vec<u8>>> = sorted.into_iter().map(|p| p.parts).collect();
    let mut expected: Vec<Vec<Vec<u8>>> = list.iter().map(|t| path(t).parts).collect();
    expected.sort();
    assert_eq!(got, expected);
}

#[test]
fn package_files_start_with_the_manifest() {
    let entries = zip_layout(vec![path("b/x.txt"), path("a.txt")]);
    assert_eq!(entries.len(), 3);
    assert_eq!(entries[0].name, "package.json");
    assert!(entries[0].source.is_none());
    assert_eq!(entries[1].name, "a.txt");
    assert_eq!(shown(entries[1].source.as_ref().unwrap()), "a.txt");
    assert_eq!(entries[2].name, "b/x.txt");
    assert_eq!(names(&[]), vec!["package.json"]);
}

#[test]
fn package_files_do_not_depend_on_the_walk() {
    let a = names(&["a/1", "b", "a/2", "c/d/e"]);
    let b = names(&["c/d/e", "a/2", "a/1", "b"]);
    assert_eq!(a, b);
    assert_eq!(a, vec!["package.json", "a/1", "a/2", "b", "c/d/e"]);
}

#[test]
fn the_manifest_replaces_one_at_the_root() {
    assert_eq!(
        names(&["package.json", "a/package.json"]),
        vec!["package.json", "a/package.json"]
    );
}

#[test]
fn entry_names_are_text_with_slashes() {
    let odd = FilePath { parts: vec![b"a\\b".to_vec(), vec![b'c', 0xff]] };
    let entries = zip_layout(vec![odd]);
    assert_eq!(entries[1].name, "a/b/c\u{fffd}");
    assert_eq!(names(&["ä/ö"])[1], "ä/ö");
    assert_eq!(with_slashes("a\\b/c\\"), "a/b/c/");
}

#[test]
fn files_are_ingested_by_their_ending() {
    assert_eq!(ingest_kind("A.UnityPackage"), Ingest::Unitypackage);
    assert_eq!(ingest_kind("x.ZIP"), Ingest::Zip);
    assert_eq!(ingest_kind("zip"), Ingest::Raw);
    assert_eq!(ingest_kind("a.zip.txt"), Ingest::Raw);
    assert_eq!(ingest_kind(""), Ingest::Raw);
    assert_eq!(ingest_by_suffix(".zip"), Ingest::Zip);
    assert_eq!(ingest_by_suffix("x.ZIP"), Ingest::Raw);
}

#[test]
fn gzip_is_known_by_its_start() {
    assert!(is_gzip(&[0x1f, 0x8b, 8]));
    assert!(is_gzip(&[0x1f, 0x8b]));
    assert!(!is_gzip(&[0x1f]));
    assert!(!is_gzip(&[]));
    assert!(!is_gzip(&[0x8b, 0x1f]));
}

#[test]
fn assets_go_where_their_path_says() {
    let t = asset_target("  Assets/a.png\n").unwrap();
    assert_eq!(t.asset, "Assets/a.png");
    assert_eq!(t.meta, "Assets/a.png.meta");
    assert!(asset_target(" \r\n").is_none());
    assert!(asset_target("").is_none());
}

#[test]
fn assets_go_into_the_directory_of_the_package() {
    assert!(goes_into_directory("Assets/a.txt"));
    assert!(goes_into_directory("Assets/a.zip"));
    assert!(goes_into_directory("a.txt"));
    assert!(!goes_into_directory("com.a-1.0.0.zip"));
    assert!(!goes_into_directory("./com.a-1.0.0.zip"));
    assert!(!goes_into_directory("Assets/../com.a-1.0.0.zip"));
    assert!(!goes_into_directory("../a.txt"));
    assert!(!goes_into_directory("/a.txt"));
    assert!(!goes_into_directory(""));
}

#[test]
fn entries_are_extracted() {
    assert_eq!(extract_action("a/b", false), Extract::WriteFile);
    assert_eq!(extract_action("a/b/", true), Extract::MakeDirectory);
    assert_eq!(extract_action("", false), Extract::Skip);
    assert_eq!(extract_action("a/../b", false), Extract::Skip);
    assert_eq!(extract_action("..", true), Extract::Skip);
    assert_eq!(extract_action("a..b/...", false), Extract::WriteFile);
    assert_eq!(extract_action("/a/b", false), Extract::Skip);
    assert_eq!(extract_action("/a/", true), Extract::Skip);
    assert_eq!(extract_action("/", true), Extract::Skip);
}

#[test]
fn entries_are_kept_in_a_rebuild() {
    assert!(kept_in_rebuild("a", false));
    assert!(kept_in_rebuild("x/package.json", false));
    assert!(!kept_in_rebuild("package.json", false));
    assert!(!kept_in_rebuild("a/", true));
    assert!(!kept_in_rebuild("/a", false));
    assert!(!kept_in_rebuild("../a", false));
    assert!(!kept_in_rebuild("a/../../b", false));
    assert!(kept_in_rebuild("a/../b", false));
    assert!(kept_in_rebuild("a/./b", false));
}

#[test]
fn a_converted_folder_is_left_out() {
    assert!(kept_in_conversion("a", false, "f"));
    assert!(kept_in_conversion("foo/x", false, "f"));
    assert!(!kept_in_conversion("f/x", false, "f"));
    assert!(!kept_in_conversion("f", false, "f"));
    assert!(!kept_in_conversion("a/f/x", false, "a/f"));
    assert!(!kept_in_conversion("package.json", false, "f"));
    assert!(!kept_in_conversion("a/../b", false, "f"));
    assert!(!kept_in_conversion("", false, "f"));
    assert!(!kept_in_conversion("d/", true, "f"));
    assert!(!kept_in_conversion("/a", false, "f"));
}
