use steam_acf::acf::parse;
use steam_acf::acf::Extract;
use steam_acf::acf::ParseErrorKind;
use steam_acf::steamapps::SteamLibrary;

#[test]
fn new_library_is_empty() {
    let lib = SteamLibrary::new("/home/micael/.steam/steam/steamapps");
    assert_eq!(lib.manifests.len(), 0);
    assert_eq!(lib.path(), "/home/micael/.steam/steam/steamapps");
}

#[test]
fn select_manifest_files_keeps_acf_names() {
    let names = vec![
        "appmanifest_107100.acf".to_string(),
        "notes.txt".to_string(),
        "libraryfolders.vdf".to_string(),
        "appmanifest_322330.acf".to_string(),
    ];
    let picked = SteamLibrary::select_manifest_files(&names);
    assert_eq!(
        picked,
        vec!["appmanifest_107100.acf".to_string(), "appmanifest_322330.acf".to_string()]
    );
}

#[test]
fn find_libraries_collects_path_values() {
    let text = r#""LibraryFolders"
{
    "TimeNextStatsReport"  "1234"
    "1"  "/mnt/steam/SteamLibrary"
    "2"  "/data/games.steam"
}"#;
    let m = parse(text).ok().unwrap();
    let roots = SteamLibrary::find_libraries(&m);
    assert_eq!(roots, vec!["/mnt/steam/SteamLibrary".to_string(), "/data/games.steam".to_string()]);
}

#[test]
fn find_libraries_skips_shadowed_duplicates() {
    let text = r#""LibraryFolders"
{
    "1"  "/mnt/old.library"
    "1"  "/mnt/new.library"
}"#;
    let m = parse(text).ok().unwrap();
    let roots = SteamLibrary::find_libraries(&m);
    assert_eq!(roots, vec!["/mnt/new.library".to_string()]);
}

#[test]
fn load_manifests_counts_and_keeps_order() {
    let mut lib = SteamLibrary::new("/tmp/steamapps");
    let texts = vec![
        "\"AppState\" { \"appid\" \"10\" }".to_string(),
        "\"AppState\" { \"appid\" \"20\" \"name\" \"Two\" }".to_string(),
    ];
    let n = lib.load_manifests(&texts).ok().unwrap();
    assert_eq!(n, 2);
    assert_eq!(lib.manifests.len(), 2);
    let first: &i64 = lib.manifests[0].extract("appid").unwrap();
    assert_eq!(*first, 10);
}

#[test]
fn load_manifests_aborts_on_bad_text() {
    let mut lib = SteamLibrary::new("/tmp/steamapps");
    let good = "\"AppState\" { \"appid\" \"10\" }".to_string();
    let n = lib.load_manifests(&vec![good.clone()]).ok().unwrap();
    assert_eq!(n, 1);
    let texts = vec![good, "\"AppState\" { \"appid\" ".to_string()];
    let err = lib.load_manifests(&texts).err().unwrap();
    assert_eq!(err.kind, ParseErrorKind::Syntax);
    // the failed load left the library as it was
    assert_eq!(lib.manifests.len(), 1);
}
