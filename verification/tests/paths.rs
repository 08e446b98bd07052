use replay_watch::path::{is_slp_file, Component, WatchPath, REPLAY_EXTENSION};
use replay_watch::text::{chars_of, eq_ignore_ascii_case, to_ascii_lower};

fn absolute(names: &[&str]) -> WatchPath {
    let mut parts = vec![Component::RootDir];
    for name in names {
        parts.push(Component::Normal(name.to_string()));
    }
    WatchPath::new(parts)
}

fn relative(names: &[&str]) -> WatchPath {
    WatchPath::new(names.iter().map(|name| Component::Normal(name.to_string())).collect())
}

#[test]
fn replay_extension_is_slp() {
    assert_eq!(REPLAY_EXTENSION, "slp");
}

#[test]
fn is_slp_file_accepts_the_replay_extension() {
    assert!(is_slp_file(&absolute(&["D", "a.slp"])));
    assert!(is_slp_file(&relative(&["Game_20240101T120000.slp"])));
}

#[test]
fn is_slp_file_ignores_case() {
    assert!(is_slp_file(&absolute(&["D", "A.SLP"])));
    assert!(is_slp_file(&absolute(&["D", "a.Slp"])));
    assert!(is_slp_file(&absolute(&["D", "a.sLP"])));
}

#[test]
fn is_slp_file_rejects_other_extensions() {
    assert!(!is_slp_file(&absolute(&["D", "a.txt"])));
    assert!(!is_slp_file(&absolute(&["D", "a.slpx"])));
    assert!(!is_slp_file(&absolute(&["D", "a.sl"])));
    assert!(!is_slp_file(&absolute(&["D", "a.slp.bak"])));
    assert!(!is_slp_file(&absolute(&["D", "a.s1p"])));
    assert!(!is_slp_file(&absolute(&["D", "a.\u{17f}lp"])));
}

#[test]
fn is_slp_file_needs_a_name_before_the_dot() {
    assert!(!is_slp_file(&absolute(&["D", ".slp"])));
    assert!(!is_slp_file(&absolute(&["D", "slp"])));
    assert!(!is_slp_file(&absolute(&["D", "aslp"])));
    assert!(is_slp_file(&absolute(&["D", "..slp"])));
    assert!(is_slp_file(&absolute(&["D", "a.b.slp"])));
}

#[test]
fn is_slp_file_looks_at_the_last_component_only() {
    assert!(!is_slp_file(&absolute(&["a.slp", "readme"])));
    assert!(!is_slp_file(&WatchPath::new(vec![])));
    assert!(!is_slp_file(&WatchPath::new(vec![Component::RootDir])));
    assert!(!is_slp_file(&WatchPath::new(vec![
        Component::Normal("a.slp".to_string()),
        Component::ParentDir,
    ])));
    assert!(!is_slp_file(&WatchPath::new(vec![Component::Prefix("x.slp".to_string())])));
}

#[test]
fn extension_is_what_follows_the_last_dot() {
    assert_eq!(absolute(&["a.tar.gz"]).extension(), Some("gz"));
    assert_eq!(absolute(&["a.slp"]).extension(), Some("slp"));
    assert_eq!(absolute(&["a."]).extension(), Some(""));
    assert_eq!(absolute(&["\u{e9}t\u{e9}.r\u{e9}play"]).extension(), Some("r\u{e9}play"));
}

#[test]
fn extension_is_missing_without_a_dot_or_with_a_leading_dot_only() {
    assert_eq!(absolute(&["a"]).extension(), None);
    assert_eq!(absolute(&[".hidden"]).extension(), None);
    assert_eq!(absolute(&[""]).extension(), None);
    assert_eq!(absolute(&[".."]).extension(), None);
    assert_eq!(absolute(&["."]).extension(), None);
    assert_eq!(WatchPath::new(vec![Component::CurDir]).extension(), None);
    assert_eq!(WatchPath::new(vec![]).extension(), None);
}

#[test]
fn file_name_is_the_last_ordinary_component() {
    assert_eq!(absolute(&["D", "a.slp"]).file_name(), Some(&"a.slp".to_string()));
    assert_eq!(WatchPath::new(vec![Component::RootDir]).file_name(), None);
    assert_eq!(WatchPath::new(vec![]).file_name(), None);
    assert_eq!(
        WatchPath::new(vec![Component::Normal("a".to_string()), Component::ParentDir]).file_name(),
        None
    );
}

#[test]
fn starts_with_matches_whole_components() {
    let file = absolute(&["D", "sub", "a.slp"]);
    assert!(file.starts_with(&absolute(&["D"])));
    assert!(file.starts_with(&absolute(&["D", "sub"])));
    assert!(file.starts_with(&absolute(&["D", "sub", "a.slp"])));
    assert!(file.starts_with(&absolute(&[])));
    assert!(file.starts_with(&WatchPath::new(vec![])));
    assert!(!file.starts_with(&absolute(&["D", "su"])));
    assert!(!file.starts_with(&absolute(&["E"])));
    assert!(!file.starts_with(&absolute(&["D", "sub", "a.slp", "x"])));
    assert!(!file.starts_with(&relative(&["D"])));
    assert!(!absolute(&["Dx", "a.slp"]).starts_with(&absolute(&["D"])));
}

#[test]
fn same_compares_component_by_component() {
    assert!(absolute(&["D", "a.slp"]).same(&absolute(&["D", "a.slp"])));
    assert!(!absolute(&["D", "a.slp"]).same(&absolute(&["D", "b.slp"])));
    assert!(!absolute(&["D", "a.slp"]).same(&absolute(&["D"])));
    assert!(!absolute(&["D"]).same(&relative(&["D"])));
    assert!(!absolute(&["D", "a.slp"]).same(&absolute(&["D", "A.slp"])));
    assert!(Component::Prefix("C:".to_string()).same(&Component::Prefix("C:".to_string())));
    assert!(!Component::Prefix("C:".to_string()).same(&Component::Normal("C:".to_string())));
    assert!(!Component::CurDir.same(&Component::ParentDir));
    assert!(Component::ParentDir.same(&Component::ParentDir));
}

#[test]
fn clone_gives_the_same_path() {
    let path = WatchPath::new(vec![
        Component::Prefix("C:".to_string()),
        Component::RootDir,
        Component::CurDir,
        Component::ParentDir,
        Component::Normal("a.slp".to_string()),
    ]);
    let copy = path.clone();
    assert_eq!(copy, path);
    assert!(copy.same(&path));
    assert_eq!(copy.len(), 5);
}

#[test]
fn push_appends_one_component() {
    let mut path = absolute(&["D"]);
    path.push(Component::Normal("a.slp".to_string()));
    assert_eq!(path, absolute(&["D", "a.slp"]));
    assert_eq!(path.len(), 3);
    assert_eq!(path.component(0), Some(&Component::RootDir));
    assert_eq!(path.component(2), Some(&Component::Normal("a.slp".to_string())));
    assert_eq!(path.component(3), None);
}

#[test]
fn to_ascii_lower_folds_capitals_only() {
    assert_eq!(to_ascii_lower('A'), 'a');
    assert_eq!(to_ascii_lower('Z'), 'z');
    assert_eq!(to_ascii_lower('S'), 's');
    assert_eq!(to_ascii_lower('a'), 'a');
    assert_eq!(to_ascii_lower('@'), '@');
    assert_eq!(to_ascii_lower('['), '[');
    assert_eq!(to_ascii_lower('1'), '1');
    assert_eq!(to_ascii_lower('\u{c9}'), '\u{c9}');
}

#[test]
fn eq_ignore_ascii_case_compares_letter_by_letter() {
    assert!(eq_ignore_ascii_case("slp", "SLP"));
    assert!(eq_ignore_ascii_case("", ""));
    assert!(eq_ignore_ascii_case("a1B2", "A1b2"));
    assert!(!eq_ignore_ascii_case("slp", "sl"));
    assert!(!eq_ignore_ascii_case("slp", "slq"));
    assert!(!eq_ignore_ascii_case("\u{e9}", "\u{c9}"));
    assert!(!eq_ignore_ascii_case("k", "\u{212a}"));
}

#[test]
fn chars_of_reads_every_character() {
    assert_eq!(chars_of("a.slp"), vec!['a', '.', 's', 'l', 'p']);
    assert_eq!(chars_of(""), Vec::<char>::new());
    assert_eq!(chars_of("\u{e9}\u{1f600}"), vec!['\u{e9}', '\u{1f600}']);
}
