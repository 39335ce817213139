use findfont::find_in_dir;
use findfont::locate::sorted_by_name;
use findfont::locate::str_lex_lt;

fn dir_string(dir: &std::path::Path) -> String {
    dir.to_str().unwrap().to_string()
}

#[test]
fn finds_the_only_font_end_to_end() {
    let tmp = tempfile::tempdir().unwrap();
    let base = dir_string(tmp.path());
    fs_err::write(tmp.path().join("DejaVuSans.ttf"), b"font").unwrap();

    assert_eq!(find_in_dir(&base, "DejaVuSans"), Some(format!("{}/DejaVuSans.ttf", base)));
    assert_eq!(find_in_dir(&base, "NoSuchFont"), None);
}

#[test]
fn finds_a_font_in_a_subdirectory() {
    let tmp = tempfile::tempdir().unwrap();
    let base = dir_string(tmp.path());
    fs_err::create_dir(tmp.path().join("nested")).unwrap();
    fs_err::write(tmp.path().join("nested").join("Foo.otf"), b"font").unwrap();

    assert_eq!(find_in_dir(&base, "foo"), Some(format!("{}/nested/Foo.otf", base)));
}

#[test]
fn never_follows_a_symlinked_directory() {
    let tmp = tempfile::tempdir().unwrap();
    let base = tmp.path();
    fs_err::create_dir(base.join("searched")).unwrap();
    fs_err::create_dir(base.join("outside")).unwrap();
    fs_err::write(base.join("outside").join("Hidden.ttf"), b"font").unwrap();
    symlink::symlink_dir(base.join("outside"), base.join("searched").join("link")).unwrap();
    // A link back to an ancestor, so a walk that followed links would never end.
    symlink::symlink_dir(base, base.join("searched").join("up")).unwrap();

    assert_eq!(find_in_dir(&dir_string(&base.join("searched")), "Hidden"), None);
}

#[test]
fn unreadable_directory_counts_as_empty() {
    let tmp = tempfile::tempdir().unwrap();
    let missing = dir_string(&tmp.path().join("no_such_directory"));
    assert_eq!(find_in_dir(&missing, "Anything"), None);
}

#[test]
fn depth_first_prefers_the_earlier_name_file_first() {
    let tmp = tempfile::tempdir().unwrap();
    let base = dir_string(tmp.path());
    // "Foo.ttf" sorts before "a_dir", so the shallow file is found first.
    fs_err::write(tmp.path().join("Foo.ttf"), b"font").unwrap();
    fs_err::create_dir(tmp.path().join("a_dir")).unwrap();
    fs_err::write(tmp.path().join("a_dir").join("Foo.ttf"), b"font").unwrap();

    assert_eq!(find_in_dir(&base, "Foo"), Some(format!("{}/Foo.ttf", base)));
}

#[test]
fn depth_first_prefers_the_earlier_name_directory_first() {
    let tmp = tempfile::tempdir().unwrap();
    let base = dir_string(tmp.path());
    // "A_dir" sorts before "Foo.ttf", so the deep file is found first.
    fs_err::write(tmp.path().join("Foo.ttf"), b"font").unwrap();
    fs_err::create_dir(tmp.path().join("A_dir")).unwrap();
    fs_err::write(tmp.path().join("A_dir").join("Foo.ttf"), b"font").unwrap();

    assert_eq!(find_in_dir(&base, "Foo"), Some(format!("{}/A_dir/Foo.ttf", base)));
}

#[test]
fn sorting_orders_names_by_code_point() {
    let names = vec![
        "b".to_string(),
        "A".to_string(),
        "a".to_string(),
        "".to_string(),
        "ab".to_string(),
        "a".to_string(),
    ];
    let sorted = sorted_by_name(names);
    assert_eq!(
        sorted,
        vec![
            "".to_string(),
            "A".to_string(),
            "a".to_string(),
            "a".to_string(),
            "ab".to_string(),
            "b".to_string(),
        ]
    );
}

#[test]
fn lexicographic_order_on_strings() {
    assert!(str_lex_lt("a", "b"));
    assert!(str_lex_lt("A", "a"));
    assert!(str_lex_lt("a", "ab"));
    assert!(!str_lex_lt("ab", "a"));
    assert!(!str_lex_lt("a", "a"));
    assert!(str_lex_lt("", "a"));
    assert!(!str_lex_lt("", ""));
}
