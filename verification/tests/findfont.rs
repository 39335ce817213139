use findfont::find;
use findfont::get_linux_sys_font_dirs;
use findfont::get_macos_sys_font_dirs;
use findfont::get_sys_font_dir;
use findfont::get_sys_font_dirs;
use findfont::get_windows_sys_font_dirs;
use findfont::split_path_list;

#[test]
fn find_works() {
    let font_name = "DejaVuSans";

    let font = find(font_name);

    println!("Font path: {}", font.clone().unwrap());
    assert!(font.is_some());
}

#[test]
fn get_sys_font_dir_works() {
    let dir = get_sys_font_dir();

    println!("Font path: {}", dir.clone().unwrap());
    assert!(dir.is_some());
}

#[test]
fn sys_font_dirs_nonempty() {
    let dirs = get_sys_font_dirs();
    assert!(dirs.len() >= 2);
    assert!(dirs.contains(&"/usr/share/fonts/".to_string()));
    assert!(dirs.contains(&"/usr/local/share/fonts/".to_string()));
}

#[test]
fn sys_font_dir_is_an_existing_candidate() {
    let dirs = get_sys_font_dirs();
    let dir = get_sys_font_dir().unwrap();
    assert!(dirs.contains(&dir));
    assert!(std::path::Path::new(&dir).exists());
}

#[test]
fn linux_dirs_with_everything_set() {
    let dirs = get_linux_sys_font_dirs(
        Some("/home/u".to_string()),
        Some("/xdg/data".to_string()),
        Some("/d1:/d2".to_string()),
    );
    assert_eq!(
        dirs,
        vec![
            "/home/u/.fonts/".to_string(),
            "/home/u/.local/share/fonts/".to_string(),
            "/usr/share/fonts/".to_string(),
            "/usr/local/share/fonts/".to_string(),
            "/xdg/data/fonts".to_string(),
            "/d1/fonts".to_string(),
            "/d2/fonts".to_string(),
        ]
    );
}

#[test]
fn linux_dirs_without_home_or_environment() {
    let dirs = get_linux_sys_font_dirs(None, None, None);
    assert_eq!(
        dirs,
        vec!["/usr/share/fonts/".to_string(), "/usr/local/share/fonts/".to_string()]
    );
}

#[test]
fn linux_dirs_empty_xdg_data_home_is_skipped() {
    let dirs = get_linux_sys_font_dirs(None, Some(String::new()), None);
    assert_eq!(
        dirs,
        vec!["/usr/share/fonts/".to_string(), "/usr/local/share/fonts/".to_string()]
    );
}

#[test]
fn macos_dirs_with_home() {
    let dirs = get_macos_sys_font_dirs(Some("/Users/u".to_string()));
    assert_eq!(dirs.len(), 5);
    assert_eq!(dirs[0], "/Users/u/Library/Fonts/");
    assert_eq!(dirs[1], "/Library/Fonts/");
    assert_eq!(dirs[2], "/System/Library/Fonts/");
    assert_eq!(dirs[3], "/System/Library/Fonts/Supplemental");
}

#[test]
fn macos_dirs_without_home() {
    let dirs = get_macos_sys_font_dirs(None);
    assert_eq!(dirs.len(), 4);
    assert_eq!(dirs[0], "/Library/Fonts/");
}

#[test]
fn windows_dirs_need_both_variables() {
    assert!(get_windows_sys_font_dirs(None, None).is_none());
    assert!(get_windows_sys_font_dirs(Some("C:\\Windows".to_string()), None).is_none());
    assert!(get_windows_sys_font_dirs(None, Some("C:\\Users\\u".to_string())).is_none());
    let dirs =
        get_windows_sys_font_dirs(Some("C:\\Windows".to_string()), Some("C:\\Users\\u".to_string()))
            .unwrap();
    assert_eq!(
        dirs,
        vec![
            "C:\\Windows/Fonts".to_string(),
            "C:\\Users\\u/Microsoft/Windows/Fonts".to_string(),
        ]
    );
}

#[test]
fn split_path_list_splits_on_colons() {
    assert_eq!(split_path_list("/a:/b:/c"), vec!["/a", "/b", "/c"]);
    assert_eq!(split_path_list(""), vec![""]);
    assert_eq!(split_path_list("one"), vec!["one"]);
    assert_eq!(split_path_list("a::b"), vec!["a", "", "b"]);
    assert_eq!(split_path_list(":a:"), vec!["", "a", ""]);
}
