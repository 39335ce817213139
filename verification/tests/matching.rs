use findfont::matching::font_file_name_matches;

#[test]
fn matching_ignores_ascii_case() {
    assert!(font_file_name_matches("ARIAL.TTF", "arial"));
    assert!(font_file_name_matches("arial.ttf", "ARIAL"));
    assert!(font_file_name_matches("ArIaL.TtC", "aRiAl"));
}

#[test]
fn matching_accepts_recognized_style_variants() {
    assert!(font_file_name_matches("Roboto-Light.ttf", "Roboto"));
    assert!(font_file_name_matches("Roboto-Medium.otf", "Roboto"));
    assert!(font_file_name_matches("roboto-light.ttf", "Roboto"));
    assert!(!font_file_name_matches("Roboto-Bold.ttf", "Roboto"));
    assert!(!font_file_name_matches("Roboto-Thin.ttf", "Roboto"));
}

#[test]
fn matching_requires_a_recognized_extension() {
    assert!(!font_file_name_matches("Arial.pdf", "Arial"));
    assert!(!font_file_name_matches("Arial.pdf", "arial"));
    assert!(!font_file_name_matches("Arial", "Arial"));
    assert!(!font_file_name_matches("Arial.", "Arial"));
    assert!(font_file_name_matches("Arial.ttf", "Arial"));
    assert!(font_file_name_matches("Arial.ttc", "Arial"));
    assert!(font_file_name_matches("Arial.otf", "Arial"));
}

#[test]
fn matching_splits_at_the_last_dot() {
    assert!(font_file_name_matches("Arial.bak.ttf", "Arial.bak"));
    assert!(!font_file_name_matches("Arial.ttf.bak", "Arial"));
    assert!(!font_file_name_matches(".ttf", "ttf"));
    assert!(!font_file_name_matches(".ttf", ""));
}

#[test]
fn matching_compares_whole_names() {
    assert!(!font_file_name_matches("DejaVuSansMono.ttf", "DejaVuSans"));
    assert!(!font_file_name_matches("Arial.ttf", "Aria"));
    assert!(!font_file_name_matches("Aria.ttf", "Arial"));
}
