use waipack::chars::{ends_with, find_char, rfind_char, split_str, starts_with, str_eq};
use waipack::pack::{classify_input, InputKind};
use waipack::save::saveFileParams;

#[test]
fn split_keeps_empty_pieces() {
    let pieces = split_str("a//b/", '/');
    assert_eq!(
        pieces,
        vec![
            "a".to_string(),
            "".to_string(),
            "b".to_string(),
            "".to_string()
        ]
    );
    assert_eq!(split_str("", '/'), vec!["".to_string()]);
}

#[test]
fn char_searches_find_first_and_last() {
    assert_eq!(find_char("a@b@c", '@'), Some(1));
    assert_eq!(rfind_char("a@b@c", '@'), Some(3));
    assert_eq!(find_char("abc", '@'), None);
    assert!(starts_with("atoms://m", "atoms://"));
    assert!(!starts_with("atom://m", "atoms://"));
    assert!(ends_with("pkg.wpak", ".wpak"));
    assert!(!ends_with("pkg.tar", ".wpak"));
    assert!(str_eq("same", "same"));
    assert!(!str_eq("same", "sane"));
}

#[test]
fn input_classification_follows_the_three_rules() {
    assert_eq!(classify_input(true, "anything"), InputKind::Directory);
    assert_eq!(classify_input(false, "pkg.wpak"), InputKind::PackedFile);
    assert_eq!(classify_input(false, "pkg.tar.gz"), InputKind::Archive);
}

#[test]
fn save_file_params_carry_name_and_content() {
    let p = saveFileParams::new(Some("out.rs".to_string()), Some(vec![1, 2, 3]));
    assert_eq!(p.file_name, Some("out.rs".to_string()));
    assert_eq!(p.file_content, Some(vec![1, 2, 3]));
    let empty = saveFileParams::new(None, None);
    assert_eq!(empty.file_name, None);
    assert_eq!(empty.file_content, None);
}
