use static_site_ppx::text::{join_lines_vec, split_lines_str, split_ws_str, str_eq, trim_str};

#[test]
fn trim_removes_surrounding_whitespace_only() {
    assert_eq!(trim_str("  a b \t"), "a b");
    assert_eq!(trim_str("ab"), "ab");
    assert_eq!(trim_str("   "), "");
    assert_eq!(trim_str(""), "");
}

#[test]
fn split_ws_drops_empty_tokens() {
    assert_eq!(split_ws_str(""), Vec::<String>::new());
    assert_eq!(split_ws_str("   "), Vec::<String>::new());
    assert_eq!(
        split_ws_str(" a  bb\tc "),
        vec!["a".to_string(), "bb".to_string(), "c".to_string()]
    );
}

#[test]
fn split_lines_drops_a_single_trailing_newline() {
    assert_eq!(split_lines_str(""), Vec::<String>::new());
    assert_eq!(split_lines_str("a"), vec!["a".to_string()]);
    assert_eq!(split_lines_str("a\nb"), vec!["a".to_string(), "b".to_string()]);
    assert_eq!(split_lines_str("a\nb\n"), vec!["a".to_string(), "b".to_string()]);
    assert_eq!(split_lines_str("\n"), vec!["".to_string()]);
    assert_eq!(
        split_lines_str("a\n\nb"),
        vec!["a".to_string(), "".to_string(), "b".to_string()]
    );
}

#[test]
fn join_lines_uses_single_newlines() {
    assert_eq!(join_lines_vec(&Vec::new()), "");
    assert_eq!(join_lines_vec(&vec!["a".to_string()]), "a");
    assert_eq!(join_lines_vec(&vec!["a".to_string(), "b".to_string()]), "a\nb");
}

#[test]
fn str_eq_compares_exactly() {
    assert!(str_eq("", ""));
    assert!(str_eq("abc", "abc"));
    assert!(!str_eq("abc", "abd"));
    assert!(!str_eq("abc", "ab"));
}
