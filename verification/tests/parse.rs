use static_site_ppx::parser::PPXDirective;

#[test]
fn parse_plain_text_is_no_match() {
    assert!(PPXDirective::parse("just some text").is_none());
    assert!(PPXDirective::parse("").is_none());
}

#[test]
fn parse_comment_without_atat_is_no_match() {
    assert!(PPXDirective::parse("<!-- a plain comment -->").is_none());
}

#[test]
fn parse_unterminated_comment_is_no_match() {
    assert!(PPXDirective::parse("text <!-- @@STATICIMPORT foo").is_none());
}

#[test]
fn parse_empty_command_is_no_match() {
    assert!(PPXDirective::parse("<!-- @@ -->").is_none());
}

#[test]
fn parse_bare_directive() {
    let d = PPXDirective::parse("<!-- @@STATICSTYLECOPY -->").unwrap();
    assert_eq!(d.prefix, "");
    assert_eq!(d.command, "STATICSTYLECOPY");
    assert!(d.args.is_empty());
    assert_eq!(d.suffix, "");
}

#[test]
fn parse_trims_prefix_and_suffix() {
    let d = PPXDirective::parse("  before <!-- @@STATICIMPORT foo -->  after ").unwrap();
    assert_eq!(d.prefix, "before");
    assert_eq!(d.command, "STATICIMPORT");
    assert_eq!(d.args, vec!["foo".to_string()]);
    assert_eq!(d.suffix, "after");
}

#[test]
fn parse_splits_args_on_whitespace_runs() {
    let d = PPXDirective::parse("<!-- @@CMD  one \t two   three -->").unwrap();
    assert_eq!(d.command, "CMD");
    assert_eq!(
        d.args,
        vec!["one".to_string(), "two".to_string(), "three".to_string()]
    );
}

#[test]
fn parse_command_stops_at_non_word_character() {
    let d = PPXDirective::parse("<!-- @@CMD-extra -->").unwrap();
    assert_eq!(d.command, "CMD");
    assert_eq!(d.args, vec!["-extra".to_string()]);
}

#[test]
fn parse_uses_first_close_marker_after_command() {
    let d = PPXDirective::parse("x <!-- @@CMD a --> y --> z").unwrap();
    assert_eq!(d.prefix, "x");
    assert_eq!(d.command, "CMD");
    assert_eq!(d.args, vec!["a".to_string()]);
    assert_eq!(d.suffix, "y --> z");
}

#[test]
fn parse_skips_comment_that_is_no_directive() {
    let d = PPXDirective::parse("<!-- note --> <!-- @@CMD a -->").unwrap();
    assert_eq!(d.prefix, "<!-- note -->");
    assert_eq!(d.command, "CMD");
    assert_eq!(d.args, vec!["a".to_string()]);
    assert_eq!(d.suffix, "");
}

#[test]
fn parse_second_directive_on_line_lands_in_suffix() {
    let d = PPXDirective::parse("<!-- @@A --> mid <!-- @@B -->").unwrap();
    assert_eq!(d.command, "A");
    assert_eq!(d.suffix, "mid <!-- @@B -->");
}

#[test]
fn parse_allows_whitespace_after_opener() {
    let d = PPXDirective::parse("<!--   @@CMD -->").unwrap();
    assert_eq!(d.command, "CMD");
}
