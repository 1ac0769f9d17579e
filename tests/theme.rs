use st3_cursor_color::text::replace_all;
use st3_cursor_color::theme::{backup_file_name, find_caret_color, patch_with_tokens, set_cursor_color, ThemeError, XmlToken};

fn chars(s: &str) -> Vec<char> {
    s.chars().collect()
}

#[test]
fn patches_the_caret_color() {
    let doc = "<dict><string>caret</string><string>ff0000</string></dict>";
    assert_eq!(
        set_cursor_color(doc, "00ff00"),
        Ok("<dict><string>caret</string><string>00ff00</string></dict>".to_string())
    );
}

#[test]
fn patches_an_indented_plist() {
    let doc = "<dict>\n  <key>caret</key>\n  <string>#FFFFFF</string>\n  <key>other</key>\n  <string>#FFFFFF</string>\n</dict>";
    let want = "<dict>\n  <key>caret</key>\n  <string>#16af33</string>\n  <key>other</key>\n  <string>#16af33</string>\n</dict>";
    assert_eq!(set_cursor_color(doc, "#16af33"), Ok(want.to_string()));
}

#[test]
fn replaces_every_occurrence_of_the_old_color() {
    let doc = "<dict><string>caret</string><string>ff0000</string><string>ff0000aa</string></dict>";
    assert_eq!(
        set_cursor_color(doc, "123456"),
        Ok("<dict><string>caret</string><string>123456</string><string>123456aa</string></dict>".to_string())
    );
}

#[test]
fn missing_marker_is_not_found() {
    let doc = "<dict><string>foreground</string><string>ff0000</string></dict>";
    assert_eq!(set_cursor_color(doc, "00ff00"), Err(ThemeError::NotFound));
}

#[test]
fn marker_without_value_is_not_found() {
    let doc = "<dict><string>caret</string></dict>";
    assert_eq!(set_cursor_color(doc, "00ff00"), Err(ThemeError::NotFound));
}

#[test]
fn malformed_document_is_a_parse_error() {
    let doc = "<dict><a></b><string>caret</string><string>ff0000</string></dict>";
    assert!(matches!(set_cursor_color(doc, "00ff00"), Err(ThemeError::Parse(_))));
}

#[test]
fn value_found_before_an_error_is_used() {
    let tokens = vec![
        XmlToken::Text("caret".to_string()),
        XmlToken::Markup,
        XmlToken::Text("abc".to_string()),
        XmlToken::Malformed("broken".to_string()),
    ];
    assert_eq!(find_caret_color(&tokens), Ok("abc".to_string()));
}

#[test]
fn error_before_the_value_is_reported() {
    let tokens = vec![XmlToken::Text("caret".to_string()), XmlToken::Malformed("broken".to_string())];
    assert_eq!(find_caret_color(&tokens), Err(ThemeError::Parse("broken".to_string())));
}

#[test]
fn marker_must_match_exactly() {
    let tokens = vec![
        XmlToken::Text("Caret".to_string()),
        XmlToken::Text("x".to_string()),
        XmlToken::Text("carets".to_string()),
        XmlToken::Text("y".to_string()),
    ];
    assert_eq!(find_caret_color(&tokens), Err(ThemeError::NotFound));
}

#[test]
fn first_text_after_the_marker_wins() {
    let tokens = vec![
        XmlToken::Text("caret".to_string()),
        XmlToken::Text("caret".to_string()),
        XmlToken::Text("ff0000".to_string()),
    ];
    assert_eq!(find_caret_color(&tokens), Ok("caret".to_string()));
}

#[test]
fn patch_uses_the_given_tokens() {
    let tokens = vec![XmlToken::Text("caret".to_string()), XmlToken::Text("b".to_string())];
    assert_eq!(patch_with_tokens("abcb", &tokens, "XY"), Ok("aXYcXY".to_string()));
}

#[test]
fn backup_name_appends_suffix() {
    assert_eq!(backup_file_name("Monokai.tmTheme"), "Monokai.tmTheme_backup");
    assert_eq!(backup_file_name(""), "_backup");
}

#[test]
fn replace_all_matches_str_replace() {
    for (s, p, t) in [("aaa", "aa", "b"), ("ab", "", "X"), ("", "", "X"), ("abc", "d", "e"), ("xyxy", "xy", ""), ("a", "abc", "z")] {
        assert_eq!(replace_all(&chars(s), &chars(p), &chars(t)), chars(&s.replace(p, t)));
    }
}
