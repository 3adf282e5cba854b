use eve_wrench::prefs::{brackets_enabled, brackets_enabled_in_any, lines, with_brackets_setting};

#[test]
fn lines_like_std() {
    for text in ["", "a", "a\n", "a\r\nb", "\n\n", "x\r", "a\nb\r\n", "  c \n d"] {
        let expected: Vec<String> = text.lines().map(|l| l.to_string()).collect();
        assert_eq!(lines(text), expected, "{:?}", text);
    }
}

#[test]
fn brackets_setting_read() {
    assert!(brackets_enabled("a=1\n  bracketsAlwaysShowShipText= 1 \nb=2"));
    assert!(!brackets_enabled("bracketsAlwaysShowShipText=0"));
    assert!(!brackets_enabled("xbracketsAlwaysShowShipText=1"));
    assert!(!brackets_enabled(""));
    assert!(brackets_enabled_in_any(&vec!["".to_string(), "bracketsAlwaysShowShipText=1".to_string()]));
    assert!(!brackets_enabled_in_any(&vec![]));
}

#[test]
fn brackets_setting_written() {
    assert_eq!(with_brackets_setting(None, true), "bracketsAlwaysShowShipText=1");
    assert_eq!(
        with_brackets_setting(Some("a=1\n bracketsAlwaysShowShipText=1\nb=2\n"), false),
        "a=1\nbracketsAlwaysShowShipText=0\nb=2"
    );
    assert_eq!(with_brackets_setting(Some("a=1"), true), "a=1\nbracketsAlwaysShowShipText=1");
    assert_eq!(with_brackets_setting(Some(""), false), "bracketsAlwaysShowShipText=0");
}
