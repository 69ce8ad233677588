use nfs_manager::text::{join_strings, occurs, remove_char, replace_char, split_string, trim_string};

#[test]
fn trim_matches_std() {
    for s in ["", "  ", " a ", "\u{85}x\u{205f}", "a b", "\r\n\tq\u{3000}"] {
        assert_eq!(trim_string(s), s.trim());
    }
}

#[test]
fn split_matches_std() {
    for s in ["", "|", "a|b", "||a||", "no bar"] {
        let expected: Vec<String> = s.split('|').map(|p| p.to_string()).collect();
        assert_eq!(split_string(s, '|'), expected);
    }
}

#[test]
fn join_matches_std() {
    let parts = vec!["a".to_string(), "".to_string(), "c".to_string()];
    assert_eq!(join_strings(&parts, "\n"), parts.join("\n"));
    assert_eq!(join_strings(&Vec::new(), "|"), "");
}

#[test]
fn occurs_matches_contains() {
    for (needle, hay) in [("", ""), ("", "x"), ("ab", "xaby"), ("ab", "ba"), ("abc", "ab")] {
        assert_eq!(occurs(needle, hay), hay.contains(needle));
    }
}

#[test]
fn remove_and_replace() {
    assert_eq!(remove_char("192.168.1.1:/data", ':'), "192.168.1.1/data");
    assert_eq!(replace_char("a/b/c", '/', "\\"), "a\\b\\c");
}
