use luo9_sdk::pattern::Pattern;

#[test]
fn readme_at_pattern() {
    let pat = Pattern::new("[CQ:at,qq={qq}]{content}");
    let caps = pat.match_str("[CQ:at,qq=123456]状态").unwrap();
    assert_eq!(caps.get("qq").unwrap(), "123456");
    assert_eq!(caps.get("content").unwrap(), "状态");
    assert!(caps.get("other").is_none());
}

#[test]
fn plain_template_matches_only_itself() {
    let pat = Pattern::new("hello");
    assert!(pat.match_str("hello").is_some());
    assert!(!pat.match_str("hello").unwrap().contains_key("hello"));
    assert!(pat.match_str("hell").is_none());
    assert!(pat.match_str("hello!").is_none());
    assert!(pat.match_str("").is_none());
    let empty = Pattern::new("");
    assert!(empty.match_str("").is_some());
    assert!(empty.match_str("x").is_none());
}

#[test]
fn capture_stops_at_first_occurrence_of_next_literal() {
    let pat = Pattern::new("{a}-{b}");
    let caps = pat.match_str("x-y-z").unwrap();
    assert_eq!(caps.get("a").unwrap(), "x");
    assert_eq!(caps.get("b").unwrap(), "y-z");
}

#[test]
fn adjacent_captures_share_the_next_literal() {
    let pat = Pattern::new("{a}{b}!");
    let caps = pat.match_str("hey!").unwrap();
    assert_eq!(caps.get("a").unwrap(), "hey");
    assert_eq!(caps.get("b").unwrap(), "");
}

#[test]
fn missing_literal_fails() {
    let pat = Pattern::new("{a}-{b}");
    assert!(pat.match_str("xyz").is_none());
    let pat2 = Pattern::new("id={id};");
    assert!(pat2.match_str("id=5").is_none());
    assert!(pat2.match_str("id=5;x").is_none());
    assert_eq!(pat2.match_str("id=5;").unwrap().get("id").unwrap(), "5");
}

#[test]
fn unclosed_brace_is_literal() {
    let pat = Pattern::new("a{b");
    assert!(pat.match_str("a{b").is_some());
    assert!(pat.match_str("ab").is_none());
    let pat2 = Pattern::new("{x}{");
    assert_eq!(pat2.match_str("q{").unwrap().get("x").unwrap(), "q");
}

#[test]
fn brace_inside_capture_name() {
    let pat = Pattern::new("a{b{c}d");
    let caps = pat.match_str("a123d").unwrap();
    assert_eq!(caps.get("b{c").unwrap(), "123");
}

#[test]
fn repeated_name_keeps_last_value() {
    let pat = Pattern::new("{x}-{x}");
    let caps = pat.match_str("1-2").unwrap();
    assert_eq!(caps.get("x").unwrap(), "2");
}

#[test]
fn empty_capture_name() {
    let pat = Pattern::new("<{}>");
    let caps = pat.match_str("<v>").unwrap();
    assert_eq!(caps.get("").unwrap(), "v");
}

#[test]
fn captures_len_and_entries() {
    let pat = Pattern::new("{x}-{y}-{x}");
    let caps = pat.match_str("1-2-3").unwrap();
    assert_eq!(caps.len(), 2);
    let mut es: Vec<(String, String)> = caps.entries().to_vec();
    es.sort();
    assert_eq!(es, vec![("x".to_string(), "3".to_string()), ("y".to_string(), "2".to_string())]);
    assert_eq!(Pattern::new("plain").match_str("plain").unwrap().len(), 0);
}

#[test]
fn last_capture_runs_to_end() {
    let caps = Pattern::new("a{x}").match_str("a-b-c").unwrap();
    assert_eq!(caps.get("x").unwrap(), "-b-c");
}

#[test]
fn unclosed_template_matches_only_itself() {
    let pat = Pattern::new("x{y{z");
    assert!(pat.match_str("x{y{z").unwrap().is_empty());
    assert!(pat.match_str("xyz").is_none());
}
