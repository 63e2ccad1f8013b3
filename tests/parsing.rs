use confargenv::entry::{argument_entries, config_entries, parse_argument, parse_entry};
use confargenv::settings::Settings;
use confargenv::text::is_white_space;

fn pair(k: &str, v: &str) -> Option<(String, String)> {
    Some((k.to_string(), v.to_string()))
}

#[test]
fn equals_sign_comes_before_colon() {
    assert_eq!(parse_entry("a=1:x"), pair("a", "1:x"));
    assert_eq!(parse_entry("a:1=x"), pair("a:1", "x"));
    assert_eq!(parse_argument("--a:1=x"), pair("a:1", "x"));
}

#[test]
fn split_at_first_separator() {
    assert_eq!(parse_entry("k=v=w"), pair("k", "v=w"));
    assert_eq!(parse_entry("k:v:w"), pair("k", "v:w"));
    assert_eq!(parse_entry("=v"), pair("", "v"));
    assert_eq!(parse_entry("k="), pair("k", ""));
}

#[test]
fn no_separator_no_entry() {
    assert_eq!(parse_entry("plain"), None);
    assert_eq!(parse_entry(""), None);
    assert_eq!(parse_argument("--verbose"), None);
}

#[test]
fn arguments_lose_leading_dashes_only() {
    assert_eq!(parse_argument("--key=v"), pair("key", "v"));
    assert_eq!(parse_argument("key=v"), pair("key", "v"));
    assert_eq!(parse_argument("-key=v"), pair("-key", "v"));
    assert_eq!(parse_argument("---key=v"), pair("-key", "v"));
    assert_eq!(parse_argument("--key:v"), pair("key", "v"));
    assert_eq!(parse_argument("--key = v"), pair("key ", " v"));
}

#[test]
fn config_lines_are_trimmed_around_separator() {
    let e = config_entries("  key \t=  value  \n");
    assert_eq!(e, vec![("  key".to_string(), "value  ".to_string())]);
}

#[test]
fn config_lines_without_separator_are_skipped() {
    let e = config_entries("# comment\n\na=1\nb: 2\n");
    assert_eq!(e, vec![("a".to_string(), "1".to_string()), ("b".to_string(), "2".to_string())]);
}

#[test]
fn config_crlf_and_missing_final_newline() {
    let e = config_entries("a=1\r\nb=2");
    assert_eq!(e, vec![("a".to_string(), "1".to_string()), ("b".to_string(), "2".to_string())]);
    let e = config_entries("a=1\r");
    assert_eq!(e, vec![("a".to_string(), "1\r".to_string())]);
    assert_eq!(config_entries(""), Vec::new());
}

#[test]
fn argument_list_skips_program_name() {
    let args: Vec<String> = vec!["a=0".to_string(), "--b=1".to_string(), "flag".to_string(), "c:2".to_string()];
    assert_eq!(
        argument_entries(&args),
        vec![("b".to_string(), "1".to_string()), ("c".to_string(), "2".to_string())]
    );
    assert_eq!(argument_entries(&Vec::new()), Vec::new());
}

#[test]
fn white_space_matches_std() {
    for n in 0u32..=0x10FFFF {
        if let Some(c) = char::from_u32(n) {
            assert_eq!(is_white_space(c), c.is_whitespace(), "{:x}", n);
        }
    }
}

#[test]
fn non_ascii_text_kept() {
    assert_eq!(parse_entry("clé=été"), pair("clé", "été"));
    let e = config_entries("nom\u{3000}=\u{a0}ünï\n");
    assert_eq!(e, vec![("nom".to_string(), "ünï".to_string())]);
}

#[test]
fn settings_insert_replaces() {
    let mut s = Settings::new();
    s.insert("a".to_string(), "1".to_string());
    s.insert("b".to_string(), "2".to_string());
    s.insert("a".to_string(), "3".to_string());
    assert_eq!(s.len(), 2);
    assert_eq!(s.get("a"), Some(&"3".to_string()));
    assert_eq!(s.get("c"), None);
    assert!(s.contains_key("b"));
}

#[test]
fn settings_from_entries_later_wins() {
    let s = Settings::from_entries(vec![
        ("a".to_string(), "1".to_string()),
        ("a".to_string(), "2".to_string()),
        ("b".to_string(), "3".to_string()),
    ]);
    assert_eq!(s.len(), 2);
    assert_eq!(s.get("a"), Some(&"2".to_string()));
    assert_eq!(s.as_entries().len(), 2);
}
