use confargenv::resolve::{kept_defaults, merge, resolve, unrecognized};
use confargenv::settings::Settings;

fn settings(pairs: &[(&str, &str)]) -> Settings {
    let mut s = Settings::new();
    for (k, v) in pairs {
        s.insert(k.to_string(), v.to_string());
    }
    s
}

fn strings(items: &[&str]) -> Vec<String> {
    items.iter().map(|s| s.to_string()).collect()
}

fn pairs(items: &[(&str, &str)]) -> Vec<(String, String)> {
    items.iter().map(|(k, v)| (k.to_string(), v.to_string())).collect()
}

fn value(s: &Settings, k: &str) -> Option<String> {
    s.get(k).cloned()
}

fn example_defaults() -> Settings {
    settings(&[("string", "dfoo"), ("integer", "d42")])
}

#[test]
fn config_and_argument_override() {
    let r = resolve(
        &example_defaults(),
        Some("string=cfoo\n"),
        &Vec::new(),
        &strings(&["prog", "--integer=a99"]),
    );
    assert_eq!(r.len(), 2);
    assert_eq!(value(&r, "string"), Some("cfoo".to_string()));
    assert_eq!(value(&r, "integer"), Some("a99".to_string()));
}

#[test]
fn config_without_integer_keeps_default() {
    let r = resolve(&example_defaults(), Some("string=cfoo\n"), &Vec::new(), &strings(&["prog"]));
    assert_eq!(r.len(), 2);
    assert_eq!(value(&r, "string"), Some("cfoo".to_string()));
    assert_eq!(value(&r, "integer"), Some("d42".to_string()));
}

#[test]
fn argument_beats_environment_beats_config() {
    let d = settings(&[("a", "da"), ("b", "db"), ("c", "dc"), ("d", "dd")]);
    let r = resolve(
        &d,
        Some("a=fa\nb=fb\nc=fc\n"),
        &pairs(&[("a", "ea"), ("b", "eb")]),
        &strings(&["prog", "a=aa"]),
    );
    assert_eq!(value(&r, "a"), Some("aa".to_string()));
    assert_eq!(value(&r, "b"), Some("eb".to_string()));
    assert_eq!(value(&r, "c"), Some("fc".to_string()));
    assert_eq!(value(&r, "d"), Some("dd".to_string()));
    assert_eq!(r.len(), 4);
}

#[test]
fn unrecognized_keys_are_left_out() {
    let d = settings(&[("a", "da")]);
    let r = resolve(
        &d,
        Some("zz=file\n"),
        &pairs(&[("zz", "env"), ("PATH", "/bin")]),
        &strings(&["prog", "--zz=arg"]),
    );
    assert_eq!(r.len(), 1);
    assert_eq!(value(&r, "a"), Some("da".to_string()));
    assert!(!r.contains_key("zz"));
    assert!(!r.contains_key("PATH"));
}

#[test]
fn no_config_gives_defaults() {
    let d = example_defaults();
    let r = resolve(&d, None, &pairs(&[("other", "x")]), &strings(&["prog"]));
    assert_eq!(r.len(), 2);
    assert_eq!(value(&r, "string"), Some("dfoo".to_string()));
    assert_eq!(value(&r, "integer"), Some("d42".to_string()));
}

#[test]
fn no_config_equals_empty_config() {
    let d = example_defaults();
    let env = pairs(&[("string", "efoo")]);
    let args = strings(&["prog", "integer:a1"]);
    let a = resolve(&d, None, &env, &args);
    let b = resolve(&d, Some(""), &env, &args);
    assert_eq!(a.into_entries(), b.into_entries());
}

#[test]
fn empty_defaults_give_empty_result() {
    let r = resolve(&Settings::new(), Some("a=1\n"), &pairs(&[("a", "2")]), &strings(&["prog", "a=3"]));
    assert_eq!(r.len(), 0);
}

#[test]
fn program_name_is_not_an_argument() {
    let d = settings(&[("a", "da")]);
    let r = resolve(&d, None, &Vec::new(), &strings(&["a=1"]));
    assert_eq!(value(&r, "a"), Some("da".to_string()));
}

#[test]
fn later_entries_override_earlier_ones() {
    let d = settings(&[("a", "da")]);
    let r = resolve(&d, Some("a=1\na=2\n"), &Vec::new(), &strings(&["prog"]));
    assert_eq!(value(&r, "a"), Some("2".to_string()));
    let r = resolve(&d, None, &Vec::new(), &strings(&["prog", "a=3", "--a=4"]));
    assert_eq!(value(&r, "a"), Some("4".to_string()));
    let r = resolve(&d, None, &pairs(&[("a", "5"), ("a", "6")]), &strings(&["prog"]));
    assert_eq!(value(&r, "a"), Some("6".to_string()));
}

#[test]
fn environment_names_match_exactly() {
    let d = settings(&[("key", "d")]);
    let r = resolve(&d, None, &pairs(&[("KEY", "e")]), &strings(&["prog"]));
    assert_eq!(value(&r, "key"), Some("d".to_string()));
}

#[test]
fn merge_uses_entries_directly() {
    let d = settings(&[("a", "da"), ("b", "db")]);
    let r = merge(&d, &pairs(&[("a", "fa")]), &Vec::new(), &pairs(&[("b", "ab")]));
    assert_eq!(value(&r, "a"), Some("fa".to_string()));
    assert_eq!(value(&r, "b"), Some("ab".to_string()));
}

#[test]
fn unrecognized_entries_in_order() {
    let d = settings(&[("a", "da")]);
    let u = unrecognized(&d, &pairs(&[("x", "1"), ("a", "2"), ("y", "3")]));
    assert_eq!(u, pairs(&[("x", "1"), ("y", "3")]));
}

#[test]
fn keys_left_at_default() {
    let d = settings(&[("a", "da"), ("b", "db"), ("c", "dc")]);
    let mut k = kept_defaults(&d, &pairs(&[("a", "1")]), &pairs(&[("x", "2")]), &pairs(&[("c", "3")]));
    k.sort();
    assert_eq!(k, strings(&["b"]));
}
