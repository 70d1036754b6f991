use env_to_json::{collect_env_vars, EnvMap};

fn env(pairs: &[(&str, &str)]) -> Vec<(String, String)> {
    pairs
        .iter()
        .map(|(name, value)| (name.to_string(), value.to_string()))
        .collect()
}

fn assert_bindings(vars: &EnvMap, pairs: &[(&str, &str)]) {
    assert_eq!(vars.len(), pairs.len());
    for (name, value) in pairs {
        assert_eq!(vars.get(name), Some(&value.to_string()));
    }
}

#[test]
fn no_prefix_keeps_everything() {
    let source = env(&[("FOO", "foo"), ("APP_BAR", "bar"), ("", "nameless")]);
    for strip in [false, true] {
        let vars = collect_env_vars(&source, &None, strip);
        assert_bindings(&vars, &[("FOO", "foo"), ("APP_BAR", "bar"), ("", "nameless")]);
    }
}

#[test]
fn empty_environment_gives_empty_mapping() {
    let vars = collect_env_vars(&Vec::new(), &Some("APP_".to_string()), true);
    assert!(vars.is_empty());
    assert_eq!(vars.len(), 0);
    let vars = collect_env_vars(&Vec::new(), &None, false);
    assert!(vars.is_empty());
}

#[test]
fn prefix_matching_nothing_gives_empty_mapping() {
    let source = env(&[("FOO", "foo"), ("BAR", "bar")]);
    let vars = collect_env_vars(&source, &Some("APP_".to_string()), true);
    assert!(vars.is_empty());
}

#[test]
fn prefix_filters_and_strips() {
    let source = env(&[
        ("APP_FOO", "foo"),
        ("OTHER", "x"),
        ("APP_BAR", "bar"),
        ("XAPP_BAZ", "baz"),
        ("APP", "short"),
    ]);
    let vars = collect_env_vars(&source, &Some("APP_".to_string()), true);
    assert_bindings(&vars, &[("FOO", "foo"), ("BAR", "bar")]);
    assert!(!vars.contains_key("APP_FOO"));
    assert!(!vars.contains_key("OTHER"));
}

#[test]
fn prefix_filters_without_stripping() {
    let source = env(&[("APP_FOO", "foo"), ("OTHER", "x"), ("APP_BAR", "bar")]);
    let vars = collect_env_vars(&source, &Some("APP_".to_string()), false);
    assert_bindings(&vars, &[("APP_FOO", "foo"), ("APP_BAR", "bar")]);
    assert!(!vars.contains_key("FOO"));
}

#[test]
fn unstripped_result_is_a_restriction_of_the_environment() {
    let source = env(&[("A_1", "one"), ("B_1", "two"), ("A_2", "three"), ("A", "four")]);
    let prefix = "A_";
    let vars = collect_env_vars(&source, &Some(prefix.to_string()), false);
    for (name, value) in &source {
        if name.starts_with(prefix) {
            assert_eq!(vars.get(name), Some(value));
        } else {
            assert!(!vars.contains_key(name));
        }
    }
    assert_eq!(vars.len(), 2);
}

#[test]
fn stripped_names_come_from_names_with_the_prefix() {
    let source = env(&[("A_1", "one"), ("B_1", "two"), ("A_2", "three"), ("1", "four")]);
    let prefix = "A_";
    let vars = collect_env_vars(&source, &Some(prefix.to_string()), true);
    assert_bindings(&vars, &[("1", "one"), ("2", "three")]);
    for (name, value) in &source {
        match name.strip_prefix(prefix) {
            Some(rest) => assert_eq!(vars.get(rest), Some(value)),
            None => {}
        }
    }
}

#[test]
fn prefix_is_case_sensitive() {
    let source = env(&[("app_FOO", "lower"), ("APP_FOO", "upper")]);
    let vars = collect_env_vars(&source, &Some("APP_".to_string()), true);
    assert_bindings(&vars, &[("FOO", "upper")]);
}

#[test]
fn name_equal_to_prefix_is_stored_under_empty_name() {
    let source = env(&[("APP_", "bare")]);
    let vars = collect_env_vars(&source, &Some("APP_".to_string()), true);
    assert_bindings(&vars, &[("", "bare")]);
    let vars = collect_env_vars(&source, &Some("APP_".to_string()), false);
    assert_bindings(&vars, &[("APP_", "bare")]);
}

#[test]
fn empty_prefix_keeps_everything() {
    let source = env(&[("FOO", "foo"), ("BAR", "bar")]);
    for strip in [false, true] {
        let vars = collect_env_vars(&source, &Some(String::new()), strip);
        assert_bindings(&vars, &[("FOO", "foo"), ("BAR", "bar")]);
    }
}

#[test]
fn later_duplicate_overwrites_earlier() {
    let source = env(&[("APP_X", "first"), ("APP_Y", "y"), ("APP_X", "second")]);
    let vars = collect_env_vars(&source, &Some("APP_".to_string()), true);
    assert_bindings(&vars, &[("X", "second"), ("Y", "y")]);
    let vars = collect_env_vars(&source, &None, true);
    assert_bindings(&vars, &[("APP_X", "second"), ("APP_Y", "y")]);
}

#[test]
fn prefix_with_multibyte_characters() {
    let source = env(&[
        ("\u{e9}t\u{e9}_A", "1"),
        ("\u{e9}t\u{e8}_B", "2"),
        ("\u{e9}t\u{e9}_\u{4e16}", "3"),
    ]);
    let vars = collect_env_vars(&source, &Some("\u{e9}t\u{e9}_".to_string()), true);
    assert_bindings(&vars, &[("A", "1"), ("\u{4e16}", "3")]);
}

#[test]
fn values_are_kept_as_they_are() {
    let source = env(&[("APP_V", "APP_ value with {} and \"quotes\"")]);
    let vars = collect_env_vars(&source, &Some("APP_".to_string()), true);
    assert_bindings(&vars, &[("V", "APP_ value with {} and \"quotes\"")]);
}
