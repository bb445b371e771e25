use ion_vars::expand::{leading_grapheme, minimize_path};
use ion_vars::expand::ExpansionError;
use ion_vars::hex::HexError;
use ion_vars::value::{Function, Value};
use ion_vars::variables::Variables;

fn text(v: Option<&Value>) -> Option<String> {
    match v {
        Some(Value::Str(s)) => Some(s.clone()),
        _ => None,
    }
}

#[test]
fn undefined_variable_errors() {
    let variables = Variables::default();
    assert!(variables.get_str("FOO").is_err());
    assert!(matches!(variables.get_str("UNDEFINED"), Err(ExpansionError::VariableNotFound)));
}

#[test]
fn set_var_and_expand_a_variable() {
    let mut variables = Variables::default();
    variables.set("FOO", Value::Str("BAR".to_string()));
    let expanded = variables.get_str("FOO").unwrap();
    assert_eq!("BAR", &expanded);
}

#[test]
fn minimal_directory_var_should_compact_path() {
    let mut variables = Variables::default();
    variables.set_env("PWD", "/var/log/nix");
    assert_eq!(
        String::from("v/l/nix"),
        variables.get_str("MWD").ok().expect("no value returned"),
    );
}

#[test]
fn minimal_directory_var_shouldnt_compact_path() {
    let mut variables = Variables::default();
    variables.set_env("PWD", "/var/log");
    assert_eq!(
        String::from("/var/log"),
        variables.get_str("MWD").ok().expect("no value returned"),
    );
}

#[test]
fn minimal_directory_keeps_dot_of_hidden_directories() {
    let mut variables = Variables::default();
    variables.set_env("PWD", "/home/.config/ion/x");
    assert_eq!(variables.get_str("MWD").ok().unwrap(), "h/.c/i/x");
}

#[test]
fn simplified_directory_uses_tilde_for_home() {
    let mut variables = Variables::default();
    variables.set_env("PWD", "/home/me/src");
    variables.set_env("HOME", "/home/me");
    assert_eq!(variables.get_str("SWD").ok().unwrap(), "~/src");
    variables.set("HOME", Value::Str("/home".to_string()));
    assert_eq!(variables.get_str("SWD").ok().unwrap(), "~/me/src");
}

#[test]
fn working_directory_unset_is_not_found() {
    let variables = Variables::default();
    assert!(matches!(variables.get_str("SWD"), Err(ExpansionError::VariableNotFound)));
    assert!(matches!(variables.get_str("MWD"), Err(ExpansionError::VariableNotFound)));
}

#[test]
fn super_qualifier_skips_frames() {
    let mut v = Variables::default();
    v.set("name", Value::Str("outer".to_string()));
    v.new_scope(true);
    v.new_scope(true);
    // three frames, the name in the outermost only
    assert_eq!(text(v.get_ref("super::super::name")).unwrap(), "outer");
    assert_eq!(text(v.get_ref("super::name")).unwrap(), "outer");
    assert!(v.get_ref("super::super::super::name").is_none());
    v.pop_scope();
    // two frames: two qualifiers skip them all
    assert!(v.get_ref("super::super::name").is_none());
    assert_eq!(text(v.get_ref("super::name")).unwrap(), "outer");
}

#[test]
fn super_qualifier_misses_inner_binding() {
    let mut v = Variables::default();
    v.new_scope(true);
    v.set("inner", Value::Str("x".to_string()));
    assert_eq!(text(v.get_ref("inner")).unwrap(), "x");
    assert!(v.get_ref("super::inner").is_none());
    assert!(matches!(v.get_str("super::inner"), Err(ExpansionError::VariableNotFound)));
}

#[test]
fn global_qualifier_reads_outermost() {
    let mut v = Variables::default();
    v.set("g", Value::Str("top".to_string()));
    v.new_scope(true);
    v.set("local", Value::Str("l".to_string()));
    assert_eq!(text(v.get_ref("global::g")).unwrap(), "top");
    assert!(v.get_ref("global::local").is_none());
    assert_eq!(v.get_str("global::g").ok().unwrap(), "top");
}

#[test]
fn qualified_writes_are_ignored() {
    let mut v = Variables::default();
    v.set("a", Value::Str("1".to_string()));
    v.new_scope(true);
    v.set("global::a", Value::Str("2".to_string()));
    v.set("super::a", Value::Str("3".to_string()));
    assert_eq!(v.get_str("a").ok().unwrap(), "1");
    assert!(v.remove_variable("global::a").is_none());
    assert!(v.remove_variable("super::a").is_none());
    assert_eq!(v.get_str("a").ok().unwrap(), "1");
}

#[test]
fn assignment_overwrites_where_found() {
    let mut v = Variables::default();
    v.set("a", Value::Str("1".to_string()));
    v.new_scope(false);
    v.set("a", Value::Str("2".to_string()));
    v.set("b", Value::Str("3".to_string()));
    assert_eq!(v.index_scope_for_var("a"), Some(0));
    assert_eq!(v.index_scope_for_var("b"), Some(1));
    v.pop_scope();
    assert_eq!(v.get_str("a").ok().unwrap(), "2");
    assert!(v.get_ref("b").is_none());
}

#[test]
fn remove_takes_innermost_binding() {
    let mut v = Variables::default();
    v.set("a", Value::Str("1".to_string()));
    let removed = v.remove_variable("a");
    assert!(matches!(removed, Some(Value::Str(s)) if s == "1"));
    assert!(v.get_ref("a").is_none());
    assert!(v.remove_variable("a").is_none());
}

#[test]
fn detached_frames_come_back() {
    let mut v = Variables::default();
    v.new_scope(true);
    v.set("x", Value::Str("in".to_string()));
    let detached = v.pop_scopes(1);
    assert_eq!(detached.len(), 1);
    assert!(v.get_ref("x").is_none());
    v.append_scopes(detached);
    assert_eq!(v.get_str("x").ok().unwrap(), "in");
    assert!(v.pop_scopes(0).is_empty());
}

#[test]
fn outermost_frame_is_never_dropped() {
    let mut v = Variables::default();
    v.set("a", Value::Str("1".to_string()));
    v.pop_scope();
    assert_eq!(v.get_str("a").ok().unwrap(), "1");
}

#[test]
fn hex_namespace_renders_a_byte() {
    let v = Variables::default();
    assert_eq!(v.get_str("x::41").ok().unwrap(), "A");
    assert_eq!(v.get_str("hex::+61").ok().unwrap(), "a");
    assert_eq!(v.get_str("x::1B").ok().unwrap(), "\u{1b}");
}

#[test]
fn hex_namespace_errors() {
    let v = Variables::default();
    assert!(matches!(v.get_str("x::"), Err(ExpansionError::InvalidHex(t, HexError::Empty)) if t.is_empty()));
    assert!(matches!(v.get_str("x::zz"), Err(ExpansionError::InvalidHex(t, HexError::InvalidDigit)) if t == "zz"));
    assert!(matches!(v.get_str("x::100"), Err(ExpansionError::InvalidHex(_, HexError::PosOverflow))));
    assert!(matches!(v.get_str("x::+"), Err(ExpansionError::InvalidHex(_, HexError::InvalidDigit))));
}

#[test]
fn env_namespace_reads_environment() {
    let mut v = Variables::default();
    v.set_env("LANG", "C");
    assert_eq!(v.get_str("env::LANG").ok().unwrap(), "C");
    assert!(matches!(v.get_str("env::NOPE"), Err(ExpansionError::UnknownEnv(n)) if n == "NOPE"));
    // a bare name falls back to the environment
    assert_eq!(v.get_str("LANG").ok().unwrap(), "C");
}

#[test]
fn unknown_namespace_is_refused() {
    let v = Variables::default();
    assert!(matches!(v.get_str("foo::bar"), Err(ExpansionError::UnsupportedNamespace(p)) if p == "foo"));
}

#[test]
fn color_namespace_renders_codes() {
    let v = Variables::default();
    assert_eq!(v.get_str("c::red").ok().unwrap(), "\u{1b}[31m");
    assert_eq!(v.get_str("color::0x55,bold").ok().unwrap(), "\u{1b}[38;5;85;1m");
    assert_eq!(v.get_str("c::reset").ok().unwrap(), "\u{1b}[0m");
    assert!(matches!(v.get_str("c::nocolor"), Err(ExpansionError::InvalidColor(t)) if t == "nocolor"));
    assert!(matches!(v.get_str("c::red,"), Err(ExpansionError::InvalidColor(_))));
}

#[test]
fn pseudo_variables_win_over_bindings() {
    let mut v = Variables::default();
    v.set("SWD", Value::Str("stored".to_string()));
    v.set_env("PWD", "/tmp");
    assert_eq!(v.get_str("SWD").ok().unwrap(), "/tmp");
}

#[test]
fn startup_settings() {
    let v = Variables::at_startup(Vec::new(), Some(42), None, Some(7), Some("/h/history".to_string()));
    assert_eq!(v.get_str("HISTORY_SIZE").ok().unwrap(), "1000");
    assert_eq!(v.get_str("HISTFILE_SIZE").ok().unwrap(), "100000");
    assert_eq!(v.get_str("PID").ok().unwrap(), "42");
    assert_eq!(v.get_str("UID").ok().unwrap(), "?");
    assert_eq!(v.get_str("EUID").ok().unwrap(), "7");
    assert_eq!(v.get_str("HISTFILE").ok().unwrap(), "/h/history");
    assert_eq!(v.get_str("HISTFILE_ENABLED").ok().unwrap(), "1");
    assert_eq!(v.get_str("HISTORY_TIMESTAMP").ok().unwrap(), "0");
    assert!(v.get_str("PROMPT").ok().unwrap().starts_with("${x::1B}]0;${USER}: ${PWD}"));
    assert!(matches!(v.get_ref("CDPATH"), Some(Value::Array(a)) if a.is_empty()));
    let d = Variables::default();
    assert!(d.get_ref("HISTFILE").is_none());
}

#[test]
fn listings_by_kind() {
    let mut v = Variables::default();
    v.set("al", Value::Alias("ls -l".to_string()));
    v.set("f", Value::Function(Function { params: vec!["x".to_string()], body: vec!["echo $x".to_string()] }));
    v.new_scope(false);
    v.set("arr", Value::Array(vec!["a".to_string(), "b".to_string()]));
    v.set("s", Value::Str("t".to_string()));
    v.set("al2", Value::Alias("pwd".to_string()));
    let aliases = v.aliases();
    assert_eq!(aliases, vec![("al2".to_string(), "pwd".to_string()), ("al".to_string(), "ls -l".to_string())]);
    let funcs = v.functions();
    assert_eq!(funcs.len(), 1);
    assert_eq!(funcs[0].0, "f");
    assert_eq!(funcs[0].1.params, vec!["x".to_string()]);
    let arrays = v.arrays();
    assert_eq!(arrays[0], ("arr".to_string(), vec!["a".to_string(), "b".to_string()]));
    assert_eq!(arrays[2], ("CDPATH".to_string(), vec![]));
    assert_eq!(arrays.len(), 3);
    let strings = v.string_vars();
    assert_eq!(strings.last().unwrap(), &("s".to_string(), "t".to_string()));
    assert!(strings.iter().any(|(k, val)| k == "HISTORY_SIZE" && val == "1000"));
}

#[test]
fn variable_name_characters() {
    assert!(Variables::is_valid_variable_name("FOO_bar1"));
    assert!(Variables::is_valid_variable_name("x?.-+"));
    assert!(Variables::is_valid_variable_name("été"));
    assert!(Variables::is_valid_variable_name(""));
    assert!(!Variables::is_valid_variable_name("a b"));
    assert!(!Variables::is_valid_variable_name("a$"));
    assert!(Variables::is_valid_variable_character('7'));
    assert!(!Variables::is_valid_variable_character('/'));
    assert!(ion_vars::variables::name_char_given('$', true));
    assert!(!ion_vars::variables::name_char_given('$', false));
    assert!(ion_vars::variables::name_char_given('_', false));
}

#[test]
fn leading_grapheme_takes_dot_and_next() {
    assert_eq!(leading_grapheme(&vec![".".to_string(), "c".to_string(), "f".to_string()]), ".c");
    assert_eq!(leading_grapheme(&vec!["a".to_string(), "b".to_string()]), "a");
    assert_eq!(leading_grapheme(&vec![".".to_string()]), ".");
    assert_eq!(leading_grapheme(&vec![]), "");
    assert_eq!(minimize_path("/usr/lo\u{0301}cal/share/doc"), "u/l/s/doc");
    assert_eq!(minimize_path("/e\u{0301}t/b/c"), "e\u{0301}/b/c");
    assert_eq!(minimize_path("a//b"), "a//b");
}
