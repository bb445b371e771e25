use ion_vars::completer::{
    completion_type, escape, merge_completions, unescape, CompletionType, CursorPosition, MultiCompleter,
};
use ion_vars::shell::{
    error_status, external_status, summary_line, Dispatch, ExecError, ExternalOutcome, Job, Shell,
    FAILURE, INTERRUPTED, NO_SUCH_COMMAND,
};
use ion_vars::status::status;
use ion_vars::value::{Function, Value};
use ion_vars::variables::Variables;

fn job(words: &[&str]) -> Job {
    Job { command: words[0].to_string(), args: words.iter().map(|w| w.to_string()).collect() }
}

fn shell() -> Shell {
    Shell::new(Variables::default(), false, false)
}

fn define_f(sh: &mut Shell) {
    sh.variables.set(
        "f",
        Value::Function(Function { params: vec!["x".to_string()], body: vec!["let x = inner".to_string()] }),
    );
}

#[test]
fn function_call_restores_shadowed_variable() {
    let mut sh = shell();
    define_f(&mut sh);
    sh.variables.set("x", Value::Str("outer".to_string()));
    let j = job(&["f", "arg"]);
    let f = match sh.plan(&j, false, false) {
        Dispatch::Function(f) => f,
        _ => panic!("expected a function"),
    };
    let caps = sh.enter_function(&f, &j);
    assert_eq!(sh.variables.get_str("x").ok().unwrap(), "arg");
    // the body reassigns x
    sh.variables.set("x", Value::Str("inner".to_string()));
    sh.leave_function(caps);
    assert_eq!(sh.variables.get_str("x").ok().unwrap(), "outer");
}

#[test]
fn function_call_restores_after_body_removes_parameter() {
    let mut sh = shell();
    define_f(&mut sh);
    sh.variables.set("x", Value::Str("outer".to_string()));
    let j = job(&["f", "arg"]);
    let f = match sh.plan(&j, false, false) {
        Dispatch::Function(f) => f,
        _ => panic!("expected a function"),
    };
    let caps = sh.enter_function(&f, &j);
    sh.variables.remove_variable("x");
    sh.variables.remove_variable("x");
    sh.variables.new_scope(false);
    sh.variables.set("x", Value::Str("deeper".to_string()));
    sh.variables.pop_scope();
    sh.leave_function(caps);
    assert_eq!(sh.variables.get_str("x").ok().unwrap(), "outer");
}

#[test]
fn function_call_unbinds_fresh_parameter() {
    let mut sh = shell();
    define_f(&mut sh);
    let j = job(&["f", "arg"]);
    let f = match sh.plan(&j, false, false) {
        Dispatch::Function(f) => f,
        _ => panic!("expected a function"),
    };
    let caps = sh.enter_function(&f, &j);
    assert_eq!(sh.variables.get_str("x").ok().unwrap(), "arg");
    sh.leave_function(caps);
    assert!(sh.variables.get_ref("x").is_none());
}

#[test]
fn arity_mismatch_binds_nothing() {
    let mut sh = shell();
    define_f(&mut sh);
    let j = job(&["f", "a", "b"]);
    match sh.plan(&j, false, false) {
        Dispatch::ArityMismatch { expected, got } => {
            assert_eq!(expected, 1);
            assert_eq!(got, 2);
            assert_eq!(error_status(ExecError::FunctionArityMismatch { expected, got }), NO_SUCH_COMMAND);
        },
        _ => panic!("expected an arity mismatch"),
    }
    assert!(matches!(sh.plan(&job(&["f"]), false, false), Dispatch::ArityMismatch { expected: 1, got: 0 }));
    assert!(sh.variables.get_ref("x").is_none());
}

#[test]
fn alias_expands_once() {
    let mut sh = shell();
    sh.variables.set("ls", Value::Alias("ls --color".to_string()));
    match sh.plan(&job(&["ls", "-a", "dir"]), false, true) {
        Dispatch::Alias(text) => assert_eq!(text, "ls --color -a dir"),
        _ => panic!("expected an alias"),
    }
    assert!(matches!(sh.plan(&job(&["ls"]), true, true), Dispatch::Builtin));
    assert!(matches!(sh.plan(&job(&["ls"]), true, false), Dispatch::External));
}

#[test]
fn dispatch_order() {
    let mut sh = shell();
    define_f(&mut sh);
    assert!(matches!(sh.plan(&job(&["f", "1"]), false, true), Dispatch::Builtin));
    assert!(matches!(sh.plan(&job(&["notacommand"]), false, false), Dispatch::External));
}

#[test]
fn unresolved_command_in_pipeline_has_no_such_command_status() {
    let mut sh = shell();
    // `ls | notacommand`: the pipeline goes out, and the collaborator finds no command
    assert!(matches!(sh.plan(&job(&["notacommand"]), false, false), Dispatch::External));
    let code = external_status(ExternalOutcome::NotFound);
    assert_eq!(code, NO_SUCH_COMMAND);
    assert_ne!(code, FAILURE);
    sh.record_status(Some(code));
    assert_eq!(sh.previous_status, 127);
    assert_eq!(sh.variables.get_str("?").ok().unwrap(), "127");
}

#[test]
fn external_status_passes_codes_through() {
    assert_eq!(external_status(ExternalOutcome::Exited(3)), 3);
    assert_eq!(external_status(ExternalOutcome::Interrupted), INTERRUPTED);
    assert_eq!(error_status(ExecError::AliasExpansionNotAPipeline), FAILURE);
}

#[test]
fn status_recording() {
    let mut sh = shell();
    sh.record_status(Some(-2));
    assert_eq!(sh.variables.get_str("?").ok().unwrap(), "-2");
    sh.record_status(None);
    assert_eq!(sh.previous_status, -2);
    assert_eq!(sh.variables.get_str("?").ok().unwrap(), "-2");
}

#[test]
fn summary_line_pads_nanoseconds() {
    assert_eq!(summary_line(2, 5000), "#summary# elapsed real time: 2.000005000 seconds");
    assert_eq!(summary_line(0, 123456789), "#summary# elapsed real time: 0.123456789 seconds");
}

#[test]
fn summary_flag() {
    let mut sh = shell();
    assert!(!sh.wants_summary());
    sh.variables.set("RECORD_SUMMARY", Value::Str("1".to_string()));
    assert!(sh.wants_summary());
    sh.variables.set("RECORD_SUMMARY", Value::Str("11".to_string()));
    assert!(!sh.wants_summary());
}

#[test]
fn prompt_indents_inside_blocks() {
    let mut sh = shell();
    sh.variables.set_env("USER", "me");
    sh.variables.set_env("PWD", "/tmp");
    assert_eq!(
        sh.prompt(),
        "\u{1b}]0;me: /tmp\u{7}\u{1b}[38;5;85;1mme\u{1b}[39m:\u{1b}[38;5;75m/tmp\u{1b}[39m# \u{1b}[0m"
    );
    sh.variables.set("PROMPT", Value::Str("${USER} ${NOPE}> ".to_string()));
    assert_eq!(sh.prompt(), "me > ");
    sh.variables.set("PROMPT", Value::Str("${USER".to_string()));
    assert_eq!(sh.prompt(), "ERROR: ");
    sh.flow_level = 2;
    assert_eq!(sh.prompt(), "        ");
}

#[test]
fn status_builtin() {
    let sh = Shell::new(Variables::default(), true, false);
    assert_eq!(status(&vec![], &sh), Ok(String::new()));
    assert_eq!(status(&vec!["status".to_string()], &sh), Ok("This is a login shell\n".to_string()));
    let other = shell();
    assert_eq!(status(&vec!["status".to_string()], &other), Ok("This is not a login shell\n".to_string()));
    assert_eq!(
        status(&vec!["a".to_string(), "b".to_string()], &sh),
        Err("status takes one argument\n".to_string())
    );
}

#[test]
fn escaping_round_trip() {
    assert_eq!(escape("a b(c)"), "a\\ b\\(c\\)");
    assert_eq!(unescape("a\\ b\\(c\\)"), "a b(c)");
    assert_eq!(unescape("a\\nb"), "a\\nb");
    assert_eq!(unescape("end\\"), "end");
    assert_eq!(unescape(&escape("x$y*z")), "x$y*z");
}

#[test]
fn merged_completions_keep_order() {
    let m = MultiCompleter::new(vec![1, 2]);
    assert_eq!(m.completers(), &vec![1, 2]);
    let lists = vec![vec!["a".to_string()], vec![], vec!["b".to_string(), "c".to_string()]];
    assert_eq!(merge_completions(&lists), vec!["a".to_string(), "b".to_string(), "c".to_string()]);
}

#[test]
fn variable_name_completions() {
    let mut v = Variables::default();
    v.set("HOSTNAME", Value::Str("h".to_string()));
    v.set("HOME_DIR", Value::Str("d".to_string()));
    v.set("HOARD", Value::Array(vec![]));
    let strings = ion_vars::completer::variable_completions(&v, "$HO");
    assert_eq!(strings, vec!["$HOSTNAME".to_string(), "$HOME_DIR".to_string()]);
    let arrays = ion_vars::completer::variable_completions(&v, "@HO");
    assert_eq!(arrays, vec!["@HOARD".to_string()]);
    assert!(ion_vars::completer::variable_completions(&v, "HO").is_empty());
    let all_arrays = ion_vars::completer::variable_completions(&v, "@");
    assert_eq!(all_arrays.len(), 3);
}

fn words(ws: &[&str]) -> Vec<String> {
    ws.iter().map(|w| w.to_string()).collect()
}

#[test]
fn completion_kind_by_cursor() {
    assert!(matches!(completion_type(&vec![], CursorPosition::InWord(0)), CompletionType::Nothing));
    assert!(matches!(completion_type(&words(&["ls", "-l"]), CursorPosition::InWord(0)), CompletionType::Command));
    assert!(matches!(completion_type(&words(&["ls"]), CursorPosition::InSpace(None, Some(0))), CompletionType::Command));
    assert!(matches!(
        completion_type(&words(&["echo", "a|", "gr"]), CursorPosition::OnWordRightEdge(2)),
        CompletionType::Command
    ));
    match completion_type(&words(&["echo", "a|", "grep", "x"]), CursorPosition::InWord(3)) {
        CompletionType::VariableAndFiles(r) => {
            assert_eq!(r.argv, words(&["grep", "x"]));
            assert_eq!(r.word, 1);
        }
        _ => panic!("expected a request"),
    }
    match completion_type(&words(&["echo", "a|", "grep", "x"]), CursorPosition::InSpace(Some(3), None)) {
        CompletionType::VariableAndFiles(r) => {
            assert_eq!(r.argv, words(&["grep", "x", ""]));
            assert_eq!(r.word, 2);
        }
        _ => panic!("expected a request"),
    }
    match completion_type(&words(&["a;", "b"]), CursorPosition::OnWordLeftEdge(0)) {
        CompletionType::VariableAndFiles(r) => {
            assert_eq!(r.argv, words(&["b"]));
            assert_eq!(r.word, 65535);
        }
        _ => panic!("expected a request"),
    }
}

#[test]
fn suggestions_follow_typed_prefix() {
    let r = ion_vars::completer::with_prefix("gi", &words(&["t", "thub"]));
    assert_eq!(r, words(&["git", "github"]));
}
