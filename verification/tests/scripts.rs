use triton::commands::run::script_run_tokens;
use triton::commands::script::{
    detect_shell_invocation, is_shelly, looks_like_path, plan_script, plan_script_command, shell_escape,
    split_command, ScriptError, ScriptLaunch,
};
use triton::models::TritonRoot;

fn scripts(pairs: &[(&str, &str)]) -> Vec<(String, String)> {
    pairs.iter().map(|(a, b)| (a.to_string(), b.to_string())).collect()
}

fn tokens(t: &[&str]) -> Vec<String> {
    t.iter().map(|s| s.to_string()).collect()
}

#[test]
fn script_executes_direct_and_passes_args() {
    let s = scripts(&[("say", "/tmp/td/echo_args.sh")]);
    match plan_script_command(&tokens(&["say", "hello", "world"]), &s, false).unwrap() {
        ScriptLaunch::Program { program, local, args } => {
            assert_eq!(program, "/tmp/td/echo_args.sh");
            assert_eq!(local.as_deref(), Some("/tmp/td/echo_args.sh"));
            assert_eq!(args, vec!["hello", "world"]);
        }
        other => panic!("expected a direct program launch, got {:?}", other),
    }
}

#[test]
fn script_with_shell_operators_runs_via_shell() {
    let s = scripts(&[("both", "echo LEFT && echo RIGHT")]);
    match plan_script_command(&tokens(&["both"]), &s, false).unwrap() {
        ScriptLaunch::ShellLine { line } => assert_eq!(line, "echo LEFT && echo RIGHT"),
        other => panic!("expected a shell line, got {:?}", other),
    }
    match plan_script_command(&tokens(&["both", "x y"]), &s, true).unwrap() {
        ScriptLaunch::ShellLine { line } => assert_eq!(line, "echo LEFT && echo RIGHT \"x y\""),
        other => panic!("expected a shell line, got {:?}", other),
    }
}

#[test]
fn windows_dot_slash_path_is_normalized() {
    let s = scripts(&[("dot", "./script.cmd")]);
    match plan_script_command(&tokens(&["dot", "A", "B"]), &s, true).unwrap() {
        ScriptLaunch::WindowsBatch { path, rooted, tail } => {
            assert_eq!(path, "script.cmd");
            assert!(rooted);
            assert_eq!(tail, " A B");
        }
        other => panic!("expected a batch launch, got {:?}", other),
    }
    match plan_script(".\\tools\\run.exe --fast", &tokens(&["x"]), true) {
        ScriptLaunch::WindowsPath { path, rooted, args } => {
            assert_eq!(path, "tools\\run.exe");
            assert!(rooted);
            assert_eq!(args, vec!["--fast", "x"]);
        }
        other => panic!("expected a path launch, got {:?}", other),
    }
}

#[test]
fn unknown_script_is_reported() {
    let s = scripts(&[]);
    let err = plan_script_command(&tokens(&["nope"]), &s, false).unwrap_err();
    assert!(matches!(err, ScriptError::UnknownScript(ref n) if n == "nope"));
    assert!(err.message().to_ascii_lowercase().contains("unknown script"));
    let none = plan_script_command(&tokens(&[]), &s, false).unwrap_err();
    assert_eq!(none.message(), "No script name provided");
}

#[test]
fn shell_interpreters_are_detected() {
    assert_eq!(detect_shell_invocation("  bash ./run.sh"), Some(("bash".to_string(), "./run.sh".to_string())));
    assert_eq!(detect_shell_invocation("sh -c 'x'"), Some(("sh".to_string(), "-c 'x'".to_string())));
    assert_eq!(detect_shell_invocation("cargo build"), None);
    match plan_script("bash scripts\\gen.sh", &tokens(&["a"]), true) {
        ScriptLaunch::Interpreter { interp, args } => {
            assert_eq!(interp, "bash");
            assert_eq!(args, vec!["./scripts/gen.sh", "a"]);
        }
        other => panic!("expected an interpreter launch, got {:?}", other),
    }
}

#[test]
fn quoting_and_classification() {
    assert_eq!(shell_escape("plain", false), "plain");
    assert_eq!(shell_escape("a b", false), "'a b'");
    assert_eq!(shell_escape("it's", false), "'it'\\''s'");
    assert_eq!(shell_escape("", false), "''");
    assert_eq!(shell_escape("a \"b\"", true), "\"a \\\"b\\\"\"");
    assert_eq!(shell_escape("plain", true), "plain");
    assert!(is_shelly("a | b", false));
    assert!(is_shelly("echo $(date)", false));
    assert!(!is_shelly("echo %PATH%", false));
    assert!(is_shelly("echo %PATH%", true));
    assert!(looks_like_path("tools/x") && looks_like_path("run.bat") && !looks_like_path("cargo"));
    let (p, a) = split_command("  dotnet build   path/to/proj ");
    assert_eq!(p, "dotnet");
    assert_eq!(a, vec!["build", "path/to/proj"]);
}

#[test]
fn run_path_naming_a_script_runs_it() {
    let root = TritonRoot {
        app_name: "demo".into(),
        generator: "Ninja".into(),
        cxx_std: "20".into(),
        c_std: None,
        deps: vec![],
        components: vec![],
        scripts: scripts(&[("fmt", "clang-format -i src/*.cpp")]),
    };
    assert_eq!(script_run_tokens(&root, "fmt", &tokens(&["--dry"])), Some(tokens(&["fmt", "--dry"])));
    assert_eq!(script_run_tokens(&root, ".", &tokens(&[])), None);
}

#[test]
fn shell_detection_needs_a_whole_word() {
    assert_eq!(detect_shell_invocation("shfmt -w src"), None);
    assert_eq!(detect_shell_invocation("bashful run"), None);
    assert_eq!(detect_shell_invocation("sh"), Some(("sh".to_string(), String::new())));
    assert_eq!(detect_shell_invocation("BASH\tbuild.sh"), Some(("bash".to_string(), "build.sh".to_string())));
}

#[test]
fn program_named_like_a_shell_is_not_an_interpreter() {
    let s = vec![("fmt".to_string(), "shfmt -w src".to_string())];
    match plan_script_command(&tokens(&["fmt"]), &s, false).unwrap() {
        ScriptLaunch::Program { program, args, .. } => {
            assert_eq!(program, "shfmt");
            assert_eq!(args, vec!["-w".to_string(), "src".to_string()]);
        }
        other => panic!("unexpected plan: {:?}", other),
    }
}
