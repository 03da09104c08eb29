use intake::agent::command_policy::{
    check_input, resolve_executable, tokenize, validate_ast, validate_tree, Candidate,
    CommandPolicy, ParsedCommand, Pipeline, SyntaxNode,
};
use intake::agent::process::{ProcessFailure, ProcessOutput};
use intake::config::{
    CommandRule, CommandsConfig, IntakeConfig, SkillsConfig, StateConfig, TriageConfig,
};

fn words(list: &[&str]) -> Vec<String> {
    list.iter().map(|word| word.to_string()).collect()
}

fn config(patterns: &[&str]) -> IntakeConfig {
    IntakeConfig {
        version: 1,
        project_roots: words(&["/work"]),
        state: StateConfig::default(),
        skills: SkillsConfig { directories: words(&["/skills"]), approved_roots: words(&["/skills"]) },
        sources: Vec::new(),
        triage: TriageConfig::default(),
        commands: CommandsConfig {
            path: words(&["/usr/bin", "/bin"]),
            timeout_seconds: 60,
            max_output_bytes: 65_536,
            sensitive_patterns: words(patterns),
            rules: vec![
                CommandRule { executable: "git".to_string() },
                CommandRule { executable: "rg".to_string() },
            ],
        },
    }
}

fn policy(patterns: &[&str]) -> CommandPolicy {
    CommandPolicy::new(&config(patterns), words(&["/work"]), "/").unwrap()
}

fn refused(command: &str) -> String {
    policy(&[]).parse_and_authorize(command, "/work", "/").err().unwrap()
}

#[test]
fn tokenizes_literal_quotes_and_escapes() {
    assert_eq!(
        tokenize("aven search \\\"literal\\\" 'login issue'").unwrap(),
        vec![words(&["aven", "search", "\"literal\"", "login issue"])]
    );
}

#[test]
fn tokenizer_keeps_quoted_words_as_they_are() {
    let stages = [vec!["a b", "it's", "|"], vec!["'", "", "$(x) * # \\"], vec!["\n"]];
    let quoted = stages
        .iter()
        .map(|stage| {
            stage
                .iter()
                .map(|word| format!("'{}'", word.replace('\'', "'\\''")))
                .collect::<Vec<_>>()
                .join(" ")
        })
        .collect::<Vec<_>>()
        .join(" | ");
    assert_eq!(tokenize(&quoted).unwrap(), stages.map(|stage| words(&stage)).to_vec());
}

#[test]
fn tokenizes_pipelines() {
    assert_eq!(
        tokenize("git log | rg 'a|b'").unwrap(),
        vec![words(&["git", "log"]), words(&["rg", "a|b"])]
    );
}

#[test]
fn tokenizer_keeps_empty_words() {
    assert_eq!(tokenize("git ''").unwrap(), vec![words(&["git", ""])]);
    assert_eq!(tokenize("git \"a b\"c").unwrap(), vec![words(&["git", "a bc"])]);
}

#[test]
fn tokenizer_refuses_shell_syntax() {
    assert_eq!(tokenize("git \"$HOME\"").unwrap_err(), "shell expansions are forbidden");
    assert_eq!(tokenize("git $HOME").unwrap_err(), "shell operator is forbidden: $");
    assert_eq!(tokenize("git; rm").unwrap_err(), "shell operator is forbidden: ;");
    assert_eq!(tokenize("git *.rs").unwrap_err(), "unquoted glob syntax is forbidden");
    assert_eq!(tokenize("git # x").unwrap_err(), "shell comments are forbidden");
    assert_eq!(tokenize("git | | rg").unwrap_err(), "pipeline contains an empty stage");
    assert_eq!(
        tokenize("git 'open").unwrap_err(),
        "command syntax is invalid: incomplete quote or escape"
    );
    assert_eq!(
        tokenize("git\nlog").unwrap_err(),
        "newlines outside quoted arguments are forbidden"
    );
}

#[test]
fn tokenizer_bounds_pipelines() {
    let eight = vec!["git"; 8].join(" | ");
    assert_eq!(tokenize(&eight).unwrap().len(), 8);
    let nine = vec!["git"; 9].join(" | ");
    assert_eq!(
        tokenize(&nine).unwrap_err(),
        "pipeline stage count is outside policy bounds"
    );
}

#[test]
fn parser_agrees_with_the_tokenizer() {
    for command in ["git log", "git log | rg 'x y'", "git \"a b\" c", "git log --oneline | rg fix | rg -v wip"] {
        let stages = tokenize(command).unwrap();
        assert_eq!(validate_ast(command, &stages), Ok(()), "{}", command);
    }
}

#[test]
fn parser_refuses_other_constructs() {
    let stages = vec![words(&["git", "log"])];
    assert!(validate_ast("git log && git status", &stages).is_err());
    assert!(validate_ast("x=1 git log", &stages).is_err());
    assert!(validate_ast("git log > out", &stages).is_err());
    assert!(validate_ast("git $(id)", &stages).is_err());
    assert!(validate_ast("if git; then", &stages).is_err());
    assert_eq!(
        validate_ast("git log | rg x", &stages).unwrap_err(),
        "parser and command tokenizer disagree on pipeline structure"
    );
    assert_eq!(
        validate_ast("git log --all", &stages).unwrap_err(),
        "parser and command tokenizer disagree on argument structure"
    );
}

fn node(kind: &str, named: bool, depth: u32) -> SyntaxNode {
    SyntaxNode { kind: kind.to_string(), named, error: false, missing: false, has_error: false, depth }
}

#[test]
fn trees_are_checked_node_by_node() {
    let good = vec![
        node("program", true, 0),
        node("command", true, 1),
        node("command_name", true, 2),
        node("word", true, 3),
    ];
    assert_eq!(validate_tree(&good, &vec![words(&["git"])]), Ok(()));
    let mut broken = vec![node("program", true, 0)];
    broken[0].has_error = true;
    assert_eq!(
        validate_tree(&broken, &vec![words(&["git"])]).unwrap_err(),
        "command syntax is invalid or recovered by the parser"
    );
    let empty = vec![node("program", true, 0)];
    assert_eq!(
        validate_tree(&empty, &vec![words(&["git"])]).unwrap_err(),
        "only one command or one pipeline is permitted"
    );
}

#[test]
fn policy_authorizes_allowed_commands() {
    let parsed = policy(&[]).parse_and_authorize("git log | rg fix", "/work/project", "/").unwrap();
    assert_eq!(parsed.stages, vec![words(&["git", "log"]), words(&["rg", "fix"])]);
}

#[test]
fn policy_refuses_other_commands() {
    assert_eq!(refused("curl x"), "executable is not allowed: curl");
    assert_eq!(refused("git log | sh"), "executable is not allowed: sh");
    assert_eq!(refused(""), "command length is outside policy bounds");
    assert_eq!(refused("git \u{0}"), "NUL bytes are forbidden");
    assert_eq!(
        policy(&[]).parse_and_authorize("git log", "/elsewhere", "/").err().unwrap(),
        "working directory is outside approved roots: /elsewhere"
    );
    assert_eq!(
        policy(&[]).parse_and_authorize("git log", "/work/../elsewhere", "/").err().unwrap(),
        "working directory is outside approved roots: /work/../elsewhere"
    );
}

#[test]
fn policy_filters_credentials() {
    let policy = policy(&["internal-[0-9]+"]);
    assert_eq!(policy.filter("token: abc rest"), "[REDACTED] rest");
    assert_eq!(policy.filter("see https://me:pw@host/x"), "see [REDACTED]host/x");
    assert_eq!(policy.filter("id INTERNAL-42!"), "id [REDACTED]!");
    assert_eq!(policy.filter("nothing here"), "nothing here");
}

#[test]
fn policy_refuses_patterns_that_do_not_compile() {
    assert_eq!(
        CommandPolicy::new(&config(&["("]), words(&["/work"]), "/").err().unwrap(),
        "invalid sensitive command pattern: ("
    );
}

#[test]
fn policy_environment_is_fixed() {
    let environment = policy(&[]).environment("/home/me");
    let path = environment.iter().find(|variable| variable.name == "PATH").unwrap();
    assert_eq!(path.value, "/usr/bin:/bin");
    let home = environment.iter().find(|variable| variable.name == "HOME").unwrap();
    assert_eq!(home.value, "/home/me");
}

#[test]
fn stdin_is_bounded() {
    assert_eq!(check_input(None), Ok(()));
    assert_eq!(check_input(Some(262_144)), Ok(()));
    assert_eq!(check_input(Some(262_145)).unwrap_err(), "command stdin exceeds policy bounds");
}

fn candidate(path: &str, directory: &str) -> Candidate {
    Candidate {
        present: true,
        symlink: false,
        regular: true,
        mode: 0o755,
        canonical: Ok(path.to_string()),
        directory: directory.to_string(),
    }
}

#[test]
fn executables_are_resolved_inside_the_path() {
    let mut hidden = candidate("/usr/bin/git", "/usr/bin");
    hidden.mode = 0o644;
    let candidates = vec![hidden, candidate("/bin/git", "/bin")];
    assert_eq!(resolve_executable("git", &candidates, "/"), Ok("/bin/git".to_string()));
    let outside = vec![candidate("/tmp/git", "/bin")];
    assert_eq!(
        resolve_executable("git", &outside, "/").unwrap_err(),
        "allowed executable is unavailable on the fixed PATH: git"
    );
    let mut broken = candidate("", "/bin");
    broken.canonical = Err("gone".to_string());
    assert_eq!(resolve_executable("git", &vec![broken], "/").unwrap_err(), "gone");
}

fn output(code: Option<i32>, stdout: &str, stderr: &str) -> ProcessOutput {
    ProcessOutput {
        exit_code: code,
        stdout: stdout.as_bytes().to_vec(),
        stderr: stderr.as_bytes().to_vec(),
        stdout_truncated: false,
        stderr_truncated: false,
        failure: None,
    }
}

fn pipeline_of(stages: &[&[&str]]) -> Pipeline {
    let stages = stages
        .iter()
        .map(|stage| stage.iter().map(|word| word.to_string()).collect::<Vec<_>>())
        .collect::<Vec<_>>();
    let executables = stages.iter().map(|stage| format!("/bin/{}", stage[0])).collect();
    Pipeline::start(&ParsedCommand { stages }, &executables, None)
}

#[test]
fn pipelines_pass_output_on() {
    let mut pipeline = pipeline_of(&[&["rg", "a", "b"], &["fd"]]);
    let stage = pipeline.next().unwrap();
    assert_eq!(stage.executable, "/bin/rg");
    assert_eq!(stage.arguments, vec!["a".to_string(), "b".to_string()]);
    pipeline.absorb(output(Some(0), "one", "w1"));
    assert_eq!(pipeline.stdin, Some(b"one".to_vec()));
    let stage = pipeline.next().unwrap();
    assert_eq!((stage.executable.as_str(), stage.arguments.len()), ("/bin/fd", 0));
    pipeline.absorb(output(Some(0), "token=abc", "w2"));
    assert!(pipeline.next().is_none());
    let result = pipeline.finish(&policy(&[]));
    assert_eq!(result.exit_code, 0);
    assert_eq!(result.stdout, "[REDACTED]");
    assert_eq!(result.stderr, "w1w2");
    assert!(!result.truncated);
}

#[test]
fn pipelines_stop_at_the_first_failure() {
    let mut pipeline = pipeline_of(&[&["rg"], &["fd"], &["rg"]]);
    pipeline.absorb(output(Some(2), "", "bad"));
    assert!(pipeline.next().is_none());
    assert_eq!(pipeline.exit_code, 2);
    let mut stopped = pipeline_of(&[&["rg"], &["fd"]]);
    let mut killed = output(None, "", "");
    killed.failure = Some(ProcessFailure::TimedOut);
    killed.stderr_truncated = true;
    stopped.absorb(killed);
    assert_eq!(stopped.exit_code, -1);
    assert_eq!(stopped.stderr, "\n[stderr truncated]");
    assert_eq!(stopped.finish(&policy(&[])).failure, Some(ProcessFailure::TimedOut));
}
