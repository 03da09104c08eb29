use intake::config::{
    config_directory_with_env, default_config_path, expand_path_with_env, initialize_private_config,
    is_within, lookup, parse_yaml_value, project_registry_path, state_directory_with_env,
    valid_configuration_key, valid_environment_name, valid_executable_name, valid_source_name,
    CommandRule, CommandsConfig, ConfigError, IntakeConfig, SkillsConfig, SourceConfig,
    SourceOption, StateConfig, ThinkingLevel, TriageConfig, Variable,
};

fn texts(list: &[&str]) -> Vec<String> {
    list.iter().map(|item| item.to_string()).collect()
}

fn environment(list: &[(&str, &str)]) -> Vec<Variable> {
    list.iter()
        .map(|(name, value)| Variable { name: name.to_string(), value: value.to_string() })
        .collect()
}

fn source(name: &str) -> SourceConfig {
    SourceConfig {
        name: name.to_string(),
        command: "mail".to_string(),
        args: Vec::new(),
        interval_seconds: 60,
        timeout_seconds: 30,
        item_limit: 10,
        environment: Vec::new(),
        options: Vec::new(),
    }
}

fn config() -> IntakeConfig {
    IntakeConfig {
        version: 1,
        project_roots: texts(&["~/code"]),
        state: StateConfig::default(),
        skills: SkillsConfig { directories: texts(&["/skills"]), approved_roots: texts(&["/skills"]) },
        sources: vec![source("mail")],
        triage: TriageConfig::default(),
        commands: CommandsConfig {
            path: texts(&["/usr/bin"]),
            timeout_seconds: 60,
            max_output_bytes: 65_536,
            sensitive_patterns: Vec::new(),
            rules: vec![CommandRule { executable: "git".to_string() }],
        },
    }
}

#[test]
fn a_plain_configuration_is_valid() {
    assert_eq!(config().validate(), Ok(()));
}

#[test]
fn names_and_keys_are_checked() {
    assert!(valid_source_name("mail-1"));
    assert!(!valid_source_name(""));
    assert!(!valid_source_name("Mail"));
    assert!(valid_environment_name("MAIL_TOKEN"));
    assert!(!valid_environment_name("1MAIL"));
    assert!(valid_executable_name("git"));
    assert!(!valid_executable_name("/bin/git"));
    assert!(valid_configuration_key("mail"));
    assert!(!valid_configuration_key(""));
}

#[test]
fn limits_are_checked() {
    let mut wrong = config();
    wrong.triage.timeout_minutes = 31;
    assert!(wrong.validate().unwrap_err().contains("triage.timeout_minutes"));
    let mut wrong = config();
    wrong.triage.max_attempts = 0;
    assert!(wrong.validate().unwrap_err().contains("triage.max_attempts"));
    let mut wrong = config();
    wrong.sources[0].item_limit = 1001;
    assert!(wrong.validate().unwrap_err().contains("item_limit"));
    let mut wrong = config();
    wrong.version = 2;
    assert!(wrong.validate().is_err());
    let mut wrong = config();
    wrong.project_roots = Vec::new();
    assert!(wrong.validate().unwrap_err().contains("project_roots"));
}

#[test]
fn repetitions_are_refused() {
    let mut wrong = config();
    wrong.sources.push(source("mail"));
    assert!(wrong.validate().is_err());
    let mut wrong = config();
    wrong.commands.rules.push(CommandRule { executable: "git".to_string() });
    assert!(wrong.validate().is_err());
}

#[test]
fn source_options_need_proper_keys() {
    let mut wrong = config();
    wrong.sources[0].options =
        vec![SourceOption { key: "".to_string(), value: "1".to_string() }];
    assert!(wrong.validate().is_err());
    let mut wrong = config();
    wrong.sources[0].environment = texts(&["bad name"]);
    assert!(wrong.validate().is_err());
}

#[test]
fn the_later_variable_counts() {
    let list = environment(&[("A", "1"), ("B", "2"), ("A", "3")]);
    assert_eq!(lookup(&list, "A"), Some("3".to_string()));
    assert_eq!(lookup(&list, "C"), None);
}

#[test]
fn directories_follow_the_environment() {
    let home = environment(&[("HOME", "/home/me")]);
    assert_eq!(config_directory_with_env(&home, "/").unwrap(), "/home/me/.config/intake");
    assert_eq!(state_directory_with_env(&home, "/").unwrap(), "/home/me/.local/state/intake");
    assert_eq!(default_config_path(&home, "/").unwrap(), "/home/me/.config/intake/config.yaml");
    assert_eq!(project_registry_path(&home, "/").unwrap(), "/home/me/.config/intake/projects.yaml");
    let xdg = environment(&[("HOME", "/home/me"), ("XDG_CONFIG_HOME", "/etc/xdg")]);
    assert_eq!(config_directory_with_env(&xdg, "/").unwrap(), "/etc/xdg/intake");
    let error = config_directory_with_env(&Vec::new(), "/").unwrap_err();
    assert!(matches!(error, ConfigError::MissingHome));
    assert_eq!(error.message(), "HOME is not set");
}

#[test]
fn paths_are_expanded() {
    let home = environment(&[("HOME", "/home/me")]);
    assert_eq!(expand_path_with_env("~", &home, "/").unwrap(), "/home/me");
    assert_eq!(expand_path_with_env("~/a/../b", &home, "/").unwrap(), "/home/me/b");
    assert_eq!(expand_path_with_env("~other", &home, "/cwd").unwrap(), "/cwd/~other");
    assert_eq!(expand_path_with_env("x", &home, "/cwd").unwrap(), "/cwd/x");
    assert!(expand_path_with_env("~", &Vec::new(), "/").is_err());
    let expanded = expand_path_with_env("~/./a//b/../~", &home, "/cwd").unwrap();
    assert_eq!(expanded, "/home/me/a/~");
    assert_eq!(expand_path_with_env(&expanded, &Vec::new(), "/else").unwrap(), expanded);
    assert!(is_within("/home/me/b", &texts(&["/home/me"]), "/"));
}

#[test]
fn the_initial_layout_is_valid() {
    let home = environment(&[("HOME", "/home/me")]);
    let plan = initialize_private_config(
        "/home/me/.config/intake/config.yaml",
        ".skills",
        &home,
        "/",
    )
    .unwrap();
    let layout = plan.layout.unwrap();
    assert_eq!(layout.config.validate(), Ok(()));
    assert_eq!(layout.projects_path, "/home/me/.config/intake/projects.yaml");
    assert_eq!(
        plan.directories,
        texts(&[
            "/home/me/.config/intake",
            "/home/me/.config/intake/skills",
            "/home/me/.local/state/intake"
        ])
    );
    assert_eq!(
        layout.config.skills.approved_roots,
        texts(&["/home/me/.config/intake/skills", "/home/me/.skills"])
    );
    assert_eq!(layout.config.triage.thinking_level, ThinkingLevel::Max);
    let first = layout.clone().into_result(true, true);
    assert_eq!(first.config_path, "/home/me/.config/intake/config.yaml");
    assert_eq!(
        first.created,
        texts(&["/home/me/.config/intake/config.yaml", "/home/me/.config/intake/projects.yaml"])
    );
    let second = layout.clone().into_result(false, false);
    assert_eq!(second.config_path, first.config_path);
    assert!(second.created.is_empty());
    assert_eq!(
        layout.into_result(false, true).created,
        texts(&["/home/me/.config/intake/projects.yaml"])
    );
    assert!(matches!(
        initialize_private_config("/x/config.yaml", ".skills", &Vec::new(), "/"),
        Err(ConfigError::MissingHome)
    ));
    // Without a home the directories are still created where the state has a place of its own.
    let homeless = environment(&[("XDG_STATE_HOME", "/state")]);
    let plan = initialize_private_config("/x/config.yaml", ".skills", &homeless, "/").unwrap();
    assert_eq!(plan.directories, texts(&["/x", "/x/skills", "/state/intake"]));
    assert!(matches!(plan.layout, Err(ConfigError::MissingHome)));
    assert!(matches!(
        initialize_private_config("/", ".skills", &homeless, "/"),
        Err(ConfigError::MissingExecutableDirectory)
    ));
}

#[test]
fn yaml_is_read_strictly() {
    assert_eq!(parse_yaml_value("- a\n- 1\n").unwrap(), "[\"a\",1]");
    assert_eq!(parse_yaml_value("x: true").unwrap(), "{\"x\":true}");
    // A word that only looser readers take for a boolean stays a text.
    assert_eq!(parse_yaml_value("x: yes").unwrap(), "{\"x\":\"yes\"}");
    assert!(parse_yaml_value("x: 1\nx: 2").is_err());
    assert!(parse_yaml_value("a: &n [1]\nb: *n").is_err());
    assert!(parse_yaml_value("[").is_err());
}

#[test]
fn configuration_errors_are_worded() {
    let read = ConfigError::Read { path: "/c".to_string(), source: "gone".to_string() };
    assert_eq!(read.message(), "Cannot read configuration at /c: gone");
    let yaml = ConfigError::Yaml { path: "/c".to_string(), message: "bad".to_string() };
    assert_eq!(yaml.message(), "Invalid YAML in /c: bad");
    let wrong = ConfigError::Validation { path: "/c".to_string(), message: "no".to_string() };
    assert_eq!(wrong.message(), "Invalid configuration at /c: no");
    assert_eq!(
        ConfigError::Initialize("x".to_string()).message(),
        "Cannot initialize private configuration: x"
    );
    assert_eq!(ConfigError::Emit("x".to_string()).message(), "Cannot emit YAML: x");
    assert_eq!(
        ConfigError::MissingExecutableDirectory.message(),
        "Cannot locate the intake executable"
    );
}
