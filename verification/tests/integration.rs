use airun::documents::load_agent;
use airun::frontmatter::ParsedDoc;
use airun::init::{init_directory, init_file, init_paths, InitFile};
use airun::permission::{Permission, PermissionLevel};
use airun::plan::{
    launch, plan_run, usage_line, AgentFrontmatter, Config, Launch, RawAgent, RunOptions, RunPlan,
};
use airun::prompt::{build_system_prompt, choose_system_prompt, get_user_prompt};
use airun::settings::{
    PermissionsConfig, RawPermission, RawPermissions, RawRule, ToolsConfig,
};
use airun::tools::{start_bash, ToolStep};
use serde_yaml::Value;

fn raw_permission(value: &Value) -> Result<RawPermission, String> {
    if let Some(word) = value.as_str() {
        return Ok(RawPermission::Level(word.to_string()));
    }
    let mut rules: Vec<RawRule> = Vec::new();
    match value.as_mapping() {
        Some(entries) => {
            for (pattern, level) in entries {
                rules.push(RawRule {
                    pattern: pattern.as_str().ok_or("a pattern must be text")?.to_string(),
                    level: level.as_str().ok_or("a level must be text")?.to_string(),
                });
            }
            Ok(RawPermission::Patterns(rules))
        }
        None => Err("a permission must be a level or a map of patterns".to_string()),
    }
}

fn header(text: &str) -> Result<RawAgent, String> {
    let root: Value = serde_yaml::from_str(text).map_err(|e| e.to_string())?;
    let permission = |tool: &str| match root.get("permissions").and_then(|p| p.get(tool)) {
        Some(value) => raw_permission(value).map(Some),
        None => Ok(None),
    };
    let switch = |tool: &str| {
        root.get("tools").and_then(|t| t.get(tool)).and_then(|v| v.as_bool())
    };
    Ok(RawAgent {
        description: root.get("description").and_then(|d| d.as_str()).map(|d| d.to_string()),
        model: None,
        skills: None,
        tools: ToolsConfig { read: switch("read"), bash: switch("bash") },
        permissions: RawPermissions { read: permission("read")?, bash: permission("bash")? },
    })
}

fn test_agent(content: &str) -> Result<ParsedDoc<AgentFrontmatter>, String> {
    load_agent("test-agent", content, header)
}

fn no_options() -> RunOptions {
    RunOptions { model: None, max_tokens: None, tools: None }
}

fn plan_for(agent: &ParsedDoc<AgentFrontmatter>) -> RunPlan {
    plan_run(no_options(), Config::default(), agent.frontmatter.clone())
}

fn refusal(plan: &RunPlan, system: &str, user: &str) -> String {
    match launch(plan, false, system, user, None) {
        Launch::Refuse(error) => error,
        other => panic!("expected a refusal, got {:?}", other),
    }
}

fn prompt(text: &str) -> String {
    get_user_prompt(&Some(text.to_string()), &None, String::new()).unwrap()
}

// --- permission pattern matching ---

#[test]
fn test_wildcard_denies_by_default() {
    let agent = test_agent(
        r#"---
tools:
  bash: true
permissions:
  bash:
    "**": deny
    "echo hello": allow
---
test agent
"#,
    )
    .unwrap();
    let plan = plan_for(&agent);
    assert_eq!(plan.permissions.check_bash("echo hello"), PermissionLevel::Allow);
    assert_eq!(plan.permissions.check_bash("echo hello world"), PermissionLevel::Deny);
    assert_eq!(plan.permissions.check_bash("rm -rf /"), PermissionLevel::Deny);
    let system = build_system_prompt(&agent.body, &Vec::new());
    assert!(refusal(&plan, &system, &prompt("test")).contains("no API key found"));
}

#[test]
fn test_agent_with_bash_and_read_tools() {
    let agent = test_agent(
        r#"---
tools:
  read: true
  bash: true
permissions:
  read:
    "**": allow
  bash:
    "**": deny
    "ls **": allow
---
test agent
"#,
    )
    .unwrap();
    let plan = plan_for(&agent);
    assert!(plan.read_tool);
    assert!(plan.bash_tool);
    assert_eq!(plan.permissions.check_read("/etc/os-release"), PermissionLevel::Allow);
    assert_eq!(plan.permissions.check_bash("ls"), PermissionLevel::Allow);
    assert_eq!(plan.permissions.check_bash("ls -la /home"), PermissionLevel::Allow);
    assert_eq!(plan.permissions.check_bash("rm x"), PermissionLevel::Deny);
    let system = build_system_prompt(&agent.body, &Vec::new());
    assert!(refusal(&plan, &system, &prompt("test")).contains("no API key found"));
}

// --- CLI flag parsing ---

#[test]
fn test_dry_run_outputs_prompts() {
    let agent = test_agent(
        r#"---
tools:
  bash: true
permissions:
  bash:
    "*": deny
    "echo *": allow
---
you are a test agent
"#,
    )
    .unwrap();
    let plan = plan_for(&agent);
    let system = build_system_prompt(&agent.body, &Vec::new());
    match launch(&plan, true, &system, &prompt("hello world"), None) {
        Launch::DryRun(text) => {
            assert!(text.contains("--- system prompt ---"));
            assert!(text.contains("you are a test agent"));
            assert!(text.contains("--- user prompt ---"));
            assert!(text.contains("hello world"));
            assert!(text.contains("bash"));
        }
        other => panic!("expected a dry run, got {:?}", other),
    }
}

#[test]
fn test_yes_flag_accepted() {
    let plan = plan_run(no_options(), Config::default(), AgentFrontmatter::default());
    assert!(refusal(&plan, "", &prompt("test")).contains("no API key found"));
    let asking = PermissionsConfig {
        read: None,
        bash: Some(Permission::Level(PermissionLevel::Ask)),
    };
    assert!(matches!(start_bash(&asking, "ls", true), ToolStep::Perform(_)));
    assert!(matches!(start_bash(&asking, "ls", false), ToolStep::Ask { .. }));
}

#[test]
fn test_system_prompt_flag() {
    let plan = plan_run(no_options(), Config::default(), AgentFrontmatter::default());
    let system = choose_system_prompt(Some("you are a pirate".to_string()), String::new());
    assert_eq!(system, "you are a pirate");
    assert!(refusal(&plan, &system, &prompt("hello")).contains("no API key found"));
}

#[test]
fn test_system_prompt_overrides_agent() {
    let agent =
        test_agent("---\ndescription: original agent\n---\noriginal system prompt\n").unwrap();
    assert_eq!(agent.frontmatter.description.as_deref(), Some("original agent"));
    let built = build_system_prompt(&agent.body, &Vec::new());
    assert_eq!(built, "original system prompt\n");
    let system = choose_system_prompt(Some("override prompt".to_string()), built);
    assert_eq!(system, "override prompt");
    let plan = plan_for(&agent);
    assert!(refusal(&plan, &system, &prompt("hello")).contains("no API key found"));
}

// --- init ---

#[test]
fn test_init_creates_config() {
    let paths = init_paths(&Some("/tmp/project".to_string())).unwrap();
    assert_eq!(paths.file, "/tmp/project/.config/airun/config.toml");
    assert_eq!(
        init_directory(&paths, false).as_deref(),
        Some("created directory: /tmp/project/.config/airun")
    );
    match init_file(&paths, false) {
        InitFile::Write { notice } => {
            assert!(notice.contains("initialized configuration"));
            assert!(notice.ends_with("/tmp/project/.config/airun/config.toml"));
        }
        other => panic!("expected a file to be written, got {:?}", other),
    }
}

#[test]
fn test_init_does_not_overwrite() {
    let paths = init_paths(&Some("/tmp/project".to_string())).unwrap();
    assert!(init_directory(&paths, true).is_none());
    match init_file(&paths, true) {
        InitFile::Keep { warning } => assert!(warning.contains("already exists")),
        other => panic!("expected the file to be kept, got {:?}", other),
    }
}

// --- error messages ---

#[test]
fn test_invalid_permission_level_shows_value() {
    let error = test_agent(
        "---\ntools:\n  bash: true\npermissions:\n  bash:\n    \"*\": dennny\n---\ntest agent\n",
    )
    .unwrap_err();
    assert!(error.contains("invalid permission level 'dennny'"));
    assert!(error.contains("agent 'test-agent'"));
}

#[test]
fn test_parse_error_includes_agent_name() {
    let error = test_agent("---\npermissions:\n  read: 12345\n---\ntest\n").unwrap_err();
    assert!(error.contains("agent 'test-agent'"));
}

// --- empty input ---

#[test]
fn test_empty_prompt_shows_usage() {
    let error = get_user_prompt(&None, &None, String::new()).unwrap_err();
    assert!(error.contains("one of --prompt or stdin must be non-empty"));
    assert!(usage_line().contains("Usage:"));
}
