use airun::model::{
    choose_api_key, choose_model, env_var_name, find_route, split_model, ClientKind,
    ProviderConfig,
};
use airun::permission::{Permission, PermissionLevel};
use airun::plan::{
    choose_task, launch, plan_run, tools_text, AgentFrontmatter, Config, Launch, RunOptions, Task,
    TaskFlags, DEFAULT_MAX_TOKENS,
};
use airun::prompt::{
    build_system_prompt, choose_skills, choose_system_prompt, dry_run_text, get_user_prompt,
    preamble, prompt_from_arguments, Skill, SkillEntry,
};
use airun::settings::{PermissionsConfig, ToolsConfig};
use airun::stream::{concatenate, shorten_result, Printer, StreamEvent, RESULT_LIMIT};
use airun::text::{blank, decimal_text, escape_newlines};

fn some(text: &str) -> Option<String> {
    Some(text.to_string())
}

fn provider(name: &str, client: Option<&str>, key: Option<&str>) -> ProviderConfig {
    ProviderConfig {
        name: name.to_string(),
        client: client.map(|c| c.to_string()),
        api_key: key.map(|k| k.to_string()),
        base_url: None,
    }
}

fn options() -> RunOptions {
    RunOptions { model: None, max_tokens: None, tools: None }
}

// --- models ---

#[test]
fn models_are_chosen_in_order() {
    assert_eq!(choose_model(some("a"), some("b"), some("c")), "a");
    assert_eq!(choose_model(None, some("b"), some("c")), "b");
    assert_eq!(choose_model(None, None, some("c")), "c");
    assert_eq!(choose_model(None, None, None), "openai/gpt-4o");
}

#[test]
fn model_names_are_taken_apart() {
    assert_eq!(split_model("xai/grok"), ("xai".to_string(), "grok".to_string()));
    assert_eq!(split_model("a/b/c"), ("a".to_string(), "b/c".to_string()));
    assert_eq!(split_model("gpt-4o"), ("openai".to_string(), "gpt-4o".to_string()));
    assert_eq!(split_model("/x"), (String::new(), "x".to_string()));
    assert_eq!(split_model("x/"), ("x".to_string(), String::new()));
}

#[test]
fn the_first_provider_of_a_name_is_the_route() {
    let mut second = provider("local", Some("xai"), Some("k2"));
    second.base_url = some("http://two");
    let mut first = provider("local", Some("openai_completions"), Some("k1"));
    first.base_url = some("http://one");
    let providers = vec![provider("other", None, None), first, second];
    let route = find_route(&providers, "local");
    assert_eq!(route.client_type, "openai_completions");
    assert_eq!(route.api_key.as_deref(), Some("k1"));
    assert_eq!(route.base_url.as_deref(), Some("http://one"));
    assert_eq!(find_route(&providers, "other").client_type, "other");
    let unknown = find_route(&providers, "gemini");
    assert_eq!(unknown.client_type, "gemini");
    assert!(unknown.api_key.is_none());
    assert!(unknown.base_url.is_none());
}

#[test]
fn known_clients_have_keys() {
    for (word, client, variable) in [
        ("openai", ClientKind::OpenAiResponses, "OPENAI_API_KEY"),
        ("openai_responses", ClientKind::OpenAiResponses, "OPENAI_API_KEY"),
        ("openai_completions", ClientKind::OpenAiCompletions, "OPENAI_API_KEY"),
        ("anthropic", ClientKind::Anthropic, "ANTHROPIC_API_KEY"),
        ("gemini", ClientKind::Gemini, "GEMINI_API_KEY"),
        ("cohere", ClientKind::Cohere, "COHERE_API_KEY"),
        ("xai", ClientKind::Xai, "XAI_API_KEY"),
    ] {
        assert_eq!(ClientKind::from_name(word), Some(client));
        assert_eq!(env_var_name(word), variable);
    }
    assert_eq!(ClientKind::from_name("other"), None);
    assert_eq!(env_var_name("other"), "");
}

#[test]
fn a_configured_key_comes_before_the_environment() {
    assert_eq!(choose_api_key(some("a"), some("b"), "p"), Ok("a".to_string()));
    assert_eq!(choose_api_key(None, some("b"), "p"), Ok("b".to_string()));
    let error = "error: no API key found for provider 'p'. configure it in \
                 ~/.config/airun/config.toml or export it as an environment variable.";
    assert_eq!(choose_api_key(None, None, "p"), Err(error.to_string()));
    assert_eq!(choose_api_key(some(""), some("b"), "p"), Err(error.to_string()));
    assert_eq!(choose_api_key(None, some(""), "p"), Err(error.to_string()));
}

// --- plans ---

#[test]
fn the_first_flag_is_the_task() {
    let none = TaskFlags {
        init: false,
        list_agents: false,
        list_skills: false,
        list_tools: false,
        list_providers: false,
    };
    assert_eq!(choose_task(none), Task::Run);
    assert_eq!(choose_task(TaskFlags { list_providers: true, ..none }), Task::ListProviders);
    assert_eq!(choose_task(TaskFlags { list_tools: true, ..none }), Task::ListTools);
    assert_eq!(choose_task(TaskFlags { list_skills: true, ..none }), Task::ListSkills);
    assert_eq!(choose_task(TaskFlags { list_agents: true, ..none }), Task::ListAgents);
    assert_eq!(choose_task(TaskFlags { init: true, list_agents: true, ..none }), Task::Init);
}

#[test]
fn listed_tools_are_exclusive() {
    let config = Config { tools: ToolsConfig { read: Some(true), bash: None }, ..Config::default() };
    let listed = RunOptions { tools: Some(vec!["bash".to_string()]), ..options() };
    let plan = plan_run(listed, config.clone(), AgentFrontmatter::default());
    assert!(!plan.read_tool);
    assert!(plan.bash_tool);
    let nothing = RunOptions { tools: Some(Vec::new()), ..options() };
    let plan = plan_run(nothing, config.clone(), AgentFrontmatter::default());
    assert!(!plan.read_tool && !plan.bash_tool);
    let plan = plan_run(options(), config, AgentFrontmatter::default());
    assert!(plan.read_tool);
    assert!(!plan.bash_tool);
}

#[test]
fn an_agent_switch_overrides_the_configured_one() {
    let config = Config {
        tools: ToolsConfig { read: Some(true), bash: Some(false) },
        permissions: PermissionsConfig {
            read: Some(Permission::Level(PermissionLevel::Allow)),
            bash: None,
        },
        default_model: some("gemini/flash"),
        default_max_tokens: Some(10),
        ..Config::default()
    };
    let agent = AgentFrontmatter {
        tools: ToolsConfig { read: Some(false), bash: Some(true) },
        permissions: PermissionsConfig {
            read: Some(Permission::Level(PermissionLevel::Deny)),
            bash: None,
        },
        model: some("xai/grok"),
        ..AgentFrontmatter::default()
    };
    let plan = plan_run(options(), config.clone(), agent.clone());
    assert!(!plan.read_tool);
    assert!(plan.bash_tool);
    assert_eq!(plan.permissions.check_read("/a"), PermissionLevel::Deny);
    assert_eq!(plan.full_model, "xai/grok");
    assert_eq!(plan.provider_name, "xai");
    assert_eq!(plan.model_name, "grok");
    assert_eq!(plan.max_tokens, 10);
    let given = RunOptions { model: some("m"), max_tokens: Some(3), tools: None };
    let plan = plan_run(given, config, agent);
    assert_eq!(plan.full_model, "m");
    assert_eq!(plan.provider_name, "openai");
    assert_eq!(plan.max_tokens, 3);
    let plan = plan_run(options(), Config::default(), AgentFrontmatter::default());
    assert_eq!(plan.max_tokens, DEFAULT_MAX_TOKENS);
    assert_eq!(DEFAULT_MAX_TOKENS, 16384);
}

#[test]
fn runs_are_launched_or_refused() {
    let config = Config {
        providers: vec![
            provider("local", Some("openai_completions"), Some("fake")),
            provider("odd", Some("telegraph"), Some("fake")),
        ],
        ..Config::default()
    };
    let with_model = |model: &str| {
        let given = RunOptions { model: some(model), ..options() };
        plan_run(given, config.clone(), AgentFrontmatter::default())
    };
    match launch(&with_model("local/m"), false, "s", "u", some("env")) {
        Launch::Send { client, api_key } => {
            assert_eq!(client, ClientKind::OpenAiCompletions);
            assert_eq!(api_key, "fake");
        }
        other => panic!("expected a request, got {:?}", other),
    }
    match launch(&with_model("xai/m"), false, "s", "u", some("env")) {
        Launch::Send { client, api_key } => {
            assert_eq!(client, ClientKind::Xai);
            assert_eq!(api_key, "env");
        }
        other => panic!("expected a request, got {:?}", other),
    }
    match launch(&with_model("odd/m"), false, "s", "u", None) {
        Launch::Unsupported(error) => assert_eq!(error, "unsupported client type: telegraph"),
        other => panic!("expected an unsupported client, got {:?}", other),
    }
    match launch(&with_model("xai/m"), false, "s", "u", None) {
        Launch::Refuse(error) => assert!(error.contains("no API key found for provider 'xai'")),
        other => panic!("expected a refusal, got {:?}", other),
    }
    match launch(&with_model("xai/m"), true, "s", "u", None) {
        Launch::DryRun(text) => assert_eq!(text, dry_run_text("xai/m", "none", "s", "u")),
        other => panic!("expected a dry run, got {:?}", other),
    }
}

#[test]
fn dry_runs_show_what_would_be_sent() {
    assert_eq!(
        dry_run_text("m", "read, bash", "sys", "usr"),
        "--- model ---\nm\n--- tools ---\nread, bash\n--- system prompt ---\nsys\n\
         --- user prompt ---\nusr\n"
    );
    assert_eq!(tools_text(true, true), "read, bash");
    assert_eq!(tools_text(true, false), "read");
    assert_eq!(tools_text(false, true), "bash");
    assert_eq!(tools_text(false, false), "none");
}

// --- prompts ---

fn entry(name: &str, skill: Option<(Option<&str>, &str)>) -> SkillEntry {
    SkillEntry {
        name: name.to_string(),
        skill: skill.map(|(description, body)| Skill {
            description: description.map(|d| d.to_string()),
            body: body.to_string(),
        }),
    }
}

#[test]
fn system_prompts_hold_the_skills_in_order() {
    let one = entry("one", Some((Some("first"), "do this")));
    let two = entry("two", Some((None, "do that")));
    let failed = entry("gone", None);
    assert_eq!(
        build_system_prompt("body", &vec![one, failed.clone(), two]),
        "body\n\n# skills\n\n## one\ndescription: first\ndo this\n\n## two\ndo that\n"
    );
    assert_eq!(build_system_prompt("body", &vec![failed]), "body\n\n# skills\n");
    assert_eq!(build_system_prompt("body", &Vec::new()), "body");
}

#[test]
fn skills_on_the_command_line_replace_the_agents() {
    let asked = Some(vec!["a".to_string()]);
    let own = Some(vec!["b".to_string(), "c".to_string()]);
    assert_eq!(choose_skills(asked.clone(), own.clone()), asked.unwrap());
    assert_eq!(choose_skills(None, own.clone()), own.unwrap());
    assert!(choose_skills(None, None).is_empty());
}

#[test]
fn a_given_system_prompt_replaces_the_built_one() {
    assert_eq!(choose_system_prompt(some("given"), "built".to_string()), "given");
    assert_eq!(choose_system_prompt(None, "built".to_string()), "built");
}

#[test]
fn an_empty_system_prompt_is_no_preamble() {
    assert_eq!(preamble(String::new()), None);
    assert_eq!(preamble(" ".to_string()), some(" "));
}

#[test]
fn prompts_come_from_the_flag_the_argument_or_the_input() {
    let prompt = |flag: Option<&str>, argument: Option<&str>, input: &str| {
        get_user_prompt(
            &flag.map(|s| s.to_string()),
            &argument.map(|s| s.to_string()),
            input.to_string(),
        )
    };
    assert_eq!(prompt(Some("f"), Some("a"), "i"), Ok("f".to_string()));
    assert_eq!(prompt(Some(""), Some("a"), "i"), Ok("a".to_string()));
    assert_eq!(prompt(None, None, " i\n"), Ok(" i\n".to_string()));
    let error = "error: one of --prompt or stdin must be non-empty".to_string();
    assert_eq!(prompt(Some(" \t"), Some("a"), "i"), Err(error.clone()));
    assert_eq!(prompt(None, None, "\u{2003}\r\n"), Err(error));
    assert_eq!(prompt_from_arguments(&None, &some("")), None);
}

#[test]
fn blank_texts_are_recognized_as_trimming_does() {
    for text in ["", " ", "\n\t\r", "\u{a0}\u{3000}\u{85}", "\u{200b}", "x", " x ", "\u{1c}"] {
        assert_eq!(blank(text), text.trim().is_empty());
    }
    for code in 0..0x3100u32 {
        let text: String = char::from_u32(code).unwrap().to_string();
        assert_eq!(blank(&text), text.trim().is_empty());
    }
}

// --- the stream ---

fn whole(events: Vec<StreamEvent>, quiet: bool) -> (String, String) {
    let mut printer = Printer::new(quiet);
    let mut stdout = String::new();
    let mut stderr = String::new();
    for event in events.into_iter().map(Some).chain([None]) {
        let rendered = printer.print(&event);
        stdout.push_str(&rendered.stdout);
        stderr.push_str(&rendered.stderr);
    }
    assert!(printer.over);
    (stdout, stderr)
}

fn text(part: &str) -> StreamEvent {
    StreamEvent::Text(part.to_string())
}

fn call() -> StreamEvent {
    StreamEvent::ToolCall { name: "read".to_string(), arguments: "{}".to_string() }
}

#[test]
fn only_the_answer_goes_to_the_standard_output() {
    let expected = |out: &str, err: &str| (out.to_string(), err.to_string());
    assert_eq!(whole(vec![text("hi")], false), expected("hi\n", ""));
    assert_eq!(
        whole(vec![StreamEvent::Reasoning("hm".to_string())], false),
        expected("\n", "\x1b[2;3mhm\x1b[0m")
    );
    assert_eq!(
        whole(vec![call()], false),
        expected("\n", "\x1b[1;36mread\x1b[0m\x1b[2m({})\x1b[0m\n")
    );
    let result = StreamEvent::ToolResult(vec!["a\n".to_string(), "b".to_string()]);
    assert_eq!(whole(vec![result], false), expected("\n", "\x1b[2m  -> a\\nb\x1b[0m\n"));
    assert_eq!(whole(vec![StreamEvent::Other], false), expected("\n", ""));
    assert_eq!(
        whole(vec![StreamEvent::Failed("gone".to_string())], false),
        expected("\n", "stream error: gone\n")
    );
}

#[test]
fn a_whole_stream_is_its_texts_and_a_line_break() {
    assert_eq!(whole(Vec::new(), false), ("\n".to_string(), String::new()));
    let (stdout, stderr) =
        whole(vec![text("a"), call(), text("b\n"), StreamEvent::Other, text("c")], false);
    assert_eq!(stdout, "ab\nc\n");
    assert_eq!(stderr, "\x1b[1;36mread\x1b[0m\x1b[2m({})\x1b[0m\n");
}

#[test]
fn nothing_is_shown_after_a_failure() {
    let failed = StreamEvent::Failed("gone".to_string());
    let again = StreamEvent::Failed("again".to_string());
    let events = vec![text("a"), call(), failed, text("b"), call(), again];
    let (stdout, stderr) = whole(events, false);
    assert_eq!(stdout, "a\n");
    assert_eq!(stderr, "\x1b[1;36mread\x1b[0m\x1b[2m({})\x1b[0m\nstream error: gone\n");
}

#[test]
fn quiet_hides_all_but_failures() {
    let events = vec![
        StreamEvent::Reasoning("hm".to_string()),
        call(),
        StreamEvent::ToolResult(vec!["a".to_string()]),
        StreamEvent::Other,
        text("hi"),
        StreamEvent::Failed("no".to_string()),
    ];
    assert_eq!(whole(events, true), ("hi\n".to_string(), "stream error: no\n".to_string()));
}

#[test]
fn long_results_are_cut() {
    assert_eq!(RESULT_LIMIT, 200);
    let exact = "x".repeat(200);
    assert_eq!(shorten_result(&exact), exact);
    let long = "x".repeat(1234);
    assert_eq!(shorten_result(&long), "x".repeat(200) + "... (1234 bytes)");
    let wide = "é".repeat(150);
    assert_eq!(shorten_result(&wide), "é".repeat(100) + "... (300 bytes)");
    assert_eq!(concatenate(&vec!["a".to_string(), String::new(), "b".to_string()]), "ab");
}

#[test]
fn results_are_cut_between_characters() {
    let torn = "a".to_string() + &"é".repeat(100);
    let cut = "a".to_string() + &"é".repeat(99);
    assert_eq!(shorten_result(&torn), cut.clone() + "... (201 bytes)");
    let (stdout, stderr) = whole(vec![StreamEvent::ToolResult(vec![torn])], false);
    assert_eq!(stdout, "\n");
    assert_eq!(stderr, "\x1b[2m  -> ".to_string() + &cut + "... (201 bytes)\x1b[0m\n");
    let four = "xyz".to_string() + &"𝄞".repeat(60);
    assert_eq!(shorten_result(&four), "xyz".to_string() + &"𝄞".repeat(49) + "... (243 bytes)");
}

#[test]
fn escaped_text_is_one_line() {
    assert_eq!(escape_newlines("a\nb\n\nc"), "a\\nb\\n\\nc");
    assert_eq!(escape_newlines("é\r\t"), "é\r\t");
    assert_eq!(escape_newlines("\n"), "\\n");
    assert_eq!(escape_newlines(""), "");
}

#[test]
fn numbers_are_written_in_decimal() {
    for n in [0usize, 7, 10, 99, 100, 1234567890, usize::MAX] {
        assert_eq!(decimal_text(n), n.to_string());
    }
}
