use airun::documents::{load_agent, load_config, load_skill};
use airun::frontmatter::{parse_markdown_with_frontmatter, split_frontmatter};
use airun::init::init_paths;
use airun::listing::{list_agent_names, list_names, Entry};
use airun::locate::{
    agent_error, agent_not_found, agent_search, agent_search_from, config_paths, places_search,
    skill_not_found, skill_warning, Search, SkillSearch,
};
use airun::paths::{directories_upward, join_path, resolve_path};
use airun::plan::{RawAgent, RawConfig};
use airun::settings::{RawPermission, RawPermissions, ToolsConfig};

fn strings(list: &[&str]) -> Vec<String> {
    list.iter().map(|s| s.to_string()).collect()
}

fn some(text: &str) -> Option<String> {
    Some(text.to_string())
}

fn run(mut search: Search, files: &[&str]) -> Option<String> {
    while let Some(path) = search.target() {
        search.answer(files.contains(&path.as_str()));
    }
    search.found()
}

fn find_agent(files: &[&str]) -> Option<String> {
    let dirs = strings(&["/work/a", "/work", "/"]);
    run(agent_search(&dirs, &some("/home/me"), &some(".shared"), "bot"), files)
}

fn find_skill(files: &[&str]) -> Option<String> {
    let mut search =
        SkillSearch::new(&strings(&["/work/a", "/work"]), &some("/home/me"), &None, "tidy");
    while let Some(path) = search.target() {
        search.answer(files.contains(&path.as_str()));
    }
    search.found()
}

// --- documents ---

#[test]
fn documents_are_split() {
    let doc = split_frontmatter("---\nmodel: x\n---\nbody\n");
    assert_eq!(doc.frontmatter.as_deref(), Some("model: x"));
    assert_eq!(doc.body, "body\n");
    let doc = split_frontmatter("---\r\nmodel: x\r\n---\r\nbody");
    assert_eq!(doc.frontmatter.as_deref(), Some("\nmodel: x\r"));
    assert_eq!(doc.body, "body");
    let doc = split_frontmatter("---\na\n---");
    assert_eq!(doc.frontmatter.as_deref(), Some("a"));
    assert_eq!(doc.body, "");
    let doc = split_frontmatter("---\na\n---- b");
    assert_eq!(doc.frontmatter.as_deref(), Some("a"));
    assert_eq!(doc.body, "- b");
    let doc = split_frontmatter("---\n\n---\nx");
    assert_eq!(doc.frontmatter.as_deref(), Some(""));
    let doc = split_frontmatter("---\na\n---\nb\n---\nc");
    assert_eq!(doc.body, "b\n---\nc");
}

#[test]
fn documents_without_a_header_are_all_body() {
    for content in ["", "text", "--- \na\n---\n", "---\nnever closed", "----\na\n---\n", " ---\n"] {
        let doc = split_frontmatter(content);
        assert!(doc.frontmatter.is_none());
        assert_eq!(doc.body, content);
    }
}

#[test]
fn headers_go_through_the_parser() {
    let length = |text: &str| -> Result<usize, String> { Ok(text.len()) };
    let doc = parse_markdown_with_frontmatter("---\nabc\n---\nbody", length, 99).unwrap();
    assert_eq!((doc.frontmatter, doc.body.as_str()), (3, "body"));
    let doc = parse_markdown_with_frontmatter("body", length, 99).unwrap();
    assert_eq!((doc.frontmatter, doc.body.as_str()), (99, "body"));
    let fails = |_: &str| -> Result<usize, String> { Err("bad".to_string()) };
    assert_eq!(
        parse_markdown_with_frontmatter("---\nabc\n---\nbody", fails, 0).err(),
        some("bad")
    );
    assert!(parse_markdown_with_frontmatter("body", fails, 0).is_ok());
}

#[test]
fn agent_errors_name_the_agent() {
    let fails = |_: &str| -> Result<RawAgent, String> { Err("bad header".to_string()) };
    assert_eq!(
        load_agent("bot", "---\nx\n---\n", fails).err().as_deref(),
        Some("agent 'bot': bad header")
    );
    let agent = load_agent("bot", "just text", fails).unwrap();
    assert_eq!(agent.body, "just text");
    assert!(agent.frontmatter.model.is_none());
    let invalid = |_: &str| -> Result<RawAgent, String> {
        let mut raw = RawAgent::default();
        raw.permissions.read = Some(RawPermission::Level("never".to_string()));
        Ok(raw)
    };
    assert_eq!(
        load_agent("bot", "---\nx\n---\n", invalid).err().as_deref(),
        Some("agent 'bot': invalid permission level 'never' (expected allow, ask or deny)")
    );
}

#[test]
fn skills_are_loaded() {
    let parse = |text: &str| -> Result<Option<String>, String> { Ok(Some(text.to_string())) };
    let skill = load_skill("---\nabout\n---\nhow to", parse).unwrap();
    assert_eq!(skill.description.as_deref(), Some("about"));
    assert_eq!(skill.body, "how to");
    let skill = load_skill("how to", parse).unwrap();
    assert!(skill.description.is_none());
    let fails = |_: &str| -> Result<Option<String>, String> { Err("bad".to_string()) };
    assert_eq!(load_skill("---\nabout\n---\n", fails).err().as_deref(), Some("bad"));
}

fn raw_config(permissions: RawPermissions) -> RawConfig {
    RawConfig {
        default_model: some("xai/grok"),
        default_max_tokens: Some(7),
        tools: ToolsConfig { read: Some(true), bash: None },
        permissions,
        providers: Vec::new(),
    }
}

#[test]
fn configurations_are_loaded() {
    let parse = |_: &str| -> Result<RawConfig, String> {
        Ok(raw_config(RawPermissions { read: None, bash: None }))
    };
    let config = load_config("x = 1", parse).unwrap();
    assert_eq!(config.default_model.as_deref(), Some("xai/grok"));
    assert_eq!(config.default_max_tokens, Some(7));
    assert!(config.tools.is_read_active(false));
    let unset = load_config("", parse).unwrap();
    assert!(unset.default_model.is_none());
    assert!(unset.default_max_tokens.is_none());
    let fails = |_: &str| -> Result<RawConfig, String> { Err("bad toml".to_string()) };
    assert_eq!(load_config("x", fails).err().as_deref(), Some("bad toml"));
    let invalid = |_: &str| -> Result<RawConfig, String> {
        let bash = Some(RawPermission::Level("sometimes".to_string()));
        Ok(raw_config(RawPermissions { read: None, bash }))
    };
    assert_eq!(
        load_config("x", invalid).err().as_deref(),
        Some("invalid permission level 'sometimes' (expected allow, ask or deny)")
    );
}

// --- paths ---

#[test]
fn paths_are_joined() {
    assert_eq!(join_path("/a", "b"), "/a/b");
    assert_eq!(join_path("/a/", "b"), "/a/b");
    assert_eq!(join_path("", "b"), "b");
    assert_eq!(join_path("/a", "/b"), "/b");
    assert_eq!(join_path("/a", ""), "/a/");
    assert_eq!(join_path(&join_path("a", "b"), "c"), join_path("a", &join_path("b", "c")));
}

#[test]
fn resolved_paths_stay_resolved() {
    let once = resolve_path("x/y", "/work");
    assert_eq!(once, "/work/x/y");
    assert_eq!(resolve_path(&once, "/elsewhere"), once);
    assert_eq!(resolve_path("/etc", "/work"), "/etc");
}

#[test]
fn directories_are_listed_upwards() {
    assert_eq!(directories_upward("/a/b/c"), strings(&["/a/b/c", "/a/b", "/a", "/"]));
    assert_eq!(directories_upward("/"), strings(&["/"]));
    assert_eq!(directories_upward("."), strings(&[".", ""]));
    assert_eq!(directories_upward(""), strings(&[""]));
    for path in [
        "/a/b", "/é/ü/", "/a//b///c", "/a/./b/.", "a/b", "./a", "..", "../..", "//", "/.", "/.a/b.",
        "a/.", "././a", "/a/..", "a", "/...", "//a",
    ] {
        let expected: Vec<String> = std::path::Path::new(path)
            .ancestors()
            .map(|dir| dir.to_str().unwrap().to_string())
            .collect();
        assert_eq!(directories_upward(path), expected);
    }
}

// --- searching ---

#[test]
fn the_nearest_definition_is_found() {
    assert_eq!(
        find_agent(&["/work/.opencode/agents/bot.md", "/work/a/.agents/bot.md"]),
        some("/work/a/.agents/bot.md")
    );
    assert_eq!(
        find_agent(&["/home/me/.agents/agents/bot.md", "/.agents/agents/bot.md"]),
        some("/.agents/agents/bot.md")
    );
    assert_eq!(find_agent(&["/work/a/.agents/agents/other.md"]), None);
}

#[test]
fn directories_are_tried_in_order() {
    let all = [
        "/work/a/.opencode/agents/bot.md",
        "/work/a/.opencode/bot.md",
        "/work/a/.shared/agents/bot.md",
        "/work/a/.shared/bot.md",
        "/work/a/.agents/agents/bot.md",
        "/work/a/.agents/bot.md",
        "/home/me/.config/opencode/agents/bot.md",
        "/home/me/.config/opencode/bot.md",
        "/home/me/.shared/agents/bot.md",
        "/home/me/.shared/bot.md",
        "/home/me/.agents/agents/bot.md",
        "/home/me/.agents/bot.md",
    ];
    for i in 0..all.len() {
        assert_eq!(find_agent(&all[i..]), some(all[i]));
    }
}

#[test]
fn a_further_directory_is_optional() {
    let dirs = strings(&["/work"]);
    let files = ["/work/.shared/agents/bot.md"];
    assert_eq!(run(agent_search(&dirs, &None, &None, "bot"), &files), None);
    assert_eq!(
        run(agent_search(&dirs, &None, &some(".shared"), "bot"), &files),
        some("/work/.shared/agents/bot.md")
    );
}

#[test]
fn the_walk_ends_at_a_repository() {
    let outside = "/work/.agents/agents/bot.md";
    assert_eq!(find_agent(&[outside]), some(outside));
    assert_eq!(find_agent(&[outside, "/work/a/.git"]), None);
    assert_eq!(
        find_agent(&[outside, "/work/a/.git", "/home/me/.agents/bot.md"]),
        some("/home/me/.agents/bot.md")
    );
    assert_eq!(find_agent(&[outside, "/work/.git"]), some(outside));
}

#[test]
fn boundaries_are_told_apart() {
    let mut search = Search::new(&strings(&["/w"]), &None, &None, &Vec::new(), "agents");
    let mut asked: Vec<(String, bool)> = Vec::new();
    while let Some(path) = search.target() {
        asked.push((path, search.at_boundary()));
        search.answer(false);
    }
    assert_eq!(
        asked,
        vec![
            ("/w/.opencode/agents".to_string(), false),
            ("/w/.agents/agents".to_string(), false),
            ("/w/.git".to_string(), true),
        ]
    );
    assert!(search.found().is_none());
}

#[test]
fn a_search_begins_at_the_current_directory() {
    let files = ["/work/.agents/agents/bot.md", "/work/.agents/skills/tidy.md"];
    let search = agent_search_from("/work/a/b", &None, &None, "bot");
    assert_eq!(run(search, &files), some("/work/.agents/agents/bot.md"));
    let search = agent_search_from("/elsewhere", &None, &None, "bot");
    assert_eq!(run(search, &files), None);
    let mut search = SkillSearch::from_dir("/work/a/b", &None, &None, "tidy");
    while let Some(path) = search.target() {
        search.answer(files.contains(&path.as_str()));
    }
    assert_eq!(search.found(), some("/work/.agents/skills/tidy.md"));
}

#[test]
fn a_search_looks_into_the_listed_places() {
    let dirs = strings(&["/work/a", "/"]);
    let mut places = places_search(&dirs, &some("/h"), &some(".shared"), "agents");
    let mut search = agent_search(&dirs, &some("/h"), &some(".shared"), "bot");
    while let Some(path) = search.target() {
        let place = places.target().unwrap();
        assert_eq!(places.at_boundary(), search.at_boundary());
        if search.at_boundary() {
            assert_eq!(path, place);
        } else {
            assert_eq!(path, place + "bot.md");
        }
        places.answer(false);
        search.answer(false);
    }
    assert!(places.target().is_none());
    let first = places_search(&dirs, &None, &None, "skills").target();
    assert_eq!(first, some("/work/a/.opencode/skills/"));
}

#[test]
fn without_a_home_there_are_no_global_definitions() {
    let search = agent_search(&strings(&["/work"]), &None, &None, "bot");
    assert_eq!(run(search, &["/.agents/bot.md"]), None);
}

#[test]
fn local_skills_come_before_global_ones() {
    let order = [
        "/work/a/.agents/skills/tidy/SKILL.md",
        "/work/.opencode/tidy/SKILL.md",
        "/work/a/.opencode/skills/tidy.md",
        "/work/.agents/tidy.md",
        "/home/me/.agents/tidy/SKILL.md",
        "/home/me/.config/opencode/skills/tidy.md",
    ];
    for i in 0..order.len() {
        assert_eq!(find_skill(&order[i..]), some(order[i]));
    }
    assert_eq!(find_skill(&[]), None);
}

#[test]
fn a_local_skill_file_comes_before_a_global_folder() {
    let mut search = SkillSearch::new(&strings(&["/w"]), &some("/h"), &some(".shared"), "s");
    let files = ["/w/.git", "/w/.agents/skills/s.md", "/h/.shared/skills/s/SKILL.md"];
    while let Some(path) = search.target() {
        search.answer(files.contains(&path.as_str()));
    }
    assert_eq!(search.found(), some("/w/.agents/skills/s.md"));
}

#[test]
fn the_walk_for_a_skill_ends_at_a_repository() {
    let outside = "/work/.agents/skills/tidy.md";
    let global = "/home/me/.agents/skills/tidy.md";
    assert_eq!(find_skill(&[outside, global]), some(outside));
    assert_eq!(find_skill(&[outside, global, "/work/a/.git"]), some(global));
}

#[test]
fn a_search_for_a_skill_asks_each_question_once() {
    let mut search = SkillSearch::new(&strings(&["/w"]), &some("/h"), &None, "s");
    let mut asked: Vec<String> = Vec::new();
    while let Some(path) = search.target() {
        asked.push(path);
        search.answer(false);
    }
    assert_eq!(
        asked,
        strings(&[
            "/w/.opencode/skills/s/SKILL.md",
            "/w/.opencode/s/SKILL.md",
            "/w/.agents/skills/s/SKILL.md",
            "/w/.agents/s/SKILL.md",
            "/w/.git",
            "/w/.opencode/skills/s.md",
            "/w/.opencode/s.md",
            "/w/.agents/skills/s.md",
            "/w/.agents/s.md",
            "/w/.git",
            "/h/.config/opencode/skills/s/SKILL.md",
            "/h/.config/opencode/s/SKILL.md",
            "/h/.agents/skills/s/SKILL.md",
            "/h/.agents/s/SKILL.md",
            "/h/.config/opencode/skills/s.md",
            "/h/.config/opencode/s.md",
            "/h/.agents/skills/s.md",
            "/h/.agents/s.md",
        ])
    );
    assert!(search.found().is_none());
}

#[test]
fn a_list_search_takes_the_first_that_exists() {
    let paths = config_paths(&some("/home/me"));
    assert_eq!(
        paths,
        strings(&[
            "airun.toml",
            ".airun.toml",
            ".config/airun.toml",
            "/home/me/.config/airun/config.toml"
        ])
    );
    assert_eq!(config_paths(&None).len(), 3);
    assert_eq!(
        run(Search::among(&paths), &["/home/me/.config/airun/config.toml", ".airun.toml"]),
        some(".airun.toml")
    );
    assert_eq!(run(Search::among(&paths), &[]), None);
}

#[test]
fn an_initialized_file_is_looked_for() {
    for home in ["/home/me", "/", ""] {
        let paths = init_paths(&some(home)).unwrap();
        assert_eq!(config_paths(&some(home)).last(), Some(&paths.file));
    }
    assert_eq!(init_paths(&None).err().as_deref(), Some("HOME environment variable not set"));
}

#[test]
fn missing_definitions_are_reported() {
    assert_eq!(
        agent_not_found("bot", &some(".shared")),
        "Agent 'bot' not found in .opencode/, .shared/, or .agents/ directories"
    );
    assert_eq!(
        skill_not_found("tidy", &some(".shared")),
        "Skill 'tidy' not found in .opencode/, .shared/, or .agents/ directories"
    );
    assert_eq!(
        agent_not_found("bot", &None),
        "Agent 'bot' not found in .opencode/ or .agents/ directories"
    );
    assert_eq!(agent_error("bot", "no"), "agent 'bot': no");
    assert_eq!(skill_warning("tidy", "no"), "warning: failed to load skill 'tidy': no");
}

// --- listing ---

#[test]
fn listed_names_are_complete_and_distinct() {
    let entries = vec![
        Entry::File("b.md".to_string()),
        Entry::File("notes.txt".to_string()),
        Entry::Folder("c".to_string()),
        Entry::File("b.md".to_string()),
        Entry::File(".md".to_string()),
        Entry::File("c.md".to_string()),
        Entry::File("a.md.md".to_string()),
    ];
    assert_eq!(list_names(&entries), strings(&["b", "c", "a.md"]));
}

#[test]
fn agents_are_listed_by_their_files() {
    let entries = vec![
        Entry::Folder("c".to_string()),
        Entry::File("b.md".to_string()),
        Entry::File("c.txt".to_string()),
        Entry::File("a.md".to_string()),
        Entry::File("b.md".to_string()),
    ];
    assert_eq!(list_agent_names(&entries), strings(&["b", "a"]));
    assert_eq!(list_names(&entries), strings(&["c", "b", "a"]));
}
