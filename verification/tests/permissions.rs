use airun::glob::{literal_length, match_tokens, tokenize, wildcard_count, Subject, Token};
use airun::permission::{
    command_matches, contains_metacharacters, pattern_matches, PatternRule, Permission,
    PermissionLevel,
};
use airun::settings::{PermissionsConfig, RawPermission, RawPermissions, RawRule, ToolsConfig};
use airun::tools::{
    bash_tool, continue_call, read_failure, read_tool, start_bash, start_read, ToolStep,
};

fn rules(list: &[(&str, PermissionLevel)]) -> Permission {
    Permission::Patterns(
        list.iter()
            .map(|(pattern, level)| PatternRule { pattern: pattern.to_string(), level: *level })
            .collect(),
    )
}

fn raw(list: &[(&str, &str)]) -> RawPermission {
    RawPermission::Patterns(
        list.iter()
            .map(|(pattern, level)| RawRule {
                pattern: pattern.to_string(),
                level: level.to_string(),
            })
            .collect(),
    )
}

const ALLOW: PermissionLevel = PermissionLevel::Allow;
const ASK: PermissionLevel = PermissionLevel::Ask;
const DENY: PermissionLevel = PermissionLevel::Deny;

// --- globs ---

#[test]
fn tokens_of_a_pattern() {
    assert_eq!(
        tokenize("a**b*?"),
        vec![
            Token::Literal('a'),
            Token::AnyRun,
            Token::Literal('b'),
            Token::SegmentRun,
            Token::AnyChar
        ]
    );
    assert!(tokenize("").is_empty());
}

#[test]
fn literal_patterns_match_only_themselves() {
    assert_eq!(pattern_matches("/etc/shadow", "/etc/shadow"), Some(11));
    assert_eq!(pattern_matches("/etc/shadow", "/etc/shadow2"), None);
    assert_eq!(pattern_matches("/etc/shadow", "/etc/shado"), None);
    assert_eq!(pattern_matches("", ""), Some(0));
    assert_eq!(pattern_matches("", "x"), None);
}

#[test]
fn double_star_matches_everything() {
    for input in ["", "a", "/a/b/c", "é\n"] {
        assert_eq!(pattern_matches("**", input), Some(0));
        assert_eq!(command_matches("**", input), Some(0));
    }
}

#[test]
fn star_stops_at_a_slash_on_paths_only() {
    assert_eq!(pattern_matches("/home/*", "/home/a"), Some(6));
    assert_eq!(pattern_matches("/home/*", "/home/"), Some(6));
    assert_eq!(pattern_matches("/home/*", "/home/a/b"), None);
    assert_eq!(pattern_matches("/home/**", "/home/a/b"), Some(6));
    assert_eq!(pattern_matches("/home/*/b", "/home/a/b"), Some(8));
    assert_eq!(command_matches("cat *", "cat /home/a"), Some(4));
    assert_eq!(command_matches("*", "/a/b"), Some(0));
    assert_eq!(pattern_matches("*", "/a/b"), None);
    let pattern = tokenize("/*/c");
    assert!(!match_tokens(&pattern, Subject::Path, "/a/b/c"));
    assert!(match_tokens(&pattern, Subject::Command, "/a/b/c"));
}

#[test]
fn question_mark_matches_one_character() {
    assert_eq!(pattern_matches("a?c", "abc"), Some(2));
    assert_eq!(pattern_matches("a?c", "aéc"), Some(2));
    assert_eq!(pattern_matches("a?c", "ac"), None);
    assert_eq!(pattern_matches("a?c", "abbc"), None);
}

#[test]
fn specificity_counts_bytes_and_wildcards() {
    assert_eq!(literal_length("é*ü?"), 4);
    assert_eq!(wildcard_count("é*ü?"), 2);
    assert_eq!(literal_length("/home/**"), 6);
    assert_eq!(wildcard_count("/home/**"), 1);
    assert_eq!(wildcard_count("***"), 2);
    assert_eq!(literal_length("/home/user/*"), literal_length("/home/*") + 5);
}

// --- rules ---

#[test]
fn unmatched_input_is_denied() {
    assert_eq!(rules(&[("/home/**", ALLOW)]).check("/etc/passwd"), DENY);
    assert_eq!(rules(&[]).check("/etc/passwd"), DENY);
    assert_eq!(Permission::Level(ASK).check("/etc/passwd"), ASK);
}

#[test]
fn most_specific_rule_wins() {
    let read = rules(&[("**", DENY), ("/home/**", ALLOW), ("/home/user/**", ASK)]);
    assert_eq!(read.check("/var"), DENY);
    assert_eq!(read.check("/home/a"), ALLOW);
    assert_eq!(read.check("/home/user/a"), ASK);
    let fewer = rules(&[("/h?m?/user/secret/*", ALLOW), ("/h**", DENY)]);
    assert_eq!(fewer.check("/home/user/secret/x"), DENY);
}

#[test]
fn a_most_specific_match_decides() {
    let read = rules(&[("**", DENY), ("a*c", ALLOW), ("a*c?", ASK), ("*bc", ALLOW)]);
    assert_eq!(read.check("abc"), ALLOW);
    assert_eq!(read.check("abcd"), DENY);
    assert_eq!(read.check("x"), DENY);
    let read = rules(&[("a**c?", DENY), ("a*c?", ASK), ("**b**", ALLOW)]);
    assert_eq!(read.check("abcd"), ASK);
}

#[test]
fn exact_rule_wins_over_wildcards() {
    let read = rules(&[("/etc/shadow", DENY), ("**", ALLOW), ("/etc/*", ASK)]);
    assert_eq!(read.check("/etc/shadow"), DENY);
    assert_eq!(read.check("/etc/hosts"), ASK);
    assert_eq!(read.check("/bin/sh"), ALLOW);
}

#[test]
fn order_of_rules_does_not_matter() {
    let first = rules(&[("**", DENY), ("/home/**", ALLOW), ("/home/a", ASK)]);
    let second = rules(&[("/home/a", ASK), ("/home/**", ALLOW), ("**", DENY)]);
    for path in ["/home/a", "/home/b", "/etc"] {
        assert_eq!(first.check(path), second.check(path));
    }
}

#[test]
fn equally_specific_rules_are_decided_by_the_last() {
    let read = rules(&[("a*", ALLOW), ("*c", DENY)]);
    assert_eq!(read.check("abc"), DENY);
    let read = rules(&[("*c", DENY), ("a*", ALLOW)]);
    assert_eq!(read.check("abc"), ALLOW);
}

#[test]
fn trailing_star_matches_the_bare_command() {
    for pattern in ["ls *", "ls **"] {
        assert_eq!(command_matches(pattern, "ls"), Some(3));
        assert_eq!(command_matches(pattern, "ls -la /home"), Some(3));
        assert_eq!(command_matches(pattern, "lsof"), None);
    }
    assert_eq!(command_matches("ls*", "ls"), Some(2));
    assert_eq!(pattern_matches("ls *", "ls"), None);
}

#[test]
fn metacharacters_defer_to_the_catch_all() {
    let bash = rules(&[("*", ASK), ("echo *", ALLOW)]);
    assert_eq!(bash.check_command("echo hi"), ALLOW);
    for command in [
        "echo a | sh", "echo a & b", "echo a; b", "echo < a", "echo > a", "echo (a", "echo a)",
        "echo {a", "echo a}", "echo $A", "echo `a", "echo \\a", "echo a\nb", "echo a\rb",
    ] {
        assert!(contains_metacharacters(command));
        assert_eq!(bash.check_command(command), ASK);
    }
    assert!(!contains_metacharacters("echo a-b_c=d e/f.g"));
    let without = rules(&[("echo *", ALLOW)]);
    assert_eq!(without.check_command("echo a | sh"), DENY);
    let doubled = rules(&[("**", ALLOW), ("echo *", DENY)]);
    assert_eq!(doubled.check_command("echo a | sh"), ALLOW);
    assert_eq!(Permission::Level(ALLOW).check_command("a | b"), ALLOW);
}

#[test]
fn star_is_the_catch_all_where_it_is_present() {
    for list in [[("*", ASK), ("**", ALLOW)], [("**", ALLOW), ("*", ASK)]] {
        assert_eq!(rules(&list).check_command("a | b"), ASK);
    }
}

#[test]
fn idle_rules_change_nothing() {
    let list = [("**", DENY), ("/home/**", ALLOW), ("/home/me/*", ASK)];
    for path in ["/home/me/a", "/home/you", "/etc"] {
        let expected = rules(&list).check(path);
        for at in 0..=list.len() {
            let mut more = list.to_vec();
            more.insert(at, ("/srv/**", ALLOW));
            assert_eq!(rules(&more).check(path), expected);
        }
    }
    for at in 0..=list.len() {
        let mut more = list.to_vec();
        more.insert(at, ("/h**", DENY));
        assert_eq!(rules(&more).check("/home/me/a"), ASK);
    }
}

// --- settings ---

#[test]
fn levels_are_read_by_name() {
    assert_eq!(PermissionLevel::from_name("allow"), Some(ALLOW));
    assert_eq!(PermissionLevel::from_name("ask"), Some(ASK));
    assert_eq!(PermissionLevel::from_name("deny"), Some(DENY));
    assert_eq!(PermissionLevel::from_name("Allow"), None);
    assert_eq!(PermissionLevel::from_name(""), None);
}

#[test]
fn decoding_names_the_first_invalid_level() {
    let error = Permission::decode(&RawPermission::Level("maybe".to_string())).unwrap_err();
    assert_eq!(error.message(), "invalid permission level 'maybe' (expected allow, ask or deny)");
    let error = Permission::decode(&raw(&[("a", "allow"), ("b", "no"), ("c", "nope")])).unwrap_err();
    assert_eq!(error.value, "no");
    let both = RawPermissions {
        read: Some(raw(&[("a", "first")])),
        bash: Some(RawPermission::Level("second".to_string())),
    };
    assert_eq!(PermissionsConfig::decode(&both).unwrap_err().value, "first");
}

#[test]
fn decoded_patterns_are_distinct_and_the_last_counts() {
    let decoded = Permission::decode(&raw(&[("a", "allow"), ("b", "ask"), ("a", "deny")])).unwrap();
    assert_eq!(decoded.check("a"), DENY);
    assert_eq!(decoded.check("b"), ASK);
    match decoded {
        Permission::Patterns(list) => assert_eq!(list.len(), 2),
        other => panic!("expected patterns, got {:?}", other),
    }
}

#[test]
fn an_agent_overrides_the_configuration() {
    let config = PermissionsConfig {
        read: Some(Permission::Level(ALLOW)),
        bash: Some(Permission::Level(DENY)),
    };
    let agent = PermissionsConfig { read: None, bash: Some(Permission::Level(ASK)) };
    let merged = config.merge(agent);
    assert_eq!(merged.check_read("/a"), ALLOW);
    assert_eq!(merged.check_bash("ls"), ASK);

    let tools = ToolsConfig { read: Some(true), bash: Some(true) }
        .merge(ToolsConfig { read: Some(false), bash: None });
    assert!(!tools.is_read_active(false));
    assert!(tools.is_read_active(true));
    assert!(tools.is_bash_active(false));
    assert!(!ToolsConfig::default().is_bash_active(false));
}

#[test]
fn unset_permissions_deny() {
    let unset = PermissionsConfig::default();
    assert_eq!(unset.check_read("/a"), DENY);
    assert_eq!(unset.check_bash("ls"), DENY);
}

// --- tool calls ---

fn with_levels(read: PermissionLevel, bash: PermissionLevel) -> PermissionsConfig {
    PermissionsConfig { read: Some(Permission::Level(read)), bash: Some(Permission::Level(bash)) }
}

fn performed(step: ToolStep) -> String {
    match step {
        ToolStep::Perform(target) => target,
        other => panic!("expected the call to be performed, got {:?}", other),
    }
}

fn refused(step: ToolStep) -> String {
    match step {
        ToolStep::Refuse(error) => error,
        other => panic!("expected a refusal, got {:?}", other),
    }
}

#[test]
fn tools_are_described() {
    let read = read_tool();
    assert_eq!(read.name, "read");
    assert_eq!(read.description, "read the contents of a file at the given path");
    assert_eq!(read.parameter, "path");
    assert_eq!(read.parameter_description, "absolute or relative path to the file to read");
    assert_eq!(bash_tool().name, "bash");
    assert_eq!(bash_tool().parameter, "command");
}

#[test]
fn allowed_calls_are_performed() {
    let allowed = with_levels(ALLOW, ALLOW);
    assert_eq!(performed(start_read(&allowed, "notes.md", "/work", false)), "/work/notes.md");
    assert_eq!(performed(start_read(&allowed, "/etc/hosts", "/work", false)), "/etc/hosts");
    assert_eq!(performed(start_bash(&allowed, "ls -la", false)), "ls -la");
}

#[test]
fn denied_calls_are_refused() {
    let denied = with_levels(DENY, DENY);
    assert_eq!(refused(start_read(&denied, "a", "/work", true)), "permission denied: /work/a");
    assert_eq!(refused(start_bash(&denied, "ls", true)), "permission denied: ls");
}

#[test]
fn asking_needs_consent() {
    let asking = with_levels(ASK, ASK);
    assert_eq!(performed(start_bash(&asking, "ls", true)), "ls");
    let (question, target) = match start_read(&asking, "a", "/work", false) {
        ToolStep::Ask { question, target } => (question, target),
        other => panic!("expected a question, got {:?}", other),
    };
    assert_eq!(question, "allow read /work/a? [y/N] ");
    assert_eq!(target, "/work/a");
    for yes in ["y\n", "Y", "yes\n"] {
        let step = continue_call(target.clone(), &Some(yes.to_string()));
        assert_eq!(performed(step), "/work/a");
    }
    for no in [Some("n\n"), Some("\n"), Some(""), Some(" y"), None] {
        let step = continue_call(target.clone(), &no.map(|s| s.to_string()));
        assert_eq!(refused(step), "permission denied (ask): /work/a");
    }
}

#[test]
fn the_resolved_path_is_what_is_checked() {
    let read = PermissionsConfig {
        read: Some(rules(&[("**", DENY), ("/work/**", ALLOW)])),
        bash: None,
    };
    assert_eq!(performed(start_read(&read, "a/b", "/work", false)), "/work/a/b");
    assert_eq!(refused(start_read(&read, "a/b", "/home", false)), "permission denied: /home/a/b");
}

#[test]
fn read_failures_name_the_path() {
    assert_eq!(read_failure("/a", "no such file"), "/a: no such file");
}
