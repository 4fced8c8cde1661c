//! Tool and permission settings: reading them from plain values, and merging an agent's over
//! the configured ones.
use vstd::prelude::*;

use crate::permission::{PatternRule, Permission, PermissionLevel, PermissionView, RuleView};
use crate::text::same_text;

verus! {

/// A permission as it is written down: one level, or a level for each pattern.
#[derive(Clone, Debug)]
pub enum RawPermission {
    Level(String),
    Patterns(Vec<RawRule>),
}

/// A pattern and the name of its level.
#[derive(Clone, Debug)]
pub struct RawRule {
    pub pattern: String,
    pub level: String,
}

/// A word that names no permission level.
#[derive(Clone, Debug)]
pub struct InvalidLevel {
    pub value: String,
}

/// The complaint about a word that names no level.
pub open spec fn invalid_level_error(value: Seq<char>) -> Seq<char> {
    "invalid permission level '"@ + value + "' (expected allow, ask or deny)"@
}

impl InvalidLevel {
    /// What to tell the user.
    pub fn message(&self) -> (text: String)
        ensures
            text@ == invalid_level_error(self.value@),
            text@ == "invalid permission level '"@ + self.value@
                + "' (expected allow, ask or deny)"@,
    {
        let mut text = "invalid permission level '".to_owned();
        text.append(self.value.as_str());
        text.append("' (expected allow, ask or deny)");
        text
    }
}

/// Whether the rule's level is one that exists.
pub open spec fn names_level(rule: RawRule) -> bool {
    crate::permission::level_named(rule.level@) is Some
}

/// The rules without the one for `pattern`.
pub open spec fn without(rules: Seq<RuleView>, pattern: Seq<char>) -> Seq<RuleView> {
    rules.filter(|rule: RuleView| rule.0 != pattern)
}

/// The rules that entries stand for, where a later entry for a pattern takes the place of an
/// earlier one.
pub open spec fn rules_of(entries: Seq<RawRule>) -> Seq<RuleView>
    decreases entries.len(),
{
    if entries.len() == 0 {
        seq![]
    } else {
        let last = entries.last();
        without(rules_of(entries.drop_last()), last.pattern@).push(
            (last.pattern@, crate::permission::level_named(last.level@)->0),
        )
    }
}

/// What a raw permission stands for, if all its levels exist.
pub open spec fn permission_of(raw: RawPermission) -> Option<PermissionView> {
    match raw {
        RawPermission::Level(word) => match crate::permission::level_named(word@) {
            Some(level) => Some(PermissionView::Level(level)),
            None => None,
        },
        RawPermission::Patterns(entries) => if forall|i: int|
            0 <= i < entries@.len() ==> names_level(#[trigger] entries@[i]) {
            Some(PermissionView::Patterns(rules_of(entries@)))
        } else {
            None
        },
    }
}

/// The first word of a raw permission that should name a level and does not.
pub open spec fn is_first_invalid(raw: RawPermission, value: Seq<char>) -> bool {
    match raw {
        RawPermission::Level(word) => value == word@ && crate::permission::level_named(word@)
            is None,
        RawPermission::Patterns(entries) => exists|i: int|
            {
                &&& 0 <= i < entries@.len()
                &&& value == entries@[i].level@
                &&& !names_level(#[trigger] entries@[i])
                &&& forall|j: int| 0 <= j < i ==> names_level(#[trigger] entries@[j])
            },
    }
}

/// Removes the rule for `pattern`.
fn remove_rule(rules: Vec<PatternRule>, pattern: &str) -> (left: Vec<PatternRule>)
    ensures
        crate::permission::rule_views(left@) == without(
            crate::permission::rule_views(rules@),
            pattern@,
        ),
{
    let ghost views = crate::permission::rule_views(rules@);
    let ghost keep = |rule: RuleView| rule.0 != pattern@;
    let mut left: Vec<PatternRule> = Vec::new();
    let mut i: usize = 0;
    proof {
        reveal(Seq::filter);
        assert(views.take(0).filter(keep) == Seq::<RuleView>::empty());
    }
    while i < rules.len()
        invariant
            i <= rules@.len(),
            views == crate::permission::rule_views(rules@),
            keep == (|rule: RuleView| rule.0 != pattern@),
            crate::permission::rule_views(left@) == views.take(i as int).filter(keep),
        decreases rules@.len() - i,
    {
        let ghost next = views.take(i + 1);
        proof {
            reveal(Seq::filter);
            assert(next.drop_last() == views.take(i as int));
            assert(next.last() == views[i as int]);
        }
        let ghost kept = left@;
        if !same_text(rules[i].pattern.as_str(), pattern) {
            left.push(PatternRule { pattern: rules[i].pattern.clone(), level: rules[i].level });
            assert(crate::permission::rule_views(left@) == crate::permission::rule_views(kept).push(
                views[i as int],
            ));
        }
        i = i + 1;
    }
    assert(views.take(i as int) == views);
    left
}

impl Permission {
    /// Reads a permission. The error is the first level that does not exist.
    pub fn decode(raw: &RawPermission) -> (result: Result<Permission, InvalidLevel>)
        ensures
            result is Ok <==> permission_of(*raw) is Some,
            result matches Ok(permission) ==> permission@ == permission_of(*raw)->0
                && permission@.well_formed(),
            result matches Err(error) ==> is_first_invalid(*raw, error.value@),
            *raw matches RawPermission::Level(word) ==> {
                &&& word@ == "allow"@ ==> result == Ok::<Permission, InvalidLevel>(
                    Permission::Level(PermissionLevel::Allow),
                )
                &&& word@ == "ask"@ ==> result == Ok::<Permission, InvalidLevel>(
                    Permission::Level(PermissionLevel::Ask),
                )
                &&& word@ == "deny"@ ==> result == Ok::<Permission, InvalidLevel>(
                    Permission::Level(PermissionLevel::Deny),
                )
            },
    {
        proof {
            if let RawPermission::Level(word) = raw {
                crate::permission::law_level_words(word@);
            }
        }
        match raw {
            RawPermission::Level(word) => match PermissionLevel::from_name(word.as_str()) {
                Some(level) => Ok(Permission::Level(level)),
                None => Err(InvalidLevel { value: word.clone() }),
            },
            RawPermission::Patterns(entries) => {
                let mut rules: Vec<PatternRule> = Vec::new();
                let mut i: usize = 0;
                assert(crate::permission::rule_views(rules@) == rules_of(entries@.take(0)));
                while i < entries.len()
                    invariant
                        i <= entries@.len(),
                        *raw == RawPermission::Patterns(*entries),
                        forall|j: int| 0 <= j < i ==> names_level(#[trigger] entries@[j]),
                        crate::permission::rule_views(rules@) == rules_of(entries@.take(i as int)),
                    decreases entries@.len() - i,
                {
                    let entry = &entries[i];
                    match PermissionLevel::from_name(entry.level.as_str()) {
                        Some(level) => {
                            let ghost next = entries@.take(i + 1);
                            assert(next.drop_last() == entries@.take(i as int));
                            assert(next.last() == entries@[i as int]);
                            rules = remove_rule(rules, entry.pattern.as_str());
                            let ghost left = rules@;
                            let rule = PatternRule { pattern: entry.pattern.clone(), level };
                            rules.push(rule);
                            assert(crate::permission::rule_views(rules@)
                                == crate::permission::rule_views(left).push(rule@));
                            assert(names_level(entries@[i as int]));
                        },
                        None => {
                            assert(!names_level(entries@[i as int]));
                            return Err(InvalidLevel { value: entry.level.clone() });
                        },
                    }
                    i = i + 1;
                }
                assert(entries@.take(i as int) == entries@);
                proof {
                    law_decoded_rules_are_distinct(*raw);
                }
                Ok(Permission::Patterns(rules))
            },
        }
    }
}

/// The permission of each tool.
#[derive(Clone, Debug)]
pub struct PermissionsConfig {
    pub read: Option<Permission>,
    pub bash: Option<Permission>,
}

/// The permissions of both tools as they are written down.
#[derive(Clone, Debug)]
pub struct RawPermissions {
    pub read: Option<RawPermission>,
    pub bash: Option<RawPermission>,
}

impl RawPermissions {
    /// Whether every level that is named exists.
    pub open spec fn all_levels_exist(self) -> bool {
        &&& self.read is Some ==> permission_of(self.read->0) is Some
        &&& self.bash is Some ==> permission_of(self.bash->0) is Some
    }

    /// Whether `config` holds what is written down.
    pub open spec fn stands_for(self, config: PermissionsConfig) -> bool {
        &&& config.read is Some <==> self.read is Some
        &&& config.bash is Some <==> self.bash is Some
        &&& self.read is Some ==> config.read->0@ == permission_of(self.read->0)->0
        &&& self.bash is Some ==> config.bash->0@ == permission_of(self.bash->0)->0
    }

    /// Whether `value` is the first level that does not exist, the read tool's permission first.
    pub open spec fn is_first_invalid(self, value: Seq<char>) -> bool {
        if self.read is Some && permission_of(self.read->0) is None {
            is_first_invalid(self.read->0, value)
        } else {
            self.bash is Some && is_first_invalid(self.bash->0, value)
        }
    }
}

/// The first value, or the second where there is no first.
pub open spec fn either<T>(first: Option<T>, second: Option<T>) -> Option<T> {
    if first is Some {
        first
    } else {
        second
    }
}

/// The first value, or the second where there is no first.
pub fn first_given<T>(first: Option<T>, second: Option<T>) -> (given: Option<T>)
    ensures
        given == either(first, second),
        first is Some ==> given == first,
        first is None ==> given == second,
{
    match first {
        Some(value) => Some(value),
        None => second,
    }
}

impl Default for PermissionsConfig {
    fn default() -> (config: PermissionsConfig)
        ensures
            config == PermissionsConfig::unset(),
            config.read is None,
            config.bash is None,
    {
        PermissionsConfig { read: None, bash: None }
    }
}

impl PermissionsConfig {
    /// No permission is set.
    pub open spec fn unset() -> PermissionsConfig {
        PermissionsConfig { read: None, bash: None }
    }

    /// `other` laid over `self`.
    pub open spec fn merged(self, other: PermissionsConfig) -> PermissionsConfig {
        PermissionsConfig {
            read: either(other.read, self.read),
            bash: either(other.bash, self.bash),
        }
    }

    /// Lays `other` over `self`: what `other` sets counts, what it leaves unset is kept.
    pub fn merge(self, other: PermissionsConfig) -> (config: PermissionsConfig)
        ensures
            config == self.merged(other),
            config.read == if other.read is Some {
                other.read
            } else {
                self.read
            },
            config.bash == if other.bash is Some {
                other.bash
            } else {
                self.bash
            },
    {
        PermissionsConfig {
            read: first_given(other.read, self.read),
            bash: first_given(other.bash, self.bash),
        }
    }

    /// The level of reading a file; `Deny` where no permission is set.
    pub open spec fn read_level(self, path: Seq<char>) -> PermissionLevel {
        match self.read {
            Some(permission) => permission@.level_of_path(path),
            None => PermissionLevel::Deny,
        }
    }

    /// The level of running a command; `Deny` where no permission is set.
    pub open spec fn bash_level(self, command: Seq<char>) -> PermissionLevel {
        match self.bash {
            Some(permission) => permission@.level_of_command(command),
            None => PermissionLevel::Deny,
        }
    }

    /// The level of reading the file at `path`.
    pub fn check_read(&self, path: &str) -> (level: PermissionLevel)
        ensures
            level == self.read_level(path@),
            self.read is None ==> level == PermissionLevel::Deny,
            self.read matches Some(permission) ==> level == permission@.level_of_path(path@),
    {
        match &self.read {
            Some(permission) => permission.check(path),
            None => PermissionLevel::Deny,
        }
    }

    /// The level of running `command`.
    pub fn check_bash(&self, command: &str) -> (level: PermissionLevel)
        ensures
            level == self.bash_level(command@),
            self.bash is None ==> level == PermissionLevel::Deny,
            self.bash matches Some(permission) ==> level == permission@.level_of_command(command@),
    {
        match &self.bash {
            Some(permission) => permission.check_command(command),
            None => PermissionLevel::Deny,
        }
    }

    /// Reads the permissions of both tools; the error is the first invalid level.
    pub fn decode(raw: &RawPermissions) -> (result: Result<PermissionsConfig, InvalidLevel>)
        ensures
            result is Ok <==> raw.all_levels_exist(),
            result matches Ok(config) ==> raw.stands_for(config),
            result matches Err(error) ==> raw.is_first_invalid(error.value@),
    {
        let read = match &raw.read {
            Some(raw) => match Permission::decode(raw) {
                Ok(permission) => Some(permission),
                Err(error) => return Err(error),
            },
            None => None,
        };
        let bash = match &raw.bash {
            Some(raw) => match Permission::decode(raw) {
                Ok(permission) => Some(permission),
                Err(error) => return Err(error),
            },
            None => None,
        };
        Ok(PermissionsConfig { read, bash })
    }
}

/// Which tools are switched on.
#[derive(Clone, Debug)]
pub struct ToolsConfig {
    pub read: Option<bool>,
    pub bash: Option<bool>,
}

impl Default for ToolsConfig {
    fn default() -> (config: ToolsConfig)
        ensures
            config == ToolsConfig::unset(),
            config.read is None,
            config.bash is None,
    {
        ToolsConfig { read: None, bash: None }
    }
}

impl ToolsConfig {
    /// No tool is switched on or off.
    pub open spec fn unset() -> ToolsConfig {
        ToolsConfig { read: None, bash: None }
    }

    /// `other` laid over `self`.
    pub open spec fn merged(self, other: ToolsConfig) -> ToolsConfig {
        ToolsConfig { read: either(other.read, self.read), bash: either(other.bash, self.bash) }
    }

    /// Lays `other` over `self`: what `other` sets counts, what it leaves unset is kept.
    pub fn merge(self, other: ToolsConfig) -> (config: ToolsConfig)
        ensures
            config == self.merged(other),
            config.read == if other.read is Some {
                other.read
            } else {
                self.read
            },
            config.bash == if other.bash is Some {
                other.bash
            } else {
                self.bash
            },
    {
        ToolsConfig {
            read: first_given(other.read, self.read),
            bash: first_given(other.bash, self.bash),
        }
    }

    /// Whether the read tool is offered: it is switched on here, or asked for by name.
    pub fn is_read_active(&self, tools_flag: bool) -> (active: bool)
        ensures
            active == (self.read == Some(true) || tools_flag),
    {
        self.read.unwrap_or(false) || tools_flag
    }

    /// Whether the bash tool is offered: it is switched on here, or asked for by name.
    pub fn is_bash_active(&self, tools_flag: bool) -> (active: bool)
        ensures
            active == (self.bash == Some(true) || tools_flag),
    {
        self.bash.unwrap_or(false) || tools_flag
    }
}

// --- laws ---

/// A decoded permission has at most one rule for each pattern.
pub proof fn law_decoded_rules_are_distinct(raw: RawPermission)
    requires
        permission_of(raw) is Some,
    ensures
        permission_of(raw)->0.well_formed(),
{
    if let RawPermission::Patterns(entries) = raw {
        lemma_rules_distinct(entries@);
    }
}

/// Dropping a pattern's rule keeps the others, in order, and leaves none for the pattern.
proof fn lemma_without(rules: Seq<RuleView>, pattern: Seq<char>)
    requires
        crate::permission::distinct_patterns(rules),
    ensures
        crate::permission::distinct_patterns(without(rules, pattern)),
        forall|r: RuleView|
            without(rules, pattern).contains(r) <==> rules.contains(r) && r.0 != pattern,
    decreases rules.len(),
{
    reveal(Seq::filter);
    if rules.len() > 0 {
        let shorter = rules.drop_last();
        let last = rules.last();
        assert(crate::permission::distinct_patterns(shorter)) by {
            assert forall|i: int, j: int| 0 <= i < j < shorter.len() implies (
            #[trigger] shorter[i]).0 != (#[trigger] shorter[j]).0 by {
                assert(rules[i] == shorter[i] && rules[j] == shorter[j]);
            }
        }
        lemma_without(shorter, pattern);
        let before = without(shorter, pattern);
        let after = without(rules, pattern);
        assert(rules == shorter.push(last));
        assert forall|r: RuleView| rules.contains(r) <==> shorter.contains(r) || r == last by {
            if rules.contains(r) {
                let i = choose|i: int| 0 <= i < rules.len() && rules[i] == r;
                if i < shorter.len() {
                    assert(shorter[i] == r);
                }
            }
            if shorter.contains(r) {
                let i = choose|i: int| 0 <= i < shorter.len() && shorter[i] == r;
                assert(rules[i] == r);
            }
            assert(rules[rules.len() - 1] == last);
        }
        if last.0 != pattern {
            assert(after == before.push(last));
            assert forall|i: int, j: int| 0 <= i < j < after.len() implies (#[trigger] after[i]).0
                != (#[trigger] after[j]).0 by {
                if j == before.len() {
                    assert(before.contains(before[i]));
                    assert(shorter.contains(before[i]));
                    let k = choose|k: int| 0 <= k < shorter.len() && shorter[k] == before[i];
                    assert(rules[k] == before[i]);
                    assert(rules[rules.len() - 1] == last);
                }
            }
            assert forall|r: RuleView| after.contains(r) <==> before.contains(r) || r == last by {
                if after.contains(r) {
                    let i = choose|i: int| 0 <= i < after.len() && after[i] == r;
                    if i < before.len() {
                        assert(before[i] == r);
                    }
                }
                if before.contains(r) {
                    let i = choose|i: int| 0 <= i < before.len() && before[i] == r;
                    assert(after[i] == r);
                }
                assert(after[before.len() as int] == last);
            }
        } else {
            assert(after == before);
            assert forall|r: RuleView| shorter.contains(r) implies r.0 != pattern by {
                let k = choose|k: int| 0 <= k < shorter.len() && shorter[k] == r;
                assert(rules[k] == r);
                assert(rules[rules.len() - 1] == last);
            }
        }
    }
}

proof fn lemma_rules_distinct(entries: Seq<RawRule>)
    ensures
        crate::permission::distinct_patterns(rules_of(entries)),
    decreases entries.len(),
{
    if entries.len() > 0 {
        let earlier = rules_of(entries.drop_last());
        let pattern = entries.last().pattern@;
        lemma_rules_distinct(entries.drop_last());
        lemma_without(earlier, pattern);
        let kept = without(earlier, pattern);
        let rules = rules_of(entries);
        assert forall|i: int, j: int| 0 <= i < j < rules.len() implies (#[trigger] rules[i]).0 != (
        #[trigger] rules[j]).0 by {
            assert(rules[i] == kept[i]);
            if j == kept.len() {
                assert(kept.contains(kept[i]));
            } else {
                assert(rules[j] == kept[j]);
            }
        }
    }
}

/// The last entry for a pattern is the one that counts.
pub proof fn law_last_entry_counts(entries: Seq<RawRule>, i: int)
    requires
        0 <= i < entries.len(),
        forall|j: int| i < j < entries.len() ==> (#[trigger] entries[j]).pattern@
            != entries[i].pattern@,
    ensures
        rules_of(entries).contains(
            (entries[i].pattern@, crate::permission::level_named(entries[i].level@)->0),
        ),
    decreases entries.len(),
{
    let shorter = entries.drop_last();
    let rules = rules_of(entries);
    let rule = (entries[i].pattern@, crate::permission::level_named(entries[i].level@)->0);
    let kept = without(rules_of(shorter), entries.last().pattern@);
    lemma_rules_distinct(shorter);
    lemma_without(rules_of(shorter), entries.last().pattern@);
    if i == shorter.len() {
        assert(rules[kept.len() as int] == rule);
    } else {
        assert forall|j: int| i < j < shorter.len() implies (#[trigger] shorter[j]).pattern@
            != shorter[i].pattern@ by {
            assert(entries[j] == shorter[j]);
        }
        law_last_entry_counts(shorter, i);
        assert(entries[entries.len() - 1].pattern@ != entries[i].pattern@);
        assert(kept.contains(rule));
        let k = choose|k: int| 0 <= k < kept.len() && kept[k] == rule;
        assert(rules[k] == rule);
    }
}

/// What an agent sets overrides the configuration, and what it does not set is kept.
pub proof fn law_agent_overrides_config(
    config: PermissionsConfig,
    agent: PermissionsConfig,
    path: Seq<char>,
    command: Seq<char>,
)
    ensures
        agent.read is Some ==> config.merged(agent).read_level(path) == agent.read_level(path),
        agent.read is None ==> config.merged(agent).read_level(path) == config.read_level(path),
        agent.bash is Some ==> config.merged(agent).bash_level(command) == agent.bash_level(
            command,
        ),
        agent.bash is None ==> config.merged(agent).bash_level(command) == config.bash_level(
            command,
        ),
{
}

/// Laying settings over one another is associative, and unset settings change nothing.
pub proof fn law_merge_permissions(
    a: PermissionsConfig,
    b: PermissionsConfig,
    c: PermissionsConfig,
)
    ensures
        a.merged(b).merged(c) == a.merged(b.merged(c)),
        a.merged(PermissionsConfig::unset()) == a,
        PermissionsConfig::unset().merged(a) == a,
{
}

/// Laying tool switches over one another is associative, and unset switches change nothing.
pub proof fn law_merge_tools(a: ToolsConfig, b: ToolsConfig, c: ToolsConfig)
    ensures
        a.merged(b).merged(c) == a.merged(b.merged(c)),
        a.merged(ToolsConfig::unset()) == a,
        ToolsConfig::unset().merged(a) == a,
{
}

/// A permission that is written as one word gives the level of that name to every path and every
/// command; a word that names no level is no permission.
pub proof fn law_one_word_permission(word: String, path: Seq<char>, command: Seq<char>)
    ensures
        word@ == "allow"@ ==> (permission_of(RawPermission::Level(word)) matches Some(permission)
            && permission.level_of_path(path) == PermissionLevel::Allow
            && permission.level_of_command(command) == PermissionLevel::Allow),
        word@ == "ask"@ ==> (permission_of(RawPermission::Level(word)) matches Some(permission)
            && permission.level_of_path(path) == PermissionLevel::Ask
            && permission.level_of_command(command) == PermissionLevel::Ask),
        word@ == "deny"@ ==> (permission_of(RawPermission::Level(word)) matches Some(permission)
            && permission.level_of_path(path) == PermissionLevel::Deny
            && permission.level_of_command(command) == PermissionLevel::Deny),
        word@ != "allow"@ && word@ != "ask"@ && word@ != "deny"@ ==> permission_of(
            RawPermission::Level(word),
        ) is None,
{
    crate::permission::law_level_words(word@);
}

/// A permission that is written as patterns is one exactly if each of its levels is `allow`,
/// `ask` or `deny`, and then it decides by the rules of its entries.
pub proof fn law_pattern_permission(entries: Vec<RawRule>, path: Seq<char>, command: Seq<char>)
    ensures
        permission_of(RawPermission::Patterns(entries)) is Some <==> forall|i: int|
            0 <= i < entries@.len() ==> (#[trigger] entries@[i]).level@ == "allow"@
                || entries@[i].level@ == "ask"@ || entries@[i].level@ == "deny"@,
        permission_of(RawPermission::Patterns(entries)) matches Some(permission) ==> permission
            == PermissionView::Patterns(rules_of(entries@)),
{
    assert forall|i: int| 0 <= i < entries@.len() implies (names_level(#[trigger] entries@[i])
        <==> entries@[i].level@ == "allow"@ || entries@[i].level@ == "ask"@ || entries@[i].level@
        == "deny"@) by {
        crate::permission::law_level_words(entries@[i].level@);
    }
    if permission_of(RawPermission::Patterns(entries)) is Some {
        assert forall|i: int| 0 <= i < entries@.len() implies (#[trigger] entries@[i]).level@
            == "allow"@ || entries@[i].level@ == "ask"@ || entries@[i].level@ == "deny"@ by {
            assert(names_level(entries@[i]));
        }
    }
}

/// The rules of entries are, for each pattern, its last entry, with the level that is named
/// there; and nothing else.
pub proof fn law_rules_are_the_last_entries(
    entries: Seq<RawRule>,
    pattern: Seq<char>,
    level: PermissionLevel,
)
    ensures
        rules_of(entries).contains((pattern, level)) <==> exists|i: int|
            {
                &&& 0 <= i < entries.len()
                &&& (#[trigger] entries[i]).pattern@ == pattern
                &&& crate::permission::level_named(entries[i].level@)->0 == level
                &&& forall|j: int| i < j < entries.len() ==> (#[trigger] entries[j]).pattern@
                    != pattern
            },
    decreases entries.len(),
{
    let rule = (pattern, level);
    let rules = rules_of(entries);
    if entries.len() > 0 {
        let shorter = entries.drop_last();
        let last = entries.last();
        let n = shorter.len() as int;
        let kept = without(rules_of(shorter), last.pattern@);
        lemma_rules_distinct(shorter);
        lemma_without(rules_of(shorter), last.pattern@);
        law_rules_are_the_last_entries(shorter, pattern, level);
        if rules.contains(rule) {
            let k = choose|k: int| 0 <= k < rules.len() && rules[k] == rule;
            if k < kept.len() {
                assert(kept[k] == rule);
                assert(kept.contains(rule));
                let i = choose|i: int|
                    {
                        &&& 0 <= i < shorter.len()
                        &&& (#[trigger] shorter[i]).pattern@ == pattern
                        &&& crate::permission::level_named(shorter[i].level@)->0 == level
                        &&& forall|j: int|
                            i < j < shorter.len() ==> (#[trigger] shorter[j]).pattern@ != pattern
                    };
                assert(entries[i] == shorter[i]);
                assert forall|j: int| i < j < entries.len() implies (
                #[trigger] entries[j]).pattern@ != pattern by {
                    if j < n {
                        assert(entries[j] == shorter[j]);
                    }
                }
            } else {
                assert(entries[n].pattern@ == pattern);
            }
        }
        if exists|i: int|
            {
                &&& 0 <= i < entries.len()
                &&& (#[trigger] entries[i]).pattern@ == pattern
                &&& crate::permission::level_named(entries[i].level@)->0 == level
                &&& forall|j: int| i < j < entries.len() ==> (#[trigger] entries[j]).pattern@
                    != pattern
            } {
            let i = choose|i: int|
                {
                    &&& 0 <= i < entries.len()
                    &&& (#[trigger] entries[i]).pattern@ == pattern
                    &&& crate::permission::level_named(entries[i].level@)->0 == level
                    &&& forall|j: int| i < j < entries.len() ==> (#[trigger] entries[j]).pattern@
                        != pattern
                };
            law_last_entry_counts(entries, i);
        }
    }
}

/// Leaving out a pattern's rule keeps every other.
proof fn lemma_without_keeps(rules: Seq<RuleView>, pattern: Seq<char>, a: int)
    requires
        0 <= a < rules.len(),
        rules[a].0 != pattern,
    ensures
        without(rules, pattern).contains(rules[a]),
    decreases rules.len(),
{
    reveal(Seq::filter);
    let shorter = rules.drop_last();
    let left = without(rules, pattern);
    let before = without(shorter, pattern);
    if a < shorter.len() {
        lemma_without_keeps(shorter, pattern, a);
        let c = choose|c: int| 0 <= c < before.len() && before[c] == shorter[a];
        assert(left[c] == rules[a]);
    } else {
        assert(left[before.len() as int] == rules[a]);
    }
}

/// Leaving out a pattern's rule keeps the others in their order.
proof fn lemma_without_keeps_order(rules: Seq<RuleView>, pattern: Seq<char>, a: int, b: int)
    requires
        0 <= a < b < rules.len(),
        rules[a].0 != pattern,
        rules[b].0 != pattern,
    ensures
        exists|c: int, d: int|
            0 <= c < d < without(rules, pattern).len() && #[trigger] without(rules, pattern)[c]
                == rules[a] && #[trigger] without(rules, pattern)[d] == rules[b],
    decreases rules.len(),
{
    reveal(Seq::filter);
    let shorter = rules.drop_last();
    let left = without(rules, pattern);
    let before = without(shorter, pattern);
    if b < shorter.len() {
        lemma_without_keeps_order(shorter, pattern, a, b);
        let (c, d) = choose|c: int, d: int|
            0 <= c < d < before.len() && #[trigger] before[c] == shorter[a]
                && #[trigger] before[d] == shorter[b];
        assert(left[c] == rules[a] && left[d] == rules[b]);
    } else {
        lemma_without_keeps(shorter, pattern, a);
        let c = choose|c: int| 0 <= c < before.len() && before[c] == shorter[a];
        let d = before.len() as int;
        assert(left[c] == rules[a] && left[d] == rules[b]);
    }
}

/// Rules stand in the order of the entries that they come from.
pub proof fn law_rules_keep_the_order(entries: Seq<RawRule>, i: int, j: int)
    requires
        0 <= i < j < entries.len(),
        forall|k: int|
            i < k < entries.len() ==> (#[trigger] entries[k]).pattern@ != entries[i].pattern@,
        forall|k: int|
            j < k < entries.len() ==> (#[trigger] entries[k]).pattern@ != entries[j].pattern@,
    ensures
        exists|a: int, b: int|
            {
                &&& 0 <= a < b < rules_of(entries).len()
                &&& #[trigger] rules_of(entries)[a] == (
                    entries[i].pattern@,
                    crate::permission::level_named(entries[i].level@)->0,
                )
                &&& #[trigger] rules_of(entries)[b] == (
                    entries[j].pattern@,
                    crate::permission::level_named(entries[j].level@)->0,
                )
            },
    decreases entries.len(),
{
    let shorter = entries.drop_last();
    let n = shorter.len() as int;
    let last = entries.last();
    let earlier = rules_of(shorter);
    let kept = without(earlier, last.pattern@);
    let rules = rules_of(entries);
    let first = (entries[i].pattern@, crate::permission::level_named(entries[i].level@)->0);
    let second = (entries[j].pattern@, crate::permission::level_named(entries[j].level@)->0);
    lemma_rules_distinct(shorter);
    lemma_without(earlier, last.pattern@);
    assert(entries[n] == last);
    assert forall|k: int| i < k < shorter.len() implies (#[trigger] shorter[k]).pattern@
        != shorter[i].pattern@ by {
        assert(entries[k] == shorter[k]);
    }
    if j == n {
        law_last_entry_counts(shorter, i);
        assert(kept.contains(first));
        let a = choose|a: int| 0 <= a < kept.len() && kept[a] == first;
        let b = kept.len() as int;
        assert(rules[a] == first && rules[b] == second);
    } else {
        assert forall|k: int| j < k < shorter.len() implies (#[trigger] shorter[k]).pattern@
            != shorter[j].pattern@ by {
            assert(entries[k] == shorter[k]);
        }
        law_rules_keep_the_order(shorter, i, j);
        let (c, d) = choose|c: int, d: int|
            0 <= c < d < earlier.len() && #[trigger] earlier[c] == first
                && #[trigger] earlier[d] == second;
        lemma_without_keeps_order(earlier, last.pattern@, c, d);
        let (a, b) = choose|a: int, b: int|
            0 <= a < b < kept.len() && #[trigger] kept[a] == earlier[c] && #[trigger] kept[b]
                == earlier[d];
        assert(rules[a] == first && rules[b] == second);
    }
}

/// The first invalid level is the first word, in order, that is none of `allow`, `ask` and
/// `deny`.
pub proof fn law_first_invalid_level(word: String, entries: Vec<RawRule>, value: Seq<char>)
    ensures
        is_first_invalid(RawPermission::Level(word), value) <==> value == word@ && value
            != "allow"@ && value != "ask"@ && value != "deny"@,
        is_first_invalid(RawPermission::Patterns(entries), value) <==> exists|i: int|
            {
                &&& 0 <= i < entries@.len()
                &&& (#[trigger] entries@[i]).level@ == value
                &&& value != "allow"@ && value != "ask"@ && value != "deny"@
                &&& forall|j: int|
                    0 <= j < i ==> (#[trigger] entries@[j]).level@ == "allow"@ || entries@[j].level@
                        == "ask"@ || entries@[j].level@ == "deny"@
            },
{
    crate::permission::law_level_words(word@);
    assert forall|i: int| 0 <= i < entries@.len() implies (names_level(#[trigger] entries@[i])
        <==> entries@[i].level@ == "allow"@ || entries@[i].level@ == "ask"@ || entries@[i].level@
        == "deny"@) by {
        crate::permission::law_level_words(entries@[i].level@);
    }
    if is_first_invalid(RawPermission::Patterns(entries), value) {
        let i = choose|i: int|
            {
                &&& 0 <= i < entries@.len()
                &&& value == entries@[i].level@
                &&& !names_level(#[trigger] entries@[i])
                &&& forall|j: int| 0 <= j < i ==> names_level(#[trigger] entries@[j])
            };
        assert forall|j: int| 0 <= j < i implies (#[trigger] entries@[j]).level@ == "allow"@
            || entries@[j].level@ == "ask"@ || entries@[j].level@ == "deny"@ by {
            assert(names_level(entries@[j]));
        }
        assert(!names_level(entries@[i]));
        assert(entries@[i].level@ == value);
    }
    if exists|i: int|
        {
            &&& 0 <= i < entries@.len()
            &&& (#[trigger] entries@[i]).level@ == value
            &&& value != "allow"@ && value != "ask"@ && value != "deny"@
            &&& forall|j: int|
                0 <= j < i ==> (#[trigger] entries@[j]).level@ == "allow"@ || entries@[j].level@
                    == "ask"@ || entries@[j].level@ == "deny"@
        } {
        let i = choose|i: int|
            {
                &&& 0 <= i < entries@.len()
                &&& (#[trigger] entries@[i]).level@ == value
                &&& value != "allow"@ && value != "ask"@ && value != "deny"@
                &&& forall|j: int|
                    0 <= j < i ==> (#[trigger] entries@[j]).level@ == "allow"@ || entries@[j].level@
                        == "ask"@ || entries@[j].level@ == "deny"@
            };
        assert forall|j: int| 0 <= j < i implies names_level(#[trigger] entries@[j]) by {
            assert(entries@[j].level@ == "allow"@ || entries@[j].level@ == "ask"@
                || entries@[j].level@ == "deny"@);
        }
        assert(!names_level(entries@[i]));
    }
}

/// The permissions of both tools are read one by one. They stand for what is written down, and
/// the read tool's invalid level is reported before the bash tool's.
pub proof fn law_both_permissions(
    raw: RawPermissions,
    config: PermissionsConfig,
    value: Seq<char>,
)
    ensures
        raw.all_levels_exist() <==> (raw.read matches Some(it) ==> permission_of(it) is Some) && (
        raw.bash matches Some(it) ==> permission_of(it) is Some),
        raw.stands_for(config) ==> {
            &&& config.read is Some <==> raw.read is Some
            &&& config.bash is Some <==> raw.bash is Some
            &&& raw.read matches Some(it) ==> Some(config.read->0@) == Some(permission_of(it)->0)
            &&& raw.bash matches Some(it) ==> Some(config.bash->0@) == Some(permission_of(it)->0)
        },
        raw.is_first_invalid(value) ==> {
            ||| raw.read matches Some(it) && permission_of(it) is None && is_first_invalid(
                it,
                value,
            )
            ||| !(raw.read is Some && permission_of(raw.read->0) is None) && (
            raw.bash matches Some(it) && is_first_invalid(it, value))
        },
{
}

/// The complaint names the word and the levels that there are.
pub proof fn law_complaint_about_a_level(value: Seq<char>)
    ensures
        invalid_level_error(value) == "invalid permission level '"@ + value
            + "' (expected allow, ask or deny)"@,
{
}

/// Of two values the first counts where there is one.
pub proof fn law_first_value_counts<T>(value: T, second: Option<T>)
    ensures
        either(Some(value), second) == Some(value),
        either(None, second) == second,
{
}

/// Laid over a configuration, an agent's settings count where they are set, tool by tool.
pub proof fn law_settings_are_laid_over(
    config: PermissionsConfig,
    agent: PermissionsConfig,
    switches: ToolsConfig,
    own: ToolsConfig,
)
    ensures
        agent.read is Some ==> config.merged(agent).read == agent.read,
        agent.read is None ==> config.merged(agent).read == config.read,
        agent.bash is Some ==> config.merged(agent).bash == agent.bash,
        agent.bash is None ==> config.merged(agent).bash == config.bash,
        own.read is Some ==> switches.merged(own).read == own.read,
        own.read is None ==> switches.merged(own).read == switches.read,
        own.bash is Some ==> switches.merged(own).bash == own.bash,
        own.bash is None ==> switches.merged(own).bash == switches.bash,
        PermissionsConfig::unset().read is None,
        PermissionsConfig::unset().bash is None,
        ToolsConfig::unset().read is None,
        ToolsConfig::unset().bash is None,
{
}

/// Each tool is judged by its own permission, and denied without one.
pub proof fn law_each_tool_has_its_permission(
    config: PermissionsConfig,
    path: Seq<char>,
    command: Seq<char>,
)
    ensures
        config.read matches Some(permission) ==> config.read_level(path)
            == permission@.level_of_path(path),
        config.bash matches Some(permission) ==> config.bash_level(command)
            == permission@.level_of_command(command),
        config.read is None ==> config.read_level(path) == PermissionLevel::Deny,
        config.bash is None ==> config.bash_level(command) == PermissionLevel::Deny,
{
}

} // verus!
