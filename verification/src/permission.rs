//! Permission levels, and the pattern rules that decide which level an input gets.
use vstd::prelude::*;

use crate::glob::{literal_length, match_tokens, tokenize, wildcard_count, Subject};
use crate::settings::first_given;
use crate::text::{chars_of, same_text};

verus! {

/// What a tool may do with an input.
#[derive(Clone, Copy, Debug, PartialEq, Eq, Structural)]
pub enum PermissionLevel {
    /// Permitted without prompting.
    Allow,
    /// The user is asked for confirmation.
    Ask,
    /// Blocked.
    Deny,
}

/// The level that a word names, if it names one.
pub open spec fn level_named(word: Seq<char>) -> Option<PermissionLevel> {
    if word == "allow"@ {
        Some(PermissionLevel::Allow)
    } else if word == "ask"@ {
        Some(PermissionLevel::Ask)
    } else if word == "deny"@ {
        Some(PermissionLevel::Deny)
    } else {
        None
    }
}

impl PermissionLevel {
    /// Reads a level from its lower-case name.
    pub fn from_name(word: &str) -> (level: Option<PermissionLevel>)
        ensures
            level == level_named(word@),
    {
        if same_text(word, "allow") {
            Some(PermissionLevel::Allow)
        } else if same_text(word, "ask") {
            Some(PermissionLevel::Ask)
        } else if same_text(word, "deny") {
            Some(PermissionLevel::Deny)
        } else {
            None
        }
    }
}

/// A pattern and the level it assigns to what it matches.
#[derive(Clone, Debug)]
pub struct PatternRule {
    pub pattern: String,
    pub level: PermissionLevel,
}

/// A rule as its pattern's characters and its level.
pub type RuleView = (Seq<char>, PermissionLevel);

impl View for PatternRule {
    type V = RuleView;

    open spec fn view(&self) -> RuleView {
        (self.pattern@, self.level)
    }
}

/// The rules of a vector, each by its view.
pub open spec fn rule_views(rules: Seq<PatternRule>) -> Seq<RuleView> {
    Seq::new(rules.len(), |i: int| rules[i]@)
}

// --- which patterns match, and which match wins ---

/// The command that a pattern ending in ` *` or ` **` names, without its arguments.
pub open spec fn bare_command(pattern: Seq<char>) -> Option<Seq<char>> {
    let n = pattern.len() as int;
    if n >= 3 && pattern[n - 3] == ' ' && pattern[n - 2] == '*' && pattern[n - 1] == '*' {
        Some(pattern.take(n - 3))
    } else if n >= 2 && pattern[n - 2] == ' ' && pattern[n - 1] == '*' {
        Some(pattern.take(n - 2))
    } else {
        None
    }
}

/// Whether a rule's pattern matches: the glob does, or, on a command, what is left of the
/// pattern without a trailing ` *` or ` **`.
pub open spec fn rule_matches(pattern: Seq<char>, subject: Subject, input: Seq<char>) -> bool {
    ||| crate::glob::glob_matches(pattern, subject, input)
    ||| subject == Subject::Command && bare_command(pattern) is Some
        && crate::glob::glob_matches(bare_command(pattern)->0, subject, input)
}

/// How many wildcards a pattern holds.
pub open spec fn wildcards(pattern: Seq<char>) -> nat {
    crate::glob::count_wildcards(crate::glob::tokens(pattern))
}

/// How many bytes a pattern's literal characters take up.
pub open spec fn specificity(pattern: Seq<char>) -> nat {
    crate::glob::literal_bytes(crate::glob::tokens(pattern))
}

/// Whether pattern `a` is more specific than `b`: it has fewer wildcards, or as many and more
/// literal text.
pub open spec fn more_specific(a: Seq<char>, b: Seq<char>) -> bool {
    ||| wildcards(a) < wildcards(b)
    ||| wildcards(a) == wildcards(b) && specificity(a) > specificity(b)
}

/// Whether rule `i` decides: it matches, no matching rule is more specific, and no later
/// matching rule is equally specific.
pub open spec fn decides(
    rules: Seq<RuleView>,
    subject: Subject,
    input: Seq<char>,
    i: int,
) -> bool {
    &&& 0 <= i < rules.len()
    &&& rule_matches(rules[i].0, subject, input)
    &&& forall|j: int|
        0 <= j < rules.len() && rule_matches(#[trigger] rules[j].0, subject, input) ==> {
            &&& !more_specific(rules[j].0, rules[i].0)
            &&& j > i ==> more_specific(rules[i].0, rules[j].0)
        }
}

/// The level of the deciding rule; `Deny` where no rule matches.
pub open spec fn decision(
    rules: Seq<RuleView>,
    subject: Subject,
    input: Seq<char>,
) -> PermissionLevel {
    if exists|i: int| decides(rules, subject, input, i) {
        rules[choose|i: int| decides(rules, subject, input, i)].1
    } else {
        PermissionLevel::Deny
    }
}

/// At most one rule decides.
proof fn lemma_decider_unique(
    rules: Seq<RuleView>,
    subject: Subject,
    input: Seq<char>,
    i: int,
    j: int,
)
    requires
        decides(rules, subject, input, i),
        decides(rules, subject, input, j),
    ensures
        i == j,
{
    assert(rule_matches(rules[i].0, subject, input));
    assert(rule_matches(rules[j].0, subject, input));
}

/// Whether the character makes a shell do more than run one plain command: pipes, redirects,
/// chaining, grouping, substitution, escapes and line breaks.
pub open spec fn is_shell_metacharacter(c: char) -> bool {
    c == '|' || c == '&' || c == ';' || c == '<' || c == '>' || c == '(' || c == ')' || c == '{'
        || c == '}' || c == '$' || c == '`' || c == '\\' || c == '\n' || c == '\r'
}

/// Whether a command holds a shell metacharacter.
pub open spec fn has_metacharacters(command: Seq<char>) -> bool {
    exists|i: int| 0 <= i < command.len() && is_shell_metacharacter(#[trigger] command[i])
}

/// Whether a pattern is the catch-all, `*` or `**`.
pub open spec fn is_catch_all(pattern: Seq<char>) -> bool {
    pattern == crate::glob::star() || pattern == crate::glob::double_star()
}

/// Whether rule `i` is the last with that pattern.
pub open spec fn is_last_with(rules: Seq<RuleView>, pattern: Seq<char>, i: int) -> bool {
    &&& 0 <= i < rules.len()
    &&& rules[i].0 == pattern
    &&& forall|j: int| i < j < rules.len() ==> (#[trigger] rules[j]).0 != pattern
}

/// The level of the last rule with that pattern, if there is one.
pub open spec fn level_with(rules: Seq<RuleView>, pattern: Seq<char>) -> Option<PermissionLevel> {
    if exists|i: int| is_last_with(rules, pattern, i) {
        Some(rules[choose|i: int| is_last_with(rules, pattern, i)].1)
    } else {
        None
    }
}

/// The level of the catch-all: that of `*`, that of `**` where there is no `*`, and `Deny` where
/// there is neither.
pub open spec fn catch_all_level(rules: Seq<RuleView>) -> PermissionLevel {
    match crate::settings::either(
        level_with(rules, crate::glob::star()),
        level_with(rules, crate::glob::double_star()),
    ) {
        Some(level) => level,
        None => PermissionLevel::Deny,
    }
}

/// Finds the bare command of a pattern that ends in ` *` or ` **`.
fn strip_arguments(pattern: &str) -> (bare: Option<&str>)
    ensures
        bare is Some == bare_command(pattern@) is Some,
        bare is Some ==> bare->0@ == bare_command(pattern@)->0,
{
    let chars = chars_of(pattern);
    let n = chars.len();
    if n >= 3 && chars[n - 3] == ' ' && chars[n - 2] == '*' && chars[n - 1] == '*' {
        Some(pattern.substring_char(0, n - 3))
    } else if n >= 2 && chars[n - 2] == ' ' && chars[n - 1] == '*' {
        Some(pattern.substring_char(0, n - 2))
    } else {
        None
    }
}

/// Matches a file path against a pattern: the number of literal bytes in the pattern, which
/// tells how specific it is, or `None` where the path does not match.
pub fn pattern_matches(pattern: &str, input: &str) -> (result: Option<usize>)
    ensures
        result is Some <==> crate::glob::glob_matches(pattern@, Subject::Path, input@),
        result is Some ==> result->0 == specificity(pattern@),
{
    if match_tokens(&tokenize(pattern), Subject::Path, input) {
        Some(literal_length(pattern))
    } else {
        None
    }
}

/// Matches a command against a pattern, as `pattern_matches` does a path. A trailing ` *` or
/// ` **` also matches the command with no arguments.
pub fn command_matches(pattern: &str, input: &str) -> (result: Option<usize>)
    ensures
        result is Some <==> rule_matches(pattern@, Subject::Command, input@),
        result is Some ==> result->0 == specificity(pattern@),
{
    if match_tokens(&tokenize(pattern), Subject::Command, input) {
        return Some(literal_length(pattern));
    }
    match strip_arguments(pattern) {
        Some(bare) => if match_tokens(&tokenize(bare), Subject::Command, input) {
            Some(literal_length(pattern))
        } else {
            None
        },
        None => None,
    }
}

/// Whether a command holds a character that a shell gives a meaning beyond one plain command.
pub fn contains_metacharacters(command: &str) -> (found: bool)
    ensures
        found == has_metacharacters(command@),
{
    let chars = chars_of(command);
    let mut i: usize = 0;
    while i < chars.len()
        invariant
            i <= chars@.len(),
            chars@ == command@,
            forall|j: int| 0 <= j < i ==> !is_shell_metacharacter(#[trigger] command@[j]),
        decreases chars@.len() - i,
    {
        let c = chars[i];
        if c == '|' || c == '&' || c == ';' || c == '<' || c == '>' || c == '(' || c == ')' || c
            == '{' || c == '}' || c == '$' || c == '`' || c == '\\' || c == '\n' || c == '\r' {
            assert(is_shell_metacharacter(command@[i as int]));
            return true;
        }
        i = i + 1;
    }
    false
}

/// The level that the rules give to an input.
fn decide(rules: &Vec<PatternRule>, subject: Subject, input: &str) -> (level: PermissionLevel)
    ensures
        level == decision(rule_views(rules@), subject, input@),
{
    let ghost views = rule_views(rules@);
    let mut best: Option<usize> = None;
    let mut best_wildcards: usize = 0;
    let mut best_specificity: usize = 0;
    let mut i: usize = 0;
    while i < rules.len()
        invariant
            i <= rules@.len(),
            views == rule_views(rules@),
            best is None ==> forall|j: int|
                0 <= j < i ==> !rule_matches(#[trigger] views[j].0, subject, input@),
            best matches Some(b) ==> {
                &&& decides(views.take(i as int), subject, input@, b as int)
                &&& best_wildcards == wildcards(views[b as int].0)
                &&& best_specificity == specificity(views[b as int].0)
            },
        decreases rules@.len() - i,
    {
        let pattern = rules[i].pattern.as_str();
        let matched = match subject {
            Subject::Path => pattern_matches(pattern, input),
            Subject::Command => command_matches(pattern, input),
        };
        let ghost seen = views.take(i as int);
        let ghost now = views.take(i + 1);
        assert(now == seen.push(views[i as int]));
        assert(views[i as int].0 == pattern@);
        match matched {
            Some(own_specificity) => {
                let own_wildcards = wildcard_count(pattern);
                let better = match best {
                    None => true,
                    Some(_) => own_wildcards < best_wildcards || (own_wildcards == best_wildcards
                        && own_specificity >= best_specificity),
                };
                if better {
                    assert forall|j: int|
                        0 <= j < now.len() && rule_matches(
                            #[trigger] now[j].0,
                            subject,
                            input@,
                        ) implies !more_specific(now[j].0, now[i as int].0) by {
                        if j < i {
                            assert(seen[j] == now[j]);
                            assert(views[j] == now[j]);
                        }
                    }
                    assert(decides(now, subject, input@, i as int));
                    best = Some(i);
                    best_wildcards = own_wildcards;
                    best_specificity = own_specificity;
                } else {
                    proof {
                        let b = best->0 as int;
                        assert forall|j: int|
                            0 <= j < now.len() && rule_matches(
                                #[trigger] now[j].0,
                                subject,
                                input@,
                            ) implies {
                            &&& !more_specific(now[j].0, now[b].0)
                            &&& j > b ==> more_specific(now[b].0, now[j].0)
                        } by {
                            if j < i {
                                assert(seen[j] == now[j]);
                            }
                        }
                        assert(seen[b] == now[b]);
                    }
                }
            },
            None => {
                proof {
                    if best is Some {
                        let b = best->0 as int;
                        assert forall|j: int|
                            0 <= j < now.len() && rule_matches(
                                #[trigger] now[j].0,
                                subject,
                                input@,
                            ) implies {
                            &&& !more_specific(now[j].0, now[b].0)
                            &&& j > b ==> more_specific(now[b].0, now[j].0)
                        } by {
                            assert(j < i);
                            assert(seen[j] == now[j]);
                        }
                        assert(seen[b] == now[b]);
                    }
                }
            },
        }
        i = i + 1;
    }
    assert(views.take(i as int) == views);
    match best {
        Some(b) => {
            proof {
                let chosen = choose|k: int| decides(views, subject, input@, k);
                lemma_decider_unique(views, subject, input@, b as int, chosen);
            }
            rules[b].level
        },
        None => {
            assert forall|k: int| !decides(views, subject, input@, k) by {
                if decides(views, subject, input@, k) {
                    assert(rule_matches(views[k].0, subject, input@));
                }
            }
            PermissionLevel::Deny
        },
    }
}

/// Finds the level of the last rule with that pattern.
fn find_level(rules: &Vec<PatternRule>, pattern: &str) -> (level: Option<PermissionLevel>)
    ensures
        level == level_with(rule_views(rules@), pattern@),
{
    let ghost views = rule_views(rules@);
    let mut i: usize = rules.len();
    while i > 0
        invariant
            i <= rules@.len(),
            views == rule_views(rules@),
            forall|j: int| i <= j < views.len() ==> (#[trigger] views[j]).0 != pattern@,
        decreases i,
    {
        i = i - 1;
        if same_text(rules[i].pattern.as_str(), pattern) {
            proof {
                assert(is_last_with(views, pattern@, i as int));
                let chosen = choose|k: int| is_last_with(views, pattern@, k);
                assert(views[chosen].0 == pattern@);
                assert(chosen == i);
            }
            return Some(rules[i].level);
        }
        assert(views[i as int].0 != pattern@);
    }
    assert forall|k: int| !is_last_with(views, pattern@, k) by {
        if is_last_with(views, pattern@, k) {
            assert(views[k].0 == pattern@);
        }
    }
    None
}

/// Finds the level of the catch-all.
fn find_catch_all(rules: &Vec<PatternRule>) -> (level: PermissionLevel)
    ensures
        level == catch_all_level(rule_views(rules@)),
{
    proof {
        reveal_strlit("*");
        reveal_strlit("**");
        assert("*"@ == crate::glob::star());
        assert("**"@ == crate::glob::double_star());
    }
    match first_given(find_level(rules, "*"), find_level(rules, "**")) {
        Some(level) => level,
        None => PermissionLevel::Deny,
    }
}

/// One level for every input, or rules that pick a level by pattern.
#[derive(Clone, Debug)]
pub enum Permission {
    Level(PermissionLevel),
    Patterns(Vec<PatternRule>),
}

/// A permission as its level or the views of its rules.
pub enum PermissionView {
    Level(PermissionLevel),
    Patterns(Seq<RuleView>),
}

impl View for Permission {
    type V = PermissionView;

    open spec fn view(&self) -> PermissionView {
        match self {
            Permission::Level(level) => PermissionView::Level(*level),
            Permission::Patterns(rules) => PermissionView::Patterns(rule_views(rules@)),
        }
    }
}

impl PermissionView {
    /// The level of a file path.
    pub open spec fn level_of_path(self, path: Seq<char>) -> PermissionLevel {
        match self {
            PermissionView::Level(level) => level,
            PermissionView::Patterns(rules) => decision(rules, Subject::Path, path),
        }
    }

    /// The level of a shell command. One with metacharacters cannot be told from its text, so
    /// it gets the level of the catch-all.
    pub open spec fn level_of_command(self, command: Seq<char>) -> PermissionLevel {
        match self {
            PermissionView::Level(level) => level,
            PermissionView::Patterns(rules) => if has_metacharacters(command) {
                catch_all_level(rules)
            } else {
                decision(rules, Subject::Command, command)
            },
        }
    }

    /// No pattern has two rules.
    pub open spec fn well_formed(self) -> bool {
        match self {
            PermissionView::Level(_) => true,
            PermissionView::Patterns(rules) => distinct_patterns(rules),
        }
    }
}

/// Whether no two rules have the same pattern.
pub open spec fn distinct_patterns(rules: Seq<RuleView>) -> bool {
    forall|i: int, j: int|
        0 <= i < j < rules.len() ==> (#[trigger] rules[i]).0 != (#[trigger] rules[j]).0
}

impl Permission {
    /// The level of a file path.
    pub fn check(&self, input: &str) -> (level: PermissionLevel)
        ensures
            level == self@.level_of_path(input@),
            *self matches Permission::Level(own) ==> level == own,
            *self matches Permission::Patterns(rules) ==> level == decision(
                rule_views(rules@),
                Subject::Path,
                input@,
            ),
    {
        match self {
            Permission::Level(level) => *level,
            Permission::Patterns(rules) => decide(rules, Subject::Path, input),
        }
    }

    /// The level of a shell command.
    pub fn check_command(&self, input: &str) -> (level: PermissionLevel)
        ensures
            level == self@.level_of_command(input@),
            *self matches Permission::Level(own) ==> level == own,
            *self matches Permission::Patterns(rules) ==> level == if has_metacharacters(input@) {
                catch_all_level(rule_views(rules@))
            } else {
                decision(rule_views(rules@), Subject::Command, input@)
            },
    {
        match self {
            Permission::Level(level) => *level,
            Permission::Patterns(rules) => if contains_metacharacters(input) {
                find_catch_all(rules)
            } else {
                decide(rules, Subject::Command, input)
            },
        }
    }
}

// --- laws ---

/// Where some rule matches, one decides.
proof fn lemma_decider_exists(rules: Seq<RuleView>, subject: Subject, input: Seq<char>, i: int)
    requires
        0 <= i < rules.len(),
        rule_matches(rules[i].0, subject, input),
    ensures
        exists|k: int| decides(rules, subject, input, k),
    decreases rules.len(),
{
    let n = rules.len() - 1;
    let shorter = rules.drop_last();
    if !rule_matches(rules[n].0, subject, input) {
        lemma_decider_exists(shorter, subject, input, i);
        let k = choose|k: int| decides(shorter, subject, input, k);
        assert forall|j: int|
            0 <= j < rules.len() && rule_matches(#[trigger] rules[j].0, subject, input) implies {
            &&& !more_specific(rules[j].0, rules[k].0)
            &&& j > k ==> more_specific(rules[k].0, rules[j].0)
        } by {
            assert(shorter[j] == rules[j]);
        }
        assert(shorter[k] == rules[k]);
        assert(decides(rules, subject, input, k));
    } else if exists|j: int|
        0 <= j < n && rule_matches(#[trigger] rules[j].0, subject, input) {
        let j0 = choose|j: int|
            0 <= j < n && rule_matches(#[trigger] rules[j].0, subject, input);
        lemma_decider_exists(shorter, subject, input, j0);
        let k = choose|k: int| decides(shorter, subject, input, k);
        assert(shorter[k] == rules[k]);
        let winner = if more_specific(rules[k].0, rules[n].0) {
            k
        } else {
            n
        };
        assert forall|j: int|
            0 <= j < rules.len() && rule_matches(#[trigger] rules[j].0, subject, input) implies {
            &&& !more_specific(rules[j].0, rules[winner].0)
            &&& j > winner ==> more_specific(rules[winner].0, rules[j].0)
        } by {
            if j < n {
                assert(shorter[j] == rules[j]);
            }
        }
        assert(decides(rules, subject, input, winner));
    } else {
        assert(decides(rules, subject, input, n));
    }
}

/// An input that no rule matches is denied.
pub proof fn law_unmatched_is_denied(rules: Seq<RuleView>, subject: Subject, input: Seq<char>)
    requires
        forall|i: int|
            0 <= i < rules.len() ==> !rule_matches(#[trigger] rules[i].0, subject, input),
    ensures
        decision(rules, subject, input) == PermissionLevel::Deny,
{
    assert forall|i: int| !decides(rules, subject, input, i) by {
        if decides(rules, subject, input, i) {
            assert(rule_matches(rules[i].0, subject, input));
        }
    }
}

/// The most specific matching rule sets the level.
pub proof fn law_most_specific_wins(
    rules: Seq<RuleView>,
    subject: Subject,
    input: Seq<char>,
    i: int,
)
    requires
        0 <= i < rules.len(),
        rule_matches(rules[i].0, subject, input),
        forall|j: int|
            0 <= j < rules.len() && j != i && rule_matches(
                #[trigger] rules[j].0,
                subject,
                input,
            ) ==> more_specific(rules[i].0, rules[j].0),
    ensures
        decision(rules, subject, input) == rules[i].1,
{
    assert(decides(rules, subject, input, i));
    let k = choose|k: int| decides(rules, subject, input, k);
    lemma_decider_unique(rules, subject, input, i, k);
}

/// Where some rule matches, the level is that of a matching rule, and no matching rule is more
/// specific than that one.
pub proof fn law_a_most_specific_match_decides(
    rules: Seq<RuleView>,
    subject: Subject,
    input: Seq<char>,
    i: int,
)
    requires
        0 <= i < rules.len(),
        rule_matches(rules[i].0, subject, input),
    ensures
        exists|k: int|
            {
                &&& 0 <= k < rules.len()
                &&& rule_matches((#[trigger] rules[k]).0, subject, input)
                &&& decision(rules, subject, input) == rules[k].1
                &&& forall|j: int|
                    0 <= j < rules.len() && rule_matches((#[trigger] rules[j]).0, subject, input)
                        ==> !more_specific(rules[j].0, rules[k].0)
            },
{
    lemma_decider_exists(rules, subject, input, i);
    let k = choose|k: int| decides(rules, subject, input, k);
    assert(decision(rules, subject, input) == rules[k].1);
}

/// A pattern without wildcards is literal.
proof fn lemma_no_wildcards_is_literal(pattern: Seq<char>)
    requires
        wildcards(pattern) == 0,
    ensures
        crate::glob::is_literal(pattern),
    decreases pattern.len(),
{
    if pattern.len() > 0 {
        let list = crate::glob::tokens(pattern);
        if pattern.len() > 1 && pattern[0] == '*' && pattern[1] == '*' {
            assert(crate::glob::is_wildcard(list[0]));
        } else {
            assert(list[0] == crate::glob::single_token(pattern[0]));
            assert(list.skip(1) == crate::glob::tokens(pattern.skip(1)));
            lemma_no_wildcards_is_literal(pattern.skip(1));
            assert forall|i: int| 0 <= i < pattern.len() implies #[trigger] pattern[i] != '*'
                && pattern[i] != '?' by {
                if i > 0 {
                    assert(pattern.skip(1)[i - 1] == pattern[i]);
                }
            }
        }
    }
}

/// A pattern that ends in a star holds a wildcard.
proof fn lemma_bare_command_has_wildcard(pattern: Seq<char>)
    requires
        bare_command(pattern) is Some,
    ensures
        wildcards(pattern) > 0,
{
    if wildcards(pattern) == 0 {
        lemma_no_wildcards_is_literal(pattern);
        assert(pattern[pattern.len() - 1] == '*');
    }
}

/// A rule that spells the input out without wildcards sets the level, whatever other patterns
/// match.
pub proof fn law_exact_rule_wins(
    rules: Seq<RuleView>,
    subject: Subject,
    input: Seq<char>,
    i: int,
)
    requires
        distinct_patterns(rules),
        0 <= i < rules.len(),
        rules[i].0 == input,
        crate::glob::is_literal(input),
    ensures
        decision(rules, subject, input) == rules[i].1,
{
    crate::glob::law_literal_matches_only_itself(input, subject, input);
    crate::glob::law_literal_specificity(input);
    assert forall|j: int|
        0 <= j < rules.len() && j != i && rule_matches(
            #[trigger] rules[j].0,
            subject,
            input,
        ) implies more_specific(rules[i].0, rules[j].0) by {
        let other = rules[j].0;
        if wildcards(other) == 0 {
            lemma_no_wildcards_is_literal(other);
            crate::glob::law_literal_matches_only_itself(other, subject, input);
            if bare_command(other) is Some {
                lemma_bare_command_has_wildcard(other);
            }
            assert(rules[i].0 == rules[j].0);
        }
    }
    law_most_specific_wins(rules, subject, input, i);
}

/// Of two patterns that are a prefix and the same wildcard ending, the one with the longer
/// prefix is the more specific.
pub proof fn law_longer_prefix_is_more_specific(
    shorter: Seq<char>,
    longer: Seq<char>,
    ending: Seq<char>,
)
    requires
        crate::glob::is_literal(longer),
        shorter.is_prefix_of(longer),
        shorter.len() < longer.len(),
    ensures
        more_specific(longer + ending, shorter + ending),
{
    assert forall|i: int| 0 <= i < shorter.len() implies #[trigger] shorter[i] != '*' && shorter[i]
        != '?' by {
        assert(shorter[i] == longer[i]);
    }
    crate::glob::law_prefix_adds_literal_bytes(shorter, ending);
    crate::glob::law_prefix_adds_literal_bytes(longer, ending);
    crate::text::law_longer_text_has_more_bytes(shorter, longer);
}

/// A `**` rule sets the level of every input that no other rule matches.
pub proof fn law_double_star_covers_the_rest(
    rules: Seq<RuleView>,
    subject: Subject,
    input: Seq<char>,
    i: int,
)
    requires
        0 <= i < rules.len(),
        rules[i].0 == crate::glob::double_star(),
        forall|j: int|
            0 <= j < rules.len() && j != i ==> !rule_matches(
                #[trigger] rules[j].0,
                subject,
                input,
            ),
    ensures
        decision(rules, subject, input) == rules[i].1,
{
    crate::glob::law_double_star_matches_all(subject, input);
    law_most_specific_wins(rules, subject, input, i);
}

/// The order of the rules does not matter, unless two equally specific rules that match
/// disagree.
pub proof fn law_rule_order_is_immaterial(
    a: Seq<RuleView>,
    b: Seq<RuleView>,
    subject: Subject,
    input: Seq<char>,
)
    requires
        forall|r: RuleView| a.contains(r) <==> b.contains(r),
        forall|i: int, j: int|
            0 <= i < a.len() && 0 <= j < a.len() && rule_matches(
                (#[trigger] a[i]).0,
                subject,
                input,
            ) && rule_matches((#[trigger] a[j]).0, subject, input) && !more_specific(
                a[i].0,
                a[j].0,
            ) && !more_specific(a[j].0, a[i].0) ==> a[i].1 == a[j].1,
    ensures
        decision(a, subject, input) == decision(b, subject, input),
{
    if exists|i: int| decides(a, subject, input, i) {
        let i = choose|i: int| decides(a, subject, input, i);
        assert(a.contains(a[i]));
        let i2 = choose|k: int| 0 <= k < b.len() && b[k] == a[i];
        lemma_decider_exists(b, subject, input, i2);
        let j = choose|j: int| decides(b, subject, input, j);
        assert(b.contains(b[j]));
        let j2 = choose|k: int| 0 <= k < a.len() && a[k] == b[j];
        assert(!more_specific(a[j2].0, a[i].0));
        assert(!more_specific(b[i2].0, b[j].0));
    } else if exists|j: int| decides(b, subject, input, j) {
        let j = choose|j: int| decides(b, subject, input, j);
        assert(b.contains(b[j]));
        let j2 = choose|k: int| 0 <= k < a.len() && a[k] == b[j];
        lemma_decider_exists(a, subject, input, j2);
    }
}

/// A command with metacharacters is judged by the catch-all alone: its level is that of every
/// other such command.
pub proof fn law_metacharacters_defer_to_catch_all(
    permission: PermissionView,
    a: Seq<char>,
    b: Seq<char>,
)
    requires
        has_metacharacters(a),
        has_metacharacters(b),
    ensures
        permission.level_of_command(a) == permission.level_of_command(b),
{
}

/// Rules without a catch-all deny every command that holds a metacharacter, whatever their
/// patterns.
pub proof fn law_metacharacters_without_catch_all_are_denied(
    rules: Seq<RuleView>,
    command: Seq<char>,
)
    requires
        has_metacharacters(command),
        forall|i: int| 0 <= i < rules.len() ==> !is_catch_all((#[trigger] rules[i]).0),
    ensures
        PermissionView::Patterns(rules).level_of_command(command) == PermissionLevel::Deny,
{
}

/// A `*` rule sets the level of every command that holds a metacharacter, whatever the other
/// rules say.
pub proof fn law_star_judges_metacharacters(rules: Seq<RuleView>, command: Seq<char>, i: int)
    requires
        distinct_patterns(rules),
        0 <= i < rules.len(),
        rules[i].0 == crate::glob::star(),
        has_metacharacters(command),
    ensures
        PermissionView::Patterns(rules).level_of_command(command) == rules[i].1,
{
    assert(is_last_with(rules, crate::glob::star(), i));
    let chosen = choose|k: int| is_last_with(rules, crate::glob::star(), k);
    assert(rules[chosen].0 == rules[i].0);
    assert(chosen == i);
}

/// A rule that does not match, or that is less specific than one that does, changes nothing,
/// wherever it stands.
pub proof fn law_idle_rule_changes_nothing(
    before: Seq<RuleView>,
    rule: RuleView,
    after: Seq<RuleView>,
    subject: Subject,
    input: Seq<char>,
)
    requires
        !rule_matches(rule.0, subject, input) || exists|j: int|
            0 <= j < (before + after).len() && rule_matches(
                (#[trigger] (before + after)[j]).0,
                subject,
                input,
            ) && more_specific((before + after)[j].0, rule.0),
    ensures
        decision(before + seq![rule] + after, subject, input) == decision(
            before + after,
            subject,
            input,
        ),
{
    let without = before + after;
    let with = before + seq![rule] + after;
    let at = before.len() as int;
    if exists|i: int| decides(without, subject, input, i) {
        let i = choose|i: int| decides(without, subject, input, i);
        let moved = if i < at {
            i
        } else {
            i + 1
        };
        assert(with[moved] == without[i]);
        assert forall|j: int|
            0 <= j < with.len() && rule_matches(#[trigger] with[j].0, subject, input) implies {
            &&& !more_specific(with[j].0, with[moved].0)
            &&& j > moved ==> more_specific(with[moved].0, with[j].0)
        } by {
            if j < at {
                assert(with[j] == without[j]);
            } else if j > at {
                assert(with[j] == without[j - 1]);
            } else {
                assert(with[j] == rule);
                let k = choose|k: int|
                    0 <= k < without.len() && rule_matches(
                        (#[trigger] without[k]).0,
                        subject,
                        input,
                    ) && more_specific(without[k].0, rule.0);
                assert(!more_specific(without[k].0, without[i].0));
            }
        }
        assert(decides(with, subject, input, moved));
        let chosen = choose|k: int| decides(with, subject, input, k);
        lemma_decider_unique(with, subject, input, moved, chosen);
    } else {
        assert forall|i: int| 0 <= i < without.len() implies !rule_matches(
            (#[trigger] without[i]).0,
            subject,
            input,
        ) by {
            if rule_matches(without[i].0, subject, input) {
                lemma_decider_exists(without, subject, input, i);
            }
        }
        assert forall|i: int| 0 <= i < with.len() implies !rule_matches(
            #[trigger] with[i].0,
            subject,
            input,
        ) by {
            if i < at {
                assert(with[i] == without[i]);
            } else if i > at {
                assert(with[i] == without[i - 1]);
            }
        }
        law_unmatched_is_denied(with, subject, input);
    }
}

/// A pattern `name *` or `name **` matches the command `name` with no arguments and with any.
pub proof fn law_trailing_star_matches_command(name: Seq<char>, arguments: Seq<char>)
    requires
        crate::glob::is_literal(name),
    ensures
        rule_matches(name + seq![' ', '*'], Subject::Command, name + seq![' '] + arguments),
        rule_matches(name + seq![' ', '*', '*'], Subject::Command, name + seq![' '] + arguments),
        rule_matches(name + seq![' ', '*'], Subject::Command, name),
        rule_matches(name + seq![' ', '*', '*'], Subject::Command, name),
{
    let start = name + seq![' '];
    let input = start + arguments;
    assert(crate::glob::is_literal(start));
    assert(name + seq![' ', '*'] == start + crate::glob::star());
    assert(name + seq![' ', '*', '*'] == start + crate::glob::double_star());
    assert(input.take(start.len() as int) == start);
    assert(input.skip(start.len() as int) == arguments);
    crate::glob::law_literal_prefix(start, crate::glob::star(), Subject::Command, input);
    crate::glob::law_literal_prefix(start, crate::glob::double_star(), Subject::Command, input);
    crate::glob::law_star_stays_within_segment(Subject::Command, arguments);
    crate::glob::law_double_star_matches_all(Subject::Command, arguments);
    let one = name + seq![' ', '*'];
    let two = name + seq![' ', '*', '*'];
    crate::glob::law_literal_matches_only_itself(name, Subject::Command, name);
    assert(one.take(name.len() as int) == name);
    assert(two.take(name.len() as int) == name);
    assert(one[one.len() - 1] == '*' && one[one.len() - 2] == ' ');
    assert(two[two.len() - 1] == '*' && two[two.len() - 2] == '*' && two[two.len() - 3] == ' ');
    assert(bare_command(one) == Some(name));
    assert(bare_command(two) == Some(name));
}

/// Three words name a level, each its own; no other word names one.
pub proof fn law_level_words(word: Seq<char>)
    ensures
        level_named(word) == Some(PermissionLevel::Allow) <==> word == "allow"@,
        level_named(word) == Some(PermissionLevel::Ask) <==> word == "ask"@,
        level_named(word) == Some(PermissionLevel::Deny) <==> word == "deny"@,
        level_named(word) is None <==> word != "allow"@ && word != "ask"@ && word != "deny"@,
{
    reveal_strlit("allow");
    reveal_strlit("ask");
    reveal_strlit("deny");
    assert("allow"@.len() == 5 && "ask"@.len() == 3 && "deny"@.len() == 4);
}

/// Rules are seen as their patterns and levels, each at its place.
pub proof fn law_rules_are_patterns_with_levels(rules: Seq<PatternRule>)
    ensures
        rule_views(rules).len() == rules.len(),
        forall|i: int|
            0 <= i < rules.len() ==> #[trigger] rule_views(rules)[i] == (
                rules[i].pattern@,
                rules[i].level,
            ),
{
}

/// A rule applies to a path exactly if its pattern matches. It applies to a command if its
/// pattern matches, or if the pattern ends in ` *` or ` **` and matches without that ending.
pub proof fn law_when_a_rule_applies(pattern: Seq<char>, input: Seq<char>)
    ensures
        rule_matches(pattern, Subject::Path, input) <==> crate::glob::glob_matches(
            pattern,
            Subject::Path,
            input,
        ),
        rule_matches(pattern, Subject::Command, input) <==> {
            ||| crate::glob::glob_matches(pattern, Subject::Command, input)
            ||| exists|name: Seq<char>|
                (pattern == name + seq![' ', '*'] || pattern == name + seq![' ', '*', '*'])
                    && #[trigger] crate::glob::glob_matches(name, Subject::Command, input)
        },
{
    let n = pattern.len() as int;
    if bare_command(pattern) is Some {
        let name = bare_command(pattern)->0;
        if n >= 3 && pattern[n - 3] == ' ' && pattern[n - 2] == '*' && pattern[n - 1] == '*' {
            assert(pattern == name + seq![' ', '*', '*']);
        } else {
            assert(pattern == name + seq![' ', '*']);
        }
    }
    assert forall|name: Seq<char>|
        (pattern == name + seq![' ', '*'] || pattern == name + seq![' ', '*', '*'])
            && #[trigger] crate::glob::glob_matches(
            name,
            Subject::Command,
            input,
        ) implies rule_matches(pattern, Subject::Command, input) by {
        if pattern == name + seq![' ', '*'] {
            let whole = name + seq![' ', '*'];
            assert(whole[n - 1] == '*' && whole[n - 2] == ' ');
            assert(whole.take(n - 2) == name);
        } else {
            let whole = name + seq![' ', '*', '*'];
            assert(whole[n - 1] == '*' && whole[n - 2] == '*' && whole[n - 3] == ' ');
            assert(whole.take(n - 3) == name);
        }
    }
}

/// One pattern is more specific than another if it has fewer wildcards, or as many and more
/// literal bytes.
pub proof fn law_fewest_wildcards_first(a: Seq<char>, b: Seq<char>)
    ensures
        ({
            let tokens_a = crate::glob::tokens(a);
            let tokens_b = crate::glob::tokens(b);
            let wild_a = crate::glob::count_wildcards(tokens_a);
            let wild_b = crate::glob::count_wildcards(tokens_b);
            let bytes_a = crate::glob::literal_bytes(tokens_a);
            let bytes_b = crate::glob::literal_bytes(tokens_b);
            &&& wild_a < wild_b ==> more_specific(a, b)
            &&& wild_a > wild_b ==> !more_specific(a, b)
            &&& wild_a == wild_b ==> (more_specific(a, b) <==> bytes_a > bytes_b)
            &&& specificity(a) == bytes_a
            &&& wildcards(a) == wild_a
        }),
{
}

/// What one rule more does to a decision. Without rules everything is denied; a rule that does
/// not apply changes nothing; one that applies decides, unless an earlier rule that applies is
/// more specific.
pub proof fn law_decision_with_one_rule_more(
    rules: Seq<RuleView>,
    rule: RuleView,
    subject: Subject,
    input: Seq<char>,
)
    ensures
        decision(seq![], subject, input) == PermissionLevel::Deny,
        decision(rules.push(rule), subject, input) == if rule_matches(rule.0, subject, input) && !(
        exists|j: int|
            0 <= j < rules.len() && rule_matches((#[trigger] rules[j]).0, subject, input)
                && more_specific(rules[j].0, rule.0)) {
            rule.1
        } else {
            decision(rules, subject, input)
        },
{
    law_unmatched_is_denied(seq![], subject, input);
    let more = rules.push(rule);
    let n = rules.len() as int;
    let outdone = exists|j: int|
        0 <= j < rules.len() && rule_matches((#[trigger] rules[j]).0, subject, input)
            && more_specific(rules[j].0, rule.0);
    if rule_matches(rule.0, subject, input) && !outdone {
        assert(more[n] == rule);
        assert forall|j: int|
            0 <= j < more.len() && rule_matches(#[trigger] more[j].0, subject, input) implies {
            &&& !more_specific(more[j].0, more[n].0)
            &&& j > n ==> more_specific(more[n].0, more[j].0)
        } by {
            if j < n {
                assert(more[j] == rules[j]);
            }
        }
        assert(decides(more, subject, input, n));
        let chosen = choose|k: int| decides(more, subject, input, k);
        lemma_decider_unique(more, subject, input, n, chosen);
    } else {
        let none = Seq::<RuleView>::empty();
        assert(rules + none == rules);
        assert(rules + seq![rule] + none == more);
        if outdone {
            let j = choose|j: int|
                0 <= j < rules.len() && rule_matches((#[trigger] rules[j]).0, subject, input)
                    && more_specific(rules[j].0, rule.0);
            assert((rules + none)[j] == rules[j]);
        }
        law_idle_rule_changes_nothing(rules, rule, none, subject, input);
    }
}

/// A command holds a metacharacter exactly if it holds one of these characters.
pub proof fn law_the_metacharacters(command: Seq<char>)
    ensures
        has_metacharacters(command) <==> {
            ||| command.contains('|')
            ||| command.contains('&')
            ||| command.contains(';')
            ||| command.contains('<')
            ||| command.contains('>')
            ||| command.contains('(')
            ||| command.contains(')')
            ||| command.contains('{')
            ||| command.contains('}')
            ||| command.contains('$')
            ||| command.contains('`')
            ||| command.contains('\\')
            ||| command.contains('\n')
            ||| command.contains('\r')
        },
{
    if has_metacharacters(command) {
        let i = choose|i: int|
            0 <= i < command.len() && is_shell_metacharacter(#[trigger] command[i]);
        assert(command.contains(command[i]));
    }
    assert forall|c: char| command.contains(c) && is_shell_metacharacter(c) implies
        has_metacharacters(command) by {
        let i = choose|i: int| 0 <= i < command.len() && command[i] == c;
        assert(is_shell_metacharacter(command[i]));
    }
    assert(is_shell_metacharacter('|') && is_shell_metacharacter('&') && is_shell_metacharacter(
        ';',
    ) && is_shell_metacharacter('<') && is_shell_metacharacter('>') && is_shell_metacharacter('(')
        && is_shell_metacharacter(')') && is_shell_metacharacter('{') && is_shell_metacharacter('}')
        && is_shell_metacharacter('$') && is_shell_metacharacter('`') && is_shell_metacharacter(
        '\\',
    ) && is_shell_metacharacter('\n') && is_shell_metacharacter('\r'));
}

/// The catch-all is the last `*` rule; without one, the last `**` rule; without either, all is
/// denied.
pub proof fn law_the_catch_all(rules: Seq<RuleView>, i: int)
    ensures
        0 <= i < rules.len() && rules[i].0 == seq!['*'] && (forall|j: int|
            i < j < rules.len() ==> (#[trigger] rules[j]).0 != seq!['*']) ==> catch_all_level(
            rules,
        ) == rules[i].1,
        0 <= i < rules.len() && rules[i].0 == seq!['*', '*'] && (forall|j: int|
            i < j < rules.len() ==> (#[trigger] rules[j]).0 != seq!['*', '*']) && (forall|j: int|
            0 <= j < rules.len() ==> (#[trigger] rules[j]).0 != seq!['*']) ==> catch_all_level(
            rules,
        ) == rules[i].1,
        (forall|j: int|
            0 <= j < rules.len() ==> (#[trigger] rules[j]).0 != seq!['*'] && rules[j].0 != seq![
                '*',
                '*',
            ]) ==> catch_all_level(rules) == PermissionLevel::Deny,
{
    let one = crate::glob::star();
    let two = crate::glob::double_star();
    assert(one == seq!['*'] && two == seq!['*', '*']);
    if is_last_with(rules, one, i) {
        let chosen = choose|k: int| is_last_with(rules, one, k);
        assert(rules[chosen].0 == one && rules[i].0 == one);
        assert(chosen == i);
    }
    if is_last_with(rules, two, i) {
        let chosen = choose|k: int| is_last_with(rules, two, k);
        assert(rules[chosen].0 == two && rules[i].0 == two);
        assert(chosen == i);
    }
    if forall|j: int| 0 <= j < rules.len() ==> (#[trigger] rules[j]).0 != seq!['*'] {
        assert forall|k: int| !is_last_with(rules, one, k) by {
            if is_last_with(rules, one, k) {
                assert(rules[k].0 == one);
            }
        }
    }
}

/// A permission that is one level gives it to every path and command. Rules decide on a path; on
/// a command they decide too, unless it holds a metacharacter, which leaves it to the catch-all.
pub proof fn law_levels_of_a_permission(
    level: PermissionLevel,
    rules: Vec<PatternRule>,
    path: Seq<char>,
    command: Seq<char>,
)
    ensures
        Permission::Level(level)@.level_of_path(path) == level,
        Permission::Level(level)@.level_of_command(command) == level,
        Permission::Patterns(rules)@.level_of_path(path) == decision(
            rule_views(rules@),
            Subject::Path,
            path,
        ),
        has_metacharacters(command) ==> Permission::Patterns(rules)@.level_of_command(command)
            == catch_all_level(rule_views(rules@)),
        !has_metacharacters(command) ==> Permission::Patterns(rules)@.level_of_command(command)
            == decision(rule_views(rules@), Subject::Command, command),
        Permission::Patterns(rules)@.well_formed() <==> forall|i: int, j: int|
            0 <= i < j < rules@.len() ==> (#[trigger] rules@[i]).pattern@ != (
            #[trigger] rules@[j]).pattern@,
{
    let views = rule_views(rules@);
    if Permission::Patterns(rules)@.well_formed() {
        assert forall|i: int, j: int| 0 <= i < j < rules@.len() implies (
        #[trigger] rules@[i]).pattern@ != (#[trigger] rules@[j]).pattern@ by {
            assert(views[i].0 != views[j].0);
        }
    }
    if forall|i: int, j: int|
        0 <= i < j < rules@.len() ==> (#[trigger] rules@[i]).pattern@ != (
        #[trigger] rules@[j]).pattern@ {
        assert forall|i: int, j: int| 0 <= i < j < views.len() implies (#[trigger] views[i]).0 != (
        #[trigger] views[j]).0 by {
            assert(rules@[i].pattern@ != rules@[j].pattern@);
        }
    }
}

/// The same of rules seen as patterns and levels.
pub proof fn law_levels_of_rules(
    level: PermissionLevel,
    rules: Seq<RuleView>,
    path: Seq<char>,
    command: Seq<char>,
)
    ensures
        PermissionView::Level(level).level_of_path(path) == level,
        PermissionView::Level(level).level_of_command(command) == level,
        PermissionView::Patterns(rules).level_of_path(path) == decision(
            rules,
            Subject::Path,
            path,
        ),
        PermissionView::Patterns(rules).level_of_command(command) == if has_metacharacters(
            command,
        ) {
            catch_all_level(rules)
        } else {
            decision(rules, Subject::Command, command)
        },
        PermissionView::Patterns(rules).well_formed() <==> forall|i: int, j: int|
            0 <= i < j < rules.len() ==> (#[trigger] rules[i]).0 != (#[trigger] rules[j]).0,
{
}

} // verus!
