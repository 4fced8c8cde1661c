//! The system prompt and the user's prompt.
use vstd::prelude::*;

use crate::settings::first_given;
use crate::text::blank;

verus! {

/// A skill's text.
#[derive(Clone, Debug)]
pub struct Skill {
    pub description: Option<String>,
    pub body: String,
}

/// A skill that an agent names, and its text if it could be loaded.
#[derive(Clone, Debug)]
pub struct SkillEntry {
    pub name: String,
    pub skill: Option<Skill>,
}

/// The line of a skill's description, if it has one.
pub open spec fn description_line(description: Option<String>) -> Seq<char> {
    match description {
        Some(text) => "description: "@ + text@ + "\n"@,
        None => seq![],
    }
}

/// A skill's part of the system prompt: nothing where it could not be loaded.
pub open spec fn skill_section(entry: SkillEntry) -> Seq<char> {
    match entry.skill {
        Some(skill) => "\n## "@ + entry.name@ + "\n"@ + description_line(skill.description)
            + skill.body@ + "\n"@,
        None => seq![],
    }
}

/// The parts of several skills, in order.
pub open spec fn skill_sections(entries: Seq<SkillEntry>) -> Seq<char>
    decreases entries.len(),
{
    if entries.len() == 0 {
        seq![]
    } else {
        skill_sections(entries.drop_last()) + skill_section(entries.last())
    }
}

/// The system prompt: the agent's text, and then its skills, if it names any.
pub open spec fn system_prompt(body: Seq<char>, skills: Seq<SkillEntry>) -> Seq<char> {
    if skills.len() == 0 {
        body
    } else {
        body + "\n\n# skills\n"@ + skill_sections(skills)
    }
}

/// Puts the system prompt of an agent together.
pub fn build_system_prompt(body: &str, skills: &Vec<SkillEntry>) -> (prompt: String)
    ensures
        prompt@ == system_prompt(body@, skills@),
{
    let mut prompt = body.to_owned();
    if skills.len() == 0 {
        return prompt;
    }
    prompt.append("\n\n# skills\n");
    let ghost start = prompt@;
    let mut i: usize = 0;
    assert(skill_sections(skills@.take(0)) == Seq::<char>::empty());
    while i < skills.len()
        invariant
            i <= skills@.len(),
            prompt@ == start + skill_sections(skills@.take(i as int)),
        decreases skills@.len() - i,
    {
        let ghost next = skills@.take(i + 1);
        assert(next.drop_last() == skills@.take(i as int));
        assert(next.last() == skills@[i as int]);
        let ghost before = prompt@;
        let entry = &skills[i];
        match &entry.skill {
            Some(skill) => {
                prompt.append("\n## ");
                prompt.append(entry.name.as_str());
                prompt.append("\n");
                match &skill.description {
                    Some(text) => {
                        prompt.append("description: ");
                        prompt.append(text.as_str());
                        prompt.append("\n");
                    },
                    None => {},
                }
                prompt.append(skill.body.as_str());
                prompt.append("\n");
            },
            None => {},
        }
        assert(prompt@ == before + skill_section(*entry));
        i = i + 1;
    }
    assert(skills@.take(i as int) == skills@);
    prompt
}

/// The skills to use: those asked for on the command line, and otherwise the agent's.
pub open spec fn chosen_skills(
    asked: Option<Vec<String>>,
    agent: Option<Vec<String>>,
) -> Seq<String> {
    match crate::settings::either(asked, agent) {
        Some(names) => names@,
        None => seq![],
    }
}

/// Picks the skills to use.
pub fn choose_skills(
    asked: Option<Vec<String>>,
    agent: Option<Vec<String>>,
) -> (names: Vec<String>)
    ensures
        names@ == chosen_skills(asked, agent),
{
    match first_given(asked, agent) {
        Some(names) => names,
        None => Vec::new(),
    }
}

/// Picks the system prompt: one given on the command line stands in place of the agent's.
pub fn choose_system_prompt(given: Option<String>, built: String) -> (prompt: String)
    ensures
        prompt == match given {
            Some(text) => text,
            None => built,
        },
{
    match given {
        Some(text) => text,
        None => built,
    }
}

/// The preamble that goes with a request: the system prompt, unless it is empty.
pub fn preamble(system_prompt: String) -> (given: Option<String>)
    ensures
        given is None <==> system_prompt@.len() == 0,
        given is Some ==> given->0@ == system_prompt@,
{
    if system_prompt.as_str().is_empty() {
        None
    } else {
        Some(system_prompt)
    }
}

/// The prompt in the arguments: the flag's, or the positional one where the flag is missing or
/// empty. Without either, the prompt is to be read from the standard input.
pub open spec fn argument_prompt(
    flag: Option<Seq<char>>,
    positional: Option<Seq<char>>,
) -> Option<Seq<char>> {
    if flag is Some && flag->0.len() > 0 {
        flag
    } else if positional is Some && positional->0.len() > 0 {
        positional
    } else {
        None
    }
}

/// Takes the user's prompt from the arguments; `None` asks for the standard input.
pub fn prompt_from_arguments(
    flag: &Option<String>,
    positional: &Option<String>,
) -> (prompt: Option<String>)
    ensures
        crate::text::opt_view(prompt) == argument_prompt(
            crate::text::opt_view(*flag),
            crate::text::opt_view(*positional),
        ),
{
    match flag {
        Some(text) => if !text.as_str().is_empty() {
            return Some(text.clone());
        },
        None => {},
    }
    match positional {
        Some(text) => if !text.as_str().is_empty() {
            return Some(text.clone());
        },
        None => {},
    }
    None
}

/// The complaint about a prompt that is empty or blank.
pub open spec fn empty_prompt_error() -> Seq<char> {
    "error: one of --prompt or stdin must be non-empty"@
}

/// Accepts the user's prompt unless it is blank. `input` is what the standard input held, and
/// counts where the arguments hold no prompt.
pub fn get_user_prompt(
    flag: &Option<String>,
    positional: &Option<String>,
    input: String,
) -> (result: Result<String, String>)
    ensures
        ({
            let argument = argument_prompt(
                crate::text::opt_view(*flag),
                crate::text::opt_view(*positional),
            );
            let text = match argument {
                Some(text) => text,
                None => input@,
            };
            if crate::text::is_blank(text) {
                result matches Err(error) && error@ == empty_prompt_error()
            } else {
                result matches Ok(prompt) && prompt@ == text
            }
        }),
{
    let prompt = match prompt_from_arguments(flag, positional) {
        Some(text) => text,
        None => input,
    };
    if blank(prompt.as_str()) {
        Err("error: one of --prompt or stdin must be non-empty".to_owned())
    } else {
        Ok(prompt)
    }
}

/// The text of a dry run: what would be sent, and which tools would be offered.
pub open spec fn dry_run_lines(
    model: Seq<char>,
    tools: Seq<char>,
    system: Seq<char>,
    user: Seq<char>,
) -> Seq<char> {
    "--- model ---\n"@ + model + "\n--- tools ---\n"@ + tools + "\n--- system prompt ---\n"@
        + system + "\n--- user prompt ---\n"@ + user + "\n"@
}

/// Writes out what a run would send.
pub fn dry_run_text(model: &str, tools: &str, system: &str, user: &str) -> (text: String)
    ensures
        text@ == dry_run_lines(model@, tools@, system@, user@),
{
    let mut text = "--- model ---\n".to_owned();
    text.append(model);
    text.append("\n--- tools ---\n");
    text.append(tools);
    text.append("\n--- system prompt ---\n");
    text.append(system);
    text.append("\n--- user prompt ---\n");
    text.append(user);
    text.append("\n");
    text
}

// --- laws ---

/// The system prompt begins with the agent's own text.
pub proof fn law_prompt_begins_with_body(body: Seq<char>, skills: Seq<SkillEntry>)
    ensures
        body.is_prefix_of(system_prompt(body, skills)),
{
}

/// Skills that could not be loaded leave no trace beyond the heading.
pub proof fn law_failed_skills_are_skipped(before: Seq<SkillEntry>, failed: SkillEntry)
    requires
        failed.skill is None,
    ensures
        skill_sections(before.push(failed)) == skill_sections(before),
{
    assert(before.push(failed).drop_last() == before);
}

/// The parts of a list of skills are those of its beginning, followed by those of its end.
pub proof fn law_skills_in_order(first: Seq<SkillEntry>, second: Seq<SkillEntry>)
    ensures
        skill_sections(first + second) == skill_sections(first) + skill_sections(second),
    decreases second.len(),
{
    if second.len() == 0 {
        assert(first + second == first);
        assert(skill_sections(first) + skill_sections(second) == skill_sections(first));
    } else {
        law_skills_in_order(first, second.drop_last());
        assert((first + second).drop_last() == first + second.drop_last());
        assert((first + second).last() == second.last());
        assert(skill_sections(first) + (skill_sections(second.drop_last()) + skill_section(
            second.last(),
        )) == skill_sections(first) + skill_sections(second.drop_last()) + skill_section(
            second.last(),
        ));
    }
}

/// A loaded skill's part of the prompt is its name as a heading, its description where it has
/// one, and its text, character for character. A skill that was not loaded has none.
pub proof fn law_section_of_a_skill(name: String, description: String, body: String)
    ensures
        skill_section(
            (SkillEntry { name, skill: Some(Skill { description: Some(description), body }) }),
        ) == "\n## "@ + name@ + "\n"@ + "description: "@ + description@ + "\n"@ + body@ + "\n"@,
        skill_section((SkillEntry { name, skill: Some(Skill { description: None, body }) }))
            == "\n## "@ + name@ + "\n"@ + body@ + "\n"@,
        skill_section((SkillEntry { name, skill: None })) == Seq::<char>::empty(),
{
    let start = "\n## "@ + name@ + "\n"@;
    let line = "description: "@ + description@ + "\n"@;
    assert(start + line == start + "description: "@ + description@ + "\n"@);
    assert(start + Seq::<char>::empty() == start);
}

/// The system prompt is the agent's text alone, or that text, a heading, and the parts of the
/// skills, one after the other.
pub proof fn law_parts_of_the_system_prompt(
    body: Seq<char>,
    skills: Seq<SkillEntry>,
    entry: SkillEntry,
)
    ensures
        system_prompt(body, seq![]) == body,
        skills.len() > 0 ==> system_prompt(body, skills) == body + "\n\n# skills\n"@
            + skill_sections(skills),
        skill_sections(seq![]) == Seq::<char>::empty(),
        skill_sections(skills.push(entry)) == skill_sections(skills) + skill_section(entry),
{
    assert(skills.push(entry).drop_last() == skills);
}

/// The skills asked for are used as they are listed; without such a list, the agent's; without
/// either, none.
pub proof fn law_which_skills_are_used(
    asked: Vec<String>,
    agent: Option<Vec<String>>,
    own: Vec<String>,
)
    ensures
        chosen_skills(Some(asked), agent) == asked@,
        chosen_skills(None, Some(own)) == own@,
        chosen_skills(None, None) == Seq::<String>::empty(),
{
}

/// The prompt is the flag's, unless that is missing or empty; then the positional one, unless
/// that is missing or empty.
pub proof fn law_which_prompt_is_used(
    flag: Seq<char>,
    positional: Option<Seq<char>>,
    text: Seq<char>,
)
    ensures
        flag.len() > 0 ==> argument_prompt(Some(flag), positional) == Some(flag),
        flag.len() == 0 ==> argument_prompt(Some(flag), positional) == argument_prompt(
            None,
            positional,
        ),
        text.len() > 0 ==> argument_prompt(None, Some(text)) == Some(text),
        text.len() == 0 ==> argument_prompt(None, Some(text)) is None,
        argument_prompt(None, None) is None,
{
}

/// What is said of an empty prompt, and what a dry run shows: the model, the tools, the system
/// prompt and the user's prompt, each under its heading.
pub proof fn law_prompt_texts(
    model: Seq<char>,
    tools: Seq<char>,
    system: Seq<char>,
    user: Seq<char>,
)
    ensures
        empty_prompt_error() == "error: one of --prompt or stdin must be non-empty"@,
        dry_run_lines(model, tools, system, user) == "--- model ---\n"@ + model
            + "\n--- tools ---\n"@ + tools + "\n--- system prompt ---\n"@ + system
            + "\n--- user prompt ---\n"@ + user + "\n"@,
{
}

} // verus!
