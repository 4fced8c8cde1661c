//! Agents, skills and the configuration, read from the text of their files.
use vstd::prelude::*;

use crate::frontmatter::{parse_markdown_with_frontmatter, ParsedDoc};
use crate::locate::agent_error;
use crate::plan::{AgentFrontmatter, Config, RawAgent, RawConfig};
use crate::prompt::Skill;
use crate::settings::{RawPermissions, ToolsConfig};

verus! {

impl RawAgent {
    /// A header that sets nothing.
    pub open spec fn unset() -> RawAgent {
        RawAgent {
            description: None,
            model: None,
            skills: None,
            tools: ToolsConfig::unset(),
            permissions: RawPermissions { read: None, bash: None },
        }
    }
}

impl Default for RawAgent {
    fn default() -> (raw: RawAgent)
        ensures
            raw == RawAgent::unset(),
    {
        RawAgent {
            description: None,
            model: None,
            skills: None,
            tools: ToolsConfig::default(),
            permissions: RawPermissions { read: None, bash: None },
        }
    }
}

/// Whether `result` is what comes of an agent's document once its header has been read: an error
/// that names the agent, or the settings and the body.
pub open spec fn is_agent(
    agent_name: Seq<char>,
    document: Result<ParsedDoc<RawAgent>, String>,
    result: Result<ParsedDoc<AgentFrontmatter>, String>,
) -> bool {
    match document {
        Err(detail) => result matches Err(error) && error@ == "agent '"@ + agent_name + "': "@
            + detail@,
        Ok(raw) => if raw.frontmatter.permissions.all_levels_exist() {
            result matches Ok(agent) && raw.frontmatter.stands_for(agent.frontmatter) && agent.body
                == raw.body
        } else {
            result matches Err(error) && exists|value: Seq<char>|
                {
                    &&& #[trigger] raw.frontmatter.permissions.is_first_invalid(value)
                    &&& error@ == "agent '"@ + agent_name + "': "@
                        + crate::settings::invalid_level_error(value)
                }
        },
    }
}

/// Takes an agent's document whose header has been read.
pub fn finish_agent(
    agent_name: &str,
    document: Result<ParsedDoc<RawAgent>, String>,
) -> (result: Result<ParsedDoc<AgentFrontmatter>, String>)
    ensures
        is_agent(agent_name@, document, result),
{
    match document {
        Ok(raw) => match AgentFrontmatter::decode(agent_name, raw.frontmatter) {
            Ok(frontmatter) => Ok(ParsedDoc { frontmatter, body: raw.body }),
            Err(error) => Err(error),
        },
        Err(detail) => Err(agent_error(agent_name, detail.as_str())),
    }
}

/// Reads an agent's file. `parse` reads its header.
pub fn load_agent<F: Fn(&str) -> Result<RawAgent, String>>(
    agent_name: &str,
    content: &str,
    parse: F,
) -> (result: Result<ParsedDoc<AgentFrontmatter>, String>)
    requires
        forall|text: &str| call_requires(parse, (text,)),
    ensures
        exists|document: Result<ParsedDoc<RawAgent>, String>|
            {
                &&& #[trigger] crate::frontmatter::is_parsed(
                    content@,
                    parse,
                    RawAgent::unset(),
                    document,
                )
                &&& is_agent(agent_name@, document, result)
            },
{
    let document = parse_markdown_with_frontmatter(content, parse, RawAgent::default());
    finish_agent(agent_name, document)
}

/// Reads a skill's file. `parse` reads the description in its header.
pub fn load_skill<F: Fn(&str) -> Result<Option<String>, String>>(
    content: &str,
    parse: F,
) -> (result: Result<Skill, String>)
    requires
        forall|text: &str| call_requires(parse, (text,)),
    ensures
        exists|document: Result<ParsedDoc<Option<String>>, String>|
            {
                &&& #[trigger] crate::frontmatter::is_parsed(
                    content@,
                    parse,
                    None::<String>,
                    document,
                )
                &&& match document {
                    Ok(doc) => result == Ok::<Skill, String>(
                        (Skill { description: doc.frontmatter, body: doc.body }),
                    ),
                    Err(error) => result == Err::<Skill, String>(error),
                }
            },
{
    match parse_markdown_with_frontmatter(content, parse, None) {
        Ok(doc) => Ok(Skill { description: doc.frontmatter, body: doc.body }),
        Err(error) => Err(error),
    }
}

/// Whether `result` is what comes of a configuration once its text has been read.
pub open spec fn is_config(
    parsed: Result<RawConfig, String>,
    result: Result<Config, String>,
) -> bool {
    match parsed {
        Err(detail) => result == Err::<Config, String>(detail),
        Ok(raw) => if raw.permissions.all_levels_exist() {
            result matches Ok(config) && raw.stands_for(config)
        } else {
            result matches Err(error) && exists|value: Seq<char>|
                {
                    &&& #[trigger] raw.permissions.is_first_invalid(value)
                    &&& error@ == crate::settings::invalid_level_error(value)
                }
        },
    }
}

/// Takes a configuration whose text has been read.
pub fn finish_config(parsed: Result<RawConfig, String>) -> (result: Result<Config, String>)
    ensures
        is_config(parsed, result),
{
    match parsed {
        Ok(raw) => Config::decode(raw),
        Err(detail) => Err(detail),
    }
}

/// Reads a configuration file; an empty one, or none, sets nothing. `parse` reads its text.
pub fn load_config<F: Fn(&str) -> Result<RawConfig, String>>(
    content: &str,
    parse: F,
) -> (result: Result<Config, String>)
    requires
        forall|text: &str| call_requires(parse, (text,)),
    ensures
        content@.len() == 0 ==> (result matches Ok(config) && config.is_unset()),
        content@.len() > 0 ==> exists|parsed: Result<RawConfig, String>|
            {
                &&& #[trigger] call_ensures(parse, (content,), parsed)
                &&& is_config(parsed, result)
            },
{
    if content.is_empty() {
        return Ok(Config::default());
    }
    let parsed = parse(content);
    assert(call_ensures(parse, (content,), parsed));
    finish_config(parsed)
}

// --- laws ---

/// Whatever goes wrong with an agent's document, the error names the agent.
pub proof fn law_agent_errors_name_the_agent(
    agent_name: Seq<char>,
    document: Result<ParsedDoc<RawAgent>, String>,
    result: Result<ParsedDoc<AgentFrontmatter>, String>,
)
    requires
        is_agent(agent_name, document, result),
        result is Err,
    ensures
        ("agent '"@ + agent_name + "': "@).is_prefix_of(result->Err_0@),
{
    let start = "agent '"@ + agent_name + "': "@;
    let error = result->Err_0@;
    match document {
        Err(detail) => {
            assert((start + detail@).take(start.len() as int) == start);
        },
        Ok(raw) => {
            let value = choose|value: Seq<char>|
                {
                    &&& #[trigger] raw.frontmatter.permissions.is_first_invalid(value)
                    &&& error == start + crate::settings::invalid_level_error(value)
                };
            assert((start + crate::settings::invalid_level_error(value)).take(start.len() as int)
                == start);
        },
    }
}

/// A document without a header is an agent that sets nothing and whose text is the document.
pub proof fn law_plain_agent<F: Fn(&str) -> Result<RawAgent, String>>(
    agent_name: Seq<char>,
    content: Seq<char>,
    parse: F,
    document: Result<ParsedDoc<RawAgent>, String>,
    result: Result<ParsedDoc<AgentFrontmatter>, String>,
)
    requires
        !crate::frontmatter::opens_header(content),
        crate::frontmatter::is_parsed(content, parse, RawAgent::unset(), document),
        is_agent(agent_name, document, result),
    ensures
        result matches Ok(agent) && agent.body@ == content && agent.frontmatter.is_unset(),
{
}

/// An agent that is loaded has the description, the model, the skills and the switches of its
/// header, its permissions and its text. An agent that is not loaded has an unreadable header or
/// names a level that does not exist, and the error says so and names the agent.
pub proof fn law_loaded_agent(
    agent_name: Seq<char>,
    document: Result<ParsedDoc<RawAgent>, String>,
    result: Result<ParsedDoc<AgentFrontmatter>, String>,
)
    requires
        is_agent(agent_name, document, result),
    ensures
        result is Ok <==> document is Ok
            && document->Ok_0.frontmatter.permissions.all_levels_exist(),
        result matches Ok(agent) ==> {
            let header = document->Ok_0.frontmatter;
            &&& agent.body == document->Ok_0.body
            &&& agent.frontmatter.description == header.description
            &&& agent.frontmatter.model == header.model
            &&& agent.frontmatter.skills == header.skills
            &&& agent.frontmatter.tools.read == header.tools.read
            &&& agent.frontmatter.tools.bash == header.tools.bash
            &&& agent.frontmatter.permissions.read is Some <==> header.permissions.read is Some
            &&& agent.frontmatter.permissions.bash is Some <==> header.permissions.bash is Some
            &&& header.permissions.read matches Some(raw) ==> Some(
                agent.frontmatter.permissions.read->0@,
            ) == crate::settings::permission_of(raw)
            &&& header.permissions.bash matches Some(raw) ==> Some(
                agent.frontmatter.permissions.bash->0@,
            ) == crate::settings::permission_of(raw)
        },
        document matches Err(detail) ==> result->Err_0@ == "agent '"@ + agent_name + "': "@
            + detail@,
        document is Ok && result is Err ==> exists|value: Seq<char>|
            #[trigger] document->Ok_0.frontmatter.permissions.is_first_invalid(value)
                && result->Err_0@ == "agent '"@ + agent_name + "': "@ + (
            "invalid permission level '"@ + value + "' (expected allow, ask or deny)"@),
{
    if document is Ok && result is Err {
        let raw = document->Ok_0;
        let value = choose|value: Seq<char>|
            {
                &&& #[trigger] raw.frontmatter.permissions.is_first_invalid(value)
                &&& result->Err_0@ == "agent '"@ + agent_name + "': "@
                    + crate::settings::invalid_level_error(value)
            };
        assert(raw.frontmatter.permissions.is_first_invalid(value));
    }
}

/// A configuration that is loaded has the settings that were read from its text. One that is not
/// loaded has an unreadable text or names a level that does not exist, and the error says so.
pub proof fn law_loaded_configuration(
    parsed: Result<RawConfig, String>,
    result: Result<Config, String>,
)
    requires
        is_config(parsed, result),
    ensures
        result is Ok <==> parsed is Ok && parsed->Ok_0.permissions.all_levels_exist(),
        result matches Ok(config) ==> {
            let raw = parsed->Ok_0;
            &&& config.default_model == raw.default_model
            &&& config.default_max_tokens == raw.default_max_tokens
            &&& config.tools.read == raw.tools.read
            &&& config.tools.bash == raw.tools.bash
            &&& config.providers == raw.providers
            &&& config.permissions.read is Some <==> raw.permissions.read is Some
            &&& config.permissions.bash is Some <==> raw.permissions.bash is Some
            &&& raw.permissions.read matches Some(it) ==> Some(config.permissions.read->0@)
                == crate::settings::permission_of(it)
            &&& raw.permissions.bash matches Some(it) ==> Some(config.permissions.bash->0@)
                == crate::settings::permission_of(it)
        },
        parsed matches Err(detail) ==> (result matches Err(error) && error == detail),
        parsed is Ok && result is Err ==> exists|value: Seq<char>|
            #[trigger] parsed->Ok_0.permissions.is_first_invalid(value) && result->Err_0@
                == "invalid permission level '"@ + value + "' (expected allow, ask or deny)"@,
{
    if parsed is Ok && result is Err {
        let raw = parsed->Ok_0;
        let value = choose|value: Seq<char>|
            {
                &&& #[trigger] raw.permissions.is_first_invalid(value)
                &&& result->Err_0@ == crate::settings::invalid_level_error(value)
            };
        assert(raw.permissions.is_first_invalid(value));
    }
}

/// A header that sets nothing leaves every setting open.
pub proof fn law_unset_header()
    ensures
        RawAgent::unset().description is None,
        RawAgent::unset().model is None,
        RawAgent::unset().skills is None,
        RawAgent::unset().tools.read is None,
        RawAgent::unset().tools.bash is None,
        RawAgent::unset().permissions.read is None,
        RawAgent::unset().permissions.bash is None,
{
}

} // verus!
