//! What a run does, from its arguments, the configuration and the agent.
use vstd::prelude::*;

use crate::locate::agent_error;
use crate::model::{
    choose_api_key, choose_model, find_route, split_model, ClientKind, ProviderConfig, Route,
};
use crate::prompt::dry_run_text;
use crate::settings::{PermissionsConfig, RawPermissions, ToolsConfig};
use crate::text::contains_text;

verus! {

/// The limit on output tokens where none is set.
pub const DEFAULT_MAX_TOKENS: u64 = 16384;

/// The configuration file's settings.
#[derive(Clone, Debug)]
pub struct Config {
    pub default_model: Option<String>,
    pub default_max_tokens: Option<u64>,
    pub tools: ToolsConfig,
    pub permissions: PermissionsConfig,
    pub providers: Vec<ProviderConfig>,
}

impl Default for Config {
    fn default() -> (config: Config)
        ensures
            config.is_unset(),
            config.default_model is None,
            config.default_max_tokens is None,
            config.tools.read is None && config.tools.bash is None,
            config.permissions.read is None && config.permissions.bash is None,
            config.providers@.len() == 0,
    {
        Config {
            default_model: None,
            default_max_tokens: None,
            tools: ToolsConfig::default(),
            permissions: PermissionsConfig::default(),
            providers: Vec::new(),
        }
    }
}

/// The settings in an agent's header.
#[derive(Clone, Debug)]
pub struct AgentFrontmatter {
    pub description: Option<String>,
    pub model: Option<String>,
    pub skills: Option<Vec<String>>,
    pub tools: ToolsConfig,
    pub permissions: PermissionsConfig,
}

impl Default for AgentFrontmatter {
    fn default() -> (agent: AgentFrontmatter)
        ensures
            agent.is_unset(),
            agent.description is None,
            agent.model is None,
            agent.skills is None,
            agent.tools.read is None && agent.tools.bash is None,
            agent.permissions.read is None && agent.permissions.bash is None,
    {
        AgentFrontmatter {
            description: None,
            model: None,
            skills: None,
            tools: ToolsConfig::default(),
            permissions: PermissionsConfig::default(),
        }
    }
}

/// An agent's header as it is written down.
#[derive(Clone, Debug)]
pub struct RawAgent {
    pub description: Option<String>,
    pub model: Option<String>,
    pub skills: Option<Vec<String>>,
    pub tools: ToolsConfig,
    pub permissions: RawPermissions,
}

impl RawAgent {
    /// Whether `agent` holds what is written down.
    pub open spec fn stands_for(self, agent: AgentFrontmatter) -> bool {
        &&& agent.description == self.description
        &&& agent.model == self.model
        &&& agent.skills == self.skills
        &&& agent.tools == self.tools
        &&& self.permissions.stands_for(agent.permissions)
    }
}

impl AgentFrontmatter {
    /// Whether nothing is set.
    pub open spec fn is_unset(self) -> bool {
        &&& self.description is None
        &&& self.model is None
        &&& self.skills is None
        &&& self.tools == ToolsConfig::unset()
        &&& self.permissions == PermissionsConfig::unset()
    }

    /// Reads an agent's header. The error names the agent and the first level that does not
    /// exist.
    pub fn decode(agent_name: &str, raw: RawAgent) -> (result: Result<AgentFrontmatter, String>)
        ensures
            result is Ok <==> raw.permissions.all_levels_exist(),
            result matches Ok(agent) ==> raw.stands_for(agent),
            result matches Ok(agent) ==> {
                &&& agent.description == raw.description
                &&& agent.model == raw.model
                &&& agent.skills == raw.skills
                &&& agent.tools == raw.tools
                &&& raw.permissions.stands_for(agent.permissions)
            },
            result matches Err(error) ==> exists|value: Seq<char>|
                {
                    &&& #[trigger] raw.permissions.is_first_invalid(value)
                    &&& error@ == "agent '"@ + agent_name@ + "': "@
                        + crate::settings::invalid_level_error(value)
                },
    {
        match PermissionsConfig::decode(&raw.permissions) {
            Ok(permissions) => Ok(
                AgentFrontmatter {
                    description: raw.description,
                    model: raw.model,
                    skills: raw.skills,
                    tools: raw.tools,
                    permissions,
                },
            ),
            Err(invalid) => Err(agent_error(agent_name, invalid.message().as_str())),
        }
    }
}

/// The configuration file's settings as they are written down.
#[derive(Clone, Debug)]
pub struct RawConfig {
    pub default_model: Option<String>,
    pub default_max_tokens: Option<u64>,
    pub tools: ToolsConfig,
    pub permissions: RawPermissions,
    pub providers: Vec<ProviderConfig>,
}

impl RawConfig {
    /// Whether `config` holds what is written down.
    pub open spec fn stands_for(self, config: Config) -> bool {
        &&& config.default_model == self.default_model
        &&& config.default_max_tokens == self.default_max_tokens
        &&& config.tools == self.tools
        &&& config.providers == self.providers
        &&& self.permissions.stands_for(config.permissions)
    }
}

impl Config {
    /// Whether nothing is set.
    pub open spec fn is_unset(self) -> bool {
        &&& self.default_model is None
        &&& self.default_max_tokens is None
        &&& self.tools == ToolsConfig::unset()
        &&& self.permissions == PermissionsConfig::unset()
        &&& self.providers@.len() == 0
    }

    /// Reads the configuration. The error names the first level that does not exist.
    pub fn decode(raw: RawConfig) -> (result: Result<Config, String>)
        ensures
            result is Ok <==> raw.permissions.all_levels_exist(),
            result matches Ok(config) ==> raw.stands_for(config),
            result matches Ok(config) ==> {
                &&& config.default_model == raw.default_model
                &&& config.default_max_tokens == raw.default_max_tokens
                &&& config.tools == raw.tools
                &&& config.providers == raw.providers
                &&& raw.permissions.stands_for(config.permissions)
            },
            result matches Err(error) ==> exists|value: Seq<char>|
                {
                    &&& #[trigger] raw.permissions.is_first_invalid(value)
                    &&& error@ == crate::settings::invalid_level_error(value)
                },
    {
        match PermissionsConfig::decode(&raw.permissions) {
            Ok(permissions) => Ok(
                Config {
                    default_model: raw.default_model,
                    default_max_tokens: raw.default_max_tokens,
                    tools: raw.tools,
                    permissions,
                    providers: raw.providers,
                },
            ),
            Err(invalid) => Err(invalid.message()),
        }
    }
}

/// What the program can be told to do.
#[derive(Clone, Copy, Debug, PartialEq, Eq, Structural)]
pub enum Task {
    Init,
    ListAgents,
    ListSkills,
    ListTools,
    ListProviders,
    Run,
}

/// The flags that ask for something other than a run.
#[derive(Clone, Copy, Debug)]
pub struct TaskFlags {
    pub init: bool,
    pub list_agents: bool,
    pub list_skills: bool,
    pub list_tools: bool,
    pub list_providers: bool,
}

/// The task that flags ask for: the first that is set, and otherwise a run.
pub open spec fn task_of(flags: TaskFlags) -> Task {
    if flags.init {
        Task::Init
    } else if flags.list_agents {
        Task::ListAgents
    } else if flags.list_skills {
        Task::ListSkills
    } else if flags.list_tools {
        Task::ListTools
    } else if flags.list_providers {
        Task::ListProviders
    } else {
        Task::Run
    }
}

/// Picks the task.
pub fn choose_task(flags: TaskFlags) -> (task: Task)
    ensures
        task == task_of(flags),
{
    if flags.init {
        Task::Init
    } else if flags.list_agents {
        Task::ListAgents
    } else if flags.list_skills {
        Task::ListSkills
    } else if flags.list_tools {
        Task::ListTools
    } else if flags.list_providers {
        Task::ListProviders
    } else {
        Task::Run
    }
}

/// How the program is called.
pub fn usage_line() -> (text: &'static str)
    ensures
        text@ == "Usage: airun [OPTIONS] [AGENT_NAME] [PROMPT]"@,
{
    "Usage: airun [OPTIONS] [AGENT_NAME] [PROMPT]"
}

/// What the command line asks of a run.
#[derive(Clone, Debug)]
pub struct RunOptions {
    pub model: Option<String>,
    pub max_tokens: Option<u64>,
    /// The only tools to enable, where they are listed.
    pub tools: Option<Vec<String>>,
}

/// A run that is ready but for its prompts and its key.
#[derive(Clone, Debug)]
pub struct RunPlan {
    pub full_model: String,
    pub provider_name: String,
    pub model_name: String,
    pub route: Route,
    pub max_tokens: u64,
    pub read_tool: bool,
    pub bash_tool: bool,
    pub permissions: PermissionsConfig,
}

/// Whether a tool is offered: it is listed on the command line, or, without a list, switched on
/// in the settings.
pub open spec fn tool_offered(
    listed: Option<Vec<String>>,
    setting: Option<bool>,
    tool: Seq<char>,
) -> bool {
    match listed {
        Some(names) => crate::text::views(names@).contains(tool),
        None => setting == Some(true),
    }
}

/// The first limit that is set, or the default.
pub open spec fn token_limit(given: Option<u64>, configured: Option<u64>) -> u64 {
    match crate::settings::either(given, configured) {
        Some(limit) => limit,
        None => DEFAULT_MAX_TOKENS,
    }
}

/// Plans a run. What the command line says counts first, then the agent, then the configuration.
pub fn plan_run(options: RunOptions, config: Config, agent: AgentFrontmatter) -> (plan: RunPlan)
    ensures
        plan.full_model@ == match crate::settings::either(
            options.model,
            crate::settings::either(agent.model, config.default_model),
        ) {
            Some(name) => name@,
            None => crate::model::default_model(),
        },
        (plan.provider_name@, plan.model_name@) == crate::model::model_parts(plan.full_model@),
        crate::model::is_route(config.providers@, plan.provider_name@, plan.route),
        plan.max_tokens == token_limit(options.max_tokens, config.default_max_tokens),
        plan.read_tool == tool_offered(
            options.tools,
            config.tools.merged(agent.tools).read,
            "read"@,
        ),
        plan.bash_tool == tool_offered(
            options.tools,
            config.tools.merged(agent.tools).bash,
            "bash"@,
        ),
        plan.permissions == config.permissions.merged(agent.permissions),
{
    let full_model = choose_model(options.model, agent.model, config.default_model);
    let (provider_name, model_name) = split_model(full_model.as_str());
    let route = find_route(&config.providers, provider_name.as_str());
    let max_tokens = match options.max_tokens {
        Some(limit) => limit,
        None => config.default_max_tokens.unwrap_or(DEFAULT_MAX_TOKENS),
    };
    let merged = config.tools.merge(agent.tools);
    let (read_tool, bash_tool) = match &options.tools {
        Some(names) => {
            let nothing = ToolsConfig::default();
            (
                nothing.is_read_active(contains_text(names, "read")),
                nothing.is_bash_active(contains_text(names, "bash")),
            )
        },
        None => (merged.is_read_active(false), merged.is_bash_active(false)),
    };
    RunPlan {
        full_model,
        provider_name,
        model_name,
        route,
        max_tokens,
        read_tool,
        bash_tool,
        permissions: config.permissions.merge(agent.permissions),
    }
}

/// The names of the tools on offer.
pub open spec fn tools_line(read: bool, bash: bool) -> Seq<char> {
    if read && bash {
        "read, bash"@
    } else if read {
        "read"@
    } else if bash {
        "bash"@
    } else {
        "none"@
    }
}

/// Lists the tools on offer.
pub fn tools_text(read: bool, bash: bool) -> (text: &'static str)
    ensures
        text@ == tools_line(read, bash),
{
    if read && bash {
        "read, bash"
    } else if read {
        "read"
    } else if bash {
        "bash"
    } else {
        "none"
    }
}

/// What becomes of a planned run.
#[derive(Clone, Debug)]
pub enum Launch {
    /// Print the text and stop.
    DryRun(String),
    /// Send the prompts to the client.
    Send { client: ClientKind, api_key: String },
    /// There is no key: print the error and fail.
    Refuse(String),
    /// The client does not exist: fail with the error.
    Unsupported(String),
}

/// The complaint about a client type that does not exist.
pub open spec fn unsupported_client_error(client_type: Seq<char>) -> Seq<char> {
    "unsupported client type: "@ + client_type
}

/// Decides what becomes of a planned run. A dry run needs no key. `from_env` is the value of the
/// client's environment variable.
pub fn launch(
    plan: &RunPlan,
    dry_run: bool,
    system_prompt: &str,
    user_prompt: &str,
    from_env: Option<String>,
) -> (action: Launch)
    ensures
        ({
            let client_type = plan.route.client_type@;
            let key = crate::model::key_text(
                crate::text::opt_view(plan.route.api_key),
                crate::text::opt_view(from_env),
            );
            if dry_run {
                action matches Launch::DryRun(text) && text@ == crate::prompt::dry_run_lines(
                    plan.full_model@,
                    tools_line(plan.read_tool, plan.bash_tool),
                    system_prompt@,
                    user_prompt@,
                )
            } else if key.len() == 0 {
                action matches Launch::Refuse(error) && error@ == crate::model::no_key_error(
                    plan.provider_name@,
                )
            } else if crate::model::client_named(client_type) is None {
                action matches Launch::Unsupported(error) && error@ == unsupported_client_error(
                    client_type,
                )
            } else {
                action matches Launch::Send { client, api_key } && Some(client)
                    == crate::model::client_named(client_type) && api_key@ == key
            }
        }),
{
    if dry_run {
        return Launch::DryRun(
            dry_run_text(
                plan.full_model.as_str(),
                tools_text(plan.read_tool, plan.bash_tool),
                system_prompt,
                user_prompt,
            ),
        );
    }
    let api_key = match choose_api_key(
        plan.route.api_key.clone(),
        from_env,
        plan.provider_name.as_str(),
    ) {
        Ok(key) => key,
        Err(error) => return Launch::Refuse(error),
    };
    match ClientKind::from_name(plan.route.client_type.as_str()) {
        Some(client) => Launch::Send { client, api_key },
        None => Launch::Unsupported(
            "unsupported client type: ".to_owned().concat(plan.route.client_type.as_str()),
        ),
    }
}

// --- laws ---

/// A list of tools on the command line is exclusive: what the settings say of a tool does not
/// matter.
pub proof fn law_listed_tools_are_exclusive(
    listed: Vec<String>,
    a: Option<bool>,
    b: Option<bool>,
    tool: Seq<char>,
)
    ensures
        tool_offered(Some(listed), a, tool) == tool_offered(Some(listed), b, tool),
        !crate::text::views(listed@).contains(tool) ==> !tool_offered(Some(listed), a, tool),
{
}

/// An agent's switch for a tool overrides the configured one.
pub proof fn law_agent_switch_overrides(
    config: ToolsConfig,
    agent: ToolsConfig,
    tool: Seq<char>,
)
    ensures
        agent.read is Some ==> tool_offered(None, config.merged(agent).read, tool) == (agent.read
            == Some(true)),
        agent.read is None ==> tool_offered(None, config.merged(agent).read, tool) == (config.read
            == Some(true)),
        agent.bash is Some ==> tool_offered(None, config.merged(agent).bash, tool) == (agent.bash
            == Some(true)),
        agent.bash is None ==> tool_offered(None, config.merged(agent).bash, tool) == (config.bash
            == Some(true)),
{
}

/// An agent has the description, the model, the skills and the switches of its header, and the
/// permissions that stand there.
pub proof fn law_agent_has_its_header(raw: RawAgent, agent: AgentFrontmatter)
    ensures
        raw.stands_for(agent) ==> {
            &&& agent.description == raw.description
            &&& agent.model == raw.model
            &&& agent.skills == raw.skills
            &&& agent.tools.read == raw.tools.read
            &&& agent.tools.bash == raw.tools.bash
            &&& raw.permissions.stands_for(agent.permissions)
        },
        agent.is_unset() ==> {
            &&& agent.description is None
            &&& agent.model is None
            &&& agent.skills is None
            &&& agent.tools.read is None
            &&& agent.tools.bash is None
            &&& agent.permissions.read is None
            &&& agent.permissions.bash is None
        },
{
}

/// A configuration has the model, the limit, the switches and the providers that are written
/// down, and the permissions that stand there.
pub proof fn law_configuration_has_its_settings(raw: RawConfig, config: Config)
    ensures
        raw.stands_for(config) ==> {
            &&& config.default_model == raw.default_model
            &&& config.default_max_tokens == raw.default_max_tokens
            &&& config.tools.read == raw.tools.read
            &&& config.tools.bash == raw.tools.bash
            &&& config.providers == raw.providers
            &&& raw.permissions.stands_for(config.permissions)
        },
        config.is_unset() ==> {
            &&& config.default_model is None
            &&& config.default_max_tokens is None
            &&& config.tools.read is None
            &&& config.tools.bash is None
            &&& config.permissions.read is None
            &&& config.permissions.bash is None
            &&& config.providers@.len() == 0
        },
{
}

/// A task is done if its flag is set and none of those before it; without a flag there is a run.
pub proof fn law_each_flag_has_its_task(flags: TaskFlags)
    ensures
        task_of(flags) == Task::Init <==> flags.init,
        task_of(flags) == Task::ListAgents <==> flags.list_agents && !flags.init,
        task_of(flags) == Task::ListSkills <==> flags.list_skills && !flags.init
            && !flags.list_agents,
        task_of(flags) == Task::ListTools <==> flags.list_tools && !flags.init
            && !flags.list_agents && !flags.list_skills,
        task_of(flags) == Task::ListProviders <==> flags.list_providers && !flags.init
            && !flags.list_agents && !flags.list_skills && !flags.list_tools,
        task_of(flags) == Task::Run <==> !flags.init && !flags.list_agents && !flags.list_skills
            && !flags.list_tools && !flags.list_providers,
{
}

/// A tool is offered if the list names it; without a list, if it is switched on.
pub proof fn law_which_tools_are_offered(
    listed: Vec<String>,
    setting: Option<bool>,
    tool: Seq<char>,
)
    ensures
        tool_offered(Some(listed), setting, tool) <==> exists|i: int|
            0 <= i < listed@.len() && (#[trigger] listed@[i])@ == tool,
        tool_offered(None, setting, tool) <==> setting == Some(true),
{
    let names = crate::text::views(listed@);
    crate::text::law_views_are_the_characters(listed@, listed@[0]);
    if names.contains(tool) {
        let i = choose|i: int| 0 <= i < names.len() && names[i] == tool;
        assert(listed@[i]@ == tool);
    }
    if exists|i: int| 0 <= i < listed@.len() && (#[trigger] listed@[i])@ == tool {
        let i = choose|i: int| 0 <= i < listed@.len() && (#[trigger] listed@[i])@ == tool;
        assert(names[i] == tool);
    }
}

/// The command line's limit counts, then the configured one, and then 16384.
pub proof fn law_token_limits(given: u64, configured: u64, second: Option<u64>)
    ensures
        token_limit(Some(given), second) == given,
        token_limit(None, Some(configured)) == configured,
        token_limit(None, None) == 16384,
{
}

/// How the tools on offer and an unknown client are named.
pub proof fn law_names_of_tools_and_clients(client_type: Seq<char>)
    ensures
        tools_line(true, true) == "read, bash"@,
        tools_line(true, false) == "read"@,
        tools_line(false, true) == "bash"@,
        tools_line(false, false) == "none"@,
        unsupported_client_error(client_type) == "unsupported client type: "@ + client_type,
{
}

} // verus!
