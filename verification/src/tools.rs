//! The tools that a model may call, and what is done with a call.
use vstd::prelude::*;

use crate::paths::resolve_path;
use crate::permission::PermissionLevel;
use crate::settings::PermissionsConfig;
use crate::text::chars_of;

verus! {

/// A tool as it is described to a model. It takes one string, which must be given.
#[derive(Clone, Debug)]
pub struct ToolSpec {
    pub name: &'static str,
    pub description: &'static str,
    pub parameter: &'static str,
    pub parameter_description: &'static str,
}

/// Describes the read tool.
pub fn read_tool() -> (tool: ToolSpec)
    ensures
        tool.name@ == "read"@,
        tool.description@ == "read the contents of a file at the given path"@,
        tool.parameter@ == "path"@,
        tool.parameter_description@ == "absolute or relative path to the file to read"@,
{
    ToolSpec {
        name: "read",
        description: "read the contents of a file at the given path",
        parameter: "path",
        parameter_description: "absolute or relative path to the file to read",
    }
}

/// Describes the bash tool.
pub fn bash_tool() -> (tool: ToolSpec)
    ensures
        tool.name@ == "bash"@,
        tool.description@ == "execute a shell command via sh -c"@,
        tool.parameter@ == "command"@,
        tool.parameter_description@ == "the shell command to execute"@,
{
    ToolSpec {
        name: "bash",
        description: "execute a shell command via sh -c",
        parameter: "command",
        parameter_description: "the shell command to execute",
    }
}

/// What to do next with a tool call.
#[derive(Clone, Debug)]
pub enum ToolStep {
    /// Read this path, or run this command.
    Perform(String),
    /// Put the question to the user, and go on with the reply.
    Ask { question: String, target: String },
    /// Answer the call with this error.
    Refuse(String),
}

/// The first step of a call, by the level of its target.
pub open spec fn is_first_step(
    level: PermissionLevel,
    assume_yes: bool,
    verb: Seq<char>,
    target: Seq<char>,
    step: ToolStep,
) -> bool {
    match level {
        PermissionLevel::Allow => step matches ToolStep::Perform(it) && it@ == target,
        PermissionLevel::Ask => if assume_yes {
            step matches ToolStep::Perform(it) && it@ == target
        } else {
            step matches ToolStep::Ask { question, target: it } && it@ == target && question@
                == "allow "@ + verb + " "@ + target + "? [y/N] "@
        },
        PermissionLevel::Deny => step matches ToolStep::Refuse(error) && error@
            == "permission denied: "@ + target,
    }
}

/// Takes the first step of a call.
fn first_step(
    level: PermissionLevel,
    assume_yes: bool,
    verb: &str,
    target: String,
) -> (step: ToolStep)
    ensures
        is_first_step(level, assume_yes, verb@, target@, step),
{
    match level {
        PermissionLevel::Allow => ToolStep::Perform(target),
        PermissionLevel::Ask => if assume_yes {
            ToolStep::Perform(target)
        } else {
            let question = "allow ".to_owned().concat(verb).concat(" ").concat(
                target.as_str(),
            ).concat("? [y/N] ");
            ToolStep::Ask { question, target }
        },
        PermissionLevel::Deny => ToolStep::Refuse(
            "permission denied: ".to_owned().concat(target.as_str()),
        ),
    }
}

/// Begins a call of the read tool. The path is resolved first, and the permission is that of
/// the resolved path.
pub fn start_read(
    permissions: &PermissionsConfig,
    path: &str,
    current_dir: &str,
    assume_yes: bool,
) -> (step: ToolStep)
    ensures
        ({
            let target = crate::paths::joined(current_dir@, path@);
            is_first_step(permissions.read_level(target), assume_yes, "read"@, target, step)
        }),
{
    let target = resolve_path(path, current_dir);
    let level = permissions.check_read(target.as_str());
    first_step(level, assume_yes, "read", target)
}

/// Begins a call of the bash tool.
pub fn start_bash(
    permissions: &PermissionsConfig,
    command: &str,
    assume_yes: bool,
) -> (step: ToolStep)
    ensures
        is_first_step(
            permissions.bash_level(command@),
            assume_yes,
            "bash"@,
            command@,
            step,
        ),
{
    let level = permissions.check_bash(command);
    first_step(level, assume_yes, "bash", command.to_owned())
}

/// Whether a reply is a yes: it begins with a `y`.
pub open spec fn is_yes(reply: Seq<char>) -> bool {
    reply.len() > 0 && (reply[0] == 'y' || reply[0] == 'Y')
}

/// The step that follows the user's reply. No reply counts as a no.
pub open spec fn is_next_step(
    target: Seq<char>,
    reply: Option<Seq<char>>,
    step: ToolStep,
) -> bool {
    if reply is Some && is_yes(reply->0) {
        step matches ToolStep::Perform(it) && it@ == target
    } else {
        step matches ToolStep::Refuse(error) && error@ == "permission denied (ask): "@ + target
    }
}

/// Goes on with a call once the user has replied.
pub fn continue_call(target: String, reply: &Option<String>) -> (step: ToolStep)
    ensures
        is_next_step(target@, crate::text::opt_view(*reply), step),
{
    let yes = match reply {
        Some(text) => {
            let chars = chars_of(text.as_str());
            chars.len() > 0 && (chars[0] == 'y' || chars[0] == 'Y')
        },
        None => false,
    };
    if yes {
        ToolStep::Perform(target)
    } else {
        ToolStep::Refuse("permission denied (ask): ".to_owned().concat(target.as_str()))
    }
}

/// The error for a file that could not be read.
pub fn read_failure(target: &str, error: &str) -> (text: String)
    ensures
        text@ == target@ + ": "@ + error@,
{
    target.to_owned().concat(": ").concat(error)
}

// --- laws ---

/// A denied call is refused at once, whatever the user has agreed to beforehand.
pub proof fn law_denied_is_refused(
    assume_yes: bool,
    verb: Seq<char>,
    target: Seq<char>,
    step: ToolStep,
)
    requires
        is_first_step(PermissionLevel::Deny, assume_yes, verb, target, step),
    ensures
        step is Refuse,
{
}

/// A call is performed without a question only if it is allowed, or is to be asked about and
/// the user has agreed beforehand; and then on the very target that was checked.
pub proof fn law_performed_is_permitted(
    level: PermissionLevel,
    assume_yes: bool,
    verb: Seq<char>,
    target: Seq<char>,
    step: ToolStep,
)
    requires
        is_first_step(level, assume_yes, verb, target, step),
    ensures
        step is Perform <==> level == PermissionLevel::Allow || level == PermissionLevel::Ask
            && assume_yes,
        step matches ToolStep::Perform(it) ==> it@ == target,
        step is Ask <==> level == PermissionLevel::Ask && !assume_yes,
        step is Refuse <==> level == PermissionLevel::Deny,
{
}

/// A call is performed, at once or after a question, only with permission: it is allowed, or
/// it is to be asked about and the user agrees, beforehand or in reply.
pub proof fn law_no_call_without_consent(
    level: PermissionLevel,
    assume_yes: bool,
    verb: Seq<char>,
    target: Seq<char>,
    first: ToolStep,
    reply: Option<Seq<char>>,
    next: ToolStep,
)
    requires
        is_first_step(level, assume_yes, verb, target, first),
        first matches ToolStep::Ask { question, target: it } ==> is_next_step(it@, reply, next),
    ensures
        (first is Perform || first is Ask && next is Perform) <==> (level
            == PermissionLevel::Allow || level == PermissionLevel::Ask && (assume_yes || reply
            is Some && is_yes(reply->0))),
        first is Ask ==> (next matches ToolStep::Perform(it) ==> it@ == target),
{
}

/// Without a permission for its tool, no call is performed or asked about.
pub proof fn law_unset_permission_denies(path: Seq<char>, command: Seq<char>)
    ensures
        PermissionsConfig::unset().read_level(path) == PermissionLevel::Deny,
        PermissionsConfig::unset().bash_level(command) == PermissionLevel::Deny,
{
}

/// The first step of a call: what is allowed is done, what is denied is refused, and what is to
/// be asked about is asked about, unless the user has agreed beforehand.
pub proof fn law_first_step_of_a_call(
    level: PermissionLevel,
    assume_yes: bool,
    verb: Seq<char>,
    target: Seq<char>,
    step: ToolStep,
)
    requires
        is_first_step(level, assume_yes, verb, target, step),
    ensures
        level == PermissionLevel::Allow || (level == PermissionLevel::Ask && assume_yes) ==> (
        step matches ToolStep::Perform(it) && it@ == target),
        level == PermissionLevel::Ask && !assume_yes ==> (step matches ToolStep::Ask {
            question,
            target: it,
        } && it@ == target && question@ == "allow "@ + verb + " "@ + target + "? [y/N] "@),
        level == PermissionLevel::Deny ==> (step matches ToolStep::Refuse(error) && error@
            == "permission denied: "@ + target),
{
}

/// The step after a question: the call is made if the reply begins with `y` or `Y`, and refused
/// otherwise.
pub proof fn law_step_after_a_reply(target: Seq<char>, reply: Option<Seq<char>>, step: ToolStep)
    requires
        is_next_step(target, reply, step),
    ensures
        (reply matches Some(text) && text.len() > 0 && (text[0] == 'y' || text[0] == 'Y')) ==> (
        step matches ToolStep::Perform(it) && it@ == target),
        !(reply matches Some(text) && text.len() > 0 && (text[0] == 'y' || text[0] == 'Y')) ==> (
        step matches ToolStep::Refuse(error) && error@ == "permission denied (ask): "@ + target),
{
}

} // verus!
