//! Maintenance of the `context-mode` session-context program.

use vstd::prelude::*;

use crate::external_cli;
use crate::external_cli::CliResult;
use crate::json;
use crate::json::{Json, JsonView};
use crate::schema;
use crate::text;
use crate::tool;
use crate::tool::{CliStep, CliStepView, ToolOutput};

verus! {

/// What the tool says of itself.
pub const DESCRIPTION: &'static str =
    "Manage context-mode session-context tooling. Actions: doctor (diagnose runtime, hooks, FTS5, version), upgrade (fix hooks/permissions/settings), statusline (print the context-mode status line).";

/// The answer where the program is missing.
pub const NOT_INSTALLED: &'static str =
    "context-mode CLI is not installed. Install it with `npm install -g context-mode` (or `bun add -g context-mode`), then retry.";

/// The tool.
#[derive(Debug)]
pub struct ContextModeTool;

/// The parameters of a call.
#[derive(Debug)]
pub struct ContextModeInput {
    pub action: String,
}

/// The names of the actions.
pub open spec fn action_names() -> Seq<Seq<char>> {
    seq!["doctor"@, "upgrade"@, "statusline"@]
}

/// What is done with a call, where the program is installed: an action is the
/// subcommand of the same name.
pub open spec fn step_of(input: ContextModeInput) -> CliStepView {
    if input.action@ == "doctor"@ || input.action@ == "upgrade"@ || input.action@
        == "statusline"@ {
        CliStepView::Run { args: seq![input.action@], stdin: None }
    } else {
        CliStepView::Reply(
            tool::plain_output(
                "Unknown context_mode action '"@ + input.action@
                    + "'. Valid: doctor, upgrade, statusline."@,
            ),
        )
    }
}

/// The parameters of the tool.
pub open spec fn parameters(intent: JsonView) -> Seq<(Seq<char>, JsonView)> {
    seq![
        ("intent"@, intent),
        ("action"@, schema::choice_view(action_names(), "context-mode operation."@)),
    ]
}

impl ContextModeTool {
    /// The tool.
    pub fn new() -> (r: ContextModeTool)
        ensures
            r == ContextModeTool,
    {
        ContextModeTool
    }

    /// The name of the tool.
    pub fn name(&self) -> (r: &'static str)
        ensures
            r@ == "context_mode"@,
    {
        "context_mode"
    }

    /// What the tool says of itself.
    pub fn description(&self) -> (r: &'static str)
        ensures
            r@ == DESCRIPTION@,
    {
        DESCRIPTION
    }

    /// The schema of the parameters. `intent` is the schema of the parameter that
    /// every tool has.
    pub fn parameters_schema(&self, intent: Json) -> (r: Json)
        ensures
            r@ == schema::object_schema_requiring(parameters(intent@), seq!["action"@]),
    {
        let actions = ["doctor", "upgrade", "statusline"];
        let required = ["action"];
        assert(schema::strs_view(actions@) =~= action_names());
        assert(schema::strs_view(required@) =~= seq!["action"@]);
        let mut p: Vec<(String, Json)> = Vec::new();
        json::push_field(&mut p, "intent", intent);
        json::push_field(&mut p, "action", schema::choice(&actions, "context-mode operation."));
        assert(json::fields_view(p@) =~= parameters(intent@));
        schema::object_requiring(p, &required)
    }

    /// What is done with a call. `installed` tells whether the program was found.
    pub fn plan(&self, input: &ContextModeInput, installed: bool) -> (r: CliStep)
        ensures
            r@ == if installed {
                step_of(*input)
            } else {
                CliStepView::Reply(tool::plain_output(NOT_INSTALLED@))
            },
    {
        if !installed {
            return tool::reply(NOT_INSTALLED);
        }
        let action = input.action.as_str();
        if text::same(action, "doctor") || text::same(action, "upgrade") || text::same(
            action,
            "statusline",
        ) {
            tool::run(tool::single(action))
        } else {
            let mut message = "Unknown context_mode action '".to_owned();
            message.append(action);
            message.append("'. Valid: doctor, upgrade, statusline.");
            tool::reply(message.as_str())
        }
    }

    /// Shows the result of the program.
    pub fn conclude(&self, input: &ContextModeInput, result: CliResult) -> (r: ToolOutput)
        ensures
            r@ == external_cli::cli_output(
                "context_mode"@,
                input.action@,
                result.status,
                result.stdout@,
                result.stderr@,
            ),
    {
        external_cli::format_cli_result("context_mode", input.action.as_str(), result)
    }
}

/// The program runs for the three actions and for no other, with the action as its
/// only argument.
pub proof fn law_the_action_is_the_subcommand(input: ContextModeInput)
    ensures
        step_of(input) is Run <==> input.action@ == "doctor"@ || input.action@ == "upgrade"@
            || input.action@ == "statusline"@,
        step_of(input) is Run ==> step_of(input) == (CliStepView::Run {
            args: seq![input.action@],
            stdin: None,
        }),
{
}

/// The tool offers its three actions.
pub proof fn law_every_action_is_offered(intent: JsonView)
    ensures
        action_names() == seq!["doctor"@, "upgrade"@, "statusline"@],
        parameters(intent).len() == 2,
        parameters(intent)[0] == ("intent"@, intent),
        parameters(intent)[1].0 == "action"@,
        json::get_field(parameters(intent)[1].1, "type"@) == Some(JsonView::Text("string"@)),
{
}

} // verus!
