//! Token-saving command line proxy, through the `rtk` program.
//!
//! The subcommand and its arguments are handed on as they are.

use vstd::prelude::*;

use crate::external_cli;
use crate::external_cli::CliResult;
use crate::json;
use crate::json::{Json, JsonView};
use crate::schema;
use crate::text;
use crate::tool;
use crate::tool::{CliStep, CliStepView, ToolOutput};

verus! {

/// What the tool says of itself.
pub const DESCRIPTION: &'static str =
    "Token-optimizing CLI proxy. Run a real command through rtk to get filtered/summarized output that costs far fewer tokens. Pass the rtk subcommand and args via `args`, e.g. args=[\"ls\",\"-la\"], [\"git\",\"status\"], [\"grep\",\"TODO\",\"src\"], [\"tree\",\".\"], [\"cargo\",\"build\"], [\"test\"], or [\"gain\",\"--quota\"] for savings stats. Prefer rtk over raw bash for noisy commands (ls/tree/git/grep/build/test/logs).";

/// The answer where the program is missing.
pub const NOT_INSTALLED: &'static str =
    "rtk CLI is not installed. Install it with `cargo install rtk` (or see github.com/rtk-ai/rtk), then retry.";

/// The answer to a call without a subcommand.
pub const NO_ARGS: &'static str =
    "rtk requires `args` (the rtk subcommand and arguments), e.g. args=[\"git\",\"status\"].";

/// The tool.
#[derive(Debug)]
pub struct RtkTool;

/// The parameters of a call.
#[derive(Debug)]
pub struct RtkInput {
    /// The subcommand and its arguments.
    pub args: Vec<String>,
    /// A whole command line, split at white space; for a call without `args`.
    pub command: Option<String>,
    /// Whether the output is to be ultra-compact.
    pub ultra_compact: Option<bool>,
}

/// The subcommand and its arguments.
pub open spec fn sub_args(input: RtkInput) -> Seq<Seq<char>> {
    if input.args@.len() > 0 {
        text::texts(input.args@)
    } else {
        match input.command {
            Some(command) => text::words(command@),
            None => Seq::empty(),
        }
    }
}

/// What is done with a call, where the program is installed.
pub open spec fn step_of(input: RtkInput) -> CliStepView {
    let sub = sub_args(input);
    if sub.len() == 0 {
        CliStepView::Reply(tool::plain_output(NO_ARGS@))
    } else {
        CliStepView::Run {
            args: tool::flag_if("--ultra-compact"@, tool::is_on(input.ultra_compact)) + sub,
            stdin: None,
        }
    }
}

/// The name under which a call is shown: its subcommand.
pub open spec fn label_of(input: RtkInput) -> Seq<char> {
    if sub_args(input).len() > 0 {
        sub_args(input)[0]
    } else {
        Seq::empty()
    }
}

/// The parameters of the tool.
pub open spec fn parameters(intent: JsonView) -> Seq<(Seq<char>, JsonView)> {
    seq![
        ("intent"@, intent),
        (
            "args"@,
            schema::text_list_view(
                "rtk subcommand and arguments, forwarded verbatim. e.g. [\"git\",\"status\"]."@,
            ),
        ),
        (
            "command"@,
            schema::typed_view(
                "string"@,
                "Whole command line as one string (whitespace-split). Use `args` if arguments contain spaces/quotes."@,
            ),
        ),
        (
            "ultra_compact"@,
            schema::typed_view("boolean"@, "Enable rtk ultra-compact output mode."@),
        ),
    ]
}

/// The subcommand and its arguments.
fn subcommand(input: &RtkInput) -> (r: Vec<String>)
    ensures
        text::texts(r@) == sub_args(*input),
{
    if input.args.len() > 0 {
        text::copy_texts(&input.args)
    } else {
        match &input.command {
            Some(command) => text::word_list(command.as_str()),
            None => {
                let none: Vec<String> = Vec::new();
                assert(text::texts(none@) =~= Seq::<Seq<char>>::empty());
                none
            },
        }
    }
}

impl RtkTool {
    /// The tool.
    pub fn new() -> (r: RtkTool)
        ensures
            r == RtkTool,
    {
        RtkTool
    }

    /// The name of the tool.
    pub fn name(&self) -> (r: &'static str)
        ensures
            r@ == "rtk"@,
    {
        "rtk"
    }

    /// What the tool says of itself.
    pub fn description(&self) -> (r: &'static str)
        ensures
            r@ == DESCRIPTION@,
    {
        DESCRIPTION
    }

    /// The schema of the parameters. `intent` is the schema of the parameter that
    /// every tool has.
    pub fn parameters_schema(&self, intent: Json) -> (r: Json)
        ensures
            r@ == schema::object_schema(parameters(intent@)),
    {
        let mut p: Vec<(String, Json)> = Vec::new();
        json::push_field(&mut p, "intent", intent);
        json::push_field(
            &mut p,
            "args",
            schema::text_list(
                "rtk subcommand and arguments, forwarded verbatim. e.g. [\"git\",\"status\"].",
            ),
        );
        json::push_field(
            &mut p,
            "command",
            schema::typed(
                "string",
                "Whole command line as one string (whitespace-split). Use `args` if arguments contain spaces/quotes.",
            ),
        );
        json::push_field(
            &mut p,
            "ultra_compact",
            schema::typed("boolean", "Enable rtk ultra-compact output mode."),
        );
        assert(json::fields_view(p@) =~= parameters(intent@));
        schema::object(p)
    }

    /// What is done with a call. `installed` tells whether the program was found.
    pub fn plan(&self, input: &RtkInput, installed: bool) -> (r: CliStep)
        ensures
            r@ == if installed {
                step_of(*input)
            } else {
                CliStepView::Reply(tool::plain_output(NOT_INSTALLED@))
            },
    {
        if !installed {
            return tool::reply(NOT_INSTALLED);
        }
        let mut sub = subcommand(input);
        if sub.len() == 0 {
            return tool::reply(NO_ARGS);
        }
        let ghost rest = text::texts(sub@);
        let mut args: Vec<String> = Vec::new();
        assert(text::texts(args@) =~= Seq::<Seq<char>>::empty());
        tool::push_flag(&mut args, "--ultra-compact", tool::on(input.ultra_compact));
        let ghost front = text::texts(args@);
        args.append(&mut sub);
        assert(text::texts(args@) =~= front + rest);
        assert(front =~= tool::flag_if("--ultra-compact"@, tool::is_on(input.ultra_compact)));
        tool::run(args)
    }

    /// The name under which a call is shown.
    pub fn label(&self, input: &RtkInput) -> (r: String)
        ensures
            r@ == label_of(*input),
    {
        let sub = subcommand(input);
        if sub.len() > 0 {
            sub[0].clone()
        } else {
            String::new()
        }
    }

    /// Shows the result of the program.
    pub fn conclude(&self, input: &RtkInput, result: CliResult) -> (r: ToolOutput)
        ensures
            r@ == external_cli::cli_output(
                "rtk"@,
                label_of(*input),
                result.status,
                result.stdout@,
                result.stderr@,
            ),
    {
        let label = self.label(input);
        external_cli::format_cli_result("rtk", label.as_str(), result)
    }
}

/// A call is handed on faithfully: the arguments that are given reach the program
/// as they are, behind nothing but the flag for ultra-compact output.
pub proof fn law_arguments_are_handed_on(input: RtkInput)
    requires
        input.args@.len() > 0,
    ensures
        step_of(input) matches CliStepView::Run { args, stdin } && {
            &&& stdin is None
            &&& args.len() >= input.args@.len()
            &&& args.skip(args.len() - input.args@.len()) == text::texts(input.args@)
            &&& args.len() <= input.args@.len() + 1
        },
{
    let given = text::texts(input.args@);
    if let CliStepView::Run { args, stdin } = step_of(input) {
        assert(args.skip(args.len() - given.len()) =~= given);
    }
}

/// Without arguments the words of the command line are handed on, and without either
/// nothing runs. Ultra-compact output is asked for by the first argument, and only
/// where it is wanted; everything else is handed on as it is. The label is the
/// subcommand.
pub proof fn law_what_is_run(input: RtkInput)
    ensures
        ({
            let wanted = if input.args@.len() > 0 {
                text::texts(input.args@)
            } else if input.command is Some {
                text::words(input.command->0@)
            } else {
                Seq::empty()
            };
            &&& wanted.len() == 0 ==> step_of(input) is Reply
            &&& wanted.len() > 0 && input.ultra_compact == Some(true) ==> step_of(input) == (
            CliStepView::Run { args: seq!["--ultra-compact"@] + wanted, stdin: None })
            &&& wanted.len() > 0 && input.ultra_compact != Some(true) ==> step_of(input) == (
            CliStepView::Run { args: wanted, stdin: None })
            &&& wanted.len() > 0 ==> label_of(input) == wanted[0]
        }),
{
    let sub = sub_args(input);
    assert(Seq::<Seq<char>>::empty() + sub =~= sub);
}

/// The tool offers every parameter that it acts on, each of the type that it takes.
pub proof fn law_every_parameter_is_offered(intent: JsonView)
    ensures
        ({
            let offered = parameters(intent);
            let kind = |i: int| json::get_field(offered[i].1, "type"@);
            &&& offered.len() == 4
            &&& offered[0] == ("intent"@, intent)
            &&& offered[1].0 == "args"@ && kind(1) == Some(JsonView::Text("array"@))
            &&& offered[2].0 == "command"@ && kind(2) == Some(JsonView::Text("string"@))
            &&& offered[3].0 == "ultra_compact"@ && kind(3) == Some(JsonView::Text("boolean"@))
        }),
{
}

} // verus!
