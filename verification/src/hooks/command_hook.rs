//! Command hook: an external program consulted for each matching tool call.

use vstd::prelude::*;

use super::matcher;
use super::matcher::{HookMatcher, HookMatcherView};
use super::{
    CommandDecision, CommandEnd, CommandRequest, Hook, PostDecisionView, PostStep, PostToolUseDecision,
    PostToolUseInput, PreDecisionView, PreStep, PreToolUseDecision, PreToolUseInput,
};
use crate::external_cli;
use crate::json;
use crate::json::{Json, JsonView};
use crate::text;
use crate::tool;
use crate::tool::{ToolContext, ToolOutput, ToolOutputView};

verus! {

/// When a command hook runs.
#[derive(Debug, Clone, Copy, PartialEq, Eq, Structural)]
pub enum HookPhase {
    Pre,
    Post,
}

/// The name of a phase.
pub open spec fn phase_name(phase: HookPhase) -> Seq<char> {
    match phase {
        HookPhase::Pre => "PreToolUse"@,
        HookPhase::Post => "PostToolUse"@,
    }
}

impl HookPhase {
    /// The name of the phase.
    pub fn as_str(&self) -> (r: &'static str)
        ensures
            r@ == phase_name(*self),
    {
        match self {
            HookPhase::Pre => "PreToolUse",
            HookPhase::Post => "PostToolUse",
        }
    }
}

/// A hook backed by an external program. The program gets a JSON payload on its
/// standard input and answers with a JSON [`CommandDecision`]. A hook takes part
/// in its own phase only.
#[derive(Debug)]
pub struct CommandHook {
    name: String,
    matcher: HookMatcher,
    program: String,
    timeout_ms: u64,
    phase: HookPhase,
}

/// What a [`CommandHook`] means.
pub struct CommandHookView {
    pub name: Seq<char>,
    pub matcher: HookMatcherView,
    pub program: Seq<char>,
    pub timeout_ms: u64,
    pub phase: HookPhase,
}

impl View for CommandHook {
    type V = CommandHookView;

    closed spec fn view(&self) -> CommandHookView {
        CommandHookView {
            name: self.name@,
            matcher: self.matcher@,
            program: self.program@,
            timeout_ms: self.timeout_ms,
            phase: self.phase,
        }
    }
}

/// What a list of command hooks means.
pub open spec fn hooks_view(hooks: Seq<CommandHook>) -> Seq<CommandHookView> {
    Seq::new(hooks.len(), |i: int| hooks[i]@)
}

/// The payload that describes a tool call before it is made.
pub open spec fn pre_payload(
    tool_name: Seq<char>,
    input: JsonView,
    session_id: Seq<char>,
    working_dir: Option<Seq<char>>,
) -> JsonView {
    JsonView::Object(
        seq![
            ("event"@, JsonView::Text("PreToolUse"@)),
            ("tool_name"@, JsonView::Text(tool_name)),
            ("tool_input"@, input),
            ("session_id"@, JsonView::Text(session_id)),
            ("cwd"@, json::optional_text_view(working_dir)),
        ],
    )
}

/// The payload that describes a tool call after it was made.
pub open spec fn post_payload(
    tool_name: Seq<char>,
    input: JsonView,
    output: Seq<char>,
    session_id: Seq<char>,
    working_dir: Option<Seq<char>>,
) -> JsonView {
    JsonView::Object(
        seq![
            ("event"@, JsonView::Text("PostToolUse"@)),
            ("tool_name"@, JsonView::Text(tool_name)),
            ("tool_input"@, input),
            ("tool_output"@, JsonView::Text(output)),
            ("session_id"@, JsonView::Text(session_id)),
            ("cwd"@, json::optional_text_view(working_dir)),
        ],
    )
}

/// What an answer means before a tool call. An updated input counts first; then
/// the decision's word does. Without an answer the call goes on as it is.
pub open spec fn pre_decision(hook_name: Seq<char>, answer: Option<CommandDecision>) -> PreDecisionView {
    match answer {
        None => PreDecisionView::Continue,
        Some(d) => match d.updated_input {
            Some(input) => PreDecisionView::RewriteInput(input@),
            None => {
                let word = text::opt_text(d.decision);
                if word == Some("deny"@) || word == Some("block"@) {
                    PreDecisionView::Deny {
                        reason: match d.reason {
                            Some(reason) => reason@,
                            None => "blocked by hook "@ + hook_name,
                        },
                    }
                } else if word == Some("rewriteInput"@) && d.input is Some {
                    PreDecisionView::RewriteInput(d.input->0@)
                } else {
                    PreDecisionView::Continue
                }
            },
        },
    }
}

/// What an answer means after a tool call: an output in it replaces the text of
/// the tool's output, whose title and images stay.
pub open spec fn post_decision(
    output: ToolOutputView,
    answer: Option<CommandDecision>,
) -> PostDecisionView {
    match answer {
        Some(CommandDecision { output: Some(replacement), .. }) => PostDecisionView::RewriteOutput(
            ToolOutputView {
                output: replacement@,
                title: output.title,
                metadata: None,
                images: output.images,
            },
        ),
        _ => PostDecisionView::Continue,
    }
}

/// `request` asks for the program of `hook` to be run on `payload`.
pub open spec fn asks(request: CommandRequest, hook: CommandHookView, payload: Seq<char>) -> bool {
    &&& request.program@ == hook.program
    &&& request.payload@ == payload
    &&& request.timeout_ms == hook.timeout_ms
}

/// The JSON form of the working directory of a call.
fn working_dir_value(ctx: &ToolContext) -> (r: Json)
    ensures
        r@ == json::optional_text_view(text::opt_text(ctx.working_dir)),
{
    match &ctx.working_dir {
        Some(dir) => json::text_value(dir.as_str()),
        None => Json::Null,
    }
}

impl CommandHook {
    /// A hook that runs `program` in the phase `phase` for the tools that
    /// `matcher` accepts.
    pub fn new(
        name: String,
        matcher: HookMatcher,
        program: String,
        timeout_ms: u64,
        phase: HookPhase,
    ) -> (r: CommandHook)
        ensures
            r@ == (CommandHookView {
                name: name@,
                matcher: matcher@,
                program: program@,
                timeout_ms,
                phase,
            }),
    {
        CommandHook { name, matcher, program, timeout_ms, phase }
    }

    /// The program that the hook runs.
    pub fn program(&self) -> (r: &str)
        ensures
            r@ == self@.program,
    {
        self.program.as_str()
    }

    /// How long the program may take, in milliseconds.
    pub fn timeout_ms(&self) -> (r: u64)
        ensures
            r == self@.timeout_ms,
    {
        self.timeout_ms
    }

    /// When the hook runs.
    pub fn phase(&self) -> (r: HookPhase)
        ensures
            r == self@.phase,
    {
        self.phase
    }

    /// The request to run the program on `payload`; none where the payload
    /// cannot be written as JSON.
    fn invoke(&self, payload: Json) -> (r: Option<CommandRequest>)
        ensures
            match r {
                Some(request) => json::json_text(payload@) is Some && asks(
                    request,
                    self@,
                    json::json_text(payload@)->0,
                ),
                None => json::json_text(payload@) is None,
            },
    {
        match json::encode(&payload) {
            Some(text) => Some(
                CommandRequest {
                    program: self.program.clone(),
                    payload: text,
                    timeout_ms: self.timeout_ms,
                },
            ),
            None => None,
        }
    }
}

impl Clone for CommandHook {
    /// A copy of the hook.
    fn clone(&self) -> (r: CommandHook)
        ensures
            r@ == self@,
    {
        CommandHook {
            name: self.name.clone(),
            matcher: self.matcher.clone(),
            program: self.program.clone(),
            timeout_ms: self.timeout_ms,
            phase: self.phase,
        }
    }
}

impl Hook for CommandHook {
    fn name(&self) -> (r: &str)
        ensures
            r@ == self@.name,
    {
        self.name.as_str()
    }

    fn matches(&self, tool_name: &str) -> (r: bool)
        ensures
            r == matcher::accepts(self@.matcher, tool_name@),
    {
        self.matcher.matches(tool_name)
    }

    /// Asks for the program to be run on a description of the call; a hook of the
    /// other phase lets the call pass.
    fn pre(&self, input: &PreToolUseInput<'_>) -> (r: PreStep)
        ensures
            ({
                let payload = json::json_text(
                    pre_payload(
                        input.tool_name@,
                        input.input@,
                        input.ctx.session_id@,
                        text::opt_text(input.ctx.working_dir),
                    ),
                );
                if self@.phase == HookPhase::Pre && payload is Some {
                    r matches PreStep::Ask(request) && asks(request, self@, payload->0)
                } else {
                    r == PreStep::Decided(Ok(PreToolUseDecision::Continue))
                }
            }),
    {
        if self.phase != HookPhase::Pre {
            return PreStep::Decided(Ok(PreToolUseDecision::Continue));
        }
        let mut fields: Vec<(String, Json)> = Vec::new();
        json::push_field(&mut fields, "event", json::text_value("PreToolUse"));
        json::push_field(&mut fields, "tool_name", json::text_value(input.tool_name));
        json::push_field(&mut fields, "tool_input", input.input.duplicate());
        json::push_field(
            &mut fields,
            "session_id",
            json::text_value(input.ctx.session_id.as_str()),
        );
        json::push_field(&mut fields, "cwd", working_dir_value(input.ctx));
        let payload = json::object(fields);
        assert(payload@ == pre_payload(
            input.tool_name@,
            input.input@,
            input.ctx.session_id@,
            text::opt_text(input.ctx.working_dir),
        )) by {
            assert(payload@->Object_0 =~= pre_payload(
                input.tool_name@,
                input.input@,
                input.ctx.session_id@,
                text::opt_text(input.ctx.working_dir),
            )->Object_0);
        }
        match self.invoke(payload) {
            Some(request) => PreStep::Ask(request),
            None => PreStep::Decided(Ok(PreToolUseDecision::Continue)),
        }
    }

    /// The decision that the program's answer stands for.
    fn resume_pre(&self, answer: Option<CommandDecision>) -> (r: PreToolUseDecision)
        ensures
            r@ == pre_decision(self@.name, answer),
    {
        let decision = match answer {
            Some(decision) => decision,
            None => return PreToolUseDecision::Continue,
        };
        if let Some(updated) = decision.updated_input {
            return PreToolUseDecision::RewriteInput(updated);
        }
        let word = match decision.decision {
            Some(word) => word,
            None => return PreToolUseDecision::Continue,
        };
        if text::same(word.as_str(), "deny") || text::same(word.as_str(), "block") {
            let reason = match decision.reason {
                Some(reason) => reason,
                None => {
                    let mut reason = "blocked by hook ".to_owned();
                    reason.append(self.name.as_str());
                    reason
                },
            };
            PreToolUseDecision::Deny { reason }
        } else if text::same(word.as_str(), "rewriteInput") {
            match decision.input {
                Some(input) => PreToolUseDecision::RewriteInput(input),
                None => PreToolUseDecision::Continue,
            }
        } else {
            PreToolUseDecision::Continue
        }
    }

    /// Asks for the program to be run on a description of the call and its
    /// output; a hook of the other phase keeps the output.
    fn post(&self, input: &PostToolUseInput<'_>) -> (r: PostStep)
        ensures
            ({
                let payload = json::json_text(
                    post_payload(
                        input.tool_name@,
                        input.input@,
                        input.output.output@,
                        input.ctx.session_id@,
                        text::opt_text(input.ctx.working_dir),
                    ),
                );
                if self@.phase == HookPhase::Post && payload is Some {
                    r matches PostStep::Ask(request) && asks(request, self@, payload->0)
                } else {
                    r == PostStep::Decided(Ok(PostToolUseDecision::Continue))
                }
            }),
    {
        if self.phase != HookPhase::Post {
            return PostStep::Decided(Ok(PostToolUseDecision::Continue));
        }
        let mut fields: Vec<(String, Json)> = Vec::new();
        json::push_field(&mut fields, "event", json::text_value("PostToolUse"));
        json::push_field(&mut fields, "tool_name", json::text_value(input.tool_name));
        json::push_field(&mut fields, "tool_input", input.input.duplicate());
        json::push_field(
            &mut fields,
            "tool_output",
            json::text_value(input.output.output.as_str()),
        );
        json::push_field(
            &mut fields,
            "session_id",
            json::text_value(input.ctx.session_id.as_str()),
        );
        json::push_field(&mut fields, "cwd", working_dir_value(input.ctx));
        let payload = json::object(fields);
        assert(payload@->Object_0 =~= post_payload(
            input.tool_name@,
            input.input@,
            input.output.output@,
            input.ctx.session_id@,
            text::opt_text(input.ctx.working_dir),
        )->Object_0);
        match self.invoke(payload) {
            Some(request) => PostStep::Ask(request),
            None => PostStep::Decided(Ok(PostToolUseDecision::Continue)),
        }
    }

    /// The decision that the program's answer stands for.
    fn resume_post(
        &self,
        input: &PostToolUseInput<'_>,
        answer: Option<CommandDecision>,
    ) -> (r: PostToolUseDecision)
        ensures
            r@ == post_decision(input.output@, answer),
    {
        let decision = match answer {
            Some(decision) => decision,
            None => return PostToolUseDecision::Continue,
        };
        match decision.output {
            Some(replacement) => {
                let title = match &input.output.title {
                    Some(title) => Some(title.clone()),
                    None => None,
                };
                PostToolUseDecision::RewriteOutput(
                    ToolOutput {
                        output: replacement,
                        title,
                        metadata: None,
                        images: tool::copy_images(&input.output.images),
                    },
                )
            },
            None => PostToolUseDecision::Continue,
        }
    }
}

/// Command hooks fail open: a program that cannot be started, fails, runs out of
/// time, exits with an error or writes nothing gives no answer, and without an
/// answer a call goes on with its input and its output as they are.
pub proof fn law_failed_program_changes_nothing(
    end: CommandEnd,
    hook_name: Seq<char>,
    output: ToolOutputView,
)
    requires
        !(end matches CommandEnd::Exited { success: true, .. }) || text::trim(
            external_cli::lossy_text(end->stdout@),
        ).len() == 0,
    ensures
        super::answer_of(end) is None,
        pre_decision(hook_name, None) is Continue,
        post_decision(output, None) is Continue,
{
}

/// The answer of a program is what it wrote, without surrounding white space, where it
/// ended with success and that is not blank.
pub proof fn law_what_a_program_answers(end: CommandEnd)
    ensures
        super::answer_of(end) is Some <==> (end matches CommandEnd::Exited { success: true, .. })
            && text::trim(external_cli::lossy_text(end->stdout@)).len() > 0,
        super::answer_of(end) is Some ==> super::answer_of(end) == Some(
            text::trim(external_cli::lossy_text(end->stdout@)),
        ),
{
}

/// An updated input in an answer is put in, whatever the answer's word is. Without it
/// the word decides: `deny` and `block` deny, with the given reason or one that names
/// the hook; `rewriteInput` puts in the given input, if any; any other word, or none,
/// changes nothing.
pub proof fn law_what_an_answer_decides(hook_name: Seq<char>, d: CommandDecision)
    ensures
        d.updated_input is Some ==> pre_decision(hook_name, Some(d))
            == PreDecisionView::RewriteInput(d.updated_input->0@),
        d.updated_input is None && d.decision is Some && (d.decision->0@ == "deny"@
            || d.decision->0@ == "block"@) && d.reason is Some ==> pre_decision(hook_name, Some(d))
            == (PreDecisionView::Deny { reason: d.reason->0@ }),
        d.updated_input is None && d.decision is Some && (d.decision->0@ == "deny"@
            || d.decision->0@ == "block"@) && d.reason is None ==> pre_decision(hook_name, Some(d))
            == (PreDecisionView::Deny { reason: "blocked by hook "@ + hook_name }),
        d.updated_input is None && d.decision is Some && d.decision->0@ == "rewriteInput"@
            && d.input is Some ==> pre_decision(hook_name, Some(d))
            == PreDecisionView::RewriteInput(d.input->0@),
        d.updated_input is None && (d.decision is Some ==> d.decision->0@ != "deny"@
            && d.decision->0@ != "block"@ && (d.decision->0@ != "rewriteInput"@ || d.input is None))
            ==> pre_decision(hook_name, Some(d)) == PreDecisionView::Continue,
{
    reveal_strlit("deny");
    reveal_strlit("block");
    reveal_strlit("rewriteInput");
    assert("deny"@ != "rewriteInput"@) by {
        assert("deny"@[0] != "rewriteInput"@[0]);
    }
    assert("block"@ != "rewriteInput"@) by {
        assert("block"@[0] != "rewriteInput"@[0]);
    }
}

/// A text in an answer takes the place of the output's text; the output keeps its
/// title and its images. Without one the output stays.
pub proof fn law_a_new_output_keeps_title_and_images(output: ToolOutputView, d: CommandDecision)
    ensures
        d.output is Some ==> {
            let after = post_decision(output, Some(d));
            &&& after is RewriteOutput
            &&& after->RewriteOutput_0.output == d.output->0@
            &&& after->RewriteOutput_0.title == output.title
            &&& after->RewriteOutput_0.images == output.images
            &&& after->RewriteOutput_0.metadata is None
        },
        d.output is None ==> post_decision(output, Some(d)) == PostDecisionView::Continue,
{
}

/// A program is told the event, the tool and its input, the session and the directory
/// that it works in.
pub proof fn law_what_a_program_is_told_before(
    tool_name: Seq<char>,
    input: JsonView,
    session_id: Seq<char>,
    working_dir: Option<Seq<char>>,
)
    ensures
        ({
            let payload = pre_payload(tool_name, input, session_id, working_dir);
            &&& json::get_field(payload, "event"@) == Some(JsonView::Text("PreToolUse"@))
            &&& json::get_field(payload, "tool_name"@) == Some(JsonView::Text(tool_name))
            &&& json::get_field(payload, "tool_input"@) == Some(input)
            &&& json::get_field(payload, "session_id"@) == Some(JsonView::Text(session_id))
            &&& json::get_field(payload, "cwd"@) == Some(
                match working_dir {
                    Some(dir) => JsonView::Text(dir),
                    None => JsonView::Null,
                },
            )
        }),
{
    lemma_field_names();
    let fields = pre_payload(tool_name, input, session_id, working_dir)->Object_0;
    json::law_the_first_field_of_a_name_counts(fields, "event"@, 0);
    json::law_the_first_field_of_a_name_counts(fields, "tool_name"@, 1);
    json::law_the_first_field_of_a_name_counts(fields, "tool_input"@, 2);
    json::law_the_first_field_of_a_name_counts(fields, "session_id"@, 3);
    json::law_the_first_field_of_a_name_counts(fields, "cwd"@, 4);
}

/// After the tool has run, a program is told its output as well.
pub proof fn law_what_a_program_is_told_after(
    tool_name: Seq<char>,
    input: JsonView,
    output: Seq<char>,
    session_id: Seq<char>,
    working_dir: Option<Seq<char>>,
)
    ensures
        ({
            let payload = post_payload(tool_name, input, output, session_id, working_dir);
            &&& json::get_field(payload, "event"@) == Some(JsonView::Text("PostToolUse"@))
            &&& json::get_field(payload, "tool_name"@) == Some(JsonView::Text(tool_name))
            &&& json::get_field(payload, "tool_input"@) == Some(input)
            &&& json::get_field(payload, "tool_output"@) == Some(JsonView::Text(output))
            &&& json::get_field(payload, "session_id"@) == Some(JsonView::Text(session_id))
            &&& json::get_field(payload, "cwd"@) == Some(
                match working_dir {
                    Some(dir) => JsonView::Text(dir),
                    None => JsonView::Null,
                },
            )
        }),
{
    lemma_field_names();
    let fields = post_payload(tool_name, input, output, session_id, working_dir)->Object_0;
    json::law_the_first_field_of_a_name_counts(fields, "event"@, 0);
    json::law_the_first_field_of_a_name_counts(fields, "tool_name"@, 1);
    json::law_the_first_field_of_a_name_counts(fields, "tool_input"@, 2);
    json::law_the_first_field_of_a_name_counts(fields, "tool_output"@, 3);
    json::law_the_first_field_of_a_name_counts(fields, "session_id"@, 4);
    json::law_the_first_field_of_a_name_counts(fields, "cwd"@, 5);
}

/// The names of the fields differ from each other.
proof fn lemma_field_names()
    ensures
        "event"@ != "tool_name"@,
        "event"@ != "tool_input"@,
        "event"@ != "tool_output"@,
        "event"@ != "session_id"@,
        "event"@ != "cwd"@,
        "tool_name"@ != "tool_input"@,
        "tool_name"@ != "tool_output"@,
        "tool_name"@ != "session_id"@,
        "tool_name"@ != "cwd"@,
        "tool_input"@ != "tool_output"@,
        "tool_input"@ != "session_id"@,
        "tool_input"@ != "cwd"@,
        "tool_output"@ != "session_id"@,
        "tool_output"@ != "cwd"@,
        "session_id"@ != "cwd"@,
{
    reveal_strlit("event");
    reveal_strlit("tool_name");
    reveal_strlit("tool_input");
    reveal_strlit("tool_output");
    reveal_strlit("session_id");
    reveal_strlit("cwd");
    assert("event"@.len() == 5 && "cwd"@.len() == 3);
    assert("tool_name"@.len() == 9 && "tool_input"@.len() == 10 && "tool_output"@.len() == 11);
    assert("session_id"@.len() == 10 && "session_id"@[0] == 's' && "tool_input"@[0] == 't');
}

} // verus!
