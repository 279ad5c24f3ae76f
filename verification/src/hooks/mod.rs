//! Tool-call hooks.
//!
//! Hooks intercept every tool call. A hook may observe a call, deny it, rewrite
//! its input, or rewrite its output. There are two kinds:
//!
//! - native hooks, which are implementations of [`Hook`] in this process;
//! - command hooks, which are external programs that read a JSON payload and
//!   answer with a JSON decision.
//!
//! Hooks fail open: an error is treated as "continue", so that no hook can break
//! tool execution.
//!
//! A hook whose decision needs an external program cannot decide on its own. It
//! asks for the program to be run ([`PreStep::Ask`], [`PostStep::Ask`]) and
//! decides when it is handed the reply. The registry works the same way: it names
//! the hook to consult next and is resumed with that hook's reply.

use vstd::prelude::*;

use crate::external_cli;
use crate::json::{Json, JsonView};
use crate::text;
use crate::tool::{ToolContext, ToolOutput, ToolOutputView};

pub mod command_hook;
pub mod config;
pub mod matcher;
pub mod rtk_rewrite;

pub use command_hook::CommandHook;
pub use config::{HookConfig, HookConfigEntry};
pub use matcher::HookMatcher;
pub use rtk_rewrite::{rewrite_bash_command, RtkRewriteHook};

verus! {

/// Input to a hook that runs before a tool call.
pub struct PreToolUseInput<'a> {
    pub tool_name: &'a str,
    pub input: &'a Json,
    pub ctx: &'a ToolContext,
}

/// Decision of a hook that runs before a tool call.
#[derive(Debug)]
pub enum PreToolUseDecision {
    /// Proceed unchanged.
    Continue,
    /// Replace the tool input with this value.
    RewriteInput(Json),
    /// Block the tool call; `reason` becomes the tool error.
    Deny { reason: String },
}

/// What a [`PreToolUseDecision`] means.
pub enum PreDecisionView {
    Continue,
    RewriteInput(JsonView),
    Deny { reason: Seq<char> },
}

impl View for PreToolUseDecision {
    type V = PreDecisionView;

    open spec fn view(&self) -> PreDecisionView {
        match *self {
            PreToolUseDecision::Continue => PreDecisionView::Continue,
            PreToolUseDecision::RewriteInput(input) => PreDecisionView::RewriteInput(input@),
            PreToolUseDecision::Deny { reason } => PreDecisionView::Deny { reason: reason@ },
        }
    }
}

/// Input to a hook that runs after a tool call.
pub struct PostToolUseInput<'a> {
    pub tool_name: &'a str,
    pub input: &'a Json,
    pub output: &'a ToolOutput,
    pub ctx: &'a ToolContext,
}

/// Decision of a hook that runs after a tool call.
#[derive(Debug)]
pub enum PostToolUseDecision {
    /// Keep the output unchanged.
    Continue,
    /// Replace the tool output.
    RewriteOutput(ToolOutput),
}

/// What a [`PostToolUseDecision`] means.
pub enum PostDecisionView {
    Continue,
    RewriteOutput(ToolOutputView),
}

impl View for PostToolUseDecision {
    type V = PostDecisionView;

    open spec fn view(&self) -> PostDecisionView {
        match *self {
            PostToolUseDecision::Continue => PostDecisionView::Continue,
            PostToolUseDecision::RewriteOutput(output) => PostDecisionView::RewriteOutput(output@),
        }
    }
}

/// An error of a hook.
#[derive(Debug)]
pub struct HookError {
    pub message: String,
}

/// The request to run an external program: it gets `payload` on its standard
/// input and has `timeout_ms` milliseconds to answer.
#[derive(Debug)]
pub struct CommandRequest {
    pub program: String,
    pub payload: String,
    pub timeout_ms: u64,
}

/// The decision that an external program wrote.
#[derive(Debug)]
pub struct CommandDecision {
    pub decision: Option<String>,
    pub reason: Option<String>,
    pub input: Option<Json>,
    pub updated_input: Option<Json>,
    pub output: Option<String>,
}

/// How far a hook gets on its own before a tool call.
#[derive(Debug)]
pub enum PreStep {
    Decided(Result<PreToolUseDecision, HookError>),
    /// The decision needs the answer of an external program.
    Ask(CommandRequest),
}

/// How far a hook gets on its own after a tool call.
#[derive(Debug)]
pub enum PostStep {
    Decided(Result<PostToolUseDecision, HookError>),
    /// The decision needs the answer of an external program.
    Ask(CommandRequest),
}

/// A hook that intercepts tool calls. A hook that says nothing else lets every
/// call pass as it is.
pub trait Hook: Send + Sync {
    /// Stable identifier for logging.
    fn name(&self) -> (r: &str);

    /// Whether this hook applies to the given (resolved) tool name.
    fn matches(&self, tool_name: &str) -> (r: bool);

    /// Consults the hook before a tool call.
    fn pre(&self, input: &PreToolUseInput<'_>) -> (r: PreStep)
        default_ensures
            r == PreStep::Decided(Ok(PreToolUseDecision::Continue)),
    {
        PreStep::Decided(Ok(PreToolUseDecision::Continue))
    }

    /// The decision before a tool call, given the answer of the external program
    /// that the hook asked for; none where there is no usable answer.
    fn resume_pre(&self, answer: Option<CommandDecision>) -> (r: PreToolUseDecision)
        default_ensures
            r == PreToolUseDecision::Continue,
    {
        PreToolUseDecision::Continue
    }

    /// Consults the hook after a tool call.
    fn post(&self, input: &PostToolUseInput<'_>) -> (r: PostStep)
        default_ensures
            r == PostStep::Decided(Ok(PostToolUseDecision::Continue)),
    {
        PostStep::Decided(Ok(PostToolUseDecision::Continue))
    }

    /// The decision after a tool call, given the answer of the external program.
    fn resume_post(
        &self,
        input: &PostToolUseInput<'_>,
        answer: Option<CommandDecision>,
    ) -> (r: PostToolUseDecision)
        default_ensures
            r == PostToolUseDecision::Continue,
    {
        PostToolUseDecision::Continue
    }
}

/// Result of running the hooks before a tool call.
#[derive(Debug)]
pub enum PreOutcome {
    /// Proceed with this (possibly rewritten) input.
    Proceed { input: Json },
    /// Block the call with this reason.
    Deny { reason: String },
}

/// The hooks consulted before a tool call, so far: the input as the hooks that
/// have replied left it, or the reason of the one that denied the call.
#[derive(Debug)]
pub struct PreRun {
    pub state: PreOutcome,
    /// The position of the next hook.
    pub next: usize,
}

/// Where the hooks before a tool call stand.
#[derive(Debug)]
pub enum PreProgress {
    /// Consult the hook at `index`, which sees the input in `run`.
    Consult { index: usize, run: PreRun },
    Done(PreOutcome),
}

/// The hooks consulted after a tool call, so far.
#[derive(Debug)]
pub struct PostRun {
    pub output: ToolOutput,
    /// The position of the next hook.
    pub next: usize,
}

/// Where the hooks after a tool call stand.
#[derive(Debug)]
pub enum PostProgress {
    /// Consult the hook at `index`, which sees the output in `run`.
    Consult { index: usize, run: PostRun },
    Done(ToolOutput),
}

/// What one reply makes of the state before a tool call: nothing changes a
/// denial, an error counts as "continue".
pub open spec fn pre_after(
    state: PreOutcome,
    reply: Result<PreToolUseDecision, HookError>,
) -> PreOutcome {
    match (state, reply) {
        (PreOutcome::Deny { .. }, _) => state,
        (_, Ok(PreToolUseDecision::RewriteInput(input))) => PreOutcome::Proceed { input },
        (_, Ok(PreToolUseDecision::Deny { reason })) => PreOutcome::Deny { reason },
        _ => state,
    }
}

/// What the replies of several hooks, in order, make of the state.
pub open spec fn pre_after_all(
    state: PreOutcome,
    replies: Seq<Result<PreToolUseDecision, HookError>>,
) -> PreOutcome
    decreases replies.len(),
{
    if replies.len() == 0 {
        state
    } else {
        pre_after(pre_after_all(state, replies.drop_last()), replies.last())
    }
}

/// What one reply makes of the output of a tool call.
pub open spec fn post_after(
    output: ToolOutput,
    reply: Result<PostToolUseDecision, HookError>,
) -> ToolOutput {
    match reply {
        Ok(PostToolUseDecision::RewriteOutput(next)) => next,
        _ => output,
    }
}

/// What the replies of several hooks, in order, make of the output.
pub open spec fn post_after_all(
    output: ToolOutput,
    replies: Seq<Result<PostToolUseDecision, HookError>>,
) -> ToolOutput
    decreases replies.len(),
{
    if replies.len() == 0 {
        output
    } else {
        post_after(post_after_all(output, replies.drop_last()), replies.last())
    }
}

impl PreRun {
    /// No hook has been consulted yet.
    pub fn start(input: Json) -> (r: PreRun)
        ensures
            r == (PreRun { state: PreOutcome::Proceed { input }, next: 0 }),
    {
        PreRun { state: PreOutcome::Proceed { input }, next: 0 }
    }

    /// Takes in the reply of the hook that was consulted.
    pub fn settle(self, reply: Result<PreToolUseDecision, HookError>) -> (r: PreRun)
        ensures
            r == (PreRun { state: pre_after(self.state, reply), next: self.next }),
    {
        let next = self.next;
        let state = match (self.state, reply) {
            (PreOutcome::Deny { reason }, _) => PreOutcome::Deny { reason },
            (_, Ok(PreToolUseDecision::RewriteInput(input))) => PreOutcome::Proceed { input },
            (_, Ok(PreToolUseDecision::Deny { reason })) => PreOutcome::Deny { reason },
            (state, _) => state,
        };
        PreRun { state, next }
    }
}

impl PostRun {
    /// No hook has been consulted yet.
    pub fn start(output: ToolOutput) -> (r: PostRun)
        ensures
            r == (PostRun { output, next: 0 }),
    {
        PostRun { output, next: 0 }
    }

    /// Takes in the reply of the hook that was consulted.
    pub fn settle(self, reply: Result<PostToolUseDecision, HookError>) -> (r: PostRun)
        ensures
            r == (PostRun { output: post_after(self.output, reply), next: self.next }),
    {
        let next = self.next;
        let output = match reply {
            Ok(PostToolUseDecision::RewriteOutput(output)) => output,
            _ => self.output,
        };
        PostRun { output, next }
    }
}

impl Clone for PreToolUseDecision {
    /// A copy of the decision.
    fn clone(&self) -> (r: PreToolUseDecision)
        ensures
            r@ == self@,
    {
        match self {
            PreToolUseDecision::Continue => PreToolUseDecision::Continue,
            PreToolUseDecision::RewriteInput(input) => PreToolUseDecision::RewriteInput(
                input.clone(),
            ),
            PreToolUseDecision::Deny { reason } => PreToolUseDecision::Deny {
                reason: reason.clone(),
            },
        }
    }
}

impl Clone for PostToolUseDecision {
    /// A copy of the decision.
    fn clone(&self) -> (r: PostToolUseDecision)
        ensures
            r@ == self@,
    {
        match self {
            PostToolUseDecision::Continue => PostToolUseDecision::Continue,
            PostToolUseDecision::RewriteOutput(output) => PostToolUseDecision::RewriteOutput(
                output.clone(),
            ),
        }
    }
}

/// Ordered collection of hooks consulted for every tool call: native hooks in
/// the order of their registration, then command hooks in the order of the
/// configuration.
pub struct HookRegistry<N: Hook> {
    pub natives: Vec<N>,
    pub commands: Vec<CommandHook>,
}

impl<N: Hook> Default for HookRegistry<N> {
    /// A registry without hooks.
    fn default() -> (r: Self)
        ensures
            r.natives@.len() == 0,
            r.commands@.len() == 0,
    {
        HookRegistry::new()
    }
}

impl<N: Hook + Clone> Clone for HookRegistry<N> {
    /// A registry of the same hooks.
    fn clone(&self) -> (r: Self)
        ensures
            r.natives@.len() == self.natives@.len(),
            forall|i: int|
                0 <= i < self.natives@.len() ==> vstd::pervasive::cloned::<N>(
                    self.natives@[i],
                    #[trigger] r.natives@[i],
                ),
            command_hook::hooks_view(r.commands@) == command_hook::hooks_view(self.commands@),
    {
        let natives = self.natives.clone();
        let commands = self.commands.clone();
        assert(command_hook::hooks_view(commands@) =~= command_hook::hooks_view(self.commands@)) by {
            assert forall|i: int| 0 <= i < commands@.len() implies (#[trigger] commands@[i])@
                == self.commands@[i]@ by {
                assert(vstd::pervasive::cloned::<CommandHook>(self.commands@[i], commands@[i]));
            }
        }
        HookRegistry { natives, commands }
    }
}

/// A hook of a registry.
pub enum HookRef<'a, N: Hook> {
    Native(&'a N),
    Command(&'a CommandHook),
}

impl<N: Hook> HookRegistry<N> {
    /// The number of hooks.
    pub open spec fn count(&self) -> nat {
        self.natives@.len() + self.commands@.len()
    }

    /// Whether the hook at position `i` applies to the tool `tool_name` may be
    /// answered with `answer`: a native hook is asked, and the matcher of a command
    /// hook decides.
    pub open spec fn answers_at(&self, i: int, tool_name: &str, answer: bool) -> bool {
        if i < self.natives@.len() {
            call_ensures(N::matches, (&self.natives@[i], tool_name), answer)
        } else {
            answer == matcher::accepts(
                self.commands@[i - self.natives@.len()]@.matcher,
                tool_name@,
            )
        }
    }

    /// `applies` tells what was answered for the hooks from position `from` up to
    /// position `to`.
    pub open spec fn answered(
        &self,
        tool_name: &str,
        applies: spec_fn(int) -> bool,
        from: int,
        to: int,
    ) -> bool {
        forall|j: int| from <= j < to ==> self.answers_at(j, tool_name, #[trigger] applies(j))
    }

    /// `i` is the first position from `from` on whose hook applies.
    pub open spec fn is_next(&self, i: int, from: int, applies: spec_fn(int) -> bool) -> bool {
        &&& from <= i < self.count()
        &&& applies(i)
        &&& forall|j: int| from <= j < i ==> !#[trigger] applies(j)
    }

    /// No hook from position `from` on applies.
    pub open spec fn none_left(&self, from: int, applies: spec_fn(int) -> bool) -> bool {
        forall|j: int| from <= j < self.count() ==> !#[trigger] applies(j)
    }

    /// A registry without hooks.
    pub fn new() -> (r: Self)
        ensures
            r.natives@.len() == 0,
            r.commands@.len() == 0,
    {
        HookRegistry { natives: Vec::new(), commands: Vec::new() }
    }

    /// Registers a native hook: behind the other native hooks, before every
    /// command hook.
    pub fn register_native(&mut self, hook: N)
        ensures
            final(self).natives@ == old(self).natives@.push(hook),
            final(self).commands@ == old(self).commands@,
    {
        self.natives.push(hook);
    }

    /// Appends the command hooks of a configuration. `home` is the user's home
    /// directory.
    pub fn extend_from_config(&mut self, config: &HookConfig, home: Option<&str>)
        ensures
            final(self).natives@ == old(self).natives@,
            command_hook::hooks_view(final(self).commands@) == command_hook::hooks_view(
                old(self).commands@,
            ) + config::configured_hooks(config@, text::opt_str(home)),
    {
        let ghost before = command_hook::hooks_view(self.commands@);
        let mut more = config.command_hooks(home);
        let ghost added = command_hook::hooks_view(more@);
        self.commands.append(&mut more);
        assert(command_hook::hooks_view(self.commands@) =~= before + added);
    }

    /// Appends the command hooks of a configuration that was looked for: nothing
    /// where there is none or where it could not be loaded.
    pub fn load_global_command_hooks(
        &mut self,
        loaded: &Result<Option<HookConfig>, HookError>,
        home: Option<&str>,
    )
        ensures
            final(self).natives@ == old(self).natives@,
            command_hook::hooks_view(final(self).commands@) == command_hook::hooks_view(
                old(self).commands@,
            ) + match *loaded {
                Ok(Some(config)) => config::configured_hooks(config@, text::opt_str(home)),
                _ => Seq::empty(),
            },
    {
        match loaded {
            Ok(Some(config)) => self.extend_from_config(config, home),
            _ => {
                assert(command_hook::hooks_view(self.commands@) + Seq::empty()
                    =~= command_hook::hooks_view(self.commands@));
            },
        }
    }

    /// Whether there are no hooks.
    pub fn is_empty(&self) -> (r: bool)
        ensures
            r == (self.count() == 0),
    {
        self.natives.len() == 0 && self.commands.len() == 0
    }

    /// The number of hooks.
    pub fn len(&self) -> (r: usize)
        requires
            self.count() <= usize::MAX,
        ensures
            r == self.count(),
    {
        self.natives.len() + self.commands.len()
    }

    /// The hook at position `index`.
    pub fn hook_at(&self, index: usize) -> (r: HookRef<'_, N>)
        requires
            index < self.count(),
        ensures
            match r {
                HookRef::Native(hook) => index < self.natives@.len() && *hook
                    == self.natives@[index as int],
                HookRef::Command(hook) => index >= self.natives@.len() && *hook
                    == self.commands@[index - self.natives@.len()],
            },
    {
        if index < self.natives.len() {
            HookRef::Native(&self.natives[index])
        } else {
            HookRef::Command(&self.commands[index - self.natives.len()])
        }
    }

    /// The name of the hook at position `index`.
    pub fn name_at(&self, index: usize) -> (r: &str)
        requires
            index < self.count(),
        ensures
            if index < self.natives@.len() {
                call_ensures(N::name, (&self.natives@[index as int],), r)
            } else {
                r@ == self.commands@[index - self.natives@.len()]@.name
            },
    {
        if index < self.natives.len() {
            self.natives[index].name()
        } else {
            self.commands[index - self.natives.len()].name()
        }
    }

    /// The first position from `from` on whose hook applies to `tool_name`.
    fn next_hook(&self, tool_name: &str, from: usize) -> (r: Option<usize>)
        requires
            self.count() <= usize::MAX,
        ensures
            match r {
                Some(i) => {
                    &&& from <= i < self.count()
                    &&& self.answers_at(i as int, tool_name, true)
                    &&& forall|j: int| from <= j < i ==> self.answers_at(j, tool_name, false)
                },
                None => forall|j: int|
                    from <= j < self.count() ==> self.answers_at(j, tool_name, false),
            },
    {
        let total = self.natives.len() + self.commands.len();
        let mut i: usize = from;
        while i < total
            invariant
                total == self.count(),
                from <= i,
                i <= total || i == from,
                forall|j: int| from <= j < i ==> self.answers_at(j, tool_name, false),
            decreases total - i,
        {
            let applies = if i < self.natives.len() {
                self.natives[i].matches(tool_name)
            } else {
                self.commands[i - self.natives.len()].matches(tool_name)
            };
            if applies {
                return Some(i);
            }
            i += 1;
        }
        None
    }

    /// What the hooks from position `from` on make of `input`, where `applies` tells
    /// which of them apply, and `hooks` gives the reply of the hook at a position to
    /// an input: those that apply are consulted in order, each sees what the one
    /// before it left, and the first denial ends it.
    pub open spec fn pre_chain(
        &self,
        applies: spec_fn(int) -> bool,
        hooks: spec_fn(int, Json) -> Result<PreToolUseDecision, HookError>,
        from: int,
        input: Json,
    ) -> PreOutcome
        decreases self.count() - from,
    {
        if from >= self.count() {
            PreOutcome::Proceed { input }
        } else if !applies(from) {
            self.pre_chain(applies, hooks, from + 1, input)
        } else {
            match hooks(from, input) {
                Ok(PreToolUseDecision::Deny { reason }) => PreOutcome::Deny { reason },
                Ok(PreToolUseDecision::RewriteInput(next)) => self.pre_chain(
                    applies,
                    hooks,
                    from + 1,
                    next,
                ),
                _ => self.pre_chain(applies, hooks, from + 1, input),
            }
        }
    }

    /// What the hooks that `run` has not consulted yet make of it.
    pub open spec fn pre_result(
        &self,
        applies: spec_fn(int) -> bool,
        hooks: spec_fn(int, Json) -> Result<PreToolUseDecision, HookError>,
        run: PreRun,
    ) -> PreOutcome {
        match run.state {
            PreOutcome::Deny { reason } => run.state,
            PreOutcome::Proceed { input } => self.pre_chain(
                applies,
                hooks,
                run.next as int,
                input,
            ),
        }
    }

    /// What the hooks from position `from` on make of `output`, where `applies` tells
    /// which of them apply, and `hooks` gives the reply of the hook at a position to
    /// an output.
    pub open spec fn post_chain(
        &self,
        applies: spec_fn(int) -> bool,
        hooks: spec_fn(int, ToolOutput) -> Result<PostToolUseDecision, HookError>,
        from: int,
        output: ToolOutput,
    ) -> ToolOutput
        decreases self.count() - from,
    {
        if from >= self.count() {
            output
        } else if !applies(from) {
            self.post_chain(applies, hooks, from + 1, output)
        } else {
            match hooks(from, output) {
                Ok(PostToolUseDecision::RewriteOutput(next)) => self.post_chain(
                    applies,
                    hooks,
                    from + 1,
                    next,
                ),
                _ => self.post_chain(applies, hooks, from + 1, output),
            }
        }
    }

    /// How far the hooks before a call get from `run` on without another reply.
    /// `applies` tells which of them apply.
    pub open spec fn pre_progress(
        &self,
        applies: spec_fn(int) -> bool,
        run: PreRun,
        progress: PreProgress,
    ) -> bool {
        match progress {
            PreProgress::Consult { index, run: rest } => {
                &&& run.state is Proceed
                &&& self.is_next(index as int, run.next as int, applies)
                &&& rest.state == run.state
                &&& rest.next == index + 1
            },
            PreProgress::Done(outcome) => {
                &&& outcome == run.state
                &&& run.state is Deny || self.none_left(run.next as int, applies)
            },
        }
    }

    /// How far the hooks after a call get from `run` on without another reply.
    /// `applies` tells which of them apply.
    pub open spec fn post_progress(
        &self,
        applies: spec_fn(int) -> bool,
        run: PostRun,
        progress: PostProgress,
    ) -> bool {
        match progress {
            PostProgress::Consult { index, run: rest } => {
                &&& self.is_next(index as int, run.next as int, applies)
                &&& rest.output == run.output
                &&& rest.next == index + 1
            },
            PostProgress::Done(output) => {
                &&& output == run.output
                &&& self.none_left(run.next as int, applies)
            },
        }
    }

    /// Goes on with the hooks before a call of `tool_name`: names the next hook
    /// that applies, or the outcome once a hook has denied the call or none is
    /// left.
    pub fn run_pre(&self, tool_name: &str, run: PreRun) -> (r: PreProgress)
        requires
            self.count() <= usize::MAX,
        ensures
            exists|applies: spec_fn(int) -> bool|
                {
                    &&& #[trigger] self.pre_progress(applies, run, r)
                    &&& self.answered(
                        tool_name,
                        applies,
                        run.next as int,
                        match r {
                            PreProgress::Consult { index, .. } => index + 1,
                            PreProgress::Done(PreOutcome::Deny { .. }) => run.next as int,
                            PreProgress::Done(_) => self.count() as int,
                        },
                    )
                },
    {
        let from = run.next;
        match run.state {
            PreOutcome::Deny { reason } => {
                let ghost applies = |j: int| false;
                let r = PreProgress::Done(PreOutcome::Deny { reason });
                assert(self.pre_progress(applies, run, r));
                r
            },
            PreOutcome::Proceed { input } => match self.next_hook(tool_name, from) {
                Some(index) => {
                    let ghost applies = |j: int| j == index;
                    let r = PreProgress::Consult {
                        index,
                        run: PreRun { state: PreOutcome::Proceed { input }, next: index + 1 },
                    };
                    assert(self.pre_progress(applies, run, r));
                    r
                },
                None => {
                    let ghost applies = |j: int| false;
                    let r = PreProgress::Done(PreOutcome::Proceed { input });
                    assert(self.pre_progress(applies, run, r));
                    r
                },
            },
        }
    }

    /// Goes on with the hooks after a call of `tool_name`: names the next hook
    /// that applies, or the final output once none is left.
    pub fn run_post(&self, tool_name: &str, run: PostRun) -> (r: PostProgress)
        requires
            self.count() <= usize::MAX,
        ensures
            exists|applies: spec_fn(int) -> bool|
                {
                    &&& #[trigger] self.post_progress(applies, run, r)
                    &&& self.answered(
                        tool_name,
                        applies,
                        run.next as int,
                        match r {
                            PostProgress::Consult { index, .. } => index + 1,
                            PostProgress::Done(_) => self.count() as int,
                        },
                    )
                },
    {
        let from = run.next;
        match self.next_hook(tool_name, from) {
            Some(index) => {
                let ghost applies = |j: int| j == index;
                let r = PostProgress::Consult {
                    index,
                    run: PostRun { output: run.output, next: index + 1 },
                };
                assert(self.post_progress(applies, run, r));
                r
            },
            None => {
                let ghost applies = |j: int| false;
                let r = PostProgress::Done(run.output);
                assert(self.post_progress(applies, run, r));
                r
            },
        }
    }
}

/// Consulting the hooks one by one, as [`HookRegistry::run_pre`] names them and
/// [`PreRun::settle`] takes in their replies, gives what the chain of hooks makes
/// of the input: the outcome at the end is the chain's, and each reply keeps it.
pub proof fn law_run_pre_follows_the_chain<N: Hook>(
    registry: &HookRegistry<N>,
    applies: spec_fn(int) -> bool,
    hooks: spec_fn(int, Json) -> Result<PreToolUseDecision, HookError>,
    run: PreRun,
    progress: PreProgress,
)
    requires
        registry.pre_progress(applies, run, progress),
    ensures
        match progress {
            PreProgress::Done(outcome) => registry.pre_result(applies, hooks, run) == outcome,
            PreProgress::Consult { index, run: rest } => registry.pre_result(applies, hooks, run)
                == registry.pre_result(
                applies,
                hooks,
                PreRun {
                    state: pre_after(rest.state, hooks(index as int, rest.state->input)),
                    next: rest.next,
                },
            ),
        },
{
    match progress {
        PreProgress::Done(_) => {
            if run.state is Proceed {
                lemma_pre_chain_skips(
                    registry,
                    applies,
                    hooks,
                    run.next as int,
                    registry.count() as int,
                    run.state->input,
                );
            }
        },
        PreProgress::Consult { index, run: rest } => {
            lemma_pre_chain_skips(
                registry,
                applies,
                hooks,
                run.next as int,
                index as int,
                run.state->input,
            );
        },
    }
}

/// The same of the hooks after a call: [`HookRegistry::run_post`] and
/// [`PostRun::settle`] together give what the chain of hooks makes of the output.
pub proof fn law_run_post_follows_the_chain<N: Hook>(
    registry: &HookRegistry<N>,
    applies: spec_fn(int) -> bool,
    hooks: spec_fn(int, ToolOutput) -> Result<PostToolUseDecision, HookError>,
    run: PostRun,
    progress: PostProgress,
)
    requires
        registry.post_progress(applies, run, progress),
    ensures
        registry.post_chain(applies, hooks, run.next as int, run.output) == match progress {
            PostProgress::Done(output) => output,
            PostProgress::Consult { index, run: rest } => registry.post_chain(
                applies,
                hooks,
                rest.next as int,
                post_after(rest.output, hooks(index as int, rest.output)),
            ),
        },
{
    let to = match progress {
        PostProgress::Done(_) => registry.count() as int,
        PostProgress::Consult { index, .. } => index as int,
    };
    lemma_post_chain_skips(registry, applies, hooks, run.next as int, to, run.output);
}

/// Where no hook applies, a call goes on with its input and its output as they
/// are.
pub proof fn law_no_hook_no_change<N: Hook>(
    registry: &HookRegistry<N>,
    applies: spec_fn(int) -> bool,
    pre_hooks: spec_fn(int, Json) -> Result<PreToolUseDecision, HookError>,
    post_hooks: spec_fn(int, ToolOutput) -> Result<PostToolUseDecision, HookError>,
    input: Json,
    output: ToolOutput,
)
    requires
        registry.none_left(0, applies),
    ensures
        registry.pre_chain(applies, pre_hooks, 0, input) == (PreOutcome::Proceed { input }),
        registry.post_chain(applies, post_hooks, 0, output) == output,
{
    let end = registry.count() as int;
    lemma_pre_chain_skips(registry, applies, pre_hooks, 0, end, input);
    lemma_post_chain_skips(registry, applies, post_hooks, 0, end, output);
}

/// The first denial decides: whatever is replied after it, the outcome is that
/// denial.
pub proof fn law_first_denial_decides(
    input: Json,
    replies: Seq<Result<PreToolUseDecision, HookError>>,
    first: int,
)
    requires
        0 <= first < replies.len(),
        replies[first] matches Ok(PreToolUseDecision::Deny { .. }),
        forall|i: int|
            0 <= i < first ==> !((#[trigger] replies[i]) matches Ok(
                PreToolUseDecision::Deny { .. },
            )),
    ensures
        pre_after_all(PreOutcome::Proceed { input }, replies) == (PreOutcome::Deny {
            reason: replies[first]->Ok_0->reason,
        }),
    decreases replies.len(),
{
    if first < replies.len() - 1 {
        law_first_denial_decides(input, replies.drop_last(), first);
    } else {
        lemma_no_denial_proceeds(input, replies.drop_last());
    }
}

/// Without a denial a call goes on, with the input that the last rewrite gave, or
/// its own where there is none.
pub proof fn law_last_rewrite_counts(
    input: Json,
    replies: Seq<Result<PreToolUseDecision, HookError>>,
    last: int,
)
    requires
        -1 <= last < replies.len(),
        last >= 0 ==> replies[last] matches Ok(PreToolUseDecision::RewriteInput(_)),
        forall|i: int|
            0 <= i < replies.len() ==> !((#[trigger] replies[i]) matches Ok(
                PreToolUseDecision::Deny { .. },
            )),
        forall|i: int|
            last < i < replies.len() ==> !((#[trigger] replies[i]) matches Ok(
                PreToolUseDecision::RewriteInput(_),
            )),
    ensures
        pre_after_all(PreOutcome::Proceed { input }, replies) == (PreOutcome::Proceed {
            input: if last >= 0 {
                replies[last]->Ok_0->RewriteInput_0
            } else {
                input
            },
        }),
    decreases replies.len(),
{
    if replies.len() == 0 {
    } else if last < replies.len() - 1 {
        assert(replies.last() == replies[replies.len() - 1]);
        law_last_rewrite_counts(input, replies.drop_last(), last);
    } else {
        lemma_no_denial_proceeds(input, replies.drop_last());
    }
}

/// Hooks fail open: a reply that is an error counts as "continue", before a call
/// and after it.
pub proof fn law_errors_count_as_continue(
    state: PreOutcome,
    output: ToolOutput,
    error: HookError,
)
    ensures
        pre_after(state, Err(error)) == state,
        pre_after(state, Err(error)) == pre_after(state, Ok(PreToolUseDecision::Continue)),
        post_after(output, Err(error)) == output,
        post_after(output, Err(error)) == post_after(output, Ok(PostToolUseDecision::Continue)),
{
}

/// After a call, the last replacement of the output counts; without one the
/// output stays.
pub proof fn law_last_replacement_counts(
    output: ToolOutput,
    replies: Seq<Result<PostToolUseDecision, HookError>>,
    last: int,
)
    requires
        -1 <= last < replies.len(),
        last >= 0 ==> replies[last] matches Ok(PostToolUseDecision::RewriteOutput(_)),
        forall|i: int|
            last < i < replies.len() ==> !((#[trigger] replies[i]) matches Ok(
                PostToolUseDecision::RewriteOutput(_),
            )),
    ensures
        post_after_all(output, replies) == if last >= 0 {
            replies[last]->Ok_0->RewriteOutput_0
        } else {
            output
        },
    decreases replies.len(),
{
    if replies.len() > 0 && last < replies.len() - 1 {
        assert(replies.last() == replies[replies.len() - 1]);
        law_last_replacement_counts(output, replies.drop_last(), last);
    }
}

proof fn lemma_no_denial_proceeds(
    input: Json,
    replies: Seq<Result<PreToolUseDecision, HookError>>,
)
    requires
        forall|i: int|
            0 <= i < replies.len() ==> !((#[trigger] replies[i]) matches Ok(
                PreToolUseDecision::Deny { .. },
            )),
    ensures
        pre_after_all(PreOutcome::Proceed { input }, replies) is Proceed,
    decreases replies.len(),
{
    if replies.len() > 0 {
        assert(replies.last() == replies[replies.len() - 1]);
        lemma_no_denial_proceeds(input, replies.drop_last());
    }
}

proof fn lemma_pre_chain_skips<N: Hook>(
    registry: &HookRegistry<N>,
    applies: spec_fn(int) -> bool,
    hooks: spec_fn(int, Json) -> Result<PreToolUseDecision, HookError>,
    from: int,
    to: int,
    input: Json,
)
    requires
        to <= registry.count(),
        forall|j: int| from <= j < to ==> !#[trigger] applies(j),
    ensures
        from <= to ==> registry.pre_chain(applies, hooks, from, input) == registry.pre_chain(
            applies,
            hooks,
            to,
            input,
        ),
    decreases to - from,
{
    if from < to {
        lemma_pre_chain_skips(registry, applies, hooks, from + 1, to, input);
    }
}

proof fn lemma_post_chain_skips<N: Hook>(
    registry: &HookRegistry<N>,
    applies: spec_fn(int) -> bool,
    hooks: spec_fn(int, ToolOutput) -> Result<PostToolUseDecision, HookError>,
    from: int,
    to: int,
    output: ToolOutput,
)
    requires
        to <= registry.count(),
        forall|j: int| from <= j < to ==> !#[trigger] applies(j),
    ensures
        from <= to ==> registry.post_chain(applies, hooks, from, output) == registry.post_chain(
            applies,
            hooks,
            to,
            output,
        ),
    decreases to - from,
{
    if from < to {
        lemma_post_chain_skips(registry, applies, hooks, from + 1, to, output);
    }
}

/// How the run of a command hook's program ended.
#[derive(Debug)]
pub enum CommandEnd {
    /// It could not be started.
    NotStarted,
    /// It was started, and waiting for it failed.
    Failed,
    /// It did not end in time.
    TimedOut,
    /// It ended, after it wrote `stdout`.
    Exited { success: bool, stdout: Vec<u8> },
}

/// What a command hook's program answered: what it wrote, without surrounding
/// white space. A program that failed in any way, or wrote nothing, gave no
/// answer.
pub open spec fn answer_of(end: CommandEnd) -> Option<Seq<char>> {
    match end {
        CommandEnd::Exited { success: true, stdout } => {
            let answer = text::trim(external_cli::lossy_text(stdout@));
            if answer.len() == 0 {
                None
            } else {
                Some(answer)
            }
        },
        _ => None,
    }
}

/// What a command hook's program answered.
pub fn captured_answer(end: &CommandEnd) -> (r: Option<String>)
    ensures
        text::opt_text(r) == answer_of(*end),
{
    match end {
        CommandEnd::Exited { success, stdout } => {
            if !*success {
                return None;
            }
            let written = external_cli::decode_lossy(stdout.as_slice());
            trimmed_answer(written.as_str())
        },
        _ => None,
    }
}

/// What a program answered that wrote `written`.
pub fn trimmed_answer(written: &str) -> (r: Option<String>)
    ensures
        text::opt_text(r) == {
            let answer = text::trim(written@);
            if answer.len() == 0 {
                None
            } else {
                Some(answer)
            }
        },
{
    let answer = text::trimmed(written);
    if answer.as_str().is_empty() {
        None
    } else {
        Some(answer)
    }
}

/// No hook is skipped and none is consulted in vain: the next one is the first from
/// the run's place on that applies, it sees the input as it then is, and the run ends
/// only where none is left or the call was denied.
pub proof fn law_no_hook_is_skipped_before<N: Hook>(
    registry: &HookRegistry<N>,
    applies: spec_fn(int) -> bool,
    run: PreRun,
    progress: PreProgress,
)
    requires
        registry.pre_progress(applies, run, progress),
    ensures
        match progress {
            PreProgress::Consult { index, run: rest } => {
                &&& run.next <= index < registry.natives@.len() + registry.commands@.len()
                &&& applies(index as int)
                &&& forall|j: int| run.next <= j < index ==> !#[trigger] applies(j)
                &&& rest.state == run.state
                &&& rest.next == index + 1
                &&& !(run.state is Deny)
            },
            PreProgress::Done(outcome) => {
                &&& outcome == run.state
                &&& run.state is Deny || forall|j: int|
                    run.next <= j < registry.natives@.len() + registry.commands@.len()
                        ==> !#[trigger] applies(j)
            },
        },
{
}

/// The same holds of the hooks that see the output, of which none can deny.
pub proof fn law_no_hook_is_skipped_after<N: Hook>(
    registry: &HookRegistry<N>,
    applies: spec_fn(int) -> bool,
    run: PostRun,
    progress: PostProgress,
)
    requires
        registry.post_progress(applies, run, progress),
    ensures
        match progress {
            PostProgress::Consult { index, run: rest } => {
                &&& run.next <= index < registry.natives@.len() + registry.commands@.len()
                &&& applies(index as int)
                &&& forall|j: int| run.next <= j < index ==> !#[trigger] applies(j)
                &&& rest.output == run.output
                &&& rest.next == index + 1
            },
            PostProgress::Done(output) => {
                &&& output == run.output
                &&& forall|j: int|
                    run.next <= j < registry.natives@.len() + registry.commands@.len()
                        ==> !#[trigger] applies(j)
            },
        },
{
}

/// Whether a hook applies is what it answers itself: a native hook by its own account,
/// and a command hook exactly where its matcher accepts the tool's name.
pub proof fn law_hooks_say_themselves_where_they_apply<N: Hook>(
    registry: &HookRegistry<N>,
    tool_name: &str,
    applies: spec_fn(int) -> bool,
    from: int,
    to: int,
    i: int,
)
    requires
        registry.answered(tool_name, applies, from, to),
        from <= i < to,
    ensures
        i < registry.natives@.len() ==> call_ensures(
            N::matches,
            (&registry.natives@[i], tool_name),
            applies(i),
        ),
        i >= registry.natives@.len() ==> applies(i) == matcher::accepts(
            registry.commands@[i - registry.natives@.len()]@.matcher,
            tool_name@,
        ),
{
    assert(registry.answers_at(i, tool_name, applies(i)));
}

/// The hooks that apply act in turn, each on what those before it left. `places` are
/// the places of the hooks that apply, in order, and `inputs[k]` is what the one at
/// `places[k]` sees: what the one before it put in, or what that one saw, where it put
/// in nothing. Where the first `m` of them do not deny, either the next one denies,
/// and its reason is the outcome, or there is no next one, and the call proceeds with
/// what the last one left.
pub proof fn law_hooks_act_in_turn<N: Hook>(
    registry: &HookRegistry<N>,
    applies: spec_fn(int) -> bool,
    hooks: spec_fn(int, Json) -> Result<PreToolUseDecision, HookError>,
    places: Seq<int>,
    inputs: Seq<Json>,
    m: int,
)
    requires
        forall|k: int|
            0 <= k < places.len() ==> 0 <= #[trigger] places[k] < registry.natives@.len()
                + registry.commands@.len() && applies(places[k]),
        forall|k: int, l: int|
            0 <= k < l < places.len() ==> #[trigger] places[k] < #[trigger] places[l],
        forall|j: int|
            0 <= j < registry.natives@.len() + registry.commands@.len() && #[trigger] applies(j)
                ==> places.contains(j),
        0 <= m <= places.len(),
        inputs.len() == m + 1,
        forall|k: int|
            0 <= k < m ==> match hooks(#[trigger] places[k], inputs[k]) {
                Ok(PreToolUseDecision::Deny { .. }) => false,
                Ok(PreToolUseDecision::RewriteInput(next)) => inputs[k + 1] == next,
                _ => inputs[k + 1] == inputs[k],
            },
    ensures
        m == places.len() ==> registry.pre_chain(applies, hooks, 0, inputs[0]) == (
        PreOutcome::Proceed { input: inputs[m] }),
        m < places.len() && (hooks(places[m], inputs[m]) matches Ok(
            PreToolUseDecision::Deny { .. },
        )) ==> registry.pre_chain(applies, hooks, 0, inputs[0]) == (PreOutcome::Deny {
            reason: hooks(places[m], inputs[m])->Ok_0->reason,
        }),
{
    lemma_pre_chain_in_turn(registry, applies, hooks, places, inputs, m);
    let from = if m == 0 {
        0
    } else {
        places[m - 1] + 1
    };
    let to = if m < places.len() {
        places[m]
    } else {
        registry.count() as int
    };
    if m > 0 {
        assert(places[m - 1] < registry.count());
        if m < places.len() {
            assert(places[m - 1] < places[m]);
        }
    }
    assert forall|j: int| from <= j < to implies !#[trigger] applies(j) by {
        lemma_between(places, m, j);
    }
    if m < places.len() {
        assert(applies(places[m]));
    }
    lemma_pre_chain_skips(registry, applies, hooks, from, to, inputs[m]);
}

/// No place lies between two neighbouring ones.
proof fn lemma_between(places: Seq<int>, m: int, j: int)
    requires
        0 <= m <= places.len(),
        forall|k: int, l: int|
            0 <= k < l < places.len() ==> #[trigger] places[k] < #[trigger] places[l],
        m > 0 ==> places[m - 1] < j,
        m < places.len() ==> j < places[m],
    ensures
        !places.contains(j),
{
    if places.contains(j) {
        let k = choose|k: int| 0 <= k < places.len() && places[k] == j;
        if k < m - 1 {
            assert(places[k] < places[m - 1]);
        } else if k > m {
            assert(places[m] < places[k]);
        }
    }
}

proof fn lemma_pre_chain_in_turn<N: Hook>(
    registry: &HookRegistry<N>,
    applies: spec_fn(int) -> bool,
    hooks: spec_fn(int, Json) -> Result<PreToolUseDecision, HookError>,
    places: Seq<int>,
    inputs: Seq<Json>,
    m: int,
)
    requires
        forall|k: int|
            0 <= k < places.len() ==> 0 <= #[trigger] places[k] < registry.count() && applies(
                places[k],
            ),
        forall|k: int, l: int|
            0 <= k < l < places.len() ==> #[trigger] places[k] < #[trigger] places[l],
        forall|j: int|
            0 <= j < registry.count() && #[trigger] applies(j) ==> places.contains(j),
        0 <= m <= places.len(),
        inputs.len() > m,
        forall|k: int|
            0 <= k < m ==> match hooks(#[trigger] places[k], inputs[k]) {
                Ok(PreToolUseDecision::Deny { .. }) => false,
                Ok(PreToolUseDecision::RewriteInput(next)) => inputs[k + 1] == next,
                _ => inputs[k + 1] == inputs[k],
            },
    ensures
        registry.pre_chain(applies, hooks, 0, inputs[0]) == registry.pre_chain(
            applies,
            hooks,
            if m == 0 {
                0
            } else {
                places[m - 1] + 1
            },
            inputs[m],
        ),
    decreases m,
{
    if m > 0 {
        lemma_pre_chain_in_turn(registry, applies, hooks, places, inputs, m - 1);
        let from = if m == 1 {
            0
        } else {
            places[m - 2] + 1
        };
        let to = places[m - 1];
        if m > 1 {
            assert(places[m - 2] < places[m - 1]);
            assert(places[m - 2] >= 0);
        }
        assert(applies(to));
        assert forall|j: int| from <= j < to implies !#[trigger] applies(j) by {
            lemma_between(places, m - 1, j);
        }
        lemma_pre_chain_skips(registry, applies, hooks, from, to, inputs[m - 1]);
        assert(match hooks(places[m - 1], inputs[m - 1]) {
            Ok(PreToolUseDecision::Deny { .. }) => false,
            Ok(PreToolUseDecision::RewriteInput(next)) => inputs[m] == next,
            _ => inputs[m] == inputs[m - 1],
        });
    }
}

/// The hooks that see the output act in turn as well: each one that applies sees what
/// those before it left, and what the last one leaves is the output.
pub proof fn law_output_hooks_act_in_turn<N: Hook>(
    registry: &HookRegistry<N>,
    applies: spec_fn(int) -> bool,
    hooks: spec_fn(int, ToolOutput) -> Result<PostToolUseDecision, HookError>,
    places: Seq<int>,
    outputs: Seq<ToolOutput>,
)
    requires
        forall|k: int|
            0 <= k < places.len() ==> 0 <= #[trigger] places[k] < registry.natives@.len()
                + registry.commands@.len() && applies(places[k]),
        forall|k: int, l: int|
            0 <= k < l < places.len() ==> #[trigger] places[k] < #[trigger] places[l],
        forall|j: int|
            0 <= j < registry.natives@.len() + registry.commands@.len() && #[trigger] applies(j)
                ==> places.contains(j),
        outputs.len() == places.len() + 1,
        forall|k: int|
            0 <= k < places.len() ==> match hooks(#[trigger] places[k], outputs[k]) {
                Ok(PostToolUseDecision::RewriteOutput(next)) => outputs[k + 1] == next,
                _ => outputs[k + 1] == outputs[k],
            },
    ensures
        registry.post_chain(applies, hooks, 0, outputs[0]) == outputs.last(),
{
    let m = places.len() as int;
    lemma_post_chain_in_turn(registry, applies, hooks, places, outputs, m);
    let from = if m == 0 {
        0
    } else {
        places[m - 1] + 1
    };
    if m > 0 {
        assert(places[m - 1] < registry.count());
    }
    let to = registry.count() as int;
    assert forall|j: int| from <= j < to implies !#[trigger] applies(j) by {
        lemma_between(places, m, j);
    }
    lemma_post_chain_skips(registry, applies, hooks, from, to, outputs[m]);
}

proof fn lemma_post_chain_in_turn<N: Hook>(
    registry: &HookRegistry<N>,
    applies: spec_fn(int) -> bool,
    hooks: spec_fn(int, ToolOutput) -> Result<PostToolUseDecision, HookError>,
    places: Seq<int>,
    outputs: Seq<ToolOutput>,
    m: int,
)
    requires
        forall|k: int|
            0 <= k < places.len() ==> 0 <= #[trigger] places[k] < registry.count() && applies(
                places[k],
            ),
        forall|k: int, l: int|
            0 <= k < l < places.len() ==> #[trigger] places[k] < #[trigger] places[l],
        forall|j: int|
            0 <= j < registry.count() && #[trigger] applies(j) ==> places.contains(j),
        0 <= m <= places.len(),
        outputs.len() > m,
        forall|k: int|
            0 <= k < m ==> match hooks(#[trigger] places[k], outputs[k]) {
                Ok(PostToolUseDecision::RewriteOutput(next)) => outputs[k + 1] == next,
                _ => outputs[k + 1] == outputs[k],
            },
    ensures
        registry.post_chain(applies, hooks, 0, outputs[0]) == registry.post_chain(
            applies,
            hooks,
            if m == 0 {
                0
            } else {
                places[m - 1] + 1
            },
            outputs[m],
        ),
    decreases m,
{
    if m > 0 {
        lemma_post_chain_in_turn(registry, applies, hooks, places, outputs, m - 1);
        let from = if m == 1 {
            0
        } else {
            places[m - 2] + 1
        };
        let to = places[m - 1];
        if m > 1 {
            assert(places[m - 2] < places[m - 1]);
            assert(places[m - 2] >= 0);
        }
        assert(applies(to));
        assert forall|j: int| from <= j < to implies !#[trigger] applies(j) by {
            lemma_between(places, m - 1, j);
        }
        lemma_post_chain_skips(registry, applies, hooks, from, to, outputs[m - 1]);
        assert(match hooks(places[m - 1], outputs[m - 1]) {
            Ok(PostToolUseDecision::RewriteOutput(next)) => outputs[m] == next,
            _ => outputs[m] == outputs[m - 1],
        });
    }
}

/// What one decision does to a call: a denial is final, a rewritten input takes the
/// place of the one before, and the first denial counts with its reason.
pub proof fn law_what_a_decision_does(
    input: Json,
    denied: PreOutcome,
    reply: Result<PreToolUseDecision, HookError>,
)
    requires
        denied is Deny,
    ensures
        pre_after(denied, reply) == denied,
        pre_after(PreOutcome::Proceed { input }, reply) == match reply {
            Ok(PreToolUseDecision::RewriteInput(next)) => PreOutcome::Proceed { input: next },
            Ok(PreToolUseDecision::Deny { reason }) => PreOutcome::Deny { reason },
            Ok(PreToolUseDecision::Continue) => PreOutcome::Proceed { input },
            Err(_) => PreOutcome::Proceed { input },
        },
{
}

} // verus!
