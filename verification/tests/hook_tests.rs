use jcode_tools::hooks::command_hook::HookPhase;
use jcode_tools::hooks::config;
use jcode_tools::hooks::{
    captured_answer, CommandDecision, CommandEnd, CommandHook, CommandRequest, Hook, HookConfig,
    HookConfigEntry, HookError, HookMatcher, HookRef, HookRegistry, PostProgress, PostRun,
    PostStep, PostToolUseDecision, PostToolUseInput, PreOutcome, PreProgress, PreRun, PreStep,
    PreToolUseDecision, PreToolUseInput,
};
use jcode_tools::json;
use jcode_tools::json::Json;
use jcode_tools::tool::{ToolContext, ToolImage, ToolOutput};
use serde_json::Value;

fn ctx() -> ToolContext {
    ToolContext {
        session_id: "s".into(),
        message_id: "m".into(),
        tool_call_id: "c".into(),
        working_dir: None,
    }
}

fn obj(key: &str, value: &str) -> Json {
    Json::Object(vec![(key.to_string(), json::text_value(value))])
}

fn output(text: &str) -> ToolOutput {
    ToolOutput::new(text.to_string())
}

/// A native hook with configurable behaviour.
struct TestHook {
    name: String,
    target: String,
    pre: fn(&Json) -> Result<PreToolUseDecision, HookError>,
    post: fn(&ToolOutput) -> PostToolUseDecision,
}

impl Hook for TestHook {
    fn name(&self) -> &str {
        &self.name
    }
    fn matches(&self, tool_name: &str) -> bool {
        self.target == "*" || self.target == tool_name
    }
    fn pre(&self, input: &PreToolUseInput<'_>) -> PreStep {
        PreStep::Decided((self.pre)(input.input))
    }
    fn post(&self, input: &PostToolUseInput<'_>) -> PostStep {
        PostStep::Decided(Ok((self.post)(input.output)))
    }
}

fn cont_pre(_: &Json) -> Result<PreToolUseDecision, HookError> {
    Ok(PreToolUseDecision::Continue)
}

fn cont_post(_: &ToolOutput) -> PostToolUseDecision {
    PostToolUseDecision::Continue
}

fn native(
    name: &str,
    target: &str,
    pre: fn(&Json) -> Result<PreToolUseDecision, HookError>,
    post: fn(&ToolOutput) -> PostToolUseDecision,
) -> TestHook {
    TestHook {
        name: name.into(),
        target: target.into(),
        pre,
        post,
    }
}

type Answerer = fn(&CommandRequest) -> Option<CommandDecision>;

fn no_answer(_: &CommandRequest) -> Option<CommandDecision> {
    None
}

fn run_pre(
    registry: &HookRegistry<TestHook>,
    tool: &str,
    input: Json,
    answer: Answerer,
) -> PreOutcome {
    let ctx = ctx();
    let mut run = PreRun::start(input);
    loop {
        match registry.run_pre(tool, run) {
            PreProgress::Done(outcome) => return outcome,
            PreProgress::Consult { index, run: rest } => {
                let current = match &rest.state {
                    PreOutcome::Proceed { input } => input.duplicate(),
                    PreOutcome::Deny { .. } => unreachable!(),
                };
                let asked = PreToolUseInput {
                    tool_name: tool,
                    input: &current,
                    ctx: &ctx,
                };
                let reply = match registry.hook_at(index) {
                    HookRef::Native(hook) => match hook.pre(&asked) {
                        PreStep::Decided(reply) => reply,
                        PreStep::Ask(request) => Ok(hook.resume_pre(answer(&request))),
                    },
                    HookRef::Command(hook) => match hook.pre(&asked) {
                        PreStep::Decided(reply) => reply,
                        PreStep::Ask(request) => Ok(hook.resume_pre(answer(&request))),
                    },
                };
                run = rest.settle(reply);
            }
        }
    }
}

fn run_post(
    registry: &HookRegistry<TestHook>,
    tool: &str,
    first: ToolOutput,
    answer: Answerer,
) -> ToolOutput {
    let ctx = ctx();
    let input = Json::Object(vec![]);
    let mut run = PostRun::start(first);
    loop {
        match registry.run_post(tool, run) {
            PostProgress::Done(output) => return output,
            PostProgress::Consult { index, run: rest } => {
                let asked = PostToolUseInput {
                    tool_name: tool,
                    input: &input,
                    output: &rest.output,
                    ctx: &ctx,
                };
                let reply = match registry.hook_at(index) {
                    HookRef::Native(hook) => match hook.post(&asked) {
                        PostStep::Decided(reply) => reply,
                        PostStep::Ask(request) => Ok(hook.resume_post(&asked, answer(&request))),
                    },
                    HookRef::Command(hook) => match hook.post(&asked) {
                        PostStep::Decided(reply) => reply,
                        PostStep::Ask(request) => Ok(hook.resume_post(&asked, answer(&request))),
                    },
                };
                run = rest.settle(reply);
            }
        }
    }
}

fn entries_of(document: &Value, phase: &str) -> Vec<HookConfigEntry> {
    let Some(list) = document.get(phase).and_then(|l| l.as_array()) else {
        return Vec::new();
    };
    list.iter()
        .map(|e| HookConfigEntry {
            matcher: match e.get("matcher").and_then(|m| m.as_str()) {
                Some(raw) => HookMatcher::parse(raw),
                None => config::default_matcher(),
            },
            command: e["command"].as_str().unwrap().to_string(),
            timeout_ms: match e.get("timeout_ms").and_then(|t| t.as_u64()) {
                Some(ms) => ms,
                None => config::default_timeout_ms(),
            },
            name: e
                .get("name")
                .and_then(|n| n.as_str())
                .map(|n| n.to_string()),
        })
        .collect()
}

fn config_of(text: &str) -> HookConfig {
    let document: Value = serde_json::from_str(text).unwrap();
    HookConfig {
        pre_tool_use: entries_of(&document, "PreToolUse"),
        post_tool_use: entries_of(&document, "PostToolUse"),
    }
}

fn empty_decision() -> CommandDecision {
    CommandDecision {
        decision: None,
        reason: None,
        input: None,
        updated_input: None,
        output: None,
    }
}

#[test]
fn empty_registry_proceeds_unchanged() {
    let reg: HookRegistry<TestHook> = HookRegistry::new();
    assert!(reg.is_empty());
    match run_pre(&reg, "bash", obj("command", "ls"), no_answer) {
        PreOutcome::Proceed { input } => assert_eq!(input, obj("command", "ls")),
        PreOutcome::Deny { .. } => panic!("should not deny"),
    }
    assert_eq!(run_post(&reg, "bash", output("x"), no_answer).output, "x");
}

#[test]
fn pre_rewrite_chains_across_hooks() {
    let mut reg = HookRegistry::new();
    reg.register_native(native(
        "a",
        "bash",
        |_| Ok(PreToolUseDecision::RewriteInput(obj("command", "step1"))),
        cont_post,
    ));
    reg.register_native(native(
        "b",
        "bash",
        |v| {
            let prev = v.get("command").and_then(|c| c.as_str()).unwrap_or("");
            Ok(PreToolUseDecision::RewriteInput(obj(
                "command",
                &format!("{prev}+step2"),
            )))
        },
        cont_post,
    ));
    match run_pre(&reg, "bash", obj("command", "orig"), no_answer) {
        PreOutcome::Proceed { input } => {
            assert_eq!(input.get("command").unwrap().as_str(), Some("step1+step2"));
        }
        _ => panic!("expected proceed"),
    }
}

#[test]
fn deny_short_circuits() {
    let mut reg = HookRegistry::new();
    reg.register_native(native(
        "denier",
        "*",
        |_| {
            Ok(PreToolUseDecision::Deny {
                reason: "nope".into(),
            })
        },
        cont_post,
    ));
    reg.register_native(native(
        "later",
        "*",
        |_| panic!("is not consulted any more"),
        cont_post,
    ));
    let outcome = run_pre(&reg, "bash", Json::Object(vec![]), no_answer);
    if let PreOutcome::Deny { reason } = outcome {
        assert_eq!(reason, "nope");
    } else {
        panic!("expected deny");
    }
}

#[test]
fn non_matching_hook_is_skipped() {
    let mut reg = HookRegistry::new();
    reg.register_native(native(
        "only_jsbash",
        "jsbash",
        |_| {
            Ok(PreToolUseDecision::Deny {
                reason: "should not fire".into(),
            })
        },
        cont_post,
    ));
    let outcome = run_pre(
        &reg,
        "bash",
        Json::Object(vec![("x".to_string(), Json::Unsigned(1))]),
        no_answer,
    );
    assert!(matches!(outcome, PreOutcome::Proceed { .. }));
}

#[test]
fn post_rewrite_replaces_output() {
    let mut reg = HookRegistry::new();
    reg.register_native(native("compress", "bash", cont_pre, |_| {
        PostToolUseDecision::RewriteOutput(ToolOutput::new("compressed".to_string()))
    }));
    let out = run_post(&reg, "bash", output("raw huge output"), no_answer);
    assert_eq!(out.output, "compressed");
}

#[test]
fn erroring_hook_fails_open() {
    let mut reg = HookRegistry::new();
    reg.register_native(native(
        "boom",
        "*",
        |_| {
            Err(HookError {
                message: "kaboom".into(),
            })
        },
        cont_post,
    ));
    match run_pre(&reg, "bash", obj("command", "ls"), no_answer) {
        PreOutcome::Proceed { input } => assert_eq!(input, obj("command", "ls")),
        PreOutcome::Deny { .. } => panic!("expected proceed"),
    }
}

#[test]
fn native_hooks_run_before_command_hooks() {
    let mut reg = HookRegistry::new();
    let config =
        config_of(r#"{ "PreToolUse": [ { "matcher": "*", "command": "/tmp/noop.sh" } ] }"#);
    reg.extend_from_config(&config, None);
    reg.register_native(native("native", "*", cont_pre, cont_post));
    assert_eq!(reg.name_at(0), "native");
    assert_eq!(reg.name_at(1), "command:PreToolUse:0:*");
    assert_eq!(reg.len(), 2);
}

#[test]
fn command_hook_deny_blocks() {
    let mut reg = HookRegistry::new();
    let config =
        config_of(r#"{ "PreToolUse": [ { "matcher": "bash", "command": "/tmp/deny.sh" } ] }"#);
    reg.extend_from_config(&config, None);
    let outcome = run_pre(&reg, "bash", obj("command", "rm -rf /"), |_| {
        Some(CommandDecision {
            decision: Some("deny".into()),
            reason: Some("policy".into()),
            input: None,
            updated_input: None,
            output: None,
        })
    });
    match outcome {
        PreOutcome::Deny { reason } => assert_eq!(reason, "policy"),
        _ => panic!("expected deny"),
    }
}

#[test]
fn command_hook_updated_input_rewrites() {
    let mut reg = HookRegistry::new();
    let config =
        config_of(r#"{ "PreToolUse": [ { "matcher": "bash", "command": "/tmp/rewrite.sh" } ] }"#);
    reg.extend_from_config(&config, None);
    let outcome = run_pre(&reg, "bash", obj("command", "git status"), |_| {
        Some(CommandDecision {
            decision: None,
            reason: None,
            input: None,
            updated_input: Some(obj("command", "rtk git status")),
            output: None,
        })
    });
    match outcome {
        PreOutcome::Proceed { input } => {
            assert_eq!(
                input.get("command").unwrap().as_str(),
                Some("rtk git status")
            )
        }
        _ => panic!("expected proceed with rewrite"),
    }
}

#[test]
fn command_hook_timeout_fails_open() {
    let mut reg = HookRegistry::new();
    let config = config_of(
        r#"{ "PreToolUse": [ { "matcher": "bash", "command": "/tmp/slow.sh", "timeout_ms": 200 } ] }"#,
    );
    reg.extend_from_config(&config, None);
    let outcome = run_pre(&reg, "bash", obj("command", "ls"), |request| {
        assert_eq!(request.timeout_ms, 200);
        assert!(captured_answer(&CommandEnd::TimedOut).is_none());
        None
    });
    assert!(matches!(outcome, PreOutcome::Proceed { .. }));
}

#[test]
fn command_hook_post_rewrites_output() {
    let mut reg = HookRegistry::new();
    let config =
        config_of(r#"{ "PostToolUse": [ { "matcher": "bash", "command": "/tmp/filter.sh" } ] }"#);
    reg.extend_from_config(&config, None);
    let noisy = ToolOutput {
        output: "noisy".to_string(),
        title: Some("title".to_string()),
        metadata: Some(Json::Unsigned(1)),
        images: vec![ToolImage {
            media_type: "image/png".to_string(),
            data: "AA".to_string(),
        }],
    };
    let out = run_post(&reg, "bash", noisy, |_| {
        Some(CommandDecision {
            decision: Some("rewriteOutput".into()),
            reason: None,
            input: None,
            updated_input: None,
            output: Some("filtered".into()),
        })
    });
    assert_eq!(out.output, "filtered");
    assert_eq!(out.title.as_deref(), Some("title"));
    assert_eq!(out.images.len(), 1);
    assert!(out.metadata.is_none());
}

#[test]
fn command_hook_describes_the_call() {
    let hook = CommandHook::new(
        "filter".into(),
        HookMatcher::parse("bash"),
        "/bin/filter".into(),
        1234,
        HookPhase::Post,
    );
    let context = ToolContext {
        working_dir: Some("/work".into()),
        ..ctx()
    };
    let input = obj("command", "ls");
    let shown = output("listing");
    let step = hook.post(&PostToolUseInput {
        tool_name: "bash",
        input: &input,
        output: &shown,
        ctx: &context,
    });
    match step {
        PostStep::Ask(request) => {
            assert_eq!(request.program, "/bin/filter");
            assert_eq!(request.timeout_ms, 1234);
            let payload: Value = serde_json::from_str(&request.payload).unwrap();
            assert_eq!(payload["event"], "PostToolUse");
            assert_eq!(payload["tool_name"], "bash");
            assert_eq!(payload["tool_input"]["command"], "ls");
            assert_eq!(payload["tool_output"], "listing");
            assert_eq!(payload["session_id"], "s");
            assert_eq!(payload["cwd"], "/work");
            assert_eq!(payload.as_object().unwrap().len(), 6);
        }
        _ => panic!("expected a request"),
    }
    // It takes no part before the call.
    let before = hook.pre(&PreToolUseInput {
        tool_name: "bash",
        input: &input,
        ctx: &context,
    });
    assert!(matches!(
        before,
        PreStep::Decided(Ok(PreToolUseDecision::Continue))
    ));
}

#[test]
fn command_hook_payload_without_a_directory_has_null() {
    let hook = CommandHook::new(
        "gate".into(),
        HookMatcher::parse("*"),
        "/bin/gate".into(),
        5,
        HookPhase::Pre,
    );
    let input = Json::Array(vec![Json::Bool(true), Json::Negative(-3), Json::Null]);
    match hook.pre(&PreToolUseInput {
        tool_name: "read",
        input: &input,
        ctx: &ctx(),
    }) {
        PreStep::Ask(request) => assert_eq!(
            request.payload,
            r#"{"cwd":null,"event":"PreToolUse","session_id":"s","tool_input":[true,-3,null],"tool_name":"read"}"#
        ),
        _ => panic!("expected a request"),
    }
    assert_eq!(hook.phase().as_str(), "PreToolUse");
    assert_eq!(HookPhase::Post.as_str(), "PostToolUse");
    assert_eq!(hook.program(), "/bin/gate");
    assert_eq!(hook.timeout_ms(), 5);
}

#[test]
fn command_answers_are_interpreted() {
    let hook = CommandHook::new(
        "gate".into(),
        HookMatcher::parse("*"),
        "/bin/gate".into(),
        5,
        HookPhase::Pre,
    );
    assert!(matches!(
        hook.resume_pre(None),
        PreToolUseDecision::Continue
    ));
    assert!(matches!(
        hook.resume_pre(Some(empty_decision())),
        PreToolUseDecision::Continue
    ));
    let mut block = empty_decision();
    block.decision = Some("block".into());
    match hook.resume_pre(Some(block)) {
        PreToolUseDecision::Deny { reason } => assert_eq!(reason, "blocked by hook gate"),
        _ => panic!("expected deny"),
    }
    let mut rewrite = empty_decision();
    rewrite.decision = Some("rewriteInput".into());
    assert!(matches!(
        hook.resume_pre(Some(rewrite)),
        PreToolUseDecision::Continue
    ));
    let mut rewrite = empty_decision();
    rewrite.decision = Some("rewriteInput".into());
    rewrite.input = Some(Json::Bool(true));
    match hook.resume_pre(Some(rewrite)) {
        PreToolUseDecision::RewriteInput(input) => assert_eq!(input, Json::Bool(true)),
        _ => panic!("expected rewrite"),
    }
    // A bare output is accepted after a call.
    let mut bare = empty_decision();
    bare.output = Some("short".into());
    let shown = output("long");
    let asked = PostToolUseInput {
        tool_name: "bash",
        input: &Json::Null,
        output: &shown,
        ctx: &ctx(),
    };
    match hook.resume_post(&asked, Some(bare)) {
        PostToolUseDecision::RewriteOutput(out) => assert_eq!(out.output, "short"),
        _ => panic!("expected rewrite"),
    }
    assert!(matches!(
        hook.resume_post(&asked, Some(empty_decision())),
        PostToolUseDecision::Continue
    ));
}

#[test]
fn only_a_successful_program_with_output_gave_an_answer() {
    assert_eq!(captured_answer(&CommandEnd::NotStarted), None);
    assert_eq!(captured_answer(&CommandEnd::Failed), None);
    assert_eq!(captured_answer(&CommandEnd::TimedOut), None);
    let ended = |success: bool, stdout: &[u8]| CommandEnd::Exited {
        success,
        stdout: stdout.to_vec(),
    };
    assert_eq!(captured_answer(&ended(false, b"{}")), None);
    assert_eq!(captured_answer(&ended(true, b" \n")), None);
    assert_eq!(
        captured_answer(&ended(true, b" {\"a\":1}\n")),
        Some("{\"a\":1}".into())
    );
    assert_eq!(
        captured_answer(&ended(true, b"a\xffb")),
        Some("a\u{fffd}b".into())
    );
}

#[test]
fn parses_full_config() {
    let json = r#"{
            "PreToolUse": [
                { "matcher": "bash", "command": "/bin/echo", "timeout_ms": 1000, "name": "rewrite" }
            ],
            "PostToolUse": [
                { "matcher": "bash|jsbash", "command": "/bin/cat" }
            ]
        }"#;
    let config = config_of(json);
    assert_eq!(config.pre_tool_use.len(), 1);
    assert_eq!(config.post_tool_use.len(), 1);
    assert_eq!(config.pre_tool_use[0].timeout_ms, 1000);
    assert_eq!(
        config.post_tool_use[0].timeout_ms,
        config::DEFAULT_TIMEOUT_MS
    );
    let hooks = config.command_hooks(None);
    assert_eq!(hooks.len(), 2);
    assert_eq!(hooks[0].name(), "rewrite");
    assert_eq!(hooks[1].name(), "command:PostToolUse:0:bash|jsbash");
}

#[test]
fn matcher_defaults_to_wildcard() {
    let json = r#"{ "PreToolUse": [ { "command": "/bin/echo" } ] }"#;
    let config = config_of(json);
    assert!(config.pre_tool_use[0].matcher.matches("anything"));
}

#[test]
fn missing_file_is_none() {
    assert!(!config::holds_config(None));
}

#[test]
fn empty_file_is_none() {
    assert!(!config::holds_config(Some("   \n")));
    assert!(config::holds_config(Some("{ not json")));
}

#[test]
fn tilde_expansion() {
    let home = config::home_dir(Some("/home/test"), None);
    let p = config::expand_tilde("~/.jcode/hooks/x.sh", home);
    assert_eq!(p, "/home/test/.jcode/hooks/x.sh");
    let abs = config::expand_tilde("/abs/path", home);
    assert_eq!(abs, "/abs/path");
}

#[test]
fn tilde_edge_cases() {
    assert_eq!(config::expand_tilde("~", Some("/home/t")), "/home/t");
    assert_eq!(config::expand_tilde("~other/x", Some("/home/t")), "~other/x");
    assert_eq!(config::expand_tilde("~/x", None), "~/x");
    assert_eq!(config::expand_tilde("~//abs", Some("/home/t")), "/abs");
    assert_eq!(config::home_dir(None, Some("C:\\U")), Some("C:\\U"));
    assert_eq!(config::home_dir(Some(""), Some("C:\\U")), None);
    assert_eq!(config::home_dir(None, None), None);
}

#[test]
fn loading_failures_add_no_hooks() {
    let mut reg: HookRegistry<TestHook> = HookRegistry::new();
    reg.load_global_command_hooks(&Ok(None), None);
    reg.load_global_command_hooks(
        &Err(HookError {
            message: "unreadable".into(),
        }),
        None,
    );
    assert!(reg.is_empty());
    let config = config_of(r#"{ "PreToolUse": [ { "command": "~/h.sh" } ] }"#);
    reg.load_global_command_hooks(&Ok(Some(config)), Some("/home/t"));
    assert_eq!(reg.len(), 1);
    match reg.hook_at(0) {
        HookRef::Command(hook) => assert_eq!(hook.program(), "/home/t/h.sh"),
        HookRef::Native(_) => panic!("expected a command hook"),
    }
}

#[test]
fn named_command_hooks_still_come_after_native_ones() {
    let mut reg = HookRegistry::new();
    let config =
        config_of(r#"{ "PreToolUse": [ { "command": "/bin/a", "name": "mine" } ] }"#);
    reg.extend_from_config(&config, None);
    reg.register_native(native("first", "*", cont_pre, cont_post));
    reg.register_native(native("second", "*", cont_pre, cont_post));
    assert_eq!(reg.name_at(0), "first");
    assert_eq!(reg.name_at(1), "second");
    assert_eq!(reg.name_at(2), "mine");
}

#[test]
fn registries_and_their_parts_can_be_copied() {
    let mut reg: HookRegistry<CommandHook> = HookRegistry::default();
    assert!(reg.is_empty());
    let mut config = HookConfig::default();
    assert!(config.command_hooks(None).is_empty());
    let entry = HookConfigEntry {
        matcher: HookMatcher::parse("bash|grep"),
        command: "/bin/x".into(),
        timeout_ms: 7,
        name: Some("named".into()),
    };
    config.pre_tool_use.push(entry.clone());
    reg.extend_from_config(&config, None);
    let copy = reg.clone();
    assert_eq!(copy.len(), 1);
    assert_eq!(copy.name_at(0), "named");
    assert!(entry.matcher.clone().matches("grep"));
    match (PreToolUseDecision::Deny { reason: "no".into() }).clone() {
        PreToolUseDecision::Deny { reason } => assert_eq!(reason, "no"),
        other => panic!("unexpected: {:?}", other),
    }
    let shown = ToolOutput {
        output: "text".into(),
        title: Some("title".into()),
        metadata: Some(obj("k", "v")),
        images: vec![ToolImage {
            media_type: "image/png".into(),
            data: "AA".into(),
        }],
    };
    match PostToolUseDecision::RewriteOutput(shown).clone() {
        PostToolUseDecision::RewriteOutput(copy) => {
            assert_eq!(copy.output, "text");
            assert_eq!(copy.title.as_deref(), Some("title"));
            assert_eq!(copy.metadata, Some(obj("k", "v")));
            assert_eq!(copy.images[0].data, "AA");
        }
        other => panic!("unexpected: {:?}", other),
    }
}
