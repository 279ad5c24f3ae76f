use jcode_tools::caveman;
use jcode_tools::caveman::{CavemanInput, CavemanStep, CavemanTool};
use jcode_tools::context_mode::{ContextModeInput, ContextModeTool};
use jcode_tools::context_snr;
use jcode_tools::context_snr::{
    detected_lines, routing_block, ContextSnrInput, ContextSnrTool, SnrRequest, SurveyedTools,
    BLOCK_END, BLOCK_START,
};
use jcode_tools::external_cli;
use jcode_tools::external_cli::{CliResult, FileMode};
use jcode_tools::integration_support;
use jcode_tools::json::Json;
use jcode_tools::memex::{MemexInput, MemexTool};
use jcode_tools::rtk::{RtkInput, RtkTool};
use jcode_tools::tool::{CliStep, ToolContext, ToolOutput};

fn ctx(working_dir: Option<&str>) -> ToolContext {
    ToolContext {
        session_id: "t".into(),
        message_id: "t".into(),
        tool_call_id: "t".into(),
        working_dir: working_dir.map(|d| d.to_string()),
    }
}

fn intent() -> Json {
    Json::Object(vec![("type".into(), Json::Text("string".into()))])
}

fn at<'a>(value: &'a Json, path: &[&str]) -> &'a Json {
    let mut current = value;
    for key in path {
        current = current.get(key).unwrap();
    }
    current
}

fn has_choice(schema: &Json, choice: &str) -> bool {
    match at(schema, &["properties", "action", "enum"]) {
        Json::Array(items) => items.iter().any(|i| i.as_str() == Some(choice)),
        _ => false,
    }
}

fn result(status: Option<i32>, stdout: &str, stderr: &str) -> CliResult {
    CliResult::from_output(status, stdout.as_bytes(), stderr.as_bytes())
}

fn replied(step: CliStep) -> ToolOutput {
    match step {
        CliStep::Reply(output) => output,
        CliStep::Run(command) => panic!("unexpected run: {:?}", command),
    }
}

fn run(step: CliStep) -> (Vec<String>, Option<String>) {
    match step {
        CliStep::Run(command) => (command.args, command.stdin),
        CliStep::Reply(output) => panic!("unexpected reply: {}", output.output),
    }
}

fn memex(action: &str) -> MemexInput {
    MemexInput {
        action: action.into(),
        query: None,
        slug: None,
        content: None,
        limit: None,
        semantic: None,
        verbose: None,
        category: None,
        tag: None,
        since: None,
        filter: None,
        json: None,
    }
}

fn caveman_input(action: &str, file: Option<&str>, confirmed: Option<bool>) -> CavemanInput {
    CavemanInput {
        action: action.into(),
        file_path: file.map(|f| f.to_string()),
        confirmed,
    }
}

fn said(step: CavemanStep) -> ToolOutput {
    match step {
        CavemanStep::Reply(output) => output,
        other => panic!("unexpected step: {:?}", other),
    }
}

fn nothing_found() -> SurveyedTools {
    SurveyedTools {
        repomix: None,
        ai_digest: None,
        ttok: None,
        ast_grep: None,
        sg: None,
    }
}

// external programs

#[test]
fn find_binary_resolves_common_unix_tool() {
    let path_dirs = vec!["/opt/tools".to_string(), "/bin".to_string()];
    let candidates = external_cli::binary_candidates("sh", &path_dirs, None, &Vec::new(), "/work");
    let usable: Vec<bool> = candidates.iter().map(|c| c == "/bin/sh").collect();
    assert_eq!(
        external_cli::find_binary(&candidates, &usable).as_deref(),
        Some("/bin/sh"),
        "expected to find sh on PATH"
    );
}

#[test]
fn find_binary_returns_none_for_nonexistent() {
    let candidates = external_cli::binary_candidates(
        "this-binary-does-not-exist-xyz123",
        &vec!["/bin".to_string()],
        Some("/home/u"),
        &Vec::new(),
        "/work",
    );
    let usable = vec![false; candidates.len()];
    assert!(external_cli::find_binary(&candidates, &usable).is_none());
}

#[test]
fn the_search_goes_from_path_to_extra_directories() {
    let candidates = external_cli::binary_candidates(
        "rtk",
        &vec!["/a".to_string(), "/b/".to_string()],
        Some("/home/u"),
        &vec!["/home/u/.nvm/versions/node/v20".to_string()],
        "/work",
    );
    assert_eq!(
        candidates,
        vec![
            "/a/rtk",
            "/b/rtk",
            "/home/u/.cargo/bin/rtk",
            "/home/u/.local/bin/rtk",
            "/home/u/.pyenv/shims/rtk",
            "/home/u/.nvm/versions/node/v20/bin/rtk",
            "/opt/homebrew/bin/rtk",
            "/usr/local/bin/rtk",
            "/usr/bin/rtk",
        ]
    );
    assert_eq!(
        external_cli::extra_search_dirs(None, &Vec::new()),
        vec!["/opt/homebrew/bin", "/usr/local/bin", "/usr/bin"]
    );
}

#[test]
fn programs_are_found_at_absolute_paths() {
    // Relative and empty entries stand for directories below the current one.
    let candidates = external_cli::binary_candidates(
        "tool",
        &vec!["bin".to_string(), String::new(), "/a".to_string()],
        None,
        &Vec::new(),
        "/work",
    );
    assert_eq!(
        candidates,
        vec![
            "/work/bin/tool",
            "/work/tool",
            "/a/tool",
            "/opt/homebrew/bin/tool",
            "/usr/local/bin/tool",
            "/usr/bin/tool",
        ]
    );
    assert!(candidates.iter().all(|c| c.starts_with('/')));
    let usable: Vec<bool> = candidates.iter().map(|c| c.ends_with("/bin/tool")).collect();
    assert_eq!(
        external_cli::find_binary(&candidates, &usable).as_deref(),
        Some("/work/bin/tool")
    );
}

#[test]
fn executables_need_a_bit() {
    assert!(external_cli::is_executable(true, FileMode::Bits(0o755)));
    assert!(external_cli::is_executable(true, FileMode::Bits(0o001)));
    assert!(!external_cli::is_executable(true, FileMode::Bits(0o644)));
    assert!(!external_cli::is_executable(true, FileMode::Unreadable));
    assert!(external_cli::is_executable(true, FileMode::NotKept));
    assert!(!external_cli::is_executable(false, FileMode::Bits(0o755)));
    assert_eq!(external_cli::executable_name("node", true), "node.exe");
    assert_eq!(external_cli::executable_name("node", false), "node");
}

#[test]
fn both_streams_are_combined() {
    assert_eq!(result(Some(0), "out \n", "err\n").combined(), "out\nerr");
    assert_eq!(result(Some(0), "", "err").combined(), "err");
    assert_eq!(result(Some(0), "out", " \n").combined(), "out");
    assert!(result(Some(0), "", "").success());
    assert!(!result(Some(1), "", "").success());
    assert!(!result(None, "", "").success());
}

#[test]
fn invalid_bytes_are_replaced() {
    let r = CliResult::from_output(Some(0), b"a\xffb", b"\xc3\xa4");
    assert_eq!(r.stdout, "a\u{fffd}b");
    assert_eq!(r.stderr, "ä");
}

#[test]
fn results_are_formatted() {
    let done = external_cli::format_cli_result("memex", "sync", result(Some(0), "", ""));
    assert_eq!(done.output, "memex sync: done (no output).");
    assert_eq!(done.title.as_deref(), Some("memex sync"));
    let failed = external_cli::format_cli_result("rtk", "ls", result(Some(-2), "", ""));
    assert_eq!(failed.output, "rtk ls failed (exit -2):\n(no output)");
    assert_eq!(failed.title.as_deref(), Some("rtk ls failed"));
    let killed = external_cli::format_cli_result("rtk", "ls", result(None, "x", "y"));
    assert_eq!(killed.output, "rtk ls failed (exit signal):\nx\ny");
}

// memex

#[test]
fn schema_is_object_with_action() {
    let schema = MemexTool::new().parameters_schema(intent());
    assert_eq!(at(&schema, &["type"]).as_str(), Some("object"));
    assert!(has_choice(&schema, "search"));
    assert!(has_choice(&schema, "write"));
    assert_eq!(at(&schema, &["properties", "intent"]), &intent());
    assert_eq!(
        at(&schema, &["properties", "limit", "type"]).as_str(),
        Some("integer")
    );
    assert_eq!(
        at(&schema, &["required"]),
        &Json::Array(vec![Json::Text("action".into())])
    );
}

#[test]
fn write_without_content_is_graceful() {
    let mut input = memex("write");
    input.slug = Some("x".into());
    let out = replied(MemexTool::new().plan(&input, true));
    assert!(out.output.contains("requires `content`"));
    let out = replied(MemexTool::new().plan(&input, false));
    assert!(out.output.contains("not installed"));
}

#[test]
fn memex_unknown_action_is_graceful() {
    let out = replied(MemexTool::new().plan(&memex("bogus"), true));
    assert_eq!(
        out.output,
        "Unknown memex action 'bogus'. Valid: search, read, write, links, backlinks, archive, organize, doctor, sync."
    );
}

#[test]
fn memex_search_is_lean_by_default() {
    let mut input = memex("search");
    input.query = Some("rust".into());
    let (args, stdin) = run(MemexTool::new().plan(&input, true));
    assert_eq!(args, vec!["search", "rust", "--compact"]);
    assert_eq!(stdin, None);
    assert_eq!(
        run(MemexTool::new().plan(&memex("links"), true)).0,
        vec!["links", "--stats"]
    );
}

#[test]
fn memex_search_takes_every_option() {
    let mut input = memex("search");
    input.query = Some("q".into());
    input.verbose = Some(true);
    input.semantic = Some(true);
    input.limit = Some(25);
    input.category = Some("c".into());
    input.tag = Some("t".into());
    input.since = Some("2026-01-01".into());
    assert_eq!(
        run(MemexTool::new().plan(&input, true)).0,
        vec![
            "search",
            "q",
            "--semantic",
            "--limit",
            "25",
            "--category",
            "c",
            "--tag",
            "t",
            "--since",
            "2026-01-01",
        ]
    );
}

#[test]
fn memex_cards_are_named_by_slug_or_query() {
    let tool = MemexTool::new();
    for action in ["read", "backlinks", "archive"] {
        assert_eq!(
            replied(tool.plan(&memex(action), true)).output,
            format!("memex {action} requires `slug` (or `query`).")
        );
        let mut input = memex(action);
        input.query = Some("from-query".into());
        assert_eq!(
            run(tool.plan(&input, true)).0,
            vec![action.to_string(), "from-query".to_string()]
        );
        input.slug = Some("from-slug".into());
        assert_eq!(
            run(tool.plan(&input, true)).0,
            vec![action.to_string(), "from-slug".to_string()]
        );
    }
    assert_eq!(
        replied(tool.plan(&memex("write"), true)).output,
        "memex write requires `slug`."
    );
    let mut write = memex("write");
    write.slug = Some("card".into());
    write.content = Some("# body".into());
    assert_eq!(
        run(tool.plan(&write, true)),
        (
            vec!["write".to_string(), "card".to_string()],
            Some("# body".to_string())
        )
    );
}

#[test]
fn memex_links_and_organize() {
    let tool = MemexTool::new();
    let mut links = memex("links");
    links.filter = Some("hub".into());
    links.json = Some(true);
    assert_eq!(
        run(tool.plan(&links, true)).0,
        vec!["links", "--filter", "hub", "--json"]
    );
    let mut verbose = memex("links");
    verbose.verbose = Some(true);
    assert_eq!(run(tool.plan(&verbose, true)).0, vec!["links"]);
    let mut organize = memex("organize");
    organize.since = Some("2025-05-05".into());
    organize.json = Some(true);
    assert_eq!(
        run(tool.plan(&organize, true)).0,
        vec!["organize", "--since", "2025-05-05", "--json"]
    );
    assert_eq!(run(tool.plan(&memex("doctor"), true)).0, vec!["doctor"]);
    assert_eq!(run(tool.plan(&memex("sync"), true)).0, vec!["sync"]);
    let shown = tool.conclude(&memex("doctor"), result(Some(0), "ok", ""));
    assert_eq!(shown.title.as_deref(), Some("memex doctor"));
    assert_eq!(tool.name(), "memex");
    assert!(tool.description().starts_with("Zettelkasten"));
}

// rtk

#[test]
fn schema_has_args_array() {
    let schema = RtkTool::new().parameters_schema(intent());
    assert_eq!(
        at(&schema, &["properties", "args", "type"]).as_str(),
        Some("array")
    );
    assert_eq!(
        at(&schema, &["properties", "args", "items", "type"]).as_str(),
        Some("string")
    );
}

#[test]
fn empty_args_is_graceful() {
    let input = RtkInput {
        args: vec![],
        command: None,
        ultra_compact: None,
    };
    assert!(replied(RtkTool::new().plan(&input, true))
        .output
        .contains("requires `args`"));
    assert!(replied(RtkTool::new().plan(&input, false))
        .output
        .contains("not installed"));
    assert_eq!(RtkTool::new().label(&input), "");
}

#[test]
fn rtk_hands_its_arguments_on() {
    let tool = RtkTool::new();
    let input = RtkInput {
        args: vec!["git".into(), "commit -m".into()],
        command: Some("ignored".into()),
        ultra_compact: Some(true),
    };
    assert_eq!(
        run(tool.plan(&input, true)).0,
        vec!["--ultra-compact", "git", "commit -m"]
    );
    assert_eq!(
        tool.conclude(&input, result(Some(0), "x", "")).title.as_deref(),
        Some("rtk git")
    );
    let input = RtkInput {
        args: vec![],
        command: Some("  tree   . ".into()),
        ultra_compact: Some(false),
    };
    assert_eq!(run(tool.plan(&input, true)).0, vec!["tree", "."]);
    let blank = RtkInput {
        args: vec![],
        command: Some(" ".into()),
        ultra_compact: None,
    };
    assert!(replied(tool.plan(&blank, true)).output.contains("requires"));
}

// caveman

#[test]
fn caveman_schema_actions() {
    let schema = CavemanTool::new().parameters_schema(intent());
    assert!(has_choice(&schema, "compress"));
    assert!(has_choice(&schema, "status"));
}

#[test]
fn compress_requires_confirmation_or_install() {
    let tool = CavemanTool::new();
    let input = caveman_input("compress", Some("README.md"), None);
    let out = said(tool.plan(&input, &ctx(None), Some("/cm")));
    assert!(out.output.contains("confirmed=true"));
    let out = said(tool.plan(&input, &ctx(None), None));
    assert!(out.output.contains("not installed"));
    let refused = caveman_input("compress", Some("README.md"), Some(false));
    let out = said(tool.plan(&refused, &ctx(None), Some("/cm")));
    assert!(out.output.contains("it rewrites README.md in place"));
}

#[test]
fn confirmed_compression_runs_the_module() {
    let tool = CavemanTool::new();
    let input = caveman_input("compress", Some("notes.md"), Some(true));
    let path = match tool.plan(&input, &ctx(Some("/work")), Some("/cm")) {
        CavemanStep::CheckFile { path } => path,
        other => panic!("unexpected step: {:?}", other),
    };
    assert_eq!(path, "/work/notes.md");
    assert_eq!(
        said(tool.proceed("/cm", &path, false, Some("/py3"), None)).output,
        "File not found: /work/notes.md"
    );
    assert_eq!(
        said(tool.proceed("/cm", &path, true, None, None)).output,
        "python3 is required to run caveman compression but was not found on PATH."
    );
    match tool.proceed("/cm", &path, true, None, Some("/bin/python")) {
        CavemanStep::Run { program, args, cwd } => {
            assert_eq!(program, "/bin/python");
            assert_eq!(args, vec!["-m", "scripts", "/work/notes.md"]);
            assert_eq!(cwd, "/cm");
        }
        other => panic!("unexpected step: {:?}", other),
    }
    let shown = tool.conclude(result(Some(0), "", ""));
    assert_eq!(shown.output, "caveman compress: done (no output).");
}

#[test]
fn caveman_answers_the_rest() {
    let tool = CavemanTool::new();
    let status = said(tool.plan(&caveman_input("status", None, None), &ctx(None), Some("/cm")));
    assert!(status
        .output
        .starts_with("caveman compressor available at /cm.\nUse action='compress'"));
    assert_eq!(status.title.as_deref(), Some("caveman status"));
    assert_eq!(
        said(tool.plan(
            &caveman_input("compress", None, Some(true)),
            &ctx(None),
            Some("/cm")
        ))
        .output,
        "caveman compress requires `file_path` (the markdown file to compress)."
    );
    assert_eq!(
        said(tool.plan(&caveman_input("x", None, None), &ctx(None), Some("/cm"))).output,
        "Unknown caveman action 'x'. Valid: status, compress."
    );
}

#[test]
fn the_module_is_looked_for_in_order() {
    let dirs = caveman::module_candidates(Some("/h"), &vec![".tool".to_string()]);
    assert_eq!(
        dirs,
        vec![
            "/h/.gemini/extensions/caveman/caveman-compress",
            "/h/.tool/plugins/caveman/caveman-compress",
            "/h/.cursor/extensions/caveman/caveman-compress",
            "/h/.local/share/caveman/caveman-compress",
        ]
    );
    assert_eq!(
        caveman::find_caveman_dir(&dirs, &vec![false, false, true, true]).as_deref(),
        Some("/h/.cursor/extensions/caveman/caveman-compress")
    );
    assert_eq!(
        caveman::module_candidates(Some("/h"), &Vec::new()),
        vec![
            "/h/.gemini/extensions/caveman/caveman-compress",
            "/h/.cursor/extensions/caveman/caveman-compress",
            "/h/.local/share/caveman/caveman-compress",
        ]
    );
    assert!(caveman::module_candidates(None, &vec![".tool".to_string()]).is_empty());
}

// context_mode

#[test]
fn context_mode_schema_actions() {
    let schema = ContextModeTool::new().parameters_schema(intent());
    assert!(has_choice(&schema, "doctor"));
}

#[test]
fn context_mode_unknown_action_is_graceful() {
    let input = ContextModeInput {
        action: "bogus".into(),
    };
    let out = replied(ContextModeTool::new().plan(&input, true));
    assert!(out.output.contains("Unknown context_mode action"));
    let out = replied(ContextModeTool::new().plan(&input, false));
    assert!(out.output.contains("not installed"));
}

#[test]
fn context_mode_actions_are_subcommands() {
    let tool = ContextModeTool::new();
    for action in ["doctor", "upgrade", "statusline"] {
        let input = ContextModeInput {
            action: action.into(),
        };
        assert_eq!(run(tool.plan(&input, true)).0, vec![action]);
        assert_eq!(
            tool.conclude(&input, result(Some(1), "", "")).title,
            Some(format!("context_mode {action} failed"))
        );
    }
}

// context_snr

#[test]
fn routing_block_has_markers_and_tools() {
    let b = routing_block();
    assert!(b.contains(BLOCK_START));
    assert!(b.contains(BLOCK_END));
    assert!(b.contains("repomix"));
    assert!(b.contains("ttok"));
    assert!(b.contains("ast-grep"));
    assert!(b.contains("jsbash"));
    assert!(b.starts_with("<!-- JCODE_CONTEXT_SNR_START -->\n# Context SNR"));
    assert!(b.ends_with("jsbash-reduced output.\n<!-- JCODE_CONTEXT_SNR_END -->"));
    assert!(b.contains("\n  `jsbash exec` with a script like:\n"));
}

#[test]
fn detected_lines_dedupe_ast_grep() {
    let mut found = nothing_found();
    found.sg = Some("/bin/sg".into());
    let lines = detected_lines(&found);
    let ast = lines.iter().filter(|l| l.contains("ast-grep")).count();
    assert_eq!(ast, 1, "ast-grep/sg should report once");
    assert!(!lines.iter().any(|l| l.starts_with("- sg:")));
    assert_eq!(
        lines[3],
        "- ast-grep: /bin/sg (structural (AST) code search, tiny output)"
    );
    found.ast_grep = Some("/bin/ast-grep".into());
    assert!(detected_lines(&found)[3].starts_with("- ast-grep: /bin/ast-grep ("));
}

#[test]
fn context_snr_status_action_never_fails() {
    let tool = ContextSnrTool::new();
    let input = ContextSnrInput {
        action: context_snr::default_action(),
        overwrite: None,
    };
    assert!(matches!(tool.plan(&input), SnrRequest::Status));
    let out = context_snr::status(false, &nothing_found());
    assert_eq!(
        out.output,
        "context-snr routing block present: no (run action=setup)\nSurveyed tools:\n- repomix: not found (whole-repo -> single token-counted digest)\n- ai-digest: not found (repo/dir -> single markdown digest)\n- ttok: not found (exact LLM token counting for truncation decisions)\n- ast-grep: not found (structural (AST) code search, tiny output)\n- jsbash repo_digest: always available (built-in sandbox fallback)"
    );
    assert!(context_snr::status(true, &nothing_found())
        .output
        .starts_with("context-snr routing block present: yes\n"));
}

#[test]
fn setup_writes_block_and_is_idempotent() {
    let tool = ContextSnrTool::new();
    let input = ContextSnrInput {
        action: "setup".into(),
        overwrite: None,
    };
    assert!(matches!(
        tool.plan(&input),
        SnrRequest::Setup { overwrite: false }
    ));
    let ensure = |existing: &str, overwrite: bool| {
        integration_support::ensure_preferred_tools_block(
            existing,
            &routing_block(),
            BLOCK_START,
            BLOCK_END,
            overwrite,
        )
    };
    let content = ensure("", false).unwrap();
    let first = context_snr::setup(true, &nothing_found());
    assert!(ensure(&content, false).is_none());
    let second = context_snr::setup(false, &nothing_found());
    assert_eq!(ensure(&content, true), Some(content.clone()));
    assert!(first.output.contains("written"));
    assert!(second.output.contains("already present"));
    assert_eq!(
        content.matches(BLOCK_START).count(),
        1,
        "block must not be duplicated"
    );
    // A stray end marker above does not move the block.
    let document = format!("{BLOCK_END} notes");
    let once = ensure(&document, true).unwrap();
    assert_eq!(once, format!("{document}\n\n{}", routing_block()));
    assert_eq!(once.matches(BLOCK_START).count(), 1);
    assert_eq!(ensure(&once, true), Some(once.clone()));
}

#[test]
fn context_snr_schema_and_unknown_action() {
    let tool = ContextSnrTool::new();
    let schema = tool.parameters_schema(intent());
    assert!(has_choice(&schema, "setup") && has_choice(&schema, "status"));
    let input = ContextSnrInput {
        action: "x".into(),
        overwrite: None,
    };
    match tool.plan(&input) {
        SnrRequest::Reply(out) => {
            assert_eq!(out.output, "Unknown action: x. Use setup or status.")
        }
        other => panic!("unexpected request: {:?}", other),
    }
}
