use jcode_tools::external_cli;
use jcode_tools::jsbash;
use jcode_tools::jsbash::sidecar;
use jcode_tools::jsbash::sidecar::{PendingRequests, SidecarResponse, WaitEnd};
use jcode_tools::jsbash::{
    format_exec, plan_setup, plan_spawn, swarm_sandbox_dir, ExecResult, InstallEnd, JsBashInput,
    JsBashRequest, JsBashTool, PACKAGE_JSON, SERVER_MJS,
};
use jcode_tools::json::Json;
use jcode_tools::tool::ToolContext;

fn ctx_with(session: &str, wd: Option<&str>) -> ToolContext {
    ToolContext {
        session_id: session.to_string(),
        message_id: "m".into(),
        tool_call_id: "c".into(),
        working_dir: wd.map(|d| d.to_string()),
    }
}

fn input(action: &str) -> JsBashInput {
    JsBashInput {
        action: action.into(),
        script: None,
        stdin: None,
        path: None,
        content: None,
        cwd: None,
        swarm: None,
        overwrite: None,
    }
}

fn response(ok: bool) -> SidecarResponse {
    SidecarResponse {
        id: Some("1".into()),
        ok,
        error: None,
        stdout: None,
        stderr: None,
        exit_code: None,
        content: None,
        version: None,
    }
}

#[test]
fn embedded_assets_are_present() {
    assert!(SERVER_MJS.contains("just-bash"));
    assert!(SERVER_MJS.contains("readline"));
    assert!(PACKAGE_JSON.contains("just-bash"));
    let package: serde_json::Value = serde_json::from_str(PACKAGE_JSON).unwrap();
    assert!(package["dependencies"]["just-bash"].is_string());
}

#[test]
fn sidecar_key_distinguishes_session_and_swarm() {
    let tool: JsBashTool<u32> = JsBashTool::new();
    let session_ctx = ctx_with("sess-1", None);
    assert_eq!(tool.sidecar_key(&session_ctx, None), "session:sess-1");
    assert_eq!(tool.sidecar_key(&session_ctx, Some("alpha")), "swarm:alpha");
    // Swarm key ignores the session, so all members share it.
    let other = ctx_with("sess-2", None);
    assert_eq!(
        tool.sidecar_key(&other, Some("alpha")),
        tool.sidecar_key(&session_ctx, Some("alpha"))
    );
}

#[test]
fn swarm_sandbox_dir_sanitizes_key() {
    let dir = swarm_sandbox_dir("/h/.jcode", "../etc/passwd");
    let name = dir.rsplit('/').next().unwrap();
    assert_eq!(name, "swarm-___etc_passwd");
    assert!(!name.contains('/'));
    assert_eq!(dir, "/h/.jcode/jsbash/swarm-___etc_passwd");
    assert_eq!(
        swarm_sandbox_dir("/h", "A-z_09ä"),
        "/h/jsbash/swarm-A-z_09_"
    );
}

#[test]
fn format_exec_combines_streams() {
    let r = ExecResult {
        stdout: "out".into(),
        stderr: "err".into(),
        exit_code: 2,
    };
    let out = format_exec(&r);
    assert!(out.output.contains("out"));
    assert!(out.output.contains("[stderr]"));
    assert!(out.output.contains("err"));
    assert!(out.output.contains("[exit 2]"));
    assert_eq!(out.output, "out\n[stderr]\nerr\n[exit 2]");
    assert_eq!(
        out.metadata.unwrap().get("exitCode"),
        Some(&Json::Unsigned(2))
    );
}

#[test]
fn format_exec_empty_is_no_output() {
    let r = ExecResult {
        stdout: String::new(),
        stderr: String::new(),
        exit_code: 0,
    };
    let out = format_exec(&r);
    assert_eq!(out.output, "(no output)");
}

#[test]
fn format_exec_keeps_line_ends() {
    let r = ExecResult {
        stdout: "a\n".into(),
        stderr: "b\n".into(),
        exit_code: -1,
    };
    let out = jsbash::exec_reply(&r);
    assert_eq!(out.output, "a\n[stderr]\nb\n[exit -1]");
    assert_eq!(out.title.as_deref(), Some("jsbash exec"));
    assert_eq!(
        out.metadata.unwrap().get("exitCode"),
        Some(&Json::Negative(-1))
    );
    let r = ExecResult {
        stdout: String::new(),
        stderr: String::new(),
        exit_code: 3,
    };
    assert_eq!(format_exec(&r).output, "[exit 3]");
}

#[test]
fn exec_without_setup_reports_install_hint() {
    let msg = plan_spawn("/h/.jcode", &ctx_with("s", None), None, false, Some("/node"))
        .unwrap_err()
        .message;
    assert_eq!(
        msg,
        "jsbash sidecar not installed. Run the `jsbash` tool with action=setup first (installs into /h/.jcode/jsbash)."
    );
    let msg = plan_spawn("/h/.jcode", &ctx_with("s", None), None, true, None)
        .unwrap_err()
        .message;
    assert_eq!(msg, "`node` not found on PATH. Install Node.js to use jsbash.");
}

#[test]
fn sidecars_are_told_their_directory() {
    let plan = plan_spawn("/j", &ctx_with("s", Some("/w")), None, true, Some("/n")).unwrap();
    assert_eq!(plan.node, "/n");
    assert_eq!(plan.server, "/j/jsbash/server.mjs");
    assert_eq!(plan.sandbox, None);
    assert_eq!(
        plan.env,
        vec![("JSBASH_WORKSPACE".to_string(), "/w".to_string())]
    );
    let plan = plan_spawn("/j", &ctx_with("s", Some("/w")), Some("k/1"), true, Some("/n")).unwrap();
    assert_eq!(plan.sandbox.as_deref(), Some("/j/jsbash/swarm-k_1"));
    assert_eq!(
        plan.env,
        vec![(
            "JSBASH_SANDBOX".to_string(),
            "/j/jsbash/swarm-k_1".to_string()
        )]
    );
    let plan = plan_spawn("/j", &ctx_with("s", None), None, true, Some("/n")).unwrap();
    assert!(plan.env.is_empty());
}

#[test]
fn tests_status_action_never_fails() {
    let tool: JsBashTool<u32> = JsBashTool::new();
    assert!(matches!(
        tool.plan(&input(&jsbash::default_action())),
        Ok(JsBashRequest::Status)
    ));
    let out = jsbash::status_output("/h/jsbash", false, true, None);
    assert!(out.output.contains("jsbash native Jcode status"));
    assert!(out.output.contains("server.mjs present: no"));
    assert_eq!(
        out.output,
        "jsbash native Jcode status:\n- Sidecar dir: /h/jsbash\n- server.mjs present: no\n- just-bash installed: yes\n- node on PATH: NO"
    );
    assert_eq!(out.title.as_deref(), Some("jsbash status"));
}

#[test]
fn setup_materializes_server_mjs() {
    let plan = plan_setup(false, false, false);
    assert!(plan.write_server, "server.mjs should be written by setup");
    assert!(plan.write_package);
    let plan = plan_setup(true, false, false);
    assert!(!plan.write_server && plan.write_package);
    let plan = plan_setup(true, true, true);
    assert!(plan.write_server && plan.write_package);
    let out = jsbash::setup("/d", false, false, None, None);
    assert!(out.output.contains("Sidecar dir"));
    assert_eq!(
        out.output,
        "jsbash native Jcode setup:\n- Sidecar dir: /d\n- server.mjs: written\n- node NOT found on PATH. Install Node.js, then re-run setup to install just-bash."
    );
}

#[test]
fn setup_reports_the_installation() {
    let last = |end: Option<&InstallEnd>| {
        let out = jsbash::setup("/d", true, false, Some("/n"), end).output;
        assert!(out.contains("- server.mjs: already present\n- node detected: /n\n"));
        out.lines().last().unwrap().to_string()
    };
    assert_eq!(last(None), "- just-bash already installed");
    assert_eq!(
        last(Some(&InstallEnd::Done {
            program: "bun".into()
        })),
        "- installed just-bash via bun"
    );
    assert_eq!(
        last(Some(&InstallEnd::NoManager)),
        "- could NOT install just-bash automatically (no package manager (pnpm/bun/npm) found on PATH). Run `npm install` (or pnpm/bun) in /d."
    );
    assert_eq!(
        last(Some(&InstallEnd::NotRun {
            program: "npm".into()
        })),
        "- could NOT install just-bash automatically (run npm install). Run `npm install` (or pnpm/bun) in /d."
    );
    assert_eq!(
        last(Some(&InstallEnd::Failed {
            program: "npm".into(),
            status: "exit status: 1".into()
        })),
        "- could NOT install just-bash automatically (npm install exited with exit status: 1). Run `npm install` (or pnpm/bun) in /d."
    );
}

#[test]
fn package_managers_are_tried_in_order() {
    let pick = |a: bool, b: bool, c: bool| {
        jsbash::choose_installer(a, b, c).map(|i| (i.program, i.args.join(" ")))
    };
    assert_eq!(
        pick(true, true, true),
        Some(("pnpm", "install --prod".to_string()))
    );
    assert_eq!(pick(false, true, true), Some(("bun", "install".to_string())));
    assert_eq!(
        pick(false, false, true),
        Some(("npm", "install --no-audit --no-fund".to_string()))
    );
    assert_eq!(pick(false, false, false), None);
    assert!(jsbash::needs_install(true, false));
    assert!(!jsbash::needs_install(true, true));
    assert!(!jsbash::needs_install(false, false));
}

#[test]
fn calls_are_planned() {
    let tool: JsBashTool<u32> = JsBashTool::new();
    for (action, message) in [
        ("exec", "exec requires `script`"),
        ("write_file", "write_file requires `path`"),
        ("read_file", "read_file requires `path`"),
    ] {
        assert_eq!(tool.plan(&input(action)).unwrap_err().message, message);
    }
    let mut exec = input("exec");
    exec.script = Some("ls".into());
    exec.stdin = Some("in".into());
    match tool.plan(&exec) {
        Ok(JsBashRequest::Exec { script, stdin, cwd }) => {
            assert_eq!(script, "ls");
            assert_eq!(stdin.as_deref(), Some("in"));
            assert_eq!(cwd, None);
        }
        other => panic!("unexpected: {:?}", other),
    }
    let mut write = input("write_file");
    write.path = Some("/a".into());
    match tool.plan(&write) {
        Ok(JsBashRequest::WriteFile { path, content }) => {
            assert_eq!(path, "/a");
            assert_eq!(content, "");
        }
        other => panic!("unexpected: {:?}", other),
    }
    let mut setup = input("setup");
    setup.overwrite = Some(true);
    assert!(matches!(
        tool.plan(&setup),
        Ok(JsBashRequest::Setup { overwrite: true })
    ));
    assert!(matches!(
        tool.plan(&input("ls")),
        Ok(JsBashRequest::Ls { dir: None })
    ));
    assert!(matches!(tool.plan(&input("reset")), Ok(JsBashRequest::Reset)));
    match tool.plan(&input("fly")) {
        Ok(JsBashRequest::Reply(out)) => assert_eq!(
            out.output,
            "Unknown action: fly. Use exec, write_file, read_file, ls, reset, setup, or status."
        ),
        other => panic!("unexpected: {:?}", other),
    }
}

#[test]
fn replies_are_titled() {
    let out = jsbash::write_reply("/a", "äb");
    assert_eq!(out.output, "wrote /a (3 bytes)");
    assert_eq!(out.title.as_deref(), Some("jsbash write_file"));
    assert_eq!(
        jsbash::read_reply("c".into()).title.as_deref(),
        Some("jsbash read_file")
    );
    assert_eq!(
        jsbash::ls_reply("l".into()).title.as_deref(),
        Some("jsbash ls")
    );
    assert_eq!(jsbash::reset_reply().output, "jsbash sandbox reset");
}

#[test]
fn a_running_sidecar_is_reused() {
    let mut tool: JsBashTool<u32> = JsBashTool::new();
    assert_eq!(tool.client_for("session:a", true), None);
    tool.keep_client("session:a".into(), 1);
    assert_eq!(tool.known_client("session:a"), Some(&1));
    assert_eq!(tool.client_for("session:a", true), Some(&1));
    assert_eq!(tool.client_for("session:a", false), None);
    tool.keep_client("session:a".into(), 2);
    assert_eq!(tool.client_for("session:a", true), Some(&2));
    assert_eq!(tool.forget_client("session:a"), Some(2));
    assert_eq!(tool.forget_client("session:a"), None);
}

#[test]
fn requests_are_lines_of_json() {
    assert_eq!(
        sidecar::request_line(sidecar::ready_payload(), "7"),
        Some("{\"id\":\"7\",\"op\":\"ready\"}\n".to_string())
    );
    assert_eq!(
        sidecar::request_line(
            sidecar::exec_payload("echo \"hi\"", Some("in"), Some("/w"), Some(9)),
            "1"
        ),
        Some("{\"cwd\":\"/w\",\"id\":\"1\",\"op\":\"exec\",\"script\":\"echo \\\"hi\\\"\",\"stdin\":\"in\",\"timeoutMs\":9}\n".to_string())
    );
    assert_eq!(
        sidecar::request_line(sidecar::exec_payload("ls", None, None, None), "2"),
        Some("{\"id\":\"2\",\"op\":\"exec\",\"script\":\"ls\"}\n".to_string())
    );
    assert_eq!(
        sidecar::request_line(sidecar::write_payload("/a", "x"), "3"),
        Some("{\"content\":\"x\",\"id\":\"3\",\"op\":\"write\",\"path\":\"/a\"}\n".to_string())
    );
    assert_eq!(
        sidecar::request_line(sidecar::read_payload("/a"), "4"),
        Some("{\"id\":\"4\",\"op\":\"read\",\"path\":\"/a\"}\n".to_string())
    );
    assert_eq!(
        sidecar::request_line(sidecar::ls_payload(None), "5"),
        Some("{\"id\":\"5\",\"op\":\"ls\"}\n".to_string())
    );
    assert_eq!(
        sidecar::request_line(sidecar::ls_payload(Some("/d")), "5"),
        Some("{\"id\":\"5\",\"op\":\"ls\",\"path\":\"/d\"}\n".to_string())
    );
    assert_eq!(
        sidecar::request_line(sidecar::reset_payload(), "6"),
        Some("{\"id\":\"6\",\"op\":\"reset\"}\n".to_string())
    );
}

#[test]
fn blank_lines_are_skipped() {
    assert_eq!(sidecar::incoming(" \n"), None);
    assert_eq!(sidecar::incoming(" {} \n"), Some("{}".to_string()));
}

#[test]
fn each_request_is_settled_once() {
    let mut pending: PendingRequests<&str> = PendingRequests::new();
    let first = pending.begin("one");
    let second = pending.begin("two");
    assert_eq!(first, "1");
    assert_eq!(second, "2");
    assert_eq!(pending.settle(Some("3")), None);
    assert_eq!(pending.settle(None), None);
    assert_eq!(pending.settle(Some("2")), Some("two"));
    assert_eq!(pending.settle(Some("2")), None);
    assert_eq!(pending.begin("three"), "3");
    assert_eq!(pending.settle(Some("1")), Some("one"));
    assert_eq!(pending.settle(Some("3")), Some("three"));
}

#[test]
fn waits_end_with_a_response_or_an_error() {
    assert!(sidecar::settled(WaitEnd::Answered(response(true))).is_ok());
    let message = |end| sidecar::settled(end).unwrap_err().message;
    assert_eq!(message(WaitEnd::NotSent), "jsbash sidecar writer closed");
    assert_eq!(
        message(WaitEnd::Dropped),
        "jsbash sidecar dropped the response channel"
    );
    assert_eq!(
        message(WaitEnd::TimedOut),
        "jsbash sidecar request timed out"
    );
}

#[test]
fn responses_are_interpreted() {
    assert_eq!(
        sidecar::ready_result(response(true)),
        Ok("just-bash".to_string())
    );
    let mut named = response(true);
    named.version = Some("v1".into());
    assert_eq!(sidecar::ready_result(named), Ok("v1".to_string()));
    assert_eq!(
        sidecar::ready_result(response(false)).unwrap_err().message,
        "sidecar not ready"
    );
    let exec = sidecar::exec_result(response(true)).unwrap();
    assert_eq!(
        (exec.stdout.as_str(), exec.stderr.as_str(), exec.exit_code),
        ("", "", 0)
    );
    let mut full = response(true);
    full.stdout = Some("o".into());
    full.stderr = Some("e".into());
    full.exit_code = Some(4);
    let exec = sidecar::exec_result(full).unwrap();
    assert_eq!(
        (exec.stdout.as_str(), exec.stderr.as_str(), exec.exit_code),
        ("o", "e", 4)
    );
    assert_eq!(
        sidecar::exec_result(response(false)).unwrap_err().message,
        "exec failed"
    );
    assert_eq!(
        sidecar::write_result(response(false)).unwrap_err().message,
        "write failed"
    );
    assert!(sidecar::write_result(response(true)).is_ok());
    let mut read = response(true);
    read.content = Some("c".into());
    assert_eq!(sidecar::read_result(read), Ok("c".to_string()));
    assert_eq!(
        sidecar::read_result(response(false)).unwrap_err().message,
        "read failed"
    );
    let mut listing = response(true);
    listing.stdout = Some("l".into());
    assert_eq!(sidecar::ls_result(listing), Ok("l".to_string()));
    assert_eq!(
        sidecar::ls_result(response(false)).unwrap_err().message,
        "ls failed"
    );
    assert_eq!(
        sidecar::reset_result(response(false)).unwrap_err().message,
        "reset failed"
    );
    let mut refused = response(false);
    refused.error = Some("no such file".into());
    assert_eq!(
        sidecar::read_result(refused).unwrap_err().message,
        "no such file"
    );
}

#[test]
fn node_is_looked_for_on_the_path() {
    let dirs = vec!["/a".to_string(), "/b".to_string()];
    let candidates = jsbash::node_candidates(&dirs, false);
    assert_eq!(candidates, vec!["/a/node", "/b/node"]);
    assert_eq!(
        external_cli::find_binary(&candidates, &vec![false, true]).as_deref(),
        Some("/b/node")
    );
    assert_eq!(jsbash::node_candidates(&dirs, true)[0], "/a/node.exe");
    let tool: JsBashTool<u32> = JsBashTool::new();
    assert_eq!(tool.name(), "jsbash");
    let schema = tool.parameters_schema(Json::Null);
    assert!(schema.get("properties").unwrap().get("swarm").is_some());
}
