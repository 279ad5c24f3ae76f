//! A sandboxed virtual bash, served by a long-lived Node process (the sidecar).
//!
//! A session has a sidecar of its own; the members of a swarm share one. Sidecars
//! are started when they are first needed, and started anew when they have ended.

use vstd::prelude::*;

use crate::external_cli;
use crate::integration_support;
use crate::json;
use crate::json::{Json, JsonView};
use crate::schema;
use crate::table::StringTable;
use crate::text;
use crate::tool;
use crate::tool::{ToolContext, ToolOutput, ToolOutputView};

pub mod assets;
pub mod sidecar;

pub use assets::{PACKAGE_JSON, SERVER_MJS};
pub use sidecar::ExecResult;

verus! {

/// What the tool says of itself.
pub const DESCRIPTION: &'static str =
    "Deterministic sandboxed virtual bash (just-bash): run shell scripts, JS/TS (QuickJS) and data tools (jq/sqlite3/awk/sed) against an in-memory/overlay filesystem that never mutates the host. Use for data shaping, multi-file synthesis, and swarm orchestration; keep real `bash` for host-mutating builds/tests/git. Actions: exec, write_file, read_file, ls, reset, setup, status.";

/// What a sidecar that does not get ready is said to have failed at.
pub const NOT_READY: &'static str =
    "jsbash sidecar failed readiness check (is just-bash installed? run setup)";

/// A call that failed.
#[derive(Debug, PartialEq)]
pub struct JsBashError {
    pub message: String,
}

/// The parameters of a call.
#[derive(Debug)]
pub struct JsBashInput {
    pub action: String,
    pub script: Option<String>,
    pub stdin: Option<String>,
    pub path: Option<String>,
    pub content: Option<String>,
    pub cwd: Option<String>,
    /// The swarm whose sandbox is meant; without it, that of the session.
    pub swarm: Option<String>,
    pub overwrite: Option<bool>,
}

/// What a call asks for.
#[derive(Debug)]
pub enum JsBashRequest {
    Status,
    Setup { overwrite: bool },
    Exec { script: String, stdin: Option<String>, cwd: Option<String> },
    WriteFile { path: String, content: String },
    ReadFile { path: String },
    Ls { dir: Option<String> },
    Reset,
    /// Answer at once.
    Reply(ToolOutput),
}

/// What a [`JsBashRequest`] means.
pub enum RequestView {
    Status,
    Setup { overwrite: bool },
    Exec { script: Seq<char>, stdin: Option<Seq<char>>, cwd: Option<Seq<char>> },
    WriteFile { path: Seq<char>, content: Seq<char> },
    ReadFile { path: Seq<char> },
    Ls { dir: Option<Seq<char>> },
    Reset,
    Reply(ToolOutputView),
}

impl View for JsBashRequest {
    type V = RequestView;

    open spec fn view(&self) -> RequestView {
        match *self {
            JsBashRequest::Status => RequestView::Status,
            JsBashRequest::Setup { overwrite } => RequestView::Setup { overwrite },
            JsBashRequest::Exec { script, stdin, cwd } => RequestView::Exec {
                script: script@,
                stdin: text::opt_text(stdin),
                cwd: text::opt_text(cwd),
            },
            JsBashRequest::WriteFile { path, content } => RequestView::WriteFile {
                path: path@,
                content: content@,
            },
            JsBashRequest::ReadFile { path } => RequestView::ReadFile { path: path@ },
            JsBashRequest::Ls { dir } => RequestView::Ls { dir: text::opt_text(dir) },
            JsBashRequest::Reset => RequestView::Reset,
            JsBashRequest::Reply(output) => RequestView::Reply(output@),
        }
    }
}

/// What a call asks for; the message of its error where something is missing.
pub open spec fn request_of(input: JsBashInput) -> Result<RequestView, Seq<char>> {
    let action = input.action@;
    if action == "status"@ {
        Ok(RequestView::Status)
    } else if action == "setup"@ {
        Ok(RequestView::Setup { overwrite: tool::is_on(input.overwrite) })
    } else if action == "exec"@ {
        match input.script {
            Some(script) => Ok(
                RequestView::Exec {
                    script: script@,
                    stdin: text::opt_text(input.stdin),
                    cwd: text::opt_text(input.cwd),
                },
            ),
            None => Err("exec requires `script`"@),
        }
    } else if action == "write_file"@ {
        match input.path {
            Some(path) => Ok(
                RequestView::WriteFile {
                    path: path@,
                    content: sidecar::text_or_empty(input.content),
                },
            ),
            None => Err("write_file requires `path`"@),
        }
    } else if action == "read_file"@ {
        match input.path {
            Some(path) => Ok(RequestView::ReadFile { path: path@ }),
            None => Err("read_file requires `path`"@),
        }
    } else if action == "ls"@ {
        Ok(RequestView::Ls { dir: text::opt_text(input.path) })
    } else if action == "reset"@ {
        Ok(RequestView::Reset)
    } else {
        Ok(
            RequestView::Reply(
                tool::plain_output(
                    "Unknown action: "@ + action
                        + ". Use exec, write_file, read_file, ls, reset, setup, or status."@,
                ),
            ),
        )
    }
}

/// The names of the actions.
pub open spec fn action_names() -> Seq<Seq<char>> {
    seq![
        "exec"@,
        "write_file"@,
        "read_file"@,
        "ls"@,
        "reset"@,
        "setup"@,
        "status"@,
    ]
}

/// The parameters of the tool.
pub open spec fn parameters(intent: JsonView) -> Seq<(Seq<char>, JsonView)> {
    seq![
        ("intent"@, intent),
        (
            "action"@,
            schema::choice_view(
                action_names(),
                "exec runs a script; write_file/read_file/ls operate on the virtual fs; reset clears the virtual fs; setup installs the Node sidecar into ~/.jcode/jsbash; status reports availability."@,
            ),
        ),
        (
            "script"@,
            schema::typed_view(
                "string"@,
                "Shell script for exec. Supports pipes, redirects, &&/||/;, functions, loops, and builtins. Use `js-exec -c \"<code>\"` for JS/TS."@,
            ),
        ),
        (
            "stdin"@,
            schema::typed_view("string"@, "Optional stdin passed to the exec script."@),
        ),
        (
            "path"@,
            schema::typed_view(
                "string"@,
                "Virtual filesystem path for write_file/read_file/ls."@,
            ),
        ),
        ("content"@, schema::typed_view("string"@, "Content for write_file."@)),
        ("cwd"@, schema::typed_view("string"@, "Working directory override for exec."@)),
        (
            "swarm"@,
            schema::typed_view(
                "string"@,
                "Swarm sandbox key. When set, uses a shared ReadWriteFs under ~/.jcode/jsbash/swarm-<key>/ so swarm members share files."@,
            ),
        ),
        (
            "overwrite"@,
            schema::typed_view("boolean"@, "For setup: reinstall even if already present."@),
        ),
    ]
}

/// The key of a sidecar: that of the swarm, or that of the session.
pub open spec fn key_of(session_id: Seq<char>, swarm: Option<Seq<char>>) -> Seq<char> {
    match swarm {
        Some(s) => "swarm:"@ + s,
        None => "session:"@ + session_id,
    }
}

/// The tool, with the sidecars that were started. A `C` is the connection to one.
#[derive(Debug)]
pub struct JsBashTool<C> {
    sidecars: StringTable<C>,
}

impl<C> View for JsBashTool<C> {
    type V = Map<Seq<char>, C>;

    closed spec fn view(&self) -> Map<Seq<char>, C> {
        self.sidecars@
    }
}

/// The action of a call that names none.
pub fn default_action() -> (r: String)
    ensures
        r@ == "status"@,
{
    "status".to_owned()
}

fn error(message: &str) -> (r: JsBashError)
    ensures
        r.message@ == message@,
{
    JsBashError { message: message.to_owned() }
}

fn copied(s: &Option<String>) -> (r: Option<String>)
    ensures
        text::opt_text(r) == text::opt_text(*s),
{
    match s {
        Some(t) => Some(t.clone()),
        None => None,
    }
}

impl<C> JsBashTool<C> {
    /// The table of sidecars is well formed.
    pub closed spec fn wf(&self) -> bool {
        self.sidecars.wf()
    }

    /// The tool, before any sidecar was started.
    pub fn new() -> (r: JsBashTool<C>)
        ensures
            r.wf(),
            r@ == Map::<Seq<char>, C>::empty(),
    {
        JsBashTool { sidecars: StringTable::new() }
    }

    /// The name of the tool.
    pub fn name(&self) -> (r: &'static str)
        ensures
            r@ == "jsbash"@,
    {
        "jsbash"
    }

    /// What the tool says of itself.
    pub fn description(&self) -> (r: &'static str)
        ensures
            r@ == DESCRIPTION@,
    {
        DESCRIPTION
    }

    /// The schema of the parameters. `intent` is the schema of the parameter that
    /// every tool has.
    pub fn parameters_schema(&self, intent: Json) -> (r: Json)
        ensures
            r@ == schema::object_schema(parameters(intent@)),
    {
        let actions = ["exec", "write_file", "read_file", "ls", "reset", "setup", "status"];
        assert(schema::strs_view(actions@) =~= action_names());
        let mut p: Vec<(String, Json)> = Vec::new();
        json::push_field(&mut p, "intent", intent);
        json::push_field(
            &mut p,
            "action",
            schema::choice(
                &actions,
                "exec runs a script; write_file/read_file/ls operate on the virtual fs; reset clears the virtual fs; setup installs the Node sidecar into ~/.jcode/jsbash; status reports availability.",
            ),
        );
        json::push_field(
            &mut p,
            "script",
            schema::typed(
                "string",
                "Shell script for exec. Supports pipes, redirects, &&/||/;, functions, loops, and builtins. Use `js-exec -c \"<code>\"` for JS/TS.",
            ),
        );
        json::push_field(
            &mut p,
            "stdin",
            schema::typed("string", "Optional stdin passed to the exec script."),
        );
        json::push_field(
            &mut p,
            "path",
            schema::typed("string", "Virtual filesystem path for write_file/read_file/ls."),
        );
        json::push_field(&mut p, "content", schema::typed("string", "Content for write_file."));
        json::push_field(
            &mut p,
            "cwd",
            schema::typed("string", "Working directory override for exec."),
        );
        json::push_field(
            &mut p,
            "swarm",
            schema::typed(
                "string",
                "Swarm sandbox key. When set, uses a shared ReadWriteFs under ~/.jcode/jsbash/swarm-<key>/ so swarm members share files.",
            ),
        );
        json::push_field(
            &mut p,
            "overwrite",
            schema::typed("boolean", "For setup: reinstall even if already present."),
        );
        assert(json::fields_view(p@) =~= parameters(intent@));
        schema::object(p)
    }

    /// What a call asks for.
    pub fn plan(&self, input: &JsBashInput) -> (r: Result<JsBashRequest, JsBashError>)
        ensures
            match (r, request_of(*input)) {
                (Ok(request), Ok(view)) => request@ == view,
                (Err(e), Err(message)) => e.message@ == message,
                _ => false,
            },
    {
        let action = input.action.as_str();
        if text::same(action, "status") {
            Ok(JsBashRequest::Status)
        } else if text::same(action, "setup") {
            Ok(JsBashRequest::Setup { overwrite: tool::on(input.overwrite) })
        } else if text::same(action, "exec") {
            match &input.script {
                Some(script) => Ok(
                    JsBashRequest::Exec {
                        script: script.clone(),
                        stdin: copied(&input.stdin),
                        cwd: copied(&input.cwd),
                    },
                ),
                None => Err(error("exec requires `script`")),
            }
        } else if text::same(action, "write_file") {
            match &input.path {
                Some(path) => {
                    let content = match &input.content {
                        Some(content) => content.clone(),
                        None => String::new(),
                    };
                    assert(content@ =~= sidecar::text_or_empty(input.content));
                    Ok(JsBashRequest::WriteFile { path: path.clone(), content })
                },
                None => Err(error("write_file requires `path`")),
            }
        } else if text::same(action, "read_file") {
            match &input.path {
                Some(path) => Ok(JsBashRequest::ReadFile { path: path.clone() }),
                None => Err(error("read_file requires `path`")),
            }
        } else if text::same(action, "ls") {
            Ok(JsBashRequest::Ls { dir: copied(&input.path) })
        } else if text::same(action, "reset") {
            Ok(JsBashRequest::Reset)
        } else {
            let mut message = "Unknown action: ".to_owned();
            message.append(action);
            message.append(". Use exec, write_file, read_file, ls, reset, setup, or status.");
            Ok(JsBashRequest::Reply(ToolOutput::new(message)))
        }
    }

    /// The key of the sidecar that serves a call.
    pub fn sidecar_key(&self, ctx: &ToolContext, swarm: Option<&str>) -> (r: String)
        ensures
            r@ == key_of(ctx.session_id@, text::opt_str(swarm)),
    {
        match swarm {
            Some(s) => {
                let mut key = "swarm:".to_owned();
                key.append(s);
                key
            },
            None => {
                let mut key = "session:".to_owned();
                key.append(ctx.session_id.as_str());
                key
            },
        }
    }

    /// The sidecar that was started under `key`, if one was.
    pub fn known_client(&self, key: &str) -> (r: Option<&C>)
        requires
            self.wf(),
        ensures
            match r {
                Some(client) => self@.contains_key(key@) && self@[key@] == *client,
                None => !self@.contains_key(key@),
            },
    {
        self.sidecars.get(key)
    }

    /// The sidecar that can serve under `key`: the one that was started, as long as
    /// it runs. Where there is none, one has to be started and kept.
    pub fn client_for(&self, key: &str, running: bool) -> (r: Option<&C>)
        requires
            self.wf(),
        ensures
            match r {
                Some(client) => self@.contains_key(key@) && running && self@[key@] == *client,
                None => !(self@.contains_key(key@) && running),
            },
    {
        match self.sidecars.get(key) {
            Some(client) => {
                if running {
                    Some(client)
                } else {
                    None
                }
            },
            None => None,
        }
    }

    /// Keeps a sidecar that was started under `key`, in the place of an earlier one.
    pub fn keep_client(&mut self, key: String, client: C)
        requires
            old(self).wf(),
        ensures
            final(self).wf(),
            final(self)@ == old(self)@.insert(key@, client),
    {
        self.sidecars.insert(key, client);
    }

    /// Lets go of the sidecar under `key`.
    pub fn forget_client(&mut self, key: &str) -> (r: Option<C>)
        requires
            old(self).wf(),
        ensures
            final(self).wf(),
            final(self)@ == old(self)@.remove(key@),
            match r {
                Some(client) => old(self)@.contains_key(key@) && old(self)@[key@] == client,
                None => !old(self)@.contains_key(key@),
            },
    {
        self.sidecars.remove(key)
    }
}

impl<C> Default for JsBashTool<C> {
    /// The tool, before any sidecar was started.
    fn default() -> (r: JsBashTool<C>)
        ensures
            r.wf(),
            r@ == Map::<Seq<char>, C>::empty(),
    {
        JsBashTool::new()
    }
}

/// The members of a swarm share a sidecar, and nobody else has it: keys are the same
/// exactly where the swarms are, or, without swarms, where the sessions are.
pub proof fn law_sidecars_are_shared_by_swarms_only(
    session: Seq<char>,
    swarm: Option<Seq<char>>,
    other_session: Seq<char>,
    other_swarm: Option<Seq<char>>,
)
    ensures
        (key_of(session, swarm) == key_of(other_session, other_swarm)) == match (
            swarm,
            other_swarm,
        ) {
            (Some(a), Some(b)) => a == b,
            (None, None) => session == other_session,
            _ => false,
        },
{
    reveal_strlit("swarm:");
    reveal_strlit("session:");
    let a = key_of(session, swarm);
    let b = key_of(other_session, other_swarm);
    match (swarm, other_swarm) {
        (Some(x), Some(y)) => {
            assert(a.skip(6) =~= x);
            assert(b.skip(6) =~= y);
        },
        (None, None) => {
            assert(a.skip(8) =~= session);
            assert(b.skip(8) =~= other_session);
        },
        (Some(_), None) => {
            assert(a[1] == 'w' && b[1] == 'e');
        },
        (None, Some(_)) => {
            assert(a[1] == 'e' && b[1] == 'w');
        },
    }
}

/// `s` as the last line before another text: with a newline, unless it ends with one
/// or is empty.
pub open spec fn ended(s: Seq<char>) -> Seq<char> {
    if s.len() > 0 && s.last() != '\n' {
        s.push('\n')
    } else {
        s
    }
}

/// How the result of a script is shown: its output, then its errors, then its exit
/// code where it is not zero.
pub open spec fn exec_text(stdout: Seq<char>, stderr: Seq<char>, exit_code: i64) -> Seq<char> {
    let with_errors = if stderr.len() > 0 {
        ended(stdout) + "[stderr]\n"@ + stderr
    } else {
        stdout
    };
    let whole = if exit_code != 0 {
        ended(with_errors) + "[exit "@ + text::signed_decimal(exit_code as int) + "]"@
    } else {
        with_errors
    };
    if whole.len() == 0 {
        "(no output)"@
    } else {
        whole
    }
}

/// An integer as JSON.
pub open spec fn integer_view(n: i64) -> JsonView {
    if n >= 0 {
        JsonView::Unsigned(n as u64)
    } else {
        JsonView::Negative(n)
    }
}

/// The output that shows the result of a script.
pub open spec fn exec_output(stdout: Seq<char>, stderr: Seq<char>, exit_code: i64) ->
    ToolOutputView {
    ToolOutputView {
        output: exec_text(stdout, stderr, exit_code),
        title: None,
        metadata: Some(JsonView::Object(seq![("exitCode"@, integer_view(exit_code))])),
        images: Seq::empty(),
    }
}

fn end_line(body: &mut String)
    ensures
        final(body)@ == ended(old(body)@),
{
    if !body.as_str().is_empty() && !text::ends_with_char(body.as_str(), '\n') {
        body.push('\n');
    }
}

/// Shows the result of a script.
pub fn format_exec(result: &ExecResult) -> (r: ToolOutput)
    ensures
        r@ == exec_output(result.stdout@, result.stderr@, result.exit_code),
{
    let mut body = result.stdout.clone();
    if !result.stderr.as_str().is_empty() {
        end_line(&mut body);
        body.append("[stderr]\n");
        body.append(result.stderr.as_str());
    }
    if result.exit_code != 0 {
        end_line(&mut body);
        body.append("[exit ");
        let code = text::signed_decimal_text(result.exit_code);
        body.append(code.as_str());
        body.append("]");
    }
    if body.as_str().is_empty() {
        body = "(no output)".to_owned();
    }
    let code = if result.exit_code >= 0 {
        Json::Unsigned(result.exit_code as u64)
    } else {
        Json::Negative(result.exit_code)
    };
    let mut fields: Vec<(String, Json)> = Vec::new();
    json::push_field(&mut fields, "exitCode", code);
    assert(json::fields_view(fields@) =~= seq![("exitCode"@, integer_view(result.exit_code))]);
    ToolOutput::new(body).with_metadata(json::object(fields))
}

/// The output of a script that was run.
pub fn exec_reply(result: &ExecResult) -> (r: ToolOutput)
    ensures
        r@ == (ToolOutputView {
            title: Some("jsbash exec"@),
            ..exec_output(result.stdout@, result.stderr@, result.exit_code)
        }),
{
    format_exec(result).with_title("jsbash exec")
}

/// The output of a file that was written.
pub fn write_reply(path: &str, content: &str) -> (r: ToolOutput)
    ensures
        r@ == tool::titled_output(
            "wrote "@ + path@ + " ("@ + text::decimal(
                vstd::utf8::encode_utf8(content@).len(),
            ) + " bytes)"@,
            "jsbash write_file"@,
        ),
{
    let mut message = "wrote ".to_owned();
    message.append(path);
    message.append(" (");
    let size = text::decimal_text(content.as_bytes().len() as u64);
    message.append(size.as_str());
    message.append(" bytes)");
    ToolOutput::new(message).with_title("jsbash write_file")
}

/// The output of a file that was read.
pub fn read_reply(content: String) -> (r: ToolOutput)
    ensures
        r@ == tool::titled_output(content@, "jsbash read_file"@),
{
    ToolOutput::new(content).with_title("jsbash read_file")
}

/// The output of a directory that was listed.
pub fn ls_reply(listing: String) -> (r: ToolOutput)
    ensures
        r@ == tool::titled_output(listing@, "jsbash ls"@),
{
    ToolOutput::new(listing).with_title("jsbash ls")
}

/// The output of a sandbox that was reset.
pub fn reset_reply() -> (r: ToolOutput)
    ensures
        r@ == tool::titled_output("jsbash sandbox reset"@, "jsbash reset"@),
{
    ToolOutput::new("jsbash sandbox reset".to_owned()).with_title("jsbash reset")
}

/// The directory of the sidecar in the configuration directory.
pub open spec fn dir_of(jcode_dir: Seq<char>) -> Seq<char> {
    external_cli::path_below(jcode_dir, "jsbash"@)
}

/// The directory of the sidecar in the configuration directory `jcode_dir`.
pub fn jsbash_dir(jcode_dir: &str) -> (r: String)
    ensures
        r@ == dir_of(jcode_dir@),
{
    external_cli::join_path(jcode_dir, "jsbash")
}

/// The file of the sidecar.
pub fn server_path(jcode_dir: &str) -> (r: String)
    ensures
        r@ == external_cli::path_below(dir_of(jcode_dir@), "server.mjs"@),
{
    let dir = jsbash_dir(jcode_dir);
    external_cli::join_path(dir.as_str(), "server.mjs")
}

/// A character that is safe in the name of a directory.
pub open spec fn safe_char(c: char) -> bool {
    ||| 'a' <= c <= 'z'
    ||| 'A' <= c <= 'Z'
    ||| '0' <= c <= '9'
    ||| c == '-'
    ||| c == '_'
}

/// A key with an underscore in the place of every character that is not safe.
pub open spec fn safe_key(key: Seq<char>) -> Seq<char> {
    Seq::new(
        key.len(),
        |i: int|
            if safe_char(key[i]) {
                key[i]
            } else {
                '_'
            },
    )
}

/// The directory that the members of a swarm share.
pub open spec fn swarm_dir(jcode_dir: Seq<char>, key: Seq<char>) -> Seq<char> {
    external_cli::path_below(dir_of(jcode_dir), "swarm-"@ + safe_key(key))
}

/// The directory that the members of the swarm `key` share.
pub fn swarm_sandbox_dir(jcode_dir: &str, key: &str) -> (r: String)
    ensures
        r@ == swarm_dir(jcode_dir@, key@),
{
    let v = text::chars_of(key);
    let mut name = "swarm-".to_owned();
    let ghost safe = safe_key(key@);
    let mut i: usize = 0;
    assert(name@ =~= "swarm-"@ + safe.take(0));
    while i < v.len()
        invariant
            i <= v.len(),
            v@ == key@,
            safe == safe_key(key@),
            name@ == "swarm-"@ + safe.take(i as int),
        decreases v.len() - i,
    {
        let c = v[i];
        let safe_one = ('a' <= c && c <= 'z') || ('A' <= c && c <= 'Z') || ('0' <= c && c <= '9')
            || c == '-' || c == '_';
        name.push(if safe_one { c } else { '_' });
        assert(safe.take(i + 1) =~= safe.take(i as int).push(safe[i as int]));
        assert(name@ =~= "swarm-"@ + safe.take(i + 1));
        i += 1;
    }
    assert(safe.take(i as int) =~= safe);
    let dir = jsbash_dir(jcode_dir);
    external_cli::join_path(dir.as_str(), name.as_str())
}

/// The directory of a swarm is a direct child of the sidecar's directory, whatever
/// the key: its name has safe characters only.
pub proof fn law_swarm_dir_stays_inside(jcode_dir: Seq<char>, key: Seq<char>)
    ensures
        ({
            let name = "swarm-"@ + safe_key(key);
            let parent = dir_of(jcode_dir);
            &&& forall|i: int| 0 <= i < name.len() ==> safe_char(#[trigger] name[i])
            &&& !name.contains('/')
            &&& swarm_dir(jcode_dir, key) == parent + "/"@ + name
        }),
{
    reveal_strlit("swarm-");
    reveal_strlit("jsbash");
    reveal_strlit("/");
    let name = "swarm-"@ + safe_key(key);
    let parent = dir_of(jcode_dir);
    assert forall|i: int| 0 <= i < name.len() implies safe_char(#[trigger] name[i]) by {
        if i >= 6 {
            assert(name[i] == safe_key(key)[i - 6]);
        }
    }
    assert(parent.last() == 'h');
    assert(name[0] == 's');
    assert(swarm_dir(jcode_dir, key) =~= parent + "/"@ + name);
}

/// How a sidecar is started.
#[derive(Debug)]
pub struct SpawnPlan {
    pub node: String,
    pub server: String,
    /// A directory that has to be there first.
    pub sandbox: Option<String>,
    /// The environment variables that are set for it.
    pub env: Vec<(String, String)>,
}

/// What environment variables mean.
pub open spec fn env_view(env: Seq<(String, String)>) -> Seq<(Seq<char>, Seq<char>)> {
    Seq::new(env.len(), |i: int| (env[i].0@, env[i].1@))
}

/// The environment of a sidecar: it is told the directory that a swarm shares, or
/// else the directory that the session works in.
pub open spec fn sidecar_env(
    jcode_dir: Seq<char>,
    working_dir: Option<Seq<char>>,
    swarm: Option<Seq<char>>,
) -> Seq<(Seq<char>, Seq<char>)> {
    match (swarm, working_dir) {
        (Some(key), _) => seq![("JSBASH_SANDBOX"@, swarm_dir(jcode_dir, key))],
        (None, Some(dir)) => seq![("JSBASH_WORKSPACE"@, dir)],
        (None, None) => Seq::empty(),
    }
}

/// How a sidecar is started, or why it cannot be. `server_exists` tells whether the
/// sidecar is installed; `node` is where Node was found.
pub fn plan_spawn(
    jcode_dir: &str,
    ctx: &ToolContext,
    swarm: Option<&str>,
    server_exists: bool,
    node: Option<&str>,
) -> (r: Result<SpawnPlan, JsBashError>)
    ensures
        match r {
            Ok(plan) => {
                &&& server_exists
                &&& node matches Some(n) && plan.node@ == n@
                &&& plan.server@ == external_cli::path_below(dir_of(jcode_dir@), "server.mjs"@)
                &&& text::opt_text(plan.sandbox) == match swarm {
                    Some(key) => Some(swarm_dir(jcode_dir@, key@)),
                    None => None,
                }
                &&& env_view(plan.env@) == sidecar_env(
                    jcode_dir@,
                    text::opt_text(ctx.working_dir),
                    text::opt_str(swarm),
                )
            },
            Err(e) => {
                &&& !server_exists || node is None
                &&& e.message@ == if !server_exists {
                    "jsbash sidecar not installed. Run the `jsbash` tool with action=setup first (installs into "@
                        + dir_of(jcode_dir@) + ")."@
                } else {
                    "`node` not found on PATH. Install Node.js to use jsbash."@
                }
            },
        },
{
    if !server_exists {
        let dir = jsbash_dir(jcode_dir);
        let mut message =
            "jsbash sidecar not installed. Run the `jsbash` tool with action=setup first (installs into ".to_owned();
        message.append(dir.as_str());
        message.append(").");
        return Err(JsBashError { message });
    }
    let node = match node {
        Some(node) => node,
        None => return Err(error("`node` not found on PATH. Install Node.js to use jsbash.")),
    };
    let mut env: Vec<(String, String)> = Vec::new();
    let mut sandbox: Option<String> = None;
    match swarm {
        Some(key) => {
            let dir = swarm_sandbox_dir(jcode_dir, key);
            env.push(("JSBASH_SANDBOX".to_owned(), dir.clone()));
            sandbox = Some(dir);
        },
        None => {
            if let Some(dir) = &ctx.working_dir {
                env.push(("JSBASH_WORKSPACE".to_owned(), dir.clone()));
            }
        },
    }
    assert(env_view(env@) =~= sidecar_env(
        jcode_dir@,
        text::opt_text(ctx.working_dir),
        text::opt_str(swarm),
    ));
    Ok(SpawnPlan { node: node.to_owned(), server: server_path(jcode_dir), sandbox, env })
}

/// What setting up writes.
#[derive(Debug, Clone, Copy, PartialEq, Eq, Structural)]
pub struct SetupPlan {
    pub write_server: bool,
    pub write_package: bool,
}

/// What setting up writes: what is not there yet, and everything where it is to be
/// overwritten.
pub fn plan_setup(server_exists: bool, package_exists: bool, overwrite: bool) -> (r: SetupPlan)
    ensures
        r.write_server == (!server_exists || overwrite),
        r.write_package == (!package_exists || overwrite),
{
    SetupPlan {
        write_server: !server_exists || overwrite,
        write_package: !package_exists || overwrite,
    }
}

/// Whether the dependency of the sidecar is to be installed.
pub fn needs_install(node_found: bool, modules_present: bool) -> (r: bool)
    ensures
        r == (node_found && !modules_present),
{
    node_found && !modules_present
}

/// A package manager, with the arguments that make it install.
#[derive(Debug)]
pub struct Installer {
    pub program: &'static str,
    pub args: Vec<String>,
}

/// The package manager to use, given which of them were found: the first of pnpm,
/// bun and npm.
pub fn choose_installer(pnpm: bool, bun: bool, npm: bool) -> (r: Option<Installer>)
    ensures
        match r {
            Some(installer) => if pnpm {
                installer.program@ == "pnpm"@ && text::texts(installer.args@) == seq![
                    "install"@,
                    "--prod"@,
                ]
            } else if bun {
                installer.program@ == "bun"@ && text::texts(installer.args@) == seq!["install"@]
            } else {
                npm && installer.program@ == "npm"@ && text::texts(installer.args@) == seq![
                    "install"@,
                    "--no-audit"@,
                    "--no-fund"@,
                ]
            },
            None => !pnpm && !bun && !npm,
        },
{
    let mut args = tool::single("install");
    if pnpm {
        text::push_text(&mut args, "--prod".to_owned());
        assert(text::texts(args@) =~= seq!["install"@, "--prod"@]);
        Some(Installer { program: "pnpm", args })
    } else if bun {
        Some(Installer { program: "bun", args })
    } else if npm {
        text::push_text(&mut args, "--no-audit".to_owned());
        text::push_text(&mut args, "--no-fund".to_owned());
        assert(text::texts(args@) =~= seq!["install"@, "--no-audit"@, "--no-fund"@]);
        Some(Installer { program: "npm", args })
    } else {
        None
    }
}

/// How the installation of the dependency ended.
#[derive(Debug)]
pub enum InstallEnd {
    /// There is no package manager.
    NoManager,
    /// The package manager could not be run.
    NotRun { program: String },
    /// The package manager failed, with this exit status.
    Failed { program: String, status: String },
    /// The dependency was installed.
    Done { program: String },
}

/// What is said of a failed installation.
pub open spec fn install_error(end: InstallEnd) -> Seq<char> {
    match end {
        InstallEnd::NoManager => "no package manager (pnpm/bun/npm) found on PATH"@,
        InstallEnd::NotRun { program } => "run "@ + program@ + " install"@,
        InstallEnd::Failed { program, status } => program@ + " install exited with "@ + status@,
        InstallEnd::Done { .. } => Seq::empty(),
    }
}

/// What the report of setting up says of the dependency.
pub open spec fn install_line(end: InstallEnd, dir: Seq<char>) -> Seq<char> {
    match end {
        InstallEnd::Done { program } => "- installed just-bash via "@ + program@,
        _ => "- could NOT install just-bash automatically ("@ + install_error(end)
            + "). Run `npm install` (or pnpm/bun) in "@ + dir + "."@,
    }
}

/// What setting up reports. `installed` is how the installation ended, none where
/// the dependency was there.
pub open spec fn setup_lines(
    dir: Seq<char>,
    server_existed: bool,
    overwrite: bool,
    node: Option<Seq<char>>,
    installed: Option<InstallEnd>,
) -> Seq<Seq<char>> {
    seq![
        "jsbash native Jcode setup:"@,
        "- Sidecar dir: "@ + dir,
        "- server.mjs: "@ + (if server_existed && !overwrite {
            "already present"@
        } else {
            "written"@
        }),
    ] + match node {
        None => seq![
            "- node NOT found on PATH. Install Node.js, then re-run setup to install just-bash."@,
        ],
        Some(n) => seq![
            "- node detected: "@ + n,
            match installed {
                Some(end) => install_line(end, dir),
                None => "- just-bash already installed"@,
            },
        ],
    }
}

fn install_report(end: &InstallEnd, dir: &str) -> (r: String)
    ensures
        r@ == install_line(*end, dir@),
{
    let mut reason = String::new();
    match end {
        InstallEnd::Done { program } => {
            let mut line = "- installed just-bash via ".to_owned();
            line.append(program.as_str());
            return line;
        },
        InstallEnd::NoManager => {
            reason.append("no package manager (pnpm/bun/npm) found on PATH");
        },
        InstallEnd::NotRun { program } => {
            reason.append("run ");
            reason.append(program.as_str());
            reason.append(" install");
        },
        InstallEnd::Failed { program, status } => {
            reason.append(program.as_str());
            reason.append(" install exited with ");
            reason.append(status.as_str());
        },
    }
    assert(reason@ =~= install_error(*end));
    let mut line = "- could NOT install just-bash automatically (".to_owned();
    line.append(reason.as_str());
    line.append("). Run `npm install` (or pnpm/bun) in ");
    line.append(dir);
    line.append(".");
    line
}

/// Reports what setting up did.
pub fn setup(
    dir: &str,
    server_existed: bool,
    overwrite: bool,
    node: Option<&str>,
    installed: Option<&InstallEnd>,
) -> (r: ToolOutput)
    ensures
        r@ == tool::titled_output(
            text::join(
                setup_lines(
                    dir@,
                    server_existed,
                    overwrite,
                    text::opt_str(node),
                    match installed {
                        Some(end) => Some(*end),
                        None => None,
                    },
                ),
                "\n"@,
            ),
            "jsbash setup"@,
        ),
{
    let mut lines = tool::single("jsbash native Jcode setup:");
    let mut place = "- Sidecar dir: ".to_owned();
    place.append(dir);
    text::push_text(&mut lines, place);
    let mut server = "- server.mjs: ".to_owned();
    if server_existed && !overwrite {
        server.append("already present");
    } else {
        server.append("written");
    }
    text::push_text(&mut lines, server);
    match node {
        None => {
            text::push_text(
                &mut lines,
                "- node NOT found on PATH. Install Node.js, then re-run setup to install just-bash.".to_owned(),
            );
        },
        Some(n) => {
            let mut detected = "- node detected: ".to_owned();
            detected.append(n);
            text::push_text(&mut lines, detected);
            match installed {
                Some(end) => text::push_text(&mut lines, install_report(end, dir)),
                None => text::push_text(&mut lines, "- just-bash already installed".to_owned()),
            }
        },
    }
    assert(text::texts(lines@) =~= setup_lines(
        dir@,
        server_existed,
        overwrite,
        text::opt_str(node),
        match installed {
            Some(end) => Some(*end),
            None => None,
        },
    ));
    ToolOutput::new(text::joined(lines.as_slice(), "\n")).with_title("jsbash setup")
}

/// What the status report says.
pub open spec fn status_text(
    dir: Seq<char>,
    server_exists: bool,
    modules_exist: bool,
    node: Option<Seq<char>>,
) -> Seq<char> {
    "jsbash native Jcode status:\n- Sidecar dir: "@ + dir + "\n- server.mjs present: "@
        + integration_support::yes_or_no(server_exists) + "\n- just-bash installed: "@
        + integration_support::yes_or_no(modules_exist) + "\n- node on PATH: "@ + match node {
        Some(n) => n,
        None => "NO"@,
    }
}

/// Reports whether the sidecar, its dependency and Node are there.
pub fn status_output(dir: &str, server_exists: bool, modules_exist: bool, node: Option<&str>) -> (r:
    ToolOutput)
    ensures
        r@ == tool::titled_output(
            status_text(dir@, server_exists, modules_exist, text::opt_str(node)),
            "jsbash status"@,
        ),
{
    let mut body = "jsbash native Jcode status:\n- Sidecar dir: ".to_owned();
    body.append(dir);
    body.append("\n- server.mjs present: ");
    body.append(integration_support::yes_no(server_exists));
    body.append("\n- just-bash installed: ");
    body.append(integration_support::yes_no(modules_exist));
    body.append("\n- node on PATH: ");
    match node {
        Some(n) => body.append(n),
        None => body.append("NO"),
    }
    ToolOutput::new(body).with_title("jsbash status")
}

/// The paths at which Node is looked for.
pub fn node_candidates(path_dirs: &Vec<String>, windows: bool) -> (r: Vec<String>)
    ensures
        text::texts(r@) == external_cli::all_below(
            text::texts(path_dirs@),
            if windows {
                "node"@ + ".exe"@
            } else {
                "node"@
            },
        ),
{
    let exe = external_cli::executable_name("node", windows);
    external_cli::candidates_in(path_dirs, exe.as_str())
}

/// What a script wrote is shown in full: its standard output first, then, on a line of
/// its own, what it wrote to its standard error, and last, on a line of its own, its
/// exit code, where that is not zero. Where there is nothing of all that, it says so.
pub proof fn law_everything_a_script_wrote_is_shown(
    stdout: Seq<char>,
    stderr: Seq<char>,
    exit_code: i64,
)
    ensures
        ({
            let shown = exec_text(stdout, stderr, exit_code);
            let marked = "[stderr]\n"@ + stderr;
            let code = "[exit "@ + text::signed_decimal(exit_code as int) + "]"@;
            &&& stdout.len() == 0 && stderr.len() == 0 && exit_code == 0 ==> shown
                == "(no output)"@
            &&& stdout.len() > 0 && stderr.len() == 0 && exit_code == 0 ==> shown == stdout
            &&& stdout.len() > 0 ==> stdout.len() <= shown.len() && shown.take(stdout.len() as int)
                == stdout
            &&& stderr.len() > 0 ==> exists|i: int|
                {
                    &&& stdout.len() <= i <= stdout.len() + 1
                    &&& i + marked.len() <= shown.len()
                    &&& #[trigger] shown.subrange(i, i + marked.len()) == marked
                    &&& i == 0 || shown[i - 1] == '\n'
                }
            &&& exit_code != 0 ==> {
                let n = shown.len() - code.len();
                &&& n >= 0
                &&& shown.skip(n) == code
                &&& n == 0 || shown[n - 1] == '\n'
            }
        }),
{
    let shown = exec_text(stdout, stderr, exit_code);
    let marked = "[stderr]\n"@ + stderr;
    let code = "[exit "@ + text::signed_decimal(exit_code as int) + "]"@;
    reveal_strlit("[stderr]\n");
    reveal_strlit("[exit ");
    let with_errors = if stderr.len() > 0 {
        ended(stdout) + "[stderr]\n"@ + stderr
    } else {
        stdout
    };
    let whole = if exit_code != 0 {
        ended(with_errors) + "[exit "@ + text::signed_decimal(exit_code as int) + "]"@
    } else {
        with_errors
    };
    if stdout.len() > 0 {
        assert(with_errors.take(stdout.len() as int) =~= stdout);
        assert(shown.take(stdout.len() as int) =~= stdout);
    }
    if stderr.len() > 0 {
        let i = ended(stdout).len() as int;
        assert(with_errors.subrange(i, i + marked.len()) =~= marked);
        assert(shown.subrange(i, i + marked.len()) =~= marked);
        if i > 0 {
            assert(ended(stdout)[i - 1] == '\n');
            assert(shown[i - 1] == ended(stdout)[i - 1]);
        }
    }
    if exit_code != 0 {
        let n = ended(with_errors).len() as int;
        assert(shown == whole);
        assert(shown.skip(n) =~= code);
        assert(shown.len() == n + code.len());
        if n > 0 {
            assert(shown[n - 1] == ended(with_errors)[n - 1]);
        }
    }
}

/// The exit code goes with the output, whatever it is.
pub proof fn law_the_exit_code_is_reported(stdout: Seq<char>, stderr: Seq<char>, exit_code: i64)
    ensures
        ({
            let output = exec_output(stdout, stderr, exit_code);
            &&& output.output == exec_text(stdout, stderr, exit_code)
            &&& output.metadata is Some
            &&& exit_code >= 0 ==> json::get_field(output.metadata->0, "exitCode"@) == Some(
                JsonView::Unsigned(exit_code as u64),
            )
            &&& exit_code < 0 ==> json::get_field(output.metadata->0, "exitCode"@) == Some(
                JsonView::Negative(exit_code),
            )
        }),
{
}

/// What a call asks for: a script needs a script, and what it is given goes with it; a
/// file needs a path; a file that is written without content is empty; and only the
/// seven actions ask for anything.
pub proof fn law_what_a_call_asks_for(input: JsBashInput)
    ensures
        input.action@ == "exec"@ && input.script is None ==> request_of(input) is Err,
        input.action@ == "exec"@ && input.script is Some ==> request_of(input) == Ok::<
            RequestView,
            Seq<char>,
        >(
            RequestView::Exec {
                script: input.script->0@,
                stdin: text::opt_text(input.stdin),
                cwd: text::opt_text(input.cwd),
            },
        ),
        (input.action@ == "write_file"@ || input.action@ == "read_file"@) && input.path is None
            ==> request_of(input) is Err,
        input.action@ == "write_file"@ && input.path is Some && input.content is Some
            ==> request_of(input) == Ok::<RequestView, Seq<char>>(
            RequestView::WriteFile { path: input.path->0@, content: input.content->0@ },
        ),
        input.action@ == "write_file"@ && input.path is Some && input.content is None
            ==> request_of(input) == Ok::<RequestView, Seq<char>>(
            RequestView::WriteFile { path: input.path->0@, content: Seq::empty() },
        ),
        input.action@ == "read_file"@ && input.path is Some ==> request_of(input) == Ok::<
            RequestView,
            Seq<char>,
        >(RequestView::ReadFile { path: input.path->0@ }),
        input.action@ == "ls"@ ==> request_of(input) == Ok::<RequestView, Seq<char>>(
            RequestView::Ls { dir: text::opt_text(input.path) },
        ),
        input.action@ == "reset"@ ==> request_of(input) == Ok::<RequestView, Seq<char>>(
            RequestView::Reset,
        ),
        input.action@ == "status"@ ==> request_of(input) == Ok::<RequestView, Seq<char>>(
            RequestView::Status,
        ),
        input.action@ == "setup"@ ==> request_of(input) == Ok::<RequestView, Seq<char>>(
            RequestView::Setup { overwrite: input.overwrite == Some(true) },
        ),
        input.action@ != "exec"@ && input.action@ != "write_file"@ && input.action@ != "read_file"@
            && input.action@ != "ls"@ && input.action@ != "reset"@ && input.action@ != "status"@
            && input.action@ != "setup"@ ==> (request_of(input) matches Ok(RequestView::Reply(_))),
{
    reveal_strlit("exec");
    reveal_strlit("write_file");
    reveal_strlit("read_file");
    reveal_strlit("ls");
    reveal_strlit("reset");
    reveal_strlit("status");
    reveal_strlit("setup");
    assert("exec"@.len() == 4 && "write_file"@.len() == 10 && "read_file"@.len() == 9);
    assert("ls"@.len() == 2 && "reset"@.len() == 5 && "status"@.len() == 6 && "setup"@.len() == 5);
    assert("reset"@[0] != "setup"@[0]);
}

/// The name of a swarm's directory keeps the letters, digits, dashes and underscores of
/// its key, and has an underscore in the place of every other character.
pub proof fn law_plain_keys_are_kept(key: Seq<char>, i: int)
    requires
        0 <= i < key.len(),
    ensures
        safe_key(key).len() == key.len(),
        'a' <= key[i] <= 'z' || 'A' <= key[i] <= 'Z' || '0' <= key[i] <= '9' || key[i] == '-'
            || key[i] == '_' ==> safe_key(key)[i] == key[i],
        !('a' <= key[i] <= 'z' || 'A' <= key[i] <= 'Z' || '0' <= key[i] <= '9' || key[i] == '-'
            || key[i] == '_') ==> safe_key(key)[i] == '_',
{
}

/// A swarm's sidecar is shown the swarm's directory and nothing of the session's; that
/// of a session is shown the directory in which the session works, if any.
pub proof fn law_what_a_sidecar_is_shown(
    jcode_dir: Seq<char>,
    working_dir: Option<Seq<char>>,
    swarm: Option<Seq<char>>,
)
    ensures
        swarm is Some ==> sidecar_env(jcode_dir, working_dir, swarm) == seq![
            ("JSBASH_SANDBOX"@, swarm_dir(jcode_dir, swarm->0)),
        ],
        swarm is None && working_dir is Some ==> sidecar_env(jcode_dir, working_dir, swarm) == seq![
            ("JSBASH_WORKSPACE"@, working_dir->0),
        ],
        swarm is None && working_dir is None ==> sidecar_env(jcode_dir, working_dir, swarm).len()
            == 0,
{
}

/// The sidecar's directory is `jsbash` in the configuration directory.
pub proof fn law_where_the_sidecar_is(jcode_dir: Seq<char>)
    requires
        jcode_dir.len() > 0,
        jcode_dir.last() != '/',
    ensures
        dir_of(jcode_dir) == jcode_dir + "/jsbash"@,
{
    reveal_strlit("jsbash");
    reveal_strlit("/jsbash");
    assert(dir_of(jcode_dir) =~= jcode_dir + "/jsbash"@);
}

/// A setup says whether the server was written, whether Node is there, and what became
/// of the dependency; without Node nothing is said of the dependency.
pub proof fn law_what_a_setup_says(
    dir: Seq<char>,
    server_existed: bool,
    overwrite: bool,
    node: Option<Seq<char>>,
    installed: Option<InstallEnd>,
)
    ensures
        ({
            let lines = setup_lines(dir, server_existed, overwrite, node, installed);
            &&& lines[0] == "jsbash native Jcode setup:"@
            &&& lines[1] == "- Sidecar dir: "@ + dir
            &&& server_existed && !overwrite ==> lines[2] == "- server.mjs: already present"@
            &&& !server_existed || overwrite ==> lines[2] == "- server.mjs: written"@
            &&& node is None ==> lines.len() == 4 && lines[3]
                == "- node NOT found on PATH. Install Node.js, then re-run setup to install just-bash."@
            &&& node is Some ==> lines.len() == 5 && lines[3] == "- node detected: "@ + node->0
            &&& node is Some && installed is None ==> lines[4] == "- just-bash already installed"@
            &&& node is Some && installed is Some && installed->0 is Done ==> lines[4]
                == "- installed just-bash via "@ + installed->0->Done_program@
            &&& node is Some && installed is Some && installed->0 is Failed ==> lines[4]
                == "- could NOT install just-bash automatically ("@ + (
            installed->0->Failed_program@ + " install exited with "@ + installed->0->status@)
                + "). Run `npm install` (or pnpm/bun) in "@ + dir + "."@
            &&& node is Some && (installed matches Some(InstallEnd::NoManager)) ==> lines[4]
                == "- could NOT install just-bash automatically (no package manager (pnpm/bun/npm) found on PATH). Run `npm install` (or pnpm/bun) in "@
                + dir + "."@
        }),
{
    reveal_strlit("- server.mjs: ");
    reveal_strlit("already present");
    reveal_strlit("written");
    reveal_strlit("- server.mjs: already present");
    reveal_strlit("- server.mjs: written");
    reveal_strlit("- could NOT install just-bash automatically (");
    reveal_strlit("no package manager (pnpm/bun/npm) found on PATH");
    reveal_strlit("). Run `npm install` (or pnpm/bun) in ");
    reveal_strlit(
        "- could NOT install just-bash automatically (no package manager (pnpm/bun/npm) found on PATH). Run `npm install` (or pnpm/bun) in ",
    );
    let lines = setup_lines(dir, server_existed, overwrite, node, installed);
    if server_existed && !overwrite {
        assert(lines[2] =~= "- server.mjs: already present"@);
    } else {
        assert(lines[2] =~= "- server.mjs: written"@);
    }
    if node is Some && (installed matches Some(InstallEnd::NoManager)) {
        assert(lines[4]
            =~= "- could NOT install just-bash automatically (no package manager (pnpm/bun/npm) found on PATH). Run `npm install` (or pnpm/bun) in "@
            + dir + "."@);
    }
}

/// A status says where the sidecar is, whether its server and its dependency are there,
/// and where Node is.
pub proof fn law_what_a_status_says(
    dir: Seq<char>,
    server_exists: bool,
    modules_exist: bool,
    node: Option<Seq<char>>,
)
    ensures
        status_text(dir, server_exists, modules_exist, node)
            == "jsbash native Jcode status:\n- Sidecar dir: "@ + dir
            + "\n- server.mjs present: "@ + (if server_exists {
            "yes"@
        } else {
            "no"@
        }) + "\n- just-bash installed: "@ + (if modules_exist {
            "yes"@
        } else {
            "no"@
        }) + "\n- node on PATH: "@ + (if node is Some {
            node->0
        } else {
            "NO"@
        }),
{
}

/// The tool offers its seven actions and every parameter that it acts on, each of the
/// type that it takes.
pub proof fn law_every_parameter_is_offered(intent: JsonView)
    ensures
        action_names() == seq![
            "exec"@,
            "write_file"@,
            "read_file"@,
            "ls"@,
            "reset"@,
            "setup"@,
            "status"@,
        ],
        ({
            let offered = parameters(intent);
            let kind = |i: int| json::get_field(offered[i].1, "type"@);
            &&& offered.len() == 9
            &&& offered[0] == ("intent"@, intent)
            &&& offered[1].0 == "action"@ && kind(1) == Some(JsonView::Text("string"@))
            &&& offered[2].0 == "script"@ && kind(2) == Some(JsonView::Text("string"@))
            &&& offered[3].0 == "stdin"@ && kind(3) == Some(JsonView::Text("string"@))
            &&& offered[4].0 == "path"@ && kind(4) == Some(JsonView::Text("string"@))
            &&& offered[5].0 == "content"@ && kind(5) == Some(JsonView::Text("string"@))
            &&& offered[6].0 == "cwd"@ && kind(6) == Some(JsonView::Text("string"@))
            &&& offered[7].0 == "swarm"@ && kind(7) == Some(JsonView::Text("string"@))
            &&& offered[8].0 == "overwrite"@ && kind(8) == Some(JsonView::Text("boolean"@))
        }),
{
}

} // verus!
