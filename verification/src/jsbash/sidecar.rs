//! The protocol of the sidecar: requests and responses, one JSON object per line.
//!
//! Each request carries an id of its own, and the response carries the same id.
//! [`PendingRequests`] keeps, under the id, who waits for the response.

use vstd::prelude::*;

use crate::json;
use crate::json::{Json, JsonView};
use crate::table::StringTable;
use crate::text;

verus! {

/// How long a response may take, in seconds.
pub const REQUEST_TIMEOUT_SECS: u64 = 60;

/// A failed request.
#[derive(Debug, PartialEq)]
pub struct SidecarError {
    pub message: String,
}

/// A response of the sidecar.
#[derive(Debug)]
pub struct SidecarResponse {
    pub id: Option<String>,
    pub ok: bool,
    pub error: Option<String>,
    pub stdout: Option<String>,
    pub stderr: Option<String>,
    pub exit_code: Option<i64>,
    pub content: Option<String>,
    pub version: Option<String>,
}

/// The result of a script.
#[derive(Debug, Clone)]
pub struct ExecResult {
    pub stdout: String,
    pub stderr: String,
    pub exit_code: i64,
}

/// How the wait for a response ended.
#[derive(Debug)]
pub enum WaitEnd {
    /// The request could not be handed to the sidecar.
    NotSent,
    /// The response came.
    Answered(SidecarResponse),
    /// The response cannot come any more.
    Dropped,
    /// The response did not come in time.
    TimedOut,
}

/// A text, or the empty text where there is none.
pub open spec fn text_or_empty(s: Option<String>) -> Seq<char> {
    match s {
        Some(t) => t@,
        None => Seq::empty(),
    }
}

/// The error of a response, or `default` where it names none.
pub open spec fn error_text(response: SidecarResponse, default: Seq<char>) -> Seq<char> {
    match response.error {
        Some(e) => e@,
        None => default,
    }
}

/// The request to tell whether the sidecar is ready.
pub open spec fn ready_request() -> JsonView {
    JsonView::Object(seq![("op"@, JsonView::Text("ready"@))])
}

/// The request to run a script.
pub open spec fn exec_request(
    script: Seq<char>,
    stdin: Option<Seq<char>>,
    cwd: Option<Seq<char>>,
    timeout_ms: Option<u64>,
) -> JsonView {
    JsonView::Object(
        seq![("op"@, JsonView::Text("exec"@)), ("script"@, JsonView::Text(script))]
            + optional_field("stdin"@, stdin) + optional_field("cwd"@, cwd) + match timeout_ms {
            Some(ms) => seq![("timeoutMs"@, JsonView::Unsigned(ms))],
            None => Seq::empty(),
        },
    )
}

/// A text field, where there is a text.
pub open spec fn optional_field(key: Seq<char>, value: Option<Seq<char>>) -> Seq<
    (Seq<char>, JsonView),
> {
    match value {
        Some(t) => seq![(key, JsonView::Text(t))],
        None => Seq::empty(),
    }
}

/// The request to write a file.
pub open spec fn write_request(path: Seq<char>, content: Seq<char>) -> JsonView {
    JsonView::Object(
        seq![
            ("op"@, JsonView::Text("write"@)),
            ("path"@, JsonView::Text(path)),
            ("content"@, JsonView::Text(content)),
        ],
    )
}

/// The request to read a file.
pub open spec fn read_request(path: Seq<char>) -> JsonView {
    JsonView::Object(
        seq![("op"@, JsonView::Text("read"@)), ("path"@, JsonView::Text(path))],
    )
}

/// The request to list a directory.
pub open spec fn ls_request(path: Option<Seq<char>>) -> JsonView {
    JsonView::Object(seq![("op"@, JsonView::Text("ls"@))] + optional_field("path"@, path))
}

/// The request to forget all files.
pub open spec fn reset_request() -> JsonView {
    JsonView::Object(seq![("op"@, JsonView::Text("reset"@))])
}

/// The line that carries a request under the id `id`, where it can be written.
pub open spec fn request_text(request: JsonView, id: Seq<char>) -> Option<Seq<char>> {
    match json::json_text(json::set_field(request, "id"@, JsonView::Text(id))) {
        Some(text) => Some(text + "\n"@),
        None => None,
    }
}

fn operation(name: &str) -> (r: Vec<(String, Json)>)
    ensures
        json::fields_view(r@) == seq![("op"@, JsonView::Text(name@))],
{
    let mut fields: Vec<(String, Json)> = Vec::new();
    json::push_field(&mut fields, "op", json::text_value(name));
    assert(json::fields_view(fields@) =~= seq![("op"@, JsonView::Text(name@))]);
    fields
}

fn push_optional(fields: &mut Vec<(String, Json)>, key: &str, value: Option<&str>)
    ensures
        json::fields_view(final(fields)@) == json::fields_view(old(fields)@) + optional_field(
            key@,
            text::opt_str(value),
        ),
{
    let ghost before = json::fields_view(fields@);
    if let Some(t) = value {
        json::push_field(fields, key, json::text_value(t));
    }
    assert(json::fields_view(fields@) =~= before + optional_field(key@, text::opt_str(value)));
}

/// The request to tell whether the sidecar is ready.
pub fn ready_payload() -> (r: Json)
    ensures
        r@ == ready_request(),
{
    json::object(operation("ready"))
}

/// The request to run a script.
pub fn exec_payload(
    script: &str,
    stdin: Option<&str>,
    cwd: Option<&str>,
    timeout_ms: Option<u64>,
) -> (r: Json)
    ensures
        r@ == exec_request(script@, text::opt_str(stdin), text::opt_str(cwd), timeout_ms),
{
    let mut fields = operation("exec");
    json::push_field(&mut fields, "script", json::text_value(script));
    push_optional(&mut fields, "stdin", stdin);
    push_optional(&mut fields, "cwd", cwd);
    if let Some(ms) = timeout_ms {
        json::push_field(&mut fields, "timeoutMs", Json::Unsigned(ms));
    }
    assert(json::fields_view(fields@) =~= exec_request(
        script@,
        text::opt_str(stdin),
        text::opt_str(cwd),
        timeout_ms,
    )->Object_0);
    json::object(fields)
}

/// The request to write a file.
pub fn write_payload(path: &str, content: &str) -> (r: Json)
    ensures
        r@ == write_request(path@, content@),
{
    let mut fields = operation("write");
    json::push_field(&mut fields, "path", json::text_value(path));
    json::push_field(&mut fields, "content", json::text_value(content));
    assert(json::fields_view(fields@) =~= write_request(path@, content@)->Object_0);
    json::object(fields)
}

/// The request to read a file.
pub fn read_payload(path: &str) -> (r: Json)
    ensures
        r@ == read_request(path@),
{
    let mut fields = operation("read");
    json::push_field(&mut fields, "path", json::text_value(path));
    assert(json::fields_view(fields@) =~= read_request(path@)->Object_0);
    json::object(fields)
}

/// The request to list a directory.
pub fn ls_payload(path: Option<&str>) -> (r: Json)
    ensures
        r@ == ls_request(text::opt_str(path)),
{
    let mut fields = operation("ls");
    push_optional(&mut fields, "path", path);
    json::object(fields)
}

/// The request to forget all files.
pub fn reset_payload() -> (r: Json)
    ensures
        r@ == reset_request(),
{
    json::object(operation("reset"))
}

/// The line that carries a request under the id `id`; none where it cannot be
/// written as JSON.
pub fn request_line(payload: Json, id: &str) -> (r: Option<String>)
    ensures
        text::opt_text(r) == request_text(payload@, id@),
{
    let payload = payload.with_field("id", json::text_value(id));
    match json::encode(&payload) {
        Some(text) => {
            let mut line = text;
            line.append("\n");
            Some(line)
        },
        None => None,
    }
}

/// What a line from the sidecar holds: the line without surrounding white space,
/// unless it is blank.
pub fn incoming(line: &str) -> (r: Option<String>)
    ensures
        text::opt_text(r) == {
            let content = text::trim(line@);
            if content.len() == 0 {
                None
            } else {
                Some(content)
            }
        },
{
    let content = text::trimmed(line);
    if content.as_str().is_empty() {
        None
    } else {
        Some(content)
    }
}

/// Requests that wait for their response. A `W` is handed the response.
#[derive(Debug)]
pub struct PendingRequests<W> {
    next_id: u64,
    waiting: StringTable<W>,
}

/// What [`PendingRequests`] mean.
pub struct PendingView<W> {
    /// The number of the next request.
    pub next_id: u64,
    /// Who waits, by id.
    pub waiting: Map<Seq<char>, W>,
}

impl<W> View for PendingRequests<W> {
    type V = PendingView<W>;

    closed spec fn view(&self) -> PendingView<W> {
        PendingView { next_id: self.next_id, waiting: self.waiting@ }
    }
}

/// The id of the next request.
pub open spec fn next_request_id<W>(pending: PendingView<W>) -> Seq<char> {
    text::decimal(pending.next_id as nat)
}

/// The requests after one more was begun. The numbers start over behind the last
/// one.
pub open spec fn after_begin<W>(pending: PendingView<W>, waiter: W) -> PendingView<W> {
    PendingView {
        next_id: pending.next_id.wrapping_add(1),
        waiting: pending.waiting.insert(next_request_id(pending), waiter),
    }
}

/// The requests after the one under `id` was settled.
pub open spec fn after_settle<W>(pending: PendingView<W>, id: Seq<char>) -> PendingView<W> {
    PendingView { next_id: pending.next_id, waiting: pending.waiting.remove(id) }
}

impl<W> PendingRequests<W> {
    /// The table of who waits is well formed.
    pub closed spec fn wf(&self) -> bool {
        self.waiting.wf()
    }

    /// No request was made yet. The first one gets the number one.
    pub fn new() -> (r: PendingRequests<W>)
        ensures
            r.wf(),
            r@ == (PendingView { next_id: 1, waiting: Map::<Seq<char>, W>::empty() }),
            numbered_in_order(r@),
    {
        PendingRequests { next_id: 1, waiting: StringTable::new() }
    }

    /// Begins a request, and gives its id.
    pub fn begin(&mut self, waiter: W) -> (r: String)
        requires
            old(self).wf(),
        ensures
            final(self).wf(),
            r@ == next_request_id(old(self)@),
            final(self)@ == after_begin(old(self)@, waiter),
    {
        let id = text::decimal_text(self.next_id);
        self.next_id = self.next_id.wrapping_add(1);
        self.waiting.insert(id.clone(), waiter);
        id
    }

    /// Settles the request that a response, or a wait that is over, is about. Gives
    /// who waited for it; nobody, where no request waits under that id.
    pub fn settle(&mut self, id: Option<&str>) -> (r: Option<W>)
        requires
            old(self).wf(),
        ensures
            final(self).wf(),
            match id {
                Some(i) => {
                    &&& final(self)@ == after_settle(old(self)@, i@)
                    &&& r == if old(self)@.waiting.contains_key(i@) {
                        Some(old(self)@.waiting[i@])
                    } else {
                        None
                    }
                },
                None => r is None && final(self)@ == old(self)@,
            },
    {
        match id {
            Some(i) => self.waiting.remove(i),
            None => None,
        }
    }
}

/// Every request that waits has a number below the next one.
pub open spec fn numbered_in_order<W>(pending: PendingView<W>) -> bool {
    forall|id: Seq<char>| #[trigger]
        pending.waiting.contains_key(id) ==> exists|n: u64|
            n < pending.next_id && id == #[trigger] text::decimal(n as nat)
}

/// The numbers stay in order as requests are begun and settled, until they start
/// over.
pub proof fn law_numbers_stay_in_order<W>(pending: PendingView<W>, waiter: W, id: Seq<char>)
    requires
        numbered_in_order(pending),
    ensures
        pending.next_id < u64::MAX ==> numbered_in_order(after_begin(pending, waiter)),
        numbered_in_order(after_settle(pending, id)),
{
    let begun = after_begin(pending, waiter);
    if pending.next_id < u64::MAX {
        assert forall|k: Seq<char>| #[trigger] begun.waiting.contains_key(k) implies exists|n: u64|
            n < begun.next_id && k == #[trigger] text::decimal(n as nat) by {
            if pending.waiting.contains_key(k) {
                let n = choose|n: u64|
                    n < pending.next_id && k == #[trigger] text::decimal(n as nat);
                assert(n < begun.next_id && k == text::decimal(n as nat));
            } else {
                let n = pending.next_id;
                assert(n < begun.next_id && k == text::decimal(n as nat));
            }
        }
    }
    let settled = after_settle(pending, id);
    assert forall|k: Seq<char>| #[trigger] settled.waiting.contains_key(k) implies exists|n: u64|
        n < settled.next_id && k == #[trigger] text::decimal(n as nat) by {
        assert(pending.waiting.contains_key(k));
    }
}

/// A new request takes nobody's place: its id is one under which nobody waits, and
/// everybody else goes on waiting.
pub proof fn law_request_ids_are_fresh<W>(pending: PendingView<W>, waiter: W)
    requires
        numbered_in_order(pending),
    ensures
        !pending.waiting.contains_key(next_request_id(pending)),
        after_begin(pending, waiter).waiting[next_request_id(pending)] == waiter,
        forall|id: Seq<char>| #[trigger]
            pending.waiting.contains_key(id) ==> after_begin(pending, waiter).waiting.contains_key(
                id,
            ) && after_begin(pending, waiter).waiting[id] == pending.waiting[id],
{
    let new_id = next_request_id(pending);
    if pending.waiting.contains_key(new_id) {
        let n = choose|n: u64| n < pending.next_id && new_id == #[trigger] text::decimal(n as nat);
        text::lemma_decimal_injective(n as nat, pending.next_id as nat);
    }
}

/// A request is settled at most once, and settling it settles no other one.
pub proof fn law_request_is_settled_once<W>(
    pending: PendingView<W>,
    id: Seq<char>,
    other: Seq<char>,
)
    ensures
        !after_settle(pending, id).waiting.contains_key(id),
        after_settle(after_settle(pending, id), id) == after_settle(pending, id),
        other != id && pending.waiting.contains_key(other) ==> {
            &&& after_settle(pending, id).waiting.contains_key(other)
            &&& after_settle(pending, id).waiting[other] == pending.waiting[other]
        },
        !pending.waiting.contains_key(id) ==> after_settle(pending, id) == pending,
{
    let once = after_settle(pending, id);
    assert(once.waiting.remove(id) =~= once.waiting);
    if !pending.waiting.contains_key(id) {
        assert(pending.waiting.remove(id) =~= pending.waiting);
    }
}

fn failed(message: &str) -> (r: SidecarError)
    ensures
        r.message@ == message@,
{
    SidecarError { message: message.to_owned() }
}

/// The response that a wait ended with.
pub fn settled(end: WaitEnd) -> (r: Result<SidecarResponse, SidecarError>)
    ensures
        match (end, r) {
            (WaitEnd::Answered(response), Ok(given)) => given == response,
            (WaitEnd::NotSent, Err(e)) => e.message@ == "jsbash sidecar writer closed"@,
            (WaitEnd::Dropped, Err(e)) => e.message@
                == "jsbash sidecar dropped the response channel"@,
            (WaitEnd::TimedOut, Err(e)) => e.message@ == "jsbash sidecar request timed out"@,
            _ => false,
        },
{
    match end {
        WaitEnd::Answered(response) => Ok(response),
        WaitEnd::NotSent => Err(failed("jsbash sidecar writer closed")),
        WaitEnd::Dropped => Err(failed("jsbash sidecar dropped the response channel")),
        WaitEnd::TimedOut => Err(failed("jsbash sidecar request timed out")),
    }
}

fn failure(response: SidecarResponse, default: &str) -> (r: SidecarError)
    ensures
        r.message@ == error_text(response, default@),
{
    match response.error {
        Some(message) => SidecarError { message },
        None => failed(default),
    }
}

fn or_empty(s: Option<String>) -> (r: String)
    ensures
        r@ == text_or_empty(s),
{
    match s {
        Some(t) => t,
        None => {
            let empty = String::new();
            assert(empty@ =~= Seq::<char>::empty());
            empty
        },
    }
}

/// The version of a sidecar that is ready.
pub fn ready_result(response: SidecarResponse) -> (r: Result<String, SidecarError>)
    ensures
        match r {
            Ok(version) => response.ok && version@ == match response.version {
                Some(v) => v@,
                None => "just-bash"@,
            },
            Err(e) => !response.ok && e.message@ == error_text(response, "sidecar not ready"@),
        },
{
    if response.ok {
        match response.version {
            Some(version) => Ok(version),
            None => Ok("just-bash".to_owned()),
        }
    } else {
        Err(failure(response, "sidecar not ready"))
    }
}

/// The result of a script.
pub fn exec_result(response: SidecarResponse) -> (r: Result<ExecResult, SidecarError>)
    ensures
        match r {
            Ok(result) => {
                &&& response.ok
                &&& result.stdout@ == text_or_empty(response.stdout)
                &&& result.stderr@ == text_or_empty(response.stderr)
                &&& result.exit_code == match response.exit_code {
                    Some(code) => code,
                    None => 0,
                }
            },
            Err(e) => !response.ok && e.message@ == error_text(response, "exec failed"@),
        },
{
    if !response.ok {
        return Err(failure(response, "exec failed"));
    }
    let exit_code = match response.exit_code {
        Some(code) => code,
        None => 0,
    };
    Ok(
        ExecResult {
            stdout: or_empty(response.stdout),
            stderr: or_empty(response.stderr),
            exit_code,
        },
    )
}

/// Whether a file was written.
pub fn write_result(response: SidecarResponse) -> (r: Result<(), SidecarError>)
    ensures
        match r {
            Ok(_) => response.ok,
            Err(e) => !response.ok && e.message@ == error_text(response, "write failed"@),
        },
{
    if response.ok {
        Ok(())
    } else {
        Err(failure(response, "write failed"))
    }
}

/// The content of a file.
pub fn read_result(response: SidecarResponse) -> (r: Result<String, SidecarError>)
    ensures
        match r {
            Ok(content) => response.ok && content@ == text_or_empty(response.content),
            Err(e) => !response.ok && e.message@ == error_text(response, "read failed"@),
        },
{
    if response.ok {
        Ok(or_empty(response.content))
    } else {
        Err(failure(response, "read failed"))
    }
}

/// The listing of a directory.
pub fn ls_result(response: SidecarResponse) -> (r: Result<String, SidecarError>)
    ensures
        match r {
            Ok(listing) => response.ok && listing@ == text_or_empty(response.stdout),
            Err(e) => !response.ok && e.message@ == error_text(response, "ls failed"@),
        },
{
    if response.ok {
        Ok(or_empty(response.stdout))
    } else {
        Err(failure(response, "ls failed"))
    }
}

/// Whether all files were forgotten.
pub fn reset_result(response: SidecarResponse) -> (r: Result<(), SidecarError>)
    ensures
        match r {
            Ok(_) => response.ok,
            Err(e) => !response.ok && e.message@ == error_text(response, "reset failed"@),
        },
{
    if response.ok {
        Ok(())
    } else {
        Err(failure(response, "reset failed"))
    }
}

/// The names of the fields of requests differ from each other.
proof fn lemma_request_fields()
    ensures
        "op"@ != "script"@,
        "op"@ != "stdin"@,
        "op"@ != "cwd"@,
        "op"@ != "timeoutMs"@,
        "op"@ != "path"@,
        "op"@ != "content"@,
        "script"@ != "stdin"@,
        "script"@ != "cwd"@,
        "script"@ != "timeoutMs"@,
        "stdin"@ != "cwd"@,
        "stdin"@ != "timeoutMs"@,
        "cwd"@ != "timeoutMs"@,
        "path"@ != "content"@,
{
    reveal_strlit("op");
    reveal_strlit("script");
    reveal_strlit("stdin");
    reveal_strlit("cwd");
    reveal_strlit("timeoutMs");
    reveal_strlit("path");
    reveal_strlit("content");
    assert("op"@.len() == 2 && "script"@.len() == 6 && "stdin"@.len() == 5 && "cwd"@.len() == 3);
    assert("timeoutMs"@.len() == 9 && "path"@.len() == 4 && "content"@.len() == 7);
}

/// A script is sent with all that it is given: its text, and its input, its directory
/// and its time limit where there are such, and not otherwise.
pub proof fn law_a_script_is_sent_whole(
    script: Seq<char>,
    stdin: Option<Seq<char>>,
    cwd: Option<Seq<char>>,
    timeout_ms: Option<u64>,
)
    ensures
        ({
            let request = exec_request(script, stdin, cwd, timeout_ms);
            &&& json::get_field(request, "op"@) == Some(JsonView::Text("exec"@))
            &&& json::get_field(request, "script"@) == Some(JsonView::Text(script))
            &&& json::get_field(request, "stdin"@) == match stdin {
                Some(t) => Some(JsonView::Text(t)),
                None => None,
            }
            &&& json::get_field(request, "cwd"@) == match cwd {
                Some(t) => Some(JsonView::Text(t)),
                None => None,
            }
            &&& json::get_field(request, "timeoutMs"@) == match timeout_ms {
                Some(ms) => Some(JsonView::Unsigned(ms)),
                None => None,
            }
        }),
{
    lemma_request_fields();
    let head = seq![("op"@, JsonView::Text("exec"@)), ("script"@, JsonView::Text(script))];
    lemma_fields_of_exec(head, stdin, cwd, timeout_ms, "op"@);
    lemma_fields_of_exec(head, stdin, cwd, timeout_ms, "script"@);
    lemma_fields_of_exec(head, stdin, cwd, timeout_ms, "stdin"@);
    lemma_fields_of_exec(head, stdin, cwd, timeout_ms, "cwd"@);
    lemma_fields_of_exec(head, stdin, cwd, timeout_ms, "timeoutMs"@);
    json::law_the_first_field_of_a_name_counts(head, "op"@, 0);
    json::law_the_first_field_of_a_name_counts(head, "script"@, 1);
    json::law_the_first_field_of_a_name_counts(head, "stdin"@, 2);
    json::law_the_first_field_of_a_name_counts(head, "cwd"@, 2);
    json::law_the_first_field_of_a_name_counts(head, "timeoutMs"@, 2);
}

proof fn lemma_fields_of_exec(
    head: Seq<(Seq<char>, JsonView)>,
    stdin: Option<Seq<char>>,
    cwd: Option<Seq<char>>,
    timeout_ms: Option<u64>,
    key: Seq<char>,
)
    ensures
        ({
            let limit = match timeout_ms {
                Some(ms) => seq![("timeoutMs"@, JsonView::Unsigned(ms))],
                None => Seq::empty(),
            };
            json::field_of(
                head + optional_field("stdin"@, stdin) + optional_field("cwd"@, cwd) + limit,
                key,
            ) == if json::field_of(head, key) is Some {
                json::field_of(head, key)
            } else if stdin is Some && key == "stdin"@ {
                Some(JsonView::Text(stdin->0))
            } else if cwd is Some && key == "cwd"@ {
                Some(JsonView::Text(cwd->0))
            } else if timeout_ms is Some && key == "timeoutMs"@ {
                Some(JsonView::Unsigned(timeout_ms->0))
            } else {
                None
            }
        }),
{
    let limit = match timeout_ms {
        Some(ms) => seq![("timeoutMs"@, JsonView::Unsigned(ms))],
        None => Seq::empty(),
    };
    let a = optional_field("stdin"@, stdin);
    let b = optional_field("cwd"@, cwd);
    json::lemma_field_of_both(head + a + b, limit, key);
    json::lemma_field_of_both(head + a, b, key);
    json::lemma_field_of_both(head, a, key);
    reveal_with_fuel(json::field_of, 2);
}

/// Files are written, read and listed by their path, and a file is written with its
/// content.
pub proof fn law_files_are_named_by_their_path(
    path: Seq<char>,
    content: Seq<char>,
    dir: Option<Seq<char>>,
)
    ensures
        json::get_field(write_request(path, content), "op"@) == Some(JsonView::Text("write"@)),
        json::get_field(write_request(path, content), "path"@) == Some(JsonView::Text(path)),
        json::get_field(write_request(path, content), "content"@) == Some(JsonView::Text(content)),
        json::get_field(read_request(path), "op"@) == Some(JsonView::Text("read"@)),
        json::get_field(read_request(path), "path"@) == Some(JsonView::Text(path)),
        json::get_field(ls_request(dir), "op"@) == Some(JsonView::Text("ls"@)),
        json::get_field(ls_request(dir), "path"@) == match dir {
            Some(d) => Some(JsonView::Text(d)),
            None => None,
        },
        json::get_field(ready_request(), "op"@) == Some(JsonView::Text("ready"@)),
        json::get_field(reset_request(), "op"@) == Some(JsonView::Text("reset"@)),
{
    lemma_request_fields();
    let write = write_request(path, content)->Object_0;
    json::law_the_first_field_of_a_name_counts(write, "path"@, 1);
    json::law_the_first_field_of_a_name_counts(write, "content"@, 2);
    let read = read_request(path)->Object_0;
    json::law_the_first_field_of_a_name_counts(read, "path"@, 1);
    let list = ls_request(dir)->Object_0;
    json::law_the_first_field_of_a_name_counts(list, "op"@, 0);
    json::law_the_first_field_of_a_name_counts(list, "path"@, 1);
}

/// A request goes out as one line of JSON: the request, with its id and nothing else
/// added.
pub proof fn law_a_request_goes_out_with_its_id(
    request: JsonView,
    id: Seq<char>,
    other: Seq<char>,
)
    requires
        request is Object,
        other != "id"@,
    ensures
        exists|sent: JsonView|
            {
                &&& json::get_field(sent, "id"@) == Some(JsonView::Text(id))
                &&& json::get_field(sent, other) == json::get_field(request, other)
                &&& match (request_text(request, id), #[trigger] json::json_text(sent)) {
                    (Some(line), Some(body)) => line == body + "\n"@,
                    (None, None) => true,
                    _ => false,
                }
            },
{
    let sent = json::set_field(request, "id"@, JsonView::Text(id));
    json::law_get_after_set(request, "id"@, JsonView::Text(id));
    json::law_set_keeps_other_fields(request, "id"@, JsonView::Text(id), other);
    assert(json::json_text(sent) == json::json_text(sent));
}

/// Requests are numbered one after the other.
pub proof fn law_requests_are_numbered<W>(pending: PendingView<W>, waiter: W)
    requires
        pending.next_id < u64::MAX,
    ensures
        after_begin(pending, waiter).next_id == pending.next_id + 1,
        after_begin(pending, waiter).waiting == pending.waiting.insert(
            text::decimal(pending.next_id as nat),
            waiter,
        ),
{
}

} // verus!
