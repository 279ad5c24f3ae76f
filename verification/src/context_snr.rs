//! Context signal-to-noise routing: which tools make what reaches the model more
//! compact, whether they are there, and the guidance to prefer them.

use vstd::prelude::*;

use crate::integration_support;
use crate::json;
use crate::json::{Json, JsonView};
use crate::schema;
use crate::text;
use crate::tool;
use crate::tool::{ToolOutput, ToolOutputView};

verus! {

/// Where the routing block begins.
pub const BLOCK_START: &'static str = "<!-- JCODE_CONTEXT_SNR_START -->";

/// Where the routing block ends.
pub const BLOCK_END: &'static str = "<!-- JCODE_CONTEXT_SNR_END -->";

/// What stands between the markers of the routing block.
pub const ROUTING_TEXT: &'static str = "
# Context SNR (signal-to-noise) Routing for Jcode

Prefer token-frugal surfaces so compressed/relevant content reaches the model instead of raw bytes. These tools are optional; use them when present, otherwise fall back to native jcode tools.

- Whole-repo understanding: `repomix` (or `ai-digest`) to produce a single token-counted digest, instead of cat-ing many files. Pipe the digest, not the tree.
- Token budgeting: `ttok` for exact token counts before deciding to truncate or summarize (more accurate than chars/4 estimates).
- Structural code search: `ast-grep`/`sg` for AST-level matches with tiny output, complementing jcode's `codesearch`/`agentgrep` for literal/lexical search.
- Sandboxed digest fallback (no external CLI): use the `jsbash` tool to build a compact digest inside the virtual fs, e.g. list the tree and print only the head of each file:
  `jsbash exec` with a script like:
  `find . -type f | head -200 | while read f; do echo \"== $f ==\"; head -40 \"$f\"; done`
  Reads come from the workspace overlay; nothing mutates the host.

Native mapping:
- \"summarize/understand this repo\" -> repomix digest (or jsbash repo_digest fallback), not raw `cat`/`ls -R`.
- \"find where X is defined/used structurally\" -> ast-grep, then jcode `codesearch`.
- before pasting large output -> count with `ttok` and prefer rtk/caveman-filtered or jsbash-reduced output.
";

/// What the tool says of itself.
pub const DESCRIPTION: &'static str =
    "Context signal-to-noise routing: detect and prefer token-frugal surfaces (repomix/ai-digest repo digests, ttok exact token counts, ast-grep structural search) and the built-in jsbash repo_digest fallback, keeping raw bytes out of context. Actions: setup (write routing guidance into preferred-tools.md), status (report which tools are present).";

/// Where the surveyed programs were found; none for one that was not.
#[derive(Debug)]
pub struct SurveyedTools {
    pub repomix: Option<String>,
    pub ai_digest: Option<String>,
    pub ttok: Option<String>,
    pub ast_grep: Option<String>,
    /// The other name of `ast-grep`.
    pub sg: Option<String>,
}

/// The parameters of a call.
#[derive(Debug)]
pub struct ContextSnrInput {
    pub action: String,
    pub overwrite: Option<bool>,
}

/// What a call asks for.
#[derive(Debug)]
pub enum SnrRequest {
    /// Put the routing block into the routing document.
    Setup { overwrite: bool },
    /// Report what is there.
    Status,
    /// Answer at once.
    Reply(ToolOutput),
}

/// How a surveyed program is listed.
pub open spec fn survey_line(
    name: Seq<char>,
    path: Option<Seq<char>>,
    purpose: Seq<char>,
) -> Seq<char> {
    "- "@ + name + ": "@ + (match path {
        Some(p) => p,
        None => "not found"@,
    }) + " ("@ + purpose + ")"@
}

/// The list of the surveyed programs. `ast-grep` is listed once, whichever of its
/// names it was found under.
pub open spec fn survey_lines(found: SurveyedTools) -> Seq<Seq<char>> {
    let structural = match found.ast_grep {
        Some(_) => found.ast_grep,
        None => found.sg,
    };
    seq![
        survey_line(
            "repomix"@,
            text::opt_text(found.repomix),
            "whole-repo -> single token-counted digest"@,
        ),
        survey_line(
            "ai-digest"@,
            text::opt_text(found.ai_digest),
            "repo/dir -> single markdown digest"@,
        ),
        survey_line(
            "ttok"@,
            text::opt_text(found.ttok),
            "exact LLM token counting for truncation decisions"@,
        ),
        survey_line(
            "ast-grep"@,
            text::opt_text(structural),
            "structural (AST) code search, tiny output"@,
        ),
    ]
}

/// The routing block.
pub open spec fn block_text() -> Seq<char> {
    BLOCK_START@ + ROUTING_TEXT@ + BLOCK_END@
}

/// What setting up reports.
pub open spec fn setup_report(changed: bool, found: SurveyedTools) -> ToolOutputView {
    let first = "context-snr routing block "@ + (if changed {
        "written"@
    } else {
        "already present (use overwrite=true to refresh)"@
    }) + " in preferred-tools.md"@;
    tool::titled_output(
        text::join(
            seq![
                first,
                "Surveyed tools (jsbash repo_digest fallback always available):"@,
            ] + survey_lines(found),
            "\n"@,
        ),
        "context_snr setup"@,
    )
}

/// What the status report says.
pub open spec fn status_report(present: bool, found: SurveyedTools) -> ToolOutputView {
    let first = "context-snr routing block present: "@ + (if present {
        "yes"@
    } else {
        "no (run action=setup)"@
    });
    tool::titled_output(
        text::join(
            seq![first, "Surveyed tools:"@] + survey_lines(found) + seq![
                "- jsbash repo_digest: always available (built-in sandbox fallback)"@,
            ],
            "\n"@,
        ),
        "context_snr status"@,
    )
}

/// What a call with the given parameters asks for.
pub open spec fn request_of(input: ContextSnrInput, request: SnrRequest) -> bool {
    if input.action@ == "setup"@ {
        request == (SnrRequest::Setup { overwrite: tool::is_on(input.overwrite) })
    } else if input.action@ == "status"@ {
        request == SnrRequest::Status
    } else {
        request matches SnrRequest::Reply(output) && output@ == tool::plain_output(
            "Unknown action: "@ + input.action@ + ". Use setup or status."@,
        )
    }
}

/// The parameters of the tool.
pub open spec fn parameters(intent: JsonView) -> Seq<(Seq<char>, JsonView)> {
    seq![
        ("intent"@, intent),
        (
            "action"@,
            schema::choice_view(
                seq!["setup"@, "status"@],
                "setup writes the context-snr routing block into ~/.jcode/preferred-tools.md; status reports which surveyed tools are on PATH."@,
            ),
        ),
        (
            "overwrite"@,
            schema::typed_view(
                "boolean"@,
                "For setup: rewrite the block even if already present."@,
            ),
        ),
    ]
}

/// The tool.
#[derive(Debug)]
pub struct ContextSnrTool;

impl Default for ContextSnrTool {
    fn default() -> (r: ContextSnrTool)
        ensures
            r == ContextSnrTool,
    {
        ContextSnrTool
    }
}

/// The action of a call that names none.
pub fn default_action() -> (r: String)
    ensures
        r@ == "status"@,
{
    "status".to_owned()
}

/// The routing block.
pub fn routing_block() -> (r: String)
    ensures
        r@ == block_text(),
{
    let mut block = BLOCK_START.to_owned();
    block.append(ROUTING_TEXT);
    block.append(BLOCK_END);
    block
}

fn listed(name: &str, path: &Option<String>, purpose: &str) -> (r: String)
    ensures
        r@ == survey_line(name@, text::opt_text(*path), purpose@),
{
    let mut line = "- ".to_owned();
    line.append(name);
    line.append(": ");
    match path {
        Some(p) => line.append(p.as_str()),
        None => line.append("not found"),
    }
    line.append(" (");
    line.append(purpose);
    line.append(")");
    line
}

/// Appends the list of the surveyed programs to `lines`.
fn append_survey(lines: &mut Vec<String>, found: &SurveyedTools)
    ensures
        text::texts(final(lines)@) == text::texts(old(lines)@) + survey_lines(*found),
{
    let ghost before = text::texts(lines@);
    text::push_text(
        lines,
        listed("repomix", &found.repomix, "whole-repo -> single token-counted digest"),
    );
    text::push_text(
        lines,
        listed("ai-digest", &found.ai_digest, "repo/dir -> single markdown digest"),
    );
    text::push_text(
        lines,
        listed("ttok", &found.ttok, "exact LLM token counting for truncation decisions"),
    );
    let structural = match &found.ast_grep {
        Some(_) => &found.ast_grep,
        None => &found.sg,
    };
    text::push_text(
        lines,
        listed("ast-grep", structural, "structural (AST) code search, tiny output"),
    );
    assert(text::texts(lines@) =~= before + survey_lines(*found));
}

/// The list of the surveyed programs.
pub fn detected_lines(found: &SurveyedTools) -> (r: Vec<String>)
    ensures
        text::texts(r@) == survey_lines(*found),
{
    let mut lines: Vec<String> = Vec::new();
    append_survey(&mut lines, found);
    assert(text::texts(lines@) =~= survey_lines(*found));
    lines
}

/// Reports that the routing block was put in, or was there already.
pub fn setup(changed: bool, found: &SurveyedTools) -> (r: ToolOutput)
    ensures
        r@ == setup_report(changed, *found),
{
    let mut first = "context-snr routing block ".to_owned();
    if changed {
        first.append("written");
    } else {
        first.append("already present (use overwrite=true to refresh)");
    }
    first.append(" in preferred-tools.md");
    let mut lines: Vec<String> = Vec::new();
    let ghost opening = first@;
    text::push_text(&mut lines, first);
    text::push_text(
        &mut lines,
        "Surveyed tools (jsbash repo_digest fallback always available):".to_owned(),
    );
    append_survey(&mut lines, found);
    assert(text::texts(lines@) =~= seq![
        opening,
        "Surveyed tools (jsbash repo_digest fallback always available):"@,
    ] + survey_lines(*found));
    ToolOutput::new(text::joined(lines.as_slice(), "\n")).with_title("context_snr setup")
}

/// Reports whether the routing block and the surveyed programs are there.
pub fn status(present: bool, found: &SurveyedTools) -> (r: ToolOutput)
    ensures
        r@ == status_report(present, *found),
{
    let mut first = "context-snr routing block present: ".to_owned();
    if present {
        first.append("yes");
    } else {
        first.append("no (run action=setup)");
    }
    let mut lines: Vec<String> = Vec::new();
    let ghost opening = first@;
    text::push_text(&mut lines, first);
    text::push_text(&mut lines, "Surveyed tools:".to_owned());
    append_survey(&mut lines, found);
    text::push_text(
        &mut lines,
        "- jsbash repo_digest: always available (built-in sandbox fallback)".to_owned(),
    );
    assert(text::texts(lines@) =~= seq![opening, "Surveyed tools:"@] + survey_lines(*found)
        + seq!["- jsbash repo_digest: always available (built-in sandbox fallback)"@]);
    ToolOutput::new(text::joined(lines.as_slice(), "\n")).with_title("context_snr status")
}

impl ContextSnrTool {
    /// The tool.
    pub fn new() -> (r: ContextSnrTool)
        ensures
            r == ContextSnrTool,
    {
        ContextSnrTool
    }

    /// The name of the tool.
    pub fn name(&self) -> (r: &'static str)
        ensures
            r@ == "context_snr"@,
    {
        "context_snr"
    }

    /// What the tool says of itself.
    pub fn description(&self) -> (r: &'static str)
        ensures
            r@ == DESCRIPTION@,
    {
        DESCRIPTION
    }

    /// The schema of the parameters. `intent` is the schema of the parameter that
    /// every tool has.
    pub fn parameters_schema(&self, intent: Json) -> (r: Json)
        ensures
            r@ == schema::object_schema(parameters(intent@)),
    {
        let actions = ["setup", "status"];
        assert(schema::strs_view(actions@) =~= seq!["setup"@, "status"@]);
        let mut properties: Vec<(String, Json)> = Vec::new();
        json::push_field(&mut properties, "intent", intent);
        json::push_field(
            &mut properties,
            "action",
            schema::choice(
                &actions,
                "setup writes the context-snr routing block into ~/.jcode/preferred-tools.md; status reports which surveyed tools are on PATH.",
            ),
        );
        json::push_field(
            &mut properties,
            "overwrite",
            schema::typed("boolean", "For setup: rewrite the block even if already present."),
        );
        assert(json::fields_view(properties@) =~= parameters(intent@));
        schema::object(properties)
    }

    /// What a call with the given parameters asks for.
    pub fn plan(&self, input: &ContextSnrInput) -> (r: SnrRequest)
        ensures
            request_of(*input, r),
    {
        let action = input.action.as_str();
        if text::same(action, "setup") {
            SnrRequest::Setup { overwrite: tool::on(input.overwrite) }
        } else if text::same(action, "status") {
            SnrRequest::Status
        } else {
            let mut message = "Unknown action: ".to_owned();
            message.append(action);
            message.append(". Use setup or status.");
            SnrRequest::Reply(ToolOutput::new(message))
        }
    }
}

/// Setting up again, without overwriting, leaves the routing document as it is.
pub proof fn law_second_setup_changes_nothing(document: Seq<char>, overwrite: bool)
    ensures
        match integration_support::ensured(
            document,
            block_text(),
            BLOCK_START@,
            BLOCK_END@,
            overwrite,
        ) {
            Some(written) => integration_support::ensured(
                written,
                block_text(),
                BLOCK_START@,
                BLOCK_END@,
                false,
            ) is None,
            None => true,
        },
{
    let n = BLOCK_START@.len() as int;
    assert(block_text().subrange(0, n) =~= BLOCK_START@);
    assert(text::occurs_at(block_text(), BLOCK_START@, 0));
    integration_support::law_ensured_block_stays(
        document,
        block_text(),
        BLOCK_START@,
        BLOCK_END@,
        overwrite,
    );
}

/// Setting up a document without the start marker puts that marker there once.
pub proof fn law_marker_stands_once_after_setup(document: Seq<char>, overwrite: bool)
    requires
        !text::contains(document, BLOCK_START@),
    ensures
        integration_support::ensured(
            document,
            block_text(),
            BLOCK_START@,
            BLOCK_END@,
            overwrite,
        ) matches Some(written) && integration_support::stands_once(written, BLOCK_START@),
{
    lemma_markers();
    lemma_start_stands_once();
    integration_support::law_marker_stands_once(
        document,
        block_text(),
        BLOCK_START@,
        BLOCK_END@,
    );
}

/// Setting up twice with overwriting is the same as once, on a document without a
/// start marker, or with an end marker that follows it.
pub proof fn law_overwriting_setup_is_idempotent(document: Seq<char>)
    requires
        text::contains(document, BLOCK_START@) ==> integration_support::marked_region(
            document,
            BLOCK_START@,
            BLOCK_END@,
        ) is Some,
    ensures
        ({
            let once = integration_support::ensured(
                document,
                block_text(),
                BLOCK_START@,
                BLOCK_END@,
                true,
            );
            once is Some && integration_support::ensured(
                once->0,
                block_text(),
                BLOCK_START@,
                BLOCK_END@,
                true,
            ) == once
        }),
{
    lemma_block_is_marked();
    integration_support::law_upsert_is_idempotent(
        document,
        block_text(),
        BLOCK_START@,
        BLOCK_END@,
    );
}

/// The markers begin with a bracket and hold no other one, and no newline.
proof fn lemma_markers()
    ensures
        BLOCK_START@.len() == 32,
        BLOCK_END@.len() == 30,
        BLOCK_START@[0] == '<',
        BLOCK_END@[0] == '<',
        BLOCK_START@[23] != BLOCK_END@[23],
        forall|i: int| 0 < i < BLOCK_START@.len() ==> BLOCK_START@[i] != '<',
        forall|i: int| 0 < i < BLOCK_END@.len() ==> BLOCK_END@[i] != '<',
        !BLOCK_START@.contains('\n'),
{
    reveal_strlit("<!-- JCODE_CONTEXT_SNR_START -->");
    reveal_strlit("<!-- JCODE_CONTEXT_SNR_END -->");
}

/// The start marker stands in the block once.
proof fn lemma_start_stands_once()
    ensures
        integration_support::stands_once(block_text(), BLOCK_START@),
{
    let block = block_text();
    let n = BLOCK_START@.len() as int;
    let m = ROUTING_TEXT@.len() as int;
    lemma_markers();
    lemma_no_bracket();
    assert(block.subrange(0, n) =~= BLOCK_START@);
    assert(text::occurs_at(block, BLOCK_START@, 0));
    assert forall|j: int| #[trigger] text::occurs_at(block, BLOCK_START@, j) implies j == 0 by {
        assert(block.subrange(j, j + n)[0] == block[j]);
        if 0 < j < n {
            assert(block[j] == BLOCK_START@[j]);
        } else if n <= j < n + m {
            assert(block[j] == ROUTING_TEXT@[j - n]);
        }
    }
}

/// The block is well formed for its markers.
proof fn lemma_block_is_marked()
    ensures
        integration_support::is_marked(block_text(), BLOCK_START@, BLOCK_END@),
{
    let block = block_text();
    let n = BLOCK_START@.len() as int;
    let m = ROUTING_TEXT@.len() as int;
    let k = BLOCK_END@.len() as int;
    lemma_markers();
    lemma_no_bracket();
    assert(block.subrange(0, n) =~= BLOCK_START@);
    assert(block.subrange(n + m, n + m + k) =~= BLOCK_END@);
    assert forall|j: int| 0 <= j < n + m implies !text::occurs_at(block, BLOCK_END@, j) by {
        if text::occurs_at(block, BLOCK_END@, j) {
            assert(block.subrange(j, j + k)[0] == block[j]);
            if j == 0 {
                assert(block.subrange(0, k)[23] == BLOCK_START@[23]);
            } else if j < n {
                assert(block[j] == BLOCK_START@[j]);
            } else {
                assert(block[j] == ROUTING_TEXT@[j - n]);
            }
        }
    }
}

/// No marker begins inside the routing text: it holds no opening bracket.
proof fn lemma_no_bracket()
    ensures
        forall|i: int| 0 <= i < ROUTING_TEXT@.len() ==> ROUTING_TEXT@[i] != '<',
{
    reveal_strlit("
# Context SNR (signal-to-noise) Routing for Jcode

Prefer token-frugal surfaces so compressed/relevant content reaches the model instead of raw bytes. These tools are optional; use them when present, otherwise fall back to native jcode tools.

- Whole-repo understanding: `repomix` (or `ai-digest`) to produce a single token-counted digest, instead of cat-ing many files. Pipe the digest, not the tree.
- Token budgeting: `ttok` for exact token counts before deciding to truncate or summarize (more accurate than chars/4 estimates).
- Structural code search: `ast-grep`/`sg` for AST-level matches with tiny output, complementing jcode's `codesearch`/`agentgrep` for literal/lexical search.
- Sandboxed digest fallback (no external CLI): use the `jsbash` tool to build a compact digest inside the virtual fs, e.g. list the tree and print only the head of each file:
  `jsbash exec` with a script like:
  `find . -type f | head -200 | while read f; do echo \"== $f ==\"; head -40 \"$f\"; done`
  Reads come from the workspace overlay; nothing mutates the host.

Native mapping:
- \"summarize/understand this repo\" -> repomix digest (or jsbash repo_digest fallback), not raw `cat`/`ls -R`.
- \"find where X is defined/used structurally\" -> ast-grep, then jcode `codesearch`.
- before pasting large output -> count with `ttok` and prefer rtk/caveman-filtered or jsbash-reduced output.
");
}

/// Each surveyed program has one line, with the path at which it was found, or else
/// that it was not. `ast-grep` goes by its other name, `sg`, where only that was found.
pub proof fn law_every_surveyed_tool_has_a_line(found: SurveyedTools)
    ensures
        ({
            let lines = survey_lines(found);
            &&& lines.len() == 4
            &&& found.repomix is Some ==> lines[0] == "- repomix: "@ + found.repomix->0@
                + " (whole-repo -> single token-counted digest)"@
            &&& found.repomix is None ==> lines[0]
                == "- repomix: not found (whole-repo -> single token-counted digest)"@
            &&& found.ai_digest is Some ==> lines[1] == "- ai-digest: "@ + found.ai_digest->0@
                + " (repo/dir -> single markdown digest)"@
            &&& found.ai_digest is None ==> lines[1]
                == "- ai-digest: not found (repo/dir -> single markdown digest)"@
            &&& found.ttok is Some ==> lines[2] == "- ttok: "@ + found.ttok->0@
                + " (exact LLM token counting for truncation decisions)"@
            &&& found.ttok is None ==> lines[2]
                == "- ttok: not found (exact LLM token counting for truncation decisions)"@
            &&& found.ast_grep is Some ==> lines[3] == "- ast-grep: "@ + found.ast_grep->0@
                + " (structural (AST) code search, tiny output)"@
            &&& found.ast_grep is None && found.sg is Some ==> lines[3] == "- ast-grep: "@
                + found.sg->0@ + " (structural (AST) code search, tiny output)"@
            &&& found.ast_grep is None && found.sg is None ==> lines[3]
                == "- ast-grep: not found (structural (AST) code search, tiny output)"@
        }),
{
    reveal_strlit("- ");
    reveal_strlit(": ");
    reveal_strlit(" (");
    reveal_strlit(")");
    reveal_strlit("not found");
    reveal_strlit("repomix");
    reveal_strlit("ai-digest");
    reveal_strlit("ttok");
    reveal_strlit("ast-grep");
    reveal_strlit("- repomix: ");
    reveal_strlit("- ai-digest: ");
    reveal_strlit("- ttok: ");
    reveal_strlit("- ast-grep: ");
    reveal_strlit("whole-repo -> single token-counted digest");
    reveal_strlit(" (whole-repo -> single token-counted digest)");
    reveal_strlit("- repomix: not found (whole-repo -> single token-counted digest)");
    reveal_strlit("repo/dir -> single markdown digest");
    reveal_strlit(" (repo/dir -> single markdown digest)");
    reveal_strlit("- ai-digest: not found (repo/dir -> single markdown digest)");
    reveal_strlit("exact LLM token counting for truncation decisions");
    reveal_strlit(" (exact LLM token counting for truncation decisions)");
    reveal_strlit("- ttok: not found (exact LLM token counting for truncation decisions)");
    reveal_strlit("structural (AST) code search, tiny output");
    reveal_strlit(" (structural (AST) code search, tiny output)");
    reveal_strlit("- ast-grep: not found (structural (AST) code search, tiny output)");
    let lines = survey_lines(found);
    if found.repomix is Some {
        assert(lines[0] =~= "- repomix: "@ + found.repomix->0@
            + " (whole-repo -> single token-counted digest)"@);
    } else {
        assert(lines[0] =~= "- repomix: not found (whole-repo -> single token-counted digest)"@);
    }
    if found.ai_digest is Some {
        assert(lines[1] =~= "- ai-digest: "@ + found.ai_digest->0@
            + " (repo/dir -> single markdown digest)"@);
    } else {
        assert(lines[1] =~= "- ai-digest: not found (repo/dir -> single markdown digest)"@);
    }
    if found.ttok is Some {
        assert(lines[2] =~= "- ttok: "@ + found.ttok->0@
            + " (exact LLM token counting for truncation decisions)"@);
    } else {
        assert(lines[2]
            =~= "- ttok: not found (exact LLM token counting for truncation decisions)"@);
    }
    if found.ast_grep is Some {
        assert(lines[3] =~= "- ast-grep: "@ + found.ast_grep->0@
            + " (structural (AST) code search, tiny output)"@);
    } else if found.sg is Some {
        assert(lines[3] =~= "- ast-grep: "@ + found.sg->0@
            + " (structural (AST) code search, tiny output)"@);
    } else {
        assert(lines[3] =~= "- ast-grep: not found (structural (AST) code search, tiny output)"@);
    }
}

/// A setup keeps all of the document's own text, in front of the block and behind it:
/// of the characters that are no white space none is lost, and only those of the block
/// are added.
pub proof fn law_setup_keeps_the_document(document: Seq<char>, overwrite: bool)
    requires
        !text::contains(document, BLOCK_START@),
    ensures
        ({
            let dark = |c: char| !text::white_space(c);
            integration_support::ensured(
                document,
                block_text(),
                BLOCK_START@,
                BLOCK_END@,
                overwrite,
            ) matches Some(written) && written.filter(dark) == document.filter(dark)
                + block_text().filter(dark)
        }),
{
    integration_support::law_no_text_is_lost(document, block_text(), BLOCK_START@, BLOCK_END@);
}

/// A call asks for a setup, which overwrites only where that is asked for, or for the
/// status, or it is answered at once.
pub proof fn law_what_a_call_asks_for(input: ContextSnrInput, request: SnrRequest)
    requires
        request_of(input, request),
    ensures
        request is Setup <==> input.action@ == "setup"@,
        request is Status <==> input.action@ == "status"@,
        request is Setup ==> request->overwrite == (input.overwrite == Some(true)),
{
    reveal_strlit("setup");
    reveal_strlit("status");
    assert("setup"@.len() == 5 && "status"@.len() == 6);
}

/// Both reports give every line of the survey, behind a line that says whether the
/// block is there, or was written.
pub proof fn law_reports_give_the_whole_survey(flag: bool, found: SurveyedTools)
    ensures
        ({
            let lines = survey_lines(found);
            let survey = "\n"@ + lines[0] + "\n"@ + lines[1] + "\n"@ + lines[2] + "\n"@ + lines[3];
            &&& flag ==> setup_report(flag, found).output
                == "context-snr routing block written in preferred-tools.md\nSurveyed tools (jsbash repo_digest fallback always available):"@
                + survey
            &&& !flag ==> setup_report(flag, found).output
                == "context-snr routing block already present (use overwrite=true to refresh) in preferred-tools.md\nSurveyed tools (jsbash repo_digest fallback always available):"@
                + survey
            &&& flag ==> status_report(flag, found).output
                == "context-snr routing block present: yes\nSurveyed tools:"@ + survey
                + "\n- jsbash repo_digest: always available (built-in sandbox fallback)"@
            &&& !flag ==> status_report(flag, found).output
                == "context-snr routing block present: no (run action=setup)\nSurveyed tools:"@
                + survey + "\n- jsbash repo_digest: always available (built-in sandbox fallback)"@
        }),
{
    reveal_strlit("\n");
    reveal_strlit("context-snr routing block ");
    reveal_strlit("written");
    reveal_strlit("already present (use overwrite=true to refresh)");
    reveal_strlit(" in preferred-tools.md");
    reveal_strlit("Surveyed tools (jsbash repo_digest fallback always available):");
    reveal_strlit(
        "context-snr routing block written in preferred-tools.md\nSurveyed tools (jsbash repo_digest fallback always available):",
    );
    reveal_strlit(
        "context-snr routing block already present (use overwrite=true to refresh) in preferred-tools.md\nSurveyed tools (jsbash repo_digest fallback always available):",
    );
    reveal_strlit("context-snr routing block present: ");
    reveal_strlit("yes");
    reveal_strlit("no (run action=setup)");
    reveal_strlit("Surveyed tools:");
    reveal_strlit("context-snr routing block present: yes\nSurveyed tools:");
    reveal_strlit("context-snr routing block present: no (run action=setup)\nSurveyed tools:");
    reveal_strlit("- jsbash repo_digest: always available (built-in sandbox fallback)");
    reveal_strlit("\n- jsbash repo_digest: always available (built-in sandbox fallback)");
    let lines = survey_lines(found);
    let survey = "\n"@ + lines[0] + "\n"@ + lines[1] + "\n"@ + lines[2] + "\n"@ + lines[3];
    let written = "context-snr routing block "@ + (if flag {
        "written"@
    } else {
        "already present (use overwrite=true to refresh)"@
    }) + " in preferred-tools.md"@;
    let heading = "Surveyed tools (jsbash repo_digest fallback always available):"@;
    let present = "context-snr routing block present: "@ + (if flag {
        "yes"@
    } else {
        "no (run action=setup)"@
    });
    let last = "- jsbash repo_digest: always available (built-in sandbox fallback)"@;
    lemma_six_lines(written, heading, lines);
    lemma_six_lines(present, "Surveyed tools:"@, lines);
    let six = seq![present, "Surveyed tools:"@] + lines;
    let seven = six + seq![last];
    assert(seven.drop_last() =~= six);
    assert(text::join(seven, "\n"@) == text::join(six, "\n"@) + "\n"@ + last);
    assert("\n"@ + last
        =~= "\n- jsbash repo_digest: always available (built-in sandbox fallback)"@);
    if flag {
        assert(written + "\n"@ + heading
            =~= "context-snr routing block written in preferred-tools.md\nSurveyed tools (jsbash repo_digest fallback always available):"@);
        assert(present + "\n"@ + "Surveyed tools:"@
            =~= "context-snr routing block present: yes\nSurveyed tools:"@);
    } else {
        assert(written + "\n"@ + heading
            =~= "context-snr routing block already present (use overwrite=true to refresh) in preferred-tools.md\nSurveyed tools (jsbash repo_digest fallback always available):"@);
        assert(present + "\n"@ + "Surveyed tools:"@
            =~= "context-snr routing block present: no (run action=setup)\nSurveyed tools:"@);
    }
    assert(status_report(flag, found).output =~= present + "\n"@ + "Surveyed tools:"@ + survey
        + "\n- jsbash repo_digest: always available (built-in sandbox fallback)"@);
}

proof fn lemma_six_lines(a: Seq<char>, b: Seq<char>, lines: Seq<Seq<char>>)
    requires
        lines.len() == 4,
    ensures
        text::join(seq![a, b] + lines, "\n"@) == a + "\n"@ + b + ("\n"@ + lines[0] + "\n"@
            + lines[1] + "\n"@ + lines[2] + "\n"@ + lines[3]),
{
    let six = seq![a, b] + lines;
    let five = six.drop_last();
    let four = five.drop_last();
    let three = four.drop_last();
    let two = three.drop_last();
    let one = two.drop_last();
    assert(one =~= seq![a]);
    assert(text::join(one, "\n"@) == a);
    assert(text::join(two, "\n"@) == a + "\n"@ + b);
    assert(text::join(three, "\n"@) == a + "\n"@ + b + "\n"@ + lines[0]);
    assert(text::join(four, "\n"@) == a + "\n"@ + b + "\n"@ + lines[0] + "\n"@ + lines[1]);
    assert(text::join(five, "\n"@) == a + "\n"@ + b + "\n"@ + lines[0] + "\n"@ + lines[1] + "\n"@
        + lines[2]);
    assert(text::join(six, "\n"@) =~= a + "\n"@ + b + ("\n"@ + lines[0] + "\n"@ + lines[1] + "\n"@
        + lines[2] + "\n"@ + lines[3]));
}

} // verus!
