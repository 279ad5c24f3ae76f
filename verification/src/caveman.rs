//! Compression of markdown files, through the `caveman-compress` Python module.
//!
//! Compression rewrites the file and sends its contents to an outside service, so
//! it is done only where the call confirms it.

use vstd::prelude::*;

use crate::external_cli;
use crate::external_cli::CliResult;
use crate::json;
use crate::json::{Json, JsonView};
use crate::schema;
use crate::text;
use crate::tool;
use crate::tool::{ToolContext, ToolOutput, ToolOutputView};

verus! {

/// What the tool says of itself.
pub const DESCRIPTION: &'static str =
    "Compress a natural-language markdown file into ultra-terse caveman form to cut input tokens ~75%, preserving code, URLs, headings, and technical substance. Destructive: rewrites the file in place and writes a <name>.original.md backup; calls the Anthropic API. Actions: status (check availability), compress (requires file_path and confirmed=true).";

/// The answer where the module is missing.
pub const NOT_INSTALLED: &'static str =
    "caveman compressor is not installed. Install the caveman plugin (github.com/JuliusBrussee/caveman) so caveman-compress/scripts is available, then retry.";

/// The answer to a compression that names no file.
pub const NO_FILE: &'static str =
    "caveman compress requires `file_path` (the markdown file to compress).";

/// The answer where Python is missing.
pub const NO_PYTHON: &'static str =
    "python3 is required to run caveman compression but was not found on PATH.";

/// The tool.
#[derive(Debug)]
pub struct CavemanTool;

/// The parameters of a call.
#[derive(Debug)]
pub struct CavemanInput {
    pub action: String,
    /// The file to compress.
    pub file_path: Option<String>,
    /// Whether the caller confirms that the file may be rewritten and sent.
    pub confirmed: Option<bool>,
}

/// What is to be done next.
#[derive(Debug)]
pub enum CavemanStep {
    /// Answer.
    Reply(ToolOutput),
    /// See whether the file is there, and where Python is; then
    /// [`CavemanTool::proceed`].
    CheckFile { path: String },
    /// Run a program in the directory `cwd`.
    Run { program: String, args: Vec<String>, cwd: String },
}

/// What a [`CavemanStep`] means.
pub enum CavemanStepView {
    Reply(ToolOutputView),
    CheckFile { path: Seq<char> },
    Run { program: Seq<char>, args: Seq<Seq<char>>, cwd: Seq<char> },
}

impl View for CavemanStep {
    type V = CavemanStepView;

    open spec fn view(&self) -> CavemanStepView {
        match *self {
            CavemanStep::Reply(output) => CavemanStepView::Reply(output@),
            CavemanStep::CheckFile { path } => CavemanStepView::CheckFile { path: path@ },
            CavemanStep::Run { program, args, cwd } => CavemanStepView::Run {
                program: program@,
                args: text::texts(args@),
                cwd: cwd@,
            },
        }
    }
}

/// The directories in which the module may be, in the order in which they are
/// tried. `assistants` are the names of the directories below the home directory in
/// which assistants keep their plugins.
pub open spec fn module_dirs(home: Option<Seq<char>>, assistants: Seq<Seq<char>>) -> Seq<
    Seq<char>,
> {
    match home {
        Some(h) => seq![
            external_cli::path_below(h, ".gemini/extensions/caveman/caveman-compress"@),
        ] + Seq::new(
            assistants.len(),
            |i: int|
                external_cli::path_below(
                    external_cli::path_below(h, assistants[i]),
                    "plugins/caveman/caveman-compress"@,
                ),
        ) + seq![
            external_cli::path_below(h, ".cursor/extensions/caveman/caveman-compress"@),
            external_cli::path_below(h, ".local/share/caveman/caveman-compress"@),
        ],
        None => Seq::empty(),
    }
}

/// A plain answer.
pub open spec fn says(message: Seq<char>) -> CavemanStepView {
    CavemanStepView::Reply(tool::plain_output(message))
}

/// What is done first with a call, where the module is in the directory `dir`.
pub open spec fn first_step(
    input: CavemanInput,
    working_dir: Option<Seq<char>>,
    dir: Seq<char>,
) -> CavemanStepView {
    if input.action@ == "status"@ {
        CavemanStepView::Reply(
            tool::titled_output(
                "caveman compressor available at "@ + dir
                    + ".\nUse action='compress' with file_path and confirmed=true to compress a markdown file (rewrites in place, writes <name>.original.md, calls the Anthropic API)."@,
                "caveman status"@,
            ),
        )
    } else if input.action@ == "compress"@ {
        match input.file_path {
            None => says(NO_FILE@),
            Some(path) => if tool::is_on(input.confirmed) {
                CavemanStepView::CheckFile { path: tool::resolved(working_dir, path@) }
            } else {
                says(
                    "caveman compress is destructive: it rewrites "@ + path@
                        + " in place, writes a <name>.original.md backup, and sends the file contents to the Anthropic API. Re-issue with confirmed=true to proceed."@,
                )
            },
        }
    } else {
        says("Unknown caveman action '"@ + input.action@ + "'. Valid: status, compress."@)
    }
}

/// What is done with the file `path` once it is known whether it is there, and where
/// Python is.
pub open spec fn second_step(
    dir: Seq<char>,
    path: Seq<char>,
    is_file: bool,
    python: Option<Seq<char>>,
) -> CavemanStepView {
    if !is_file {
        says("File not found: "@ + path)
    } else {
        match python {
            None => says(NO_PYTHON@),
            Some(program) => CavemanStepView::Run {
                program,
                args: seq!["-m"@, "scripts"@, path],
                cwd: dir,
            },
        }
    }
}

/// The parameters of the tool.
pub open spec fn parameters(intent: JsonView) -> Seq<(Seq<char>, JsonView)> {
    seq![
        ("intent"@, intent),
        ("action"@, schema::choice_view(seq!["status"@, "compress"@], "caveman operation."@)),
        (
            "file_path"@,
            schema::typed_view("string"@, "Markdown file to compress (compress action)."@),
        ),
        (
            "confirmed"@,
            schema::typed_view(
                "boolean"@,
                "Must be true to compress: this rewrites the file and sends its contents to the Anthropic API."@,
            ),
        ),
    ]
}

/// The directories in which the module may be. It is in the first of them that has
/// the file `scripts/__main__.py`. `assistants` are the names of the directories
/// below the home directory in which assistants keep their plugins.
pub fn module_candidates(home: Option<&str>, assistants: &Vec<String>) -> (r: Vec<String>)
    ensures
        text::texts(r@) == module_dirs(text::opt_str(home), text::texts(assistants@)),
{
    let mut dirs: Vec<String> = Vec::new();
    if let Some(h) = home {
        let ghost all = module_dirs(Some(h@), text::texts(assistants@));
        text::push_text(
            &mut dirs,
            external_cli::join_path(h, ".gemini/extensions/caveman/caveman-compress"),
        );
        let mut i: usize = 0;
        assert(text::texts(dirs@) =~= all.take(1));
        while i < assistants.len()
            invariant
                i <= assistants.len(),
                all == module_dirs(Some(h@), text::texts(assistants@)),
                text::texts(dirs@) == all.take(1 + i),
            decreases assistants.len() - i,
        {
            let assistant = external_cli::join_path(h, assistants[i].as_str());
            text::push_text(
                &mut dirs,
                external_cli::join_path(assistant.as_str(), "plugins/caveman/caveman-compress"),
            );
            assert(text::texts(dirs@) =~= all.take(2 + i));
            i += 1;
        }
        text::push_text(
            &mut dirs,
            external_cli::join_path(h, ".cursor/extensions/caveman/caveman-compress"),
        );
        text::push_text(
            &mut dirs,
            external_cli::join_path(h, ".local/share/caveman/caveman-compress"),
        );
        assert(text::texts(dirs@) =~= all);
    }
    assert(text::texts(dirs@) =~= module_dirs(text::opt_str(home), text::texts(assistants@)));
    dirs
}

/// The first of `dirs` that has the module. `present[i]` tells whether the one at
/// position `i` has.
pub fn find_caveman_dir(dirs: &Vec<String>, present: &Vec<bool>) -> (r: Option<String>)
    requires
        present.len() == dirs.len(),
    ensures
        match r {
            Some(dir) => exists|i: int|
                0 <= i < dirs.len() && present[i] && dir@ == dirs[i]@ && forall|j: int|
                    0 <= j < i ==> !present[j],
            None => forall|j: int| 0 <= j < dirs.len() ==> !present[j],
        },
{
    external_cli::find_binary(dirs, present)
}

fn answer(message: &str) -> (r: CavemanStep)
    ensures
        r@ == says(message@),
{
    CavemanStep::Reply(ToolOutput::new(message.to_owned()))
}

impl CavemanTool {
    /// The tool.
    pub fn new() -> (r: CavemanTool)
        ensures
            r == CavemanTool,
    {
        CavemanTool
    }

    /// The name of the tool.
    pub fn name(&self) -> (r: &'static str)
        ensures
            r@ == "caveman"@,
    {
        "caveman"
    }

    /// What the tool says of itself.
    pub fn description(&self) -> (r: &'static str)
        ensures
            r@ == DESCRIPTION@,
    {
        DESCRIPTION
    }

    /// The schema of the parameters. `intent` is the schema of the parameter that
    /// every tool has.
    pub fn parameters_schema(&self, intent: Json) -> (r: Json)
        ensures
            r@ == schema::object_schema_requiring(parameters(intent@), seq!["action"@]),
    {
        let actions = ["status", "compress"];
        let required = ["action"];
        assert(schema::strs_view(actions@) =~= seq!["status"@, "compress"@]);
        assert(schema::strs_view(required@) =~= seq!["action"@]);
        let mut p: Vec<(String, Json)> = Vec::new();
        json::push_field(&mut p, "intent", intent);
        json::push_field(&mut p, "action", schema::choice(&actions, "caveman operation."));
        json::push_field(
            &mut p,
            "file_path",
            schema::typed("string", "Markdown file to compress (compress action)."),
        );
        json::push_field(
            &mut p,
            "confirmed",
            schema::typed(
                "boolean",
                "Must be true to compress: this rewrites the file and sends its contents to the Anthropic API.",
            ),
        );
        assert(json::fields_view(p@) =~= parameters(intent@));
        schema::object_requiring(p, &required)
    }

    /// What is done first with a call. `dir` is where the module is.
    pub fn plan(&self, input: &CavemanInput, ctx: &ToolContext, dir: Option<&str>) -> (r:
        CavemanStep)
        ensures
            r@ == match dir {
                Some(d) => first_step(*input, text::opt_text(ctx.working_dir), d@),
                None => says(NOT_INSTALLED@),
            },
    {
        let dir = match dir {
            Some(dir) => dir,
            None => return answer(NOT_INSTALLED),
        };
        let action = input.action.as_str();
        if text::same(action, "status") {
            let mut message = "caveman compressor available at ".to_owned();
            message.append(dir);
            message.append(
                ".\nUse action='compress' with file_path and confirmed=true to compress a markdown file (rewrites in place, writes <name>.original.md, calls the Anthropic API).",
            );
            CavemanStep::Reply(ToolOutput::new(message).with_title("caveman status"))
        } else if text::same(action, "compress") {
            let path = match &input.file_path {
                Some(path) => path,
                None => return answer(NO_FILE),
            };
            if !tool::on(input.confirmed) {
                let mut message = "caveman compress is destructive: it rewrites ".to_owned();
                message.append(path.as_str());
                message.append(
                    " in place, writes a <name>.original.md backup, and sends the file contents to the Anthropic API. Re-issue with confirmed=true to proceed.",
                );
                return answer(message.as_str());
            }
            CavemanStep::CheckFile { path: ctx.resolve_path(path.as_str()) }
        } else {
            let mut message = "Unknown caveman action '".to_owned();
            message.append(action);
            message.append("'. Valid: status, compress.");
            answer(message.as_str())
        }
    }

    /// What is done with the file `path`. `is_file` tells whether it is there;
    /// `python3` and `python` are where the programs of these names were found.
    pub fn proceed(
        &self,
        dir: &str,
        path: &str,
        is_file: bool,
        python3: Option<&str>,
        python: Option<&str>,
    ) -> (r: CavemanStep)
        ensures
            r@ == second_step(
                dir@,
                path@,
                is_file,
                match python3 {
                    Some(p) => Some(p@),
                    None => text::opt_str(python),
                },
            ),
    {
        if !is_file {
            let mut message = "File not found: ".to_owned();
            message.append(path);
            return answer(message.as_str());
        }
        let program = match python3 {
            Some(program) => program,
            None => match python {
                Some(program) => program,
                None => return answer(NO_PYTHON),
            },
        };
        let mut args = tool::single("-m");
        text::push_text(&mut args, "scripts".to_owned());
        text::push_text(&mut args, path.to_owned());
        assert(text::texts(args@) =~= seq!["-m"@, "scripts"@, path@]);
        CavemanStep::Run { program: program.to_owned(), args, cwd: dir.to_owned() }
    }

    /// Shows the result of the program.
    pub fn conclude(&self, result: CliResult) -> (r: ToolOutput)
        ensures
            r@ == external_cli::cli_output(
                "caveman"@,
                "compress"@,
                result.status,
                result.stdout@,
                result.stderr@,
            ),
    {
        external_cli::format_cli_result("caveman", "compress", result)
    }
}

/// No file is touched unless the call asks for compression and confirms it.
pub proof fn law_compression_needs_confirmation(
    input: CavemanInput,
    working_dir: Option<Seq<char>>,
    dir: Seq<char>,
)
    requires
        !(first_step(input, working_dir, dir) is Reply),
    ensures
        input.action@ == "compress"@,
        tool::is_on(input.confirmed),
        input.file_path is Some,
{
}

/// A file is looked at only for a compression that is confirmed, and it is the one
/// that the call names, taken relative to the working directory. Everything else is
/// answered at once.
pub proof fn law_only_a_confirmed_file_is_looked_at(
    input: CavemanInput,
    working_dir: Option<Seq<char>>,
    dir: Seq<char>,
)
    ensures
        first_step(input, working_dir, dir) is CheckFile <==> input.action@ == "compress"@
            && input.confirmed == Some(true) && input.file_path is Some,
        first_step(input, working_dir, dir) is CheckFile ==> first_step(input, working_dir, dir)
            == (CavemanStepView::CheckFile {
            path: tool::resolved(working_dir, input.file_path->0@),
        }),
        !(first_step(input, working_dir, dir) is Run),
{
    reveal_strlit("status");
    reveal_strlit("compress");
    assert("status"@.len() == 6 && "compress"@.len() == 8);
}

/// The compressor runs only on a file that is there and only with Python, on that file
/// alone, in its own directory.
pub proof fn law_the_compressor_runs_on_the_file(
    dir: Seq<char>,
    path: Seq<char>,
    is_file: bool,
    python: Option<Seq<char>>,
)
    ensures
        second_step(dir, path, is_file, python) is Run <==> is_file && python is Some,
        is_file && python is Some ==> second_step(dir, path, is_file, python) == (
        CavemanStepView::Run {
            program: python->0,
            args: seq!["-m"@, "scripts"@, path],
            cwd: dir,
        }),
        !is_file ==> second_step(dir, path, is_file, python) == CavemanStepView::Reply(
            tool::plain_output("File not found: "@ + path),
        ),
{
}

/// The compressor is looked for in the home directory: among the extensions of Gemini,
/// then among the plugins of each assistant, in their order, then among the extensions
/// of Cursor, and last where it stands alone. Without a home directory it is looked for
/// nowhere.
pub proof fn law_where_the_compressor_is_looked_for(
    home: Seq<char>,
    assistants: Seq<Seq<char>>,
    i: int,
)
    requires
        home.len() > 0,
        home.last() != '/',
    ensures
        module_dirs(None, assistants).len() == 0,
        ({
            let dirs = module_dirs(Some(home), assistants);
            let n = assistants.len() as int;
            &&& dirs.len() == n + 3
            &&& dirs[0] == home + "/.gemini/extensions/caveman/caveman-compress"@
            &&& 0 <= i < n && assistants[i].len() > 0 && assistants[i][0] != '/'
                && assistants[i].last() != '/' ==> dirs[1 + i] == home + "/"@ + assistants[i]
                + "/plugins/caveman/caveman-compress"@
            &&& dirs[n + 1] == home + "/.cursor/extensions/caveman/caveman-compress"@
            &&& dirs[n + 2] == home + "/.local/share/caveman/caveman-compress"@
        }),
{
    reveal_strlit("/");
    reveal_strlit(".gemini/extensions/caveman/caveman-compress");
    reveal_strlit("/.gemini/extensions/caveman/caveman-compress");
    reveal_strlit("plugins/caveman/caveman-compress");
    reveal_strlit("/plugins/caveman/caveman-compress");
    reveal_strlit(".cursor/extensions/caveman/caveman-compress");
    reveal_strlit("/.cursor/extensions/caveman/caveman-compress");
    reveal_strlit(".local/share/caveman/caveman-compress");
    reveal_strlit("/.local/share/caveman/caveman-compress");
    let dirs = module_dirs(Some(home), assistants);
    let n = assistants.len() as int;
    assert(dirs[0] =~= home + "/.gemini/extensions/caveman/caveman-compress"@);
    assert(dirs[n + 1] =~= home + "/.cursor/extensions/caveman/caveman-compress"@);
    assert(dirs[n + 2] =~= home + "/.local/share/caveman/caveman-compress"@);
    if 0 <= i < n && assistants[i].len() > 0 && assistants[i][0] != '/' && assistants[i].last()
        != '/' {
        let assistant = external_cli::path_below(home, assistants[i]);
        assert(assistant.last() == assistants[i].last());
        assert(dirs[1 + i] =~= home + "/"@ + assistants[i] + "/plugins/caveman/caveman-compress"@);
    }
}

/// The tool offers every parameter that it acts on, each of the type that it takes.
pub proof fn law_every_parameter_is_offered(intent: JsonView)
    ensures
        ({
            let offered = parameters(intent);
            let kind = |i: int| json::get_field(offered[i].1, "type"@);
            &&& offered.len() == 4
            &&& offered[0] == ("intent"@, intent)
            &&& offered[1].0 == "action"@ && kind(1) == Some(JsonView::Text("string"@))
            &&& offered[2].0 == "file_path"@ && kind(2) == Some(JsonView::Text("string"@))
            &&& offered[3].0 == "confirmed"@ && kind(3) == Some(JsonView::Text("boolean"@))
        }),
{
}

} // verus!
