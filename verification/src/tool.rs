//! What every tool works with: the context of a call, its output, and the
//! request to run a command line program.

use vstd::prelude::*;

use crate::external_cli;
use crate::json::{Json, JsonView};
use crate::text;

verus! {

/// The call that a tool serves.
#[derive(Debug)]
pub struct ToolContext {
    pub session_id: String,
    pub message_id: String,
    pub tool_call_id: String,
    /// The directory that the session works in, if it has one.
    pub working_dir: Option<String>,
}

/// An image that accompanies an output.
#[derive(Debug)]
pub struct ToolImage {
    pub media_type: String,
    pub data: String,
}

/// The view of an image: its media type and its data.
pub open spec fn images_view(images: Seq<ToolImage>) -> Seq<(Seq<char>, Seq<char>)> {
    Seq::new(images.len(), |i: int| (images[i].media_type@, images[i].data@))
}

/// What a tool call gives back.
#[derive(Debug)]
pub struct ToolOutput {
    pub output: String,
    pub title: Option<String>,
    pub metadata: Option<Json>,
    pub images: Vec<ToolImage>,
}

/// What a [`ToolOutput`] means.
pub struct ToolOutputView {
    pub output: Seq<char>,
    pub title: Option<Seq<char>>,
    pub metadata: Option<JsonView>,
    pub images: Seq<(Seq<char>, Seq<char>)>,
}

/// The output that holds `output` and nothing else.
pub open spec fn plain_output(output: Seq<char>) -> ToolOutputView {
    ToolOutputView { output, title: None, metadata: None, images: Seq::empty() }
}

/// The output that holds `output` under `title`.
pub open spec fn titled_output(output: Seq<char>, title: Seq<char>) -> ToolOutputView {
    ToolOutputView { output, title: Some(title), metadata: None, images: Seq::empty() }
}

impl View for ToolOutput {
    type V = ToolOutputView;

    open spec fn view(&self) -> ToolOutputView {
        ToolOutputView {
            output: self.output@,
            title: text::opt_text(self.title),
            metadata: match self.metadata {
                Some(m) => Some(m@),
                None => None,
            },
            images: images_view(self.images@),
        }
    }
}

impl ToolOutput {
    /// An output without title, metadata and images.
    pub fn new(output: String) -> (r: ToolOutput)
        ensures
            r@ == plain_output(output@),
    {
        let r = ToolOutput { output, title: None, metadata: None, images: Vec::new() };
        assert(r@.images =~= Seq::empty());
        r
    }

    /// The output under the title `title`.
    pub fn with_title(self, title: &str) -> (r: ToolOutput)
        ensures
            r@ == (ToolOutputView { title: Some(title@), ..self@ }),
    {
        ToolOutput {
            output: self.output,
            title: Some(title.to_owned()),
            metadata: self.metadata,
            images: self.images,
        }
    }

    /// The output with the metadata `metadata`.
    pub fn with_metadata(self, metadata: Json) -> (r: ToolOutput)
        ensures
            r@ == (ToolOutputView { metadata: Some(metadata@), ..self@ }),
    {
        ToolOutput {
            output: self.output,
            title: self.title,
            metadata: Some(metadata),
            images: self.images,
        }
    }
}

impl Clone for ToolImage {
    /// A copy of the image.
    fn clone(&self) -> (r: ToolImage)
        ensures
            r.media_type@ == self.media_type@,
            r.data@ == self.data@,
    {
        ToolImage { media_type: self.media_type.clone(), data: self.data.clone() }
    }
}

impl Clone for ToolOutput {
    /// A copy of the output.
    fn clone(&self) -> (r: ToolOutput)
        ensures
            r@ == self@,
    {
        let title = match &self.title {
            Some(title) => Some(title.clone()),
            None => None,
        };
        let metadata = match &self.metadata {
            Some(metadata) => Some(metadata.clone()),
            None => None,
        };
        ToolOutput {
            output: self.output.clone(),
            title,
            metadata,
            images: copy_images(&self.images),
        }
    }
}

/// A copy of a list of images.
pub fn copy_images(images: &Vec<ToolImage>) -> (r: Vec<ToolImage>)
    ensures
        images_view(r@) == images_view(images@),
{
    let mut out: Vec<ToolImage> = Vec::new();
    let mut i: usize = 0;
    while i < images.len()
        invariant
            i <= images.len(),
            out.len() == i,
            forall|j: int|
                0 <= j < i ==> (#[trigger] out[j]).media_type@ == images[j].media_type@
                    && out[j].data@ == images[j].data@,
        decreases images.len() - i,
    {
        out.push(images[i].clone());
        i += 1;
    }
    assert(images_view(out@) =~= images_view(images@));
    out
}

/// A command line to run, without the program's name.
#[derive(Debug)]
pub struct CliCommand {
    pub args: Vec<String>,
    /// Text for the program's standard input; without it, the program gets none.
    pub stdin: Option<String>,
}

/// What a tool that wraps a command line program does with a request.
#[derive(Debug)]
pub enum CliStep {
    /// Answer at once.
    Reply(ToolOutput),
    /// Run the program.
    Run(CliCommand),
}

/// What a [`CliStep`] means.
pub enum CliStepView {
    Reply(ToolOutputView),
    Run { args: Seq<Seq<char>>, stdin: Option<Seq<char>> },
}

impl View for CliStep {
    type V = CliStepView;

    open spec fn view(&self) -> CliStepView {
        match *self {
            CliStep::Reply(output) => CliStepView::Reply(output@),
            CliStep::Run(command) => CliStepView::Run {
                args: text::texts(command.args@),
                stdin: text::opt_text(command.stdin),
            },
        }
    }
}

/// An answer made of `message` alone.
pub fn reply(message: &str) -> (r: CliStep)
    ensures
        r@ == CliStepView::Reply(plain_output(message@)),
{
    CliStep::Reply(ToolOutput::new(message.to_owned()))
}

/// A flag on a command line, where it is asked for.
pub open spec fn flag_if(flag: Seq<char>, wanted: bool) -> Seq<Seq<char>> {
    if wanted {
        seq![flag]
    } else {
        Seq::empty()
    }
}

/// An option on a command line with its value, where there is one.
pub open spec fn option_with(flag: Seq<char>, value: Option<Seq<char>>) -> Seq<Seq<char>> {
    match value {
        Some(v) => seq![flag, v],
        None => Seq::empty(),
    }
}

/// An argument on a command line, where there is one.
pub open spec fn argument(value: Option<Seq<char>>) -> Seq<Seq<char>> {
    match value {
        Some(v) => seq![v],
        None => Seq::empty(),
    }
}

/// Appends a flag where it is asked for.
pub fn push_flag(args: &mut Vec<String>, flag: &str, wanted: bool)
    ensures
        text::texts(final(args)@) == text::texts(old(args)@) + flag_if(flag@, wanted),
{
    let ghost before = text::texts(args@);
    if wanted {
        text::push_text(args, flag.to_owned());
    }
    assert(text::texts(args@) =~= before + flag_if(flag@, wanted));
}

/// Appends an option with its value, where there is one.
pub fn push_option(args: &mut Vec<String>, flag: &str, value: &Option<String>)
    ensures
        text::texts(final(args)@) == text::texts(old(args)@) + option_with(
            flag@,
            text::opt_text(*value),
        ),
{
    let ghost before = text::texts(args@);
    if let Some(v) = value {
        text::push_text(args, flag.to_owned());
        text::push_text(args, v.clone());
    }
    assert(text::texts(args@) =~= before + option_with(flag@, text::opt_text(*value)));
}

/// Appends an argument, where there is one.
pub fn push_argument(args: &mut Vec<String>, value: &Option<String>)
    ensures
        text::texts(final(args)@) == text::texts(old(args)@) + argument(text::opt_text(*value)),
{
    let ghost before = text::texts(args@);
    if let Some(v) = value {
        text::push_text(args, v.clone());
    }
    assert(text::texts(args@) =~= before + argument(text::opt_text(*value)));
}

/// The request to run a program with `args` and nothing on its standard input.
pub fn run(args: Vec<String>) -> (r: CliStep)
    ensures
        r@ == (CliStepView::Run { args: text::texts(args@), stdin: None }),
{
    CliStep::Run(CliCommand { args, stdin: None })
}

/// A list of one text.
pub fn single(item: &str) -> (r: Vec<String>)
    ensures
        text::texts(r@) == seq![item@],
{
    let mut r: Vec<String> = Vec::new();
    text::push_text(&mut r, item.to_owned());
    assert(text::texts(r@) =~= seq![item@]);
    r
}

/// A flag that may be left out counts as off.
pub open spec fn is_on(flag: Option<bool>) -> bool {
    flag == Some(true)
}

/// Whether a flag that may be left out is on.
pub fn on(flag: Option<bool>) -> (r: bool)
    ensures
        r == is_on(flag),
{
    match flag {
        Some(value) => value,
        None => false,
    }
}

/// The path of a file that a call names: below the working directory, where there
/// is one and the path is not absolute.
pub open spec fn resolved(working_dir: Option<Seq<char>>, path: Seq<char>) -> Seq<char> {
    match working_dir {
        Some(dir) => external_cli::path_below(dir, path),
        None => path,
    }
}

impl ToolContext {
    /// The path of a file that the call names.
    pub fn resolve_path(&self, path: &str) -> (r: String)
        ensures
            r@ == resolved(text::opt_text(self.working_dir), path@),
    {
        match &self.working_dir {
            Some(dir) => external_cli::join_path(dir.as_str(), path),
            None => path.to_owned(),
        }
    }
}

/// A path is taken relative to the working directory, where there is one; an absolute
/// path stays as it is, and so does any path without a working directory.
pub proof fn law_paths_are_relative_to_the_working_dir(
    working_dir: Option<Seq<char>>,
    path: Seq<char>,
)
    ensures
        path.len() > 0 && path[0] == '/' ==> resolved(working_dir, path) == path,
        working_dir is None ==> resolved(working_dir, path) == path,
        working_dir is Some && working_dir->0.len() > 0 && working_dir->0.last() != '/'
            && path.len() > 0 && path[0] != '/' ==> resolved(working_dir, path) == working_dir->0
            + "/"@ + path,
{
    if working_dir is Some {
        external_cli::law_one_slash_joins_paths(working_dir->0, path);
    }
}

} // verus!
