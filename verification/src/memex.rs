//! Zettelkasten agent memory, through the `memex` command line program.
//!
//! The defaults are lean: `search` gives one line per result, and `links` gives
//! summary figures. More is given where it is asked for.

use vstd::prelude::*;

use crate::external_cli;
use crate::external_cli::CliResult;
use crate::json;
use crate::json::{Json, JsonView};
use crate::schema;
use crate::text;
use crate::tool;
use crate::tool::{CliCommand, CliStep, CliStepView, ToolOutput};

verus! {

/// What the tool says of itself.
pub const DESCRIPTION: &'static str =
    "Zettelkasten agent memory. Recall durable knowledge before a task and persist insights after. Actions: search (ranked keyword/semantic, compact by default), read, write (content via `content`), links (graph stats by default), backlinks, archive, organize (network analysis), doctor, sync. Prefer compact search + targeted read to keep context lean.";

/// The answer where the program is missing.
pub const NOT_INSTALLED: &'static str =
    "memex CLI is not installed. Install it with `npm install -g @touchskyer/memex` (or `bun add -g @touchskyer/memex`), then retry.";

/// The tool.
#[derive(Debug)]
pub struct MemexTool;

/// The parameters of a call.
#[derive(Debug)]
pub struct MemexInput {
    pub action: String,
    /// Search query or, for read/backlinks/archive, the card slug.
    pub query: Option<String>,
    pub slug: Option<String>,
    /// Card content for `write`.
    pub content: Option<String>,
    /// Max search results.
    pub limit: Option<u32>,
    /// Use embedding-based semantic search for `search`.
    pub semantic: Option<bool>,
    /// Verbose output for `search` and `links`.
    pub verbose: Option<bool>,
    /// Filter by frontmatter category for `search`.
    pub category: Option<String>,
    /// Filter by frontmatter tag for `search`.
    pub tag: Option<String>,
    /// Only cards modified since this date (YYYY-MM-DD) for search/organize.
    pub since: Option<String>,
    /// For `links`: filter by "orphan" or "hub".
    pub filter: Option<String>,
    /// JSON output for organize/links.
    pub json: Option<bool>,
}

/// The card that a call is about: the slug, or else the query.
pub open spec fn card_of(input: MemexInput) -> Option<Seq<char>> {
    match input.slug {
        Some(slug) => Some(slug@),
        None => text::opt_text(input.query),
    }
}

/// A limit in decimal notation.
pub open spec fn limit_text(limit: Option<u32>) -> Option<Seq<char>> {
    match limit {
        Some(n) => Some(text::decimal(n as nat)),
        None => None,
    }
}

/// The command line of a search.
pub open spec fn search_args(input: MemexInput) -> Seq<Seq<char>> {
    seq!["search"@] + tool::argument(text::opt_text(input.query)) + tool::flag_if(
        "--compact"@,
        !tool::is_on(input.verbose),
    ) + tool::flag_if("--semantic"@, tool::is_on(input.semantic)) + tool::option_with(
        "--limit"@,
        limit_text(input.limit),
    ) + tool::option_with("--category"@, text::opt_text(input.category)) + tool::option_with(
        "--tag"@,
        text::opt_text(input.tag),
    ) + tool::option_with("--since"@, text::opt_text(input.since))
}

/// The command line that shows links.
pub open spec fn links_args(input: MemexInput) -> Seq<Seq<char>> {
    seq!["links"@] + (match input.filter {
        Some(filter) => seq!["--filter"@, filter@],
        None => tool::flag_if("--stats"@, !tool::is_on(input.verbose)),
    }) + tool::flag_if("--json"@, tool::is_on(input.json))
}

/// The command line that organizes the cards.
pub open spec fn organize_args(input: MemexInput) -> Seq<Seq<char>> {
    seq!["organize"@] + tool::option_with("--since"@, text::opt_text(input.since))
        + tool::flag_if("--json"@, tool::is_on(input.json))
}

/// The step of an action on one card, which needs to be named.
pub open spec fn card_step(input: MemexInput, action: Seq<char>, missing: Seq<char>) -> CliStepView {
    match card_of(input) {
        Some(card) => CliStepView::Run { args: seq![action, card], stdin: None },
        None => CliStepView::Reply(tool::plain_output(missing)),
    }
}

/// The step of writing a card, which needs a name and a content.
pub open spec fn write_step(input: MemexInput) -> CliStepView {
    match (card_of(input), input.content) {
        (None, _) => CliStepView::Reply(tool::plain_output("memex write requires `slug`."@)),
        (_, None) => CliStepView::Reply(
            tool::plain_output("memex write requires `content` (the card markdown body)."@),
        ),
        (Some(card), Some(content)) => CliStepView::Run {
            args: seq!["write"@, card],
            stdin: Some(content@),
        },
    }
}

/// A run without standard input.
pub open spec fn plain_run(args: Seq<Seq<char>>) -> CliStepView {
    CliStepView::Run { args, stdin: None }
}

/// What is done with a call, where the program is installed.
pub open spec fn step_of(input: MemexInput) -> CliStepView {
    let action = input.action@;
    if action == "search"@ {
        plain_run(search_args(input))
    } else if action == "read"@ {
        card_step(input, "read"@, "memex read requires `slug` (or `query`)."@)
    } else if action == "write"@ {
        write_step(input)
    } else if action == "links"@ {
        plain_run(links_args(input))
    } else if action == "backlinks"@ {
        card_step(input, "backlinks"@, "memex backlinks requires `slug` (or `query`)."@)
    } else if action == "archive"@ {
        card_step(input, "archive"@, "memex archive requires `slug` (or `query`)."@)
    } else if action == "organize"@ {
        plain_run(organize_args(input))
    } else if action == "doctor"@ {
        plain_run(seq!["doctor"@])
    } else if action == "sync"@ {
        plain_run(seq!["sync"@])
    } else {
        CliStepView::Reply(
            tool::plain_output(
                "Unknown memex action '"@ + action
                    + "'. Valid: search, read, write, links, backlinks, archive, organize, doctor, sync."@,
            ),
        )
    }
}

/// The names of the actions.
pub open spec fn action_names() -> Seq<Seq<char>> {
    seq![
        "search"@,
        "read"@,
        "write"@,
        "links"@,
        "backlinks"@,
        "archive"@,
        "organize"@,
        "doctor"@,
        "sync"@,
    ]
}

/// The parameters of the tool.
pub open spec fn parameters(intent: JsonView) -> Seq<(Seq<char>, JsonView)> {
    seq![
        ("intent"@, intent),
        ("action"@, schema::choice_view(action_names(), "Memex operation."@)),
        (
            "query"@,
            schema::typed_view(
                "string"@,
                "Search query (search) or card slug (read/backlinks/archive)."@,
            ),
        ),
        (
            "slug"@,
            schema::typed_view(
                "string"@,
                "Card slug; alternative to `query` for read/write/backlinks/archive."@,
            ),
        ),
        (
            "content"@,
            schema::typed_view("string"@, "Card markdown body for the `write` action."@),
        ),
        ("limit"@, schema::typed_view("integer"@, "Max search results (default 10)."@)),
        ("semantic"@, schema::typed_view("boolean"@, "Use embedding-based semantic search."@)),
        (
            "verbose"@,
            schema::typed_view(
                "boolean"@,
                "Return full output instead of the lean default (search/links)."@,
            ),
        ),
        ("category"@, schema::typed_view("string"@, "Filter search by frontmatter category."@)),
        ("tag"@, schema::typed_view("string"@, "Filter search by frontmatter tag."@)),
        (
            "since"@,
            schema::typed_view(
                "string"@,
                "Only cards modified since YYYY-MM-DD (search/organize)."@,
            ),
        ),
        (
            "filter"@,
            schema::choice_view(seq!["orphan"@, "hub"@], "Filter cards for `links`."@),
        ),
        (
            "json"@,
            schema::typed_view("boolean"@, "Request machine-readable JSON (organize/links)."@),
        ),
    ]
}

/// The step of an action on one card.
fn on_card(card: Option<String>, action: &str, missing: &str) -> (r: CliStep)
    ensures
        r@ == match card {
            Some(slug) => plain_run(seq![action@, slug@]),
            None => CliStepView::Reply(tool::plain_output(missing@)),
        },
{
    match card {
        Some(slug) => {
            let ghost name = slug@;
            let mut args = tool::single(action);
            text::push_text(&mut args, slug);
            assert(text::texts(args@) =~= seq![action@, name]);
            tool::run(args)
        },
        None => tool::reply(missing),
    }
}

impl MemexTool {
    /// The tool.
    pub fn new() -> (r: MemexTool)
        ensures
            r == MemexTool,
    {
        MemexTool
    }

    /// The name of the tool.
    pub fn name(&self) -> (r: &'static str)
        ensures
            r@ == "memex"@,
    {
        "memex"
    }

    /// What the tool says of itself.
    pub fn description(&self) -> (r: &'static str)
        ensures
            r@ == DESCRIPTION@,
    {
        DESCRIPTION
    }

    /// The schema of the parameters. `intent` is the schema of the parameter that
    /// every tool has.
    pub fn parameters_schema(&self, intent: Json) -> (r: Json)
        ensures
            r@ == schema::object_schema_requiring(parameters(intent@), seq!["action"@]),
    {
        let actions = [
            "search",
            "read",
            "write",
            "links",
            "backlinks",
            "archive",
            "organize",
            "doctor",
            "sync",
        ];
        let filters = ["orphan", "hub"];
        let required = ["action"];
        assert(schema::strs_view(actions@) =~= action_names());
        assert(schema::strs_view(filters@) =~= seq!["orphan"@, "hub"@]);
        assert(schema::strs_view(required@) =~= seq!["action"@]);
        let mut p: Vec<(String, Json)> = Vec::new();
        json::push_field(&mut p, "intent", intent);
        json::push_field(&mut p, "action", schema::choice(&actions, "Memex operation."));
        json::push_field(
            &mut p,
            "query",
            schema::typed("string", "Search query (search) or card slug (read/backlinks/archive)."),
        );
        json::push_field(
            &mut p,
            "slug",
            schema::typed(
                "string",
                "Card slug; alternative to `query` for read/write/backlinks/archive.",
            ),
        );
        json::push_field(
            &mut p,
            "content",
            schema::typed("string", "Card markdown body for the `write` action."),
        );
        json::push_field(
            &mut p,
            "limit",
            schema::typed("integer", "Max search results (default 10)."),
        );
        json::push_field(
            &mut p,
            "semantic",
            schema::typed("boolean", "Use embedding-based semantic search."),
        );
        json::push_field(
            &mut p,
            "verbose",
            schema::typed(
                "boolean",
                "Return full output instead of the lean default (search/links).",
            ),
        );
        json::push_field(
            &mut p,
            "category",
            schema::typed("string", "Filter search by frontmatter category."),
        );
        json::push_field(
            &mut p,
            "tag",
            schema::typed("string", "Filter search by frontmatter tag."),
        );
        json::push_field(
            &mut p,
            "since",
            schema::typed("string", "Only cards modified since YYYY-MM-DD (search/organize)."),
        );
        json::push_field(
            &mut p,
            "filter",
            schema::choice(&filters, "Filter cards for `links`."),
        );
        json::push_field(
            &mut p,
            "json",
            schema::typed("boolean", "Request machine-readable JSON (organize/links)."),
        );
        assert(json::fields_view(p@) =~= parameters(intent@));
        schema::object_requiring(p, &required)
    }

    /// What is done with a call. `installed` tells whether the program was found.
    pub fn plan(&self, input: &MemexInput, installed: bool) -> (r: CliStep)
        ensures
            r@ == if installed {
                step_of(*input)
            } else {
                CliStepView::Reply(tool::plain_output(NOT_INSTALLED@))
            },
    {
        if !installed {
            return tool::reply(NOT_INSTALLED);
        }
        let card = match &input.slug {
            Some(slug) => Some(slug.clone()),
            None => match &input.query {
                Some(query) => Some(query.clone()),
                None => None,
            },
        };
        let verbose = tool::on(input.verbose);
        let action = input.action.as_str();
        if text::same(action, "search") {
            let limit = match input.limit {
                Some(n) => Some(text::decimal_text(n as u64)),
                None => None,
            };
            let mut args = tool::single("search");
            tool::push_argument(&mut args, &input.query);
            tool::push_flag(&mut args, "--compact", !verbose);
            tool::push_flag(&mut args, "--semantic", tool::on(input.semantic));
            tool::push_option(&mut args, "--limit", &limit);
            tool::push_option(&mut args, "--category", &input.category);
            tool::push_option(&mut args, "--tag", &input.tag);
            tool::push_option(&mut args, "--since", &input.since);
            tool::run(args)
        } else if text::same(action, "read") {
            on_card(card, "read", "memex read requires `slug` (or `query`).")
        } else if text::same(action, "write") {
            let slug = match card {
                Some(slug) => slug,
                None => return tool::reply("memex write requires `slug`."),
            };
            let content = match &input.content {
                Some(content) => content.clone(),
                None => return tool::reply(
                    "memex write requires `content` (the card markdown body).",
                ),
            };
            let ghost name = slug@;
            let mut args = tool::single("write");
            text::push_text(&mut args, slug);
            assert(text::texts(args@) =~= seq!["write"@, name]);
            CliStep::Run(CliCommand { args, stdin: Some(content) })
        } else if text::same(action, "links") {
            let mut args = tool::single("links");
            match &input.filter {
                Some(_) => tool::push_option(&mut args, "--filter", &input.filter),
                None => tool::push_flag(&mut args, "--stats", !verbose),
            }
            tool::push_flag(&mut args, "--json", tool::on(input.json));
            tool::run(args)
        } else if text::same(action, "backlinks") {
            on_card(card, "backlinks", "memex backlinks requires `slug` (or `query`).")
        } else if text::same(action, "archive") {
            on_card(card, "archive", "memex archive requires `slug` (or `query`).")
        } else if text::same(action, "organize") {
            let mut args = tool::single("organize");
            tool::push_option(&mut args, "--since", &input.since);
            tool::push_flag(&mut args, "--json", tool::on(input.json));
            tool::run(args)
        } else if text::same(action, "doctor") {
            tool::run(tool::single("doctor"))
        } else if text::same(action, "sync") {
            tool::run(tool::single("sync"))
        } else {
            let mut message = "Unknown memex action '".to_owned();
            message.append(action);
            message.append(
                "'. Valid: search, read, write, links, backlinks, archive, organize, doctor, sync.",
            );
            tool::reply(message.as_str())
        }
    }

    /// Shows the result of the program.
    pub fn conclude(&self, input: &MemexInput, result: CliResult) -> (r: ToolOutput)
        ensures
            r@ == external_cli::cli_output(
                "memex"@,
                input.action@,
                result.status,
                result.stdout@,
                result.stderr@,
            ),
    {
        external_cli::format_cli_result("memex", input.action.as_str(), result)
    }
}

/// A search is compact unless more is asked for, and links are given as figures
/// unless more, or a selection, is asked for.
pub proof fn law_output_is_lean_by_default(input: MemexInput)
    requires
        !tool::is_on(input.verbose),
    ensures
        search_args(input).contains("--compact"@),
        input.filter is None ==> links_args(input).contains("--stats"@),
{
    let query = tool::argument(text::opt_text(input.query));
    let search = search_args(input);
    assert(search[1 + query.len() as int] == "--compact"@);
    if input.filter is None {
        assert(links_args(input)[1] == "--stats"@);
    }
}

/// The program gets something on its standard input in one case only: when a card
/// with a name and a content is written.
pub proof fn law_only_write_sends_content(input: MemexInput)
    ensures
        step_of(input) matches CliStepView::Run { args, stdin: Some(content) } ==> {
            &&& input.action@ == "write"@
            &&& input.content matches Some(c) && c@ == content
            &&& card_of(input) matches Some(card) && args == seq!["write"@, card]
        },
{
}

/// The program runs for the nine actions and for no other, and the action is the first
/// of its arguments.
pub proof fn law_the_action_is_the_subcommand(input: MemexInput)
    ensures
        step_of(input) matches CliStepView::Run { args, .. } ==> args.len() > 0 && args[0]
            == input.action@ && (input.action@ == "search"@ || input.action@ == "read"@
            || input.action@ == "write"@ || input.action@ == "links"@ || input.action@
            == "backlinks"@ || input.action@ == "archive"@ || input.action@ == "organize"@
            || input.action@ == "doctor"@ || input.action@ == "sync"@),
        input.action@ == "search"@ || input.action@ == "links"@ || input.action@ == "organize"@
            || input.action@ == "doctor"@ || input.action@ == "sync"@ ==> step_of(input) is Run,
{
    reveal_strlit("search");
    reveal_strlit("read");
    reveal_strlit("write");
    reveal_strlit("links");
    reveal_strlit("backlinks");
    reveal_strlit("archive");
    reveal_strlit("organize");
    reveal_strlit("doctor");
    reveal_strlit("sync");
    assert("search"@.len() == 6 && "read"@.len() == 4 && "write"@.len() == 5);
    assert("links"@.len() == 5 && "backlinks"@.len() == 9 && "archive"@.len() == 7);
    assert("organize"@.len() == 8 && "doctor"@.len() == 6 && "sync"@.len() == 4);
    assert("links"@[0] != "write"@[0] && "doctor"@[0] != "search"@[0] && "sync"@[0]
        != "read"@[0]);
    assert(search_args(input)[0] == "search"@);
    assert(links_args(input)[0] == "links"@);
    assert(organize_args(input)[0] == "organize"@);
}

/// Reading a card, its backlinks and archiving it go by the slug, or by the query
/// where no slug is given; without either, and for writing without content, nothing
/// runs.
pub proof fn law_cards_go_by_their_slug(input: MemexInput)
    requires
        input.action@ == "read"@ || input.action@ == "backlinks"@ || input.action@ == "archive"@
            || input.action@ == "write"@,
    ensures
        input.slug is None && input.query is None ==> step_of(input) is Reply,
        input.action@ == "write"@ && input.content is None ==> step_of(input) is Reply,
        input.slug is Some && (input.action@ != "write"@ || input.content is Some) ==> (step_of(
            input,
        ) matches CliStepView::Run { args, .. } && args == seq![input.action@, input.slug->0@]),
        input.slug is None && input.query is Some && (input.action@ != "write"@
            || input.content is Some) ==> (step_of(input) matches CliStepView::Run { args, .. }
            && args == seq![input.action@, input.query->0@]),
        input.action@ == "write"@ && input.content is Some && (input.slug is Some
            || input.query is Some) ==> (step_of(input) matches CliStepView::Run { stdin, .. }
            && stdin == Some(input.content->0@)),
{
    reveal_strlit("search");
    reveal_strlit("read");
    reveal_strlit("write");
    reveal_strlit("links");
    reveal_strlit("backlinks");
    reveal_strlit("archive");
    assert("search"@.len() == 6 && "read"@.len() == 4 && "write"@.len() == 5);
    assert("links"@.len() == 5 && "backlinks"@.len() == 9 && "archive"@.len() == 7);
    assert("links"@[0] != "write"@[0]);
}

/// A search hands on everything that narrows it: the query, the limit, the category,
/// the tag and the date, each behind its option, and whether it is semantic; and it
/// hands on nothing else.
pub proof fn law_a_search_hands_everything_on(input: MemexInput)
    ensures
        ({
            let args = search_args(input);
            &&& args[0] == "search"@
            &&& input.query is Some ==> args[1] == input.query->0@
            &&& input.verbose == Some(true) || args.contains("--compact"@)
            &&& input.semantic == Some(true) ==> args.contains("--semantic"@)
            &&& input.limit is Some ==> exists|i: int|
                0 <= i < args.len() - 1 && #[trigger] args[i] == "--limit"@ && args[i + 1]
                    == text::decimal(input.limit->0 as nat)
            &&& input.category is Some ==> exists|i: int|
                0 <= i < args.len() - 1 && #[trigger] args[i] == "--category"@ && args[i + 1]
                    == input.category->0@
            &&& input.tag is Some ==> exists|i: int|
                0 <= i < args.len() - 1 && #[trigger] args[i] == "--tag"@ && args[i + 1]
                    == input.tag->0@
            &&& input.since is Some ==> exists|i: int|
                0 <= i < args.len() - 1 && #[trigger] args[i] == "--since"@ && args[i + 1]
                    == input.since->0@
        }),
        search_args(input).len() == 1 + (if input.query is Some {
            1int
        } else {
            0
        }) + (if input.verbose == Some(true) {
            0int
        } else {
            1
        }) + (if input.semantic == Some(true) {
            1int
        } else {
            0
        }) + (if input.limit is Some {
            2int
        } else {
            0
        }) + (if input.category is Some {
            2int
        } else {
            0
        }) + (if input.tag is Some {
            2int
        } else {
            0
        }) + (if input.since is Some {
            2int
        } else {
            0
        }),
{
    let args = search_args(input);
    let a1 = seq!["search"@] + tool::argument(text::opt_text(input.query));
    let a2 = a1 + tool::flag_if("--compact"@, !tool::is_on(input.verbose));
    let a3 = a2 + tool::flag_if("--semantic"@, tool::is_on(input.semantic));
    let a4 = a3 + tool::option_with("--limit"@, limit_text(input.limit));
    let a5 = a4 + tool::option_with("--category"@, text::opt_text(input.category));
    let a6 = a5 + tool::option_with("--tag"@, text::opt_text(input.tag));
    assert(args == a6 + tool::option_with("--since"@, text::opt_text(input.since)));
    if input.verbose != Some(true) {
        assert(args[a1.len() as int] == "--compact"@);
    }
    if input.semantic == Some(true) {
        assert(args[a2.len() as int] == "--semantic"@);
    }
    if input.limit is Some {
        let i = a3.len() as int;
        assert(args[i] == "--limit"@ && args[i + 1] == text::decimal(input.limit->0 as nat));
    }
    if input.category is Some {
        let i = a4.len() as int;
        assert(args[i] == "--category"@ && args[i + 1] == input.category->0@);
    }
    if input.tag is Some {
        let i = a5.len() as int;
        assert(args[i] == "--tag"@ && args[i + 1] == input.tag->0@);
    }
    if input.since is Some {
        let i = a6.len() as int;
        assert(args[i] == "--since"@ && args[i + 1] == input.since->0@);
    }
}

/// A filter for links takes the place of the statistics, which are left out where
/// verbose output is asked for; the network analysis takes a date. Both give JSON
/// where that is asked for, and only there.
pub proof fn law_links_and_organize_hand_everything_on(input: MemexInput)
    ensures
        ({
            let json = if input.json == Some(true) {
                seq!["--json"@]
            } else {
                Seq::empty()
            };
            &&& input.filter is Some ==> links_args(input) == seq![
                "links"@,
                "--filter"@,
                input.filter->0@,
            ] + json
            &&& input.filter is None && input.verbose == Some(true) ==> links_args(input) == seq![
                "links"@,
            ] + json
            &&& input.filter is None && input.verbose != Some(true) ==> links_args(input) == seq![
                "links"@,
                "--stats"@,
            ] + json
            &&& input.since is Some ==> organize_args(input) == seq![
                "organize"@,
                "--since"@,
                input.since->0@,
            ] + json
            &&& input.since is None ==> organize_args(input) == seq!["organize"@] + json
        }),
{
    let json = if input.json == Some(true) {
        seq!["--json"@]
    } else {
        Seq::empty()
    };
    if input.filter is Some {
        assert(links_args(input) =~= seq!["links"@, "--filter"@, input.filter->0@] + json);
    } else if input.verbose == Some(true) {
        assert(links_args(input) =~= seq!["links"@] + json);
    } else {
        assert(links_args(input) =~= seq!["links"@, "--stats"@] + json);
    }
    if input.since is Some {
        assert(organize_args(input) =~= seq!["organize"@, "--since"@, input.since->0@] + json);
    } else {
        assert(organize_args(input) =~= seq!["organize"@] + json);
    }
}

/// The tool offers its nine actions and every parameter that it acts on, each of the
/// type that it takes.
pub proof fn law_every_parameter_is_offered(intent: JsonView)
    ensures
        action_names() == seq![
            "search"@,
            "read"@,
            "write"@,
            "links"@,
            "backlinks"@,
            "archive"@,
            "organize"@,
            "doctor"@,
            "sync"@,
        ],
        ({
            let offered = parameters(intent);
            let kind = |i: int| json::get_field(offered[i].1, "type"@);
            &&& offered.len() == 13
            &&& offered[0] == ("intent"@, intent)
            &&& offered[1].0 == "action"@ && kind(1) == Some(JsonView::Text("string"@))
            &&& offered[2].0 == "query"@ && kind(2) == Some(JsonView::Text("string"@))
            &&& offered[3].0 == "slug"@ && kind(3) == Some(JsonView::Text("string"@))
            &&& offered[4].0 == "content"@ && kind(4) == Some(JsonView::Text("string"@))
            &&& offered[5].0 == "limit"@ && kind(5) == Some(JsonView::Text("integer"@))
            &&& offered[6].0 == "semantic"@ && kind(6) == Some(JsonView::Text("boolean"@))
            &&& offered[7].0 == "verbose"@ && kind(7) == Some(JsonView::Text("boolean"@))
            &&& offered[8].0 == "category"@ && kind(8) == Some(JsonView::Text("string"@))
            &&& offered[9].0 == "tag"@ && kind(9) == Some(JsonView::Text("string"@))
            &&& offered[10].0 == "since"@ && kind(10) == Some(JsonView::Text("string"@))
            &&& offered[11].0 == "filter"@ && kind(11) == Some(JsonView::Text("string"@))
            &&& offered[12].0 == "json"@ && kind(12) == Some(JsonView::Text("boolean"@))
        }),
{
}

} // verus!
