//! Native hook that rewrites safe `bash` commands into their `rtk` equivalents.
//!
//! Rewriting is conservative: only simple, single commands without shell
//! metacharacters are rewritten, so that what a command does never changes.
//! Anything else is passed through untouched.

use vstd::prelude::*;

use super::{
    CommandDecision, Hook, PostStep, PostToolUseDecision, PostToolUseInput, PreStep,
    PreToolUseDecision, PreToolUseInput,
};
use crate::json;
use crate::text;

verus! {

/// The shell metacharacters with which a command is too complex to be rewritten.
pub open spec fn has_metachar(s: Seq<char>) -> bool {
    ||| text::contains(s, "|"@)
    ||| text::contains(s, "&"@)
    ||| text::contains(s, ";"@)
    ||| text::contains(s, ">"@)
    ||| text::contains(s, "<"@)
    ||| text::contains(s, "`"@)
    ||| text::contains(s, "$("@)
    ||| text::contains(s, "&&"@)
    ||| text::contains(s, "||"@)
    ||| text::contains(s, "\n"@)
    ||| text::contains(s, "("@)
    ||| text::contains(s, ")"@)
    ||| text::contains(s, "{"@)
    ||| text::contains(s, "}"@)
}

/// The characters with which a shell takes others literally.
pub open spec fn quote_char(c: char) -> bool {
    c == '"' || c == '\'' || c == '\\'
}

/// The command is quoted in a way that taking it apart into words loses: it would
/// read differently with one space between its words, or it quotes what follows its
/// end.
pub open spec fn unclear_quoting(s: Seq<char>) -> bool {
    ||| {
        &&& exists|i: int| 0 <= i < s.len() && quote_char(#[trigger] s[i])
        &&& text::join(text::words(s), " "@) != s
    }
    ||| s.len() > 0 && s.last() == '\\'
}

/// The `rtk` command with subcommand `sub` and arguments `args`.
pub open spec fn rtk_command(sub: Seq<char>, args: Seq<Seq<char>>) -> Seq<char> {
    if args.len() == 0 {
        "rtk "@ + sub
    } else {
        "rtk "@ + sub + " "@ + text::join(args, " "@)
    }
}

/// The argument is a flag: behind the quotes that it may begin with stands a dash.
pub open spec fn is_flag(arg: Seq<char>) -> bool
    decreases arg.len(),
{
    if arg.len() == 0 {
        false
    } else if quote_char(arg[0]) {
        is_flag(arg.drop_first())
    } else {
        arg[0] == '-'
    }
}

/// Some argument is a flag.
pub open spec fn has_flag(args: Seq<Seq<char>>) -> bool {
    exists|i: int| 0 <= i < args.len() && is_flag(#[trigger] args[i])
}

/// The `rtk` equivalent of `cat`: only for plain paths, and at least one.
pub open spec fn rtk_read(args: Seq<Seq<char>>) -> Option<Seq<char>> {
    if args.len() == 0 || has_flag(args) {
        None
    } else {
        Some("rtk read "@ + text::join(args, " "@))
    }
}

/// The git subcommands that only read.
pub open spec fn reads_only(sub: Seq<char>) -> bool {
    sub == "status"@ || sub == "log"@ || sub == "diff"@ || sub == "show"@ || sub == "blame"@
}

/// The `rtk` equivalent of a git command: only for subcommands that only read.
pub open spec fn rtk_git(args: Seq<Seq<char>>) -> Option<Seq<char>> {
    if args.len() > 0 && reads_only(args[0]) {
        Some("rtk git "@ + text::join(args, " "@))
    } else {
        None
    }
}

/// The `rtk` equivalent of the program `program` with the arguments `args`.
pub open spec fn rtk_equivalent(program: Seq<char>, args: Seq<Seq<char>>) -> Option<Seq<char>> {
    if program == "ls"@ {
        Some(rtk_command("ls"@, args))
    } else if program == "cat"@ {
        rtk_read(args)
    } else if program == "grep"@ {
        Some(rtk_command("grep"@, args))
    } else if program == "find"@ {
        Some(rtk_command("find"@, args))
    } else if program == "git"@ {
        rtk_git(args)
    } else {
        None
    }
}

/// The `rtk` equivalent of a shell command, where there is a safe one.
pub open spec fn rewritten(command: Seq<char>) -> Option<Seq<char>> {
    let trimmed = text::trim(command);
    let tokens = text::words(trimmed);
    if trimmed.len() == 0 || has_metachar(trimmed) || unclear_quoting(trimmed)
        || text::starts_with(trimmed, "rtk "@) || trimmed == "rtk"@ || tokens.len() == 0 {
        None
    } else {
        rtk_equivalent(tokens[0], tokens.skip(1))
    }
}

/// Whether a command is too complex to be rewritten.
fn is_complex(s: &str) -> (r: bool)
    ensures
        r == has_metachar(s@),
{
    text::is_in("|", s) || text::is_in("&", s) || text::is_in(";", s) || text::is_in(">", s)
        || text::is_in("<", s) || text::is_in("`", s) || text::is_in("$(", s) || text::is_in(
        "&&",
        s,
    ) || text::is_in("||", s) || text::is_in("\n", s) || text::is_in("(", s) || text::is_in(")", s)
        || text::is_in("{", s) || text::is_in("}", s)
}

/// Whether a text has a character that quotes others.
fn has_quotes(s: &str) -> (r: bool)
    ensures
        r == exists|i: int| 0 <= i < s@.len() && quote_char(#[trigger] s@[i]),
{
    let v = text::chars_of(s);
    let mut i: usize = 0;
    while i < v.len()
        invariant
            i <= v.len(),
            v@ == s@,
            forall|j: int| 0 <= j < i ==> !quote_char(#[trigger] s@[j]),
        decreases v.len() - i,
    {
        if v[i] == '"' || v[i] == '\'' || v[i] == '\\' {
            assert(quote_char(s@[i as int]));
            return true;
        }
        i += 1;
    }
    false
}

/// Whether an argument is a flag.
fn looks_like_flag(arg: &str) -> (r: bool)
    ensures
        r == is_flag(arg@),
{
    let v = text::chars_of(arg);
    let mut i: usize = 0;
    assert(v@.skip(0) =~= v@);
    while i < v.len()
        invariant
            i <= v.len(),
            v@ == arg@,
            is_flag(arg@) == is_flag(v@.skip(i as int)),
        decreases v.len() - i,
    {
        if v[i] != '"' && v[i] != '\'' && v[i] != '\\' {
            return v[i] == '-';
        }
        assert(v@.skip(i as int).drop_first() =~= v@.skip(i + 1));
        i += 1;
    }
    false
}

/// Rewrites a single, simple `bash` command into its `rtk` equivalent. None where
/// there is no safe rewrite.
pub fn rewrite_bash_command(command: &str) -> (r: Option<String>)
    ensures
        text::opt_text(r) == rewritten(command@),
{
    let trimmed = text::trimmed(command);
    if trimmed.as_str().is_empty() {
        return None;
    }
    if is_complex(trimmed.as_str()) {
        return None;
    }
    let mut tokens = text::word_list(trimmed.as_str());
    let plain = text::joined(tokens.as_slice(), " ");
    if has_quotes(trimmed.as_str()) && !text::same(plain.as_str(), trimmed.as_str()) {
        return None;
    }
    if text::ends_with_char(trimmed.as_str(), '\\') {
        return None;
    }
    if text::has_prefix(trimmed.as_str(), "rtk ") || text::same(trimmed.as_str(), "rtk") {
        return None;
    }
    if tokens.len() == 0 {
        return None;
    }
    let ghost all = text::texts(tokens@);
    let program = tokens.remove(0);
    let args = tokens;
    assert(text::texts(args@) =~= all.skip(1));
    if text::same(program.as_str(), "ls") {
        Some(prepend_rtk("ls", &args))
    } else if text::same(program.as_str(), "cat") {
        rewrite_simple_read(&args)
    } else if text::same(program.as_str(), "grep") {
        Some(prepend_rtk("grep", &args))
    } else if text::same(program.as_str(), "find") {
        Some(prepend_rtk("find", &args))
    } else if text::same(program.as_str(), "git") {
        rewrite_git(&args)
    } else {
        None
    }
}

/// The `rtk` command with subcommand `sub` and arguments `args`.
fn prepend_rtk(sub: &str, args: &Vec<String>) -> (r: String)
    ensures
        r@ == rtk_command(sub@, text::texts(args@)),
{
    let mut out = "rtk ".to_owned();
    out.append(sub);
    if args.len() > 0 {
        let rest = text::joined(args.as_slice(), " ");
        out.append(" ");
        out.append(rest.as_str());
    }
    out
}

/// `cat <file>...` becomes `rtk read <file>...`, for plain paths only.
fn rewrite_simple_read(args: &Vec<String>) -> (r: Option<String>)
    ensures
        text::opt_text(r) == rtk_read(text::texts(args@)),
{
    if args.len() == 0 {
        return None;
    }
    let ghost all = text::texts(args@);
    let mut i: usize = 0;
    while i < args.len()
        invariant
            i <= args.len(),
            all == text::texts(args@),
            forall|j: int| 0 <= j < i ==> !is_flag(#[trigger] all[j]),
        decreases args.len() - i,
    {
        if looks_like_flag(args[i].as_str()) {
            assert(is_flag(all[i as int]));
            return None;
        }
        i += 1;
    }
    let mut out = "rtk read ".to_owned();
    let paths = text::joined(args.as_slice(), " ");
    out.append(paths.as_str());
    Some(out)
}

/// Git subcommands that only read are rewritten; the others stay as they are.
fn rewrite_git(args: &Vec<String>) -> (r: Option<String>)
    ensures
        text::opt_text(r) == rtk_git(text::texts(args@)),
{
    if args.len() == 0 {
        return None;
    }
    let sub = args[0].as_str();
    if text::same(sub, "status") || text::same(sub, "log") || text::same(sub, "diff")
        || text::same(sub, "show") || text::same(sub, "blame") {
        let mut out = "rtk git ".to_owned();
        let rest = text::joined(args.as_slice(), " ");
        out.append(rest.as_str());
        Some(out)
    } else {
        None
    }
}

/// Hook that rewrites `bash` commands into `rtk` commands.
#[derive(Debug)]
pub struct RtkRewriteHook {
    /// Whether the rtk binary is available.
    rtk_available: bool,
}

/// The command that the hook puts in the place of the one in `input`, if any.
pub open spec fn replacement(available: bool, input: json::JsonView) -> Option<Seq<char>> {
    match json::text_field(input, "command"@) {
        Some(command) => if available && rewritten(command) != Some(command) {
            rewritten(command)
        } else {
            None
        },
        None => None,
    }
}

impl RtkRewriteHook {
    /// Whether the rtk binary is available.
    pub closed spec fn available(&self) -> bool {
        self.rtk_available
    }

    /// The hook, where the rtk integration is set up; none otherwise.
    pub fn new_if_enabled(integration_enabled: bool, rtk_available: bool) -> (r: Option<
        RtkRewriteHook,
    >)
        ensures
            match r {
                Some(hook) => integration_enabled && hook.available() == rtk_available,
                None => !integration_enabled,
            },
    {
        if !integration_enabled {
            return None;
        }
        Some(RtkRewriteHook { rtk_available })
    }
}

impl Hook for RtkRewriteHook {
    fn name(&self) -> (r: &str)
        ensures
            r@ == "native:rtk-rewrite"@,
    {
        "native:rtk-rewrite"
    }

    fn matches(&self, tool_name: &str) -> (r: bool)
        ensures
            r == (tool_name@ == "bash"@),
    {
        text::same(tool_name, "bash")
    }

    /// Rewrites the command of the call where there is an `rtk` equivalent.
    fn pre(&self, input: &PreToolUseInput<'_>) -> (r: PreStep)
        ensures
            match replacement(self.available(), input.input@) {
                Some(command) => r matches PreStep::Decided(
                    Ok(PreToolUseDecision::RewriteInput(value)),
                ) && value@ == json::set_field(
                    input.input@,
                    "command"@,
                    json::JsonView::Text(command),
                ),
                None => r == PreStep::Decided(Ok(PreToolUseDecision::Continue)),
            },
    {
        if !self.rtk_available {
            return PreStep::Decided(Ok(PreToolUseDecision::Continue));
        }
        let command = match input.input.get("command") {
            Some(value) => match value.as_str() {
                Some(command) => command,
                None => return PreStep::Decided(Ok(PreToolUseDecision::Continue)),
            },
            None => return PreStep::Decided(Ok(PreToolUseDecision::Continue)),
        };
        match rewrite_bash_command(command) {
            Some(rewritten) => {
                if text::same(rewritten.as_str(), command) {
                    return PreStep::Decided(Ok(PreToolUseDecision::Continue));
                }
                let value = input.input.duplicate().with_field(
                    "command",
                    json::text_value(rewritten.as_str()),
                );
                PreStep::Decided(Ok(PreToolUseDecision::RewriteInput(value)))
            },
            None => PreStep::Decided(Ok(PreToolUseDecision::Continue)),
        }
    }
}

/// What a rewrite gives is never rewritten again.
pub proof fn law_rewrite_happens_once(command: Seq<char>)
    ensures
        match rewritten(command) {
            Some(result) => rewritten(result) is None,
            None => true,
        },
{
    if let Some(result) = rewritten(command) {
        let trimmed = text::trim(result);
        lemma_begins_with_rtk(command);
        reveal_strlit("rtk ");
        assert(text::trim_start(result) == result);
        text::lemma_trim_end_keeps(result, 4);
        text::lemma_trim_end_prefix(result);
        assert(trimmed.subrange(0, 4) =~= "rtk "@);
        assert(text::starts_with(trimmed, "rtk "@));
    }
}

/// A command with a shell metacharacter stays as it is.
pub proof fn law_complex_command_stays(command: Seq<char>)
    requires
        has_metachar(text::trim(command)),
    ensures
        rewritten(command) is None,
{
}

/// A rewrite keeps the arguments of the command: the words of the result are
/// `rtk`, the subcommand (the program's own name, but `read` for `cat`), and the
/// arguments in their order.
pub proof fn law_rewrite_keeps_arguments(command: Seq<char>)
    ensures
        match rewritten(command) {
            Some(result) => {
                let tokens = text::words(text::trim(command));
                let sub = if tokens[0] == "cat"@ {
                    "read"@
                } else {
                    tokens[0]
                };
                text::words(result) == seq!["rtk"@, sub] + tokens.skip(1)
            },
            None => true,
        },
{
    if let Some(result) = rewritten(command) {
        let tokens = text::words(text::trim(command));
        let args = tokens.skip(1);
        let sub = if tokens[0] == "cat"@ {
            "read"@
        } else {
            tokens[0]
        };
        let all = seq!["rtk"@, sub] + args;
        text::lemma_words_clean(text::trim(command));
        lemma_literals();
        assert forall|i: int| 0 <= i < all.len() implies text::is_word(#[trigger] all[i]) by {
            if i >= 2 {
                assert(all[i] == tokens[i - 1]);
            } else if i == 1 {
                assert(all[1] == sub);
            }
        }
        lemma_join_of_rtk(sub, args);
        text::lemma_words_of_join(all);
        assert(result == text::join(all, " "@)) by {
            reveal_strlit("ls");
            reveal_strlit("cat");
            reveal_strlit("grep");
        }
    }
}

/// The letters of the words that rewrites are made of.
proof fn lemma_literals()
    ensures
        text::is_word("rtk"@),
        text::is_word("read"@),
        "rtk "@ == "rtk"@ + " "@,
        "rtk read "@ == "rtk "@ + "read"@ + " "@,
        "rtk git "@ == "rtk "@ + "git"@ + " "@,
{
    reveal_strlit("rtk");
    reveal_strlit("rtk ");
    reveal_strlit("read");
    reveal_strlit("git");
    reveal_strlit("rtk read ");
    reveal_strlit("rtk git ");
    reveal_strlit(" ");
    assert("rtk "@ =~= "rtk"@ + " "@);
    assert("rtk read "@ =~= "rtk "@ + "read"@ + " "@);
    assert("rtk git "@ =~= "rtk "@ + "git"@ + " "@);
}

proof fn lemma_join_of_rtk(sub: Seq<char>, args: Seq<Seq<char>>)
    ensures
        text::join(seq!["rtk"@, sub] + args, " "@) == rtk_command(sub, args),
    decreases args.len(),
{
    lemma_literals();
    let all = seq!["rtk"@, sub] + args;
    if args.len() == 0 {
        assert(all =~= seq!["rtk"@, sub]);
        assert(all.drop_last() =~= seq!["rtk"@]);
        assert(text::join(seq!["rtk"@], " "@) == "rtk"@);
    } else {
        lemma_join_of_rtk(sub, args.drop_last());
        assert(all.drop_last() =~= seq!["rtk"@, sub] + args.drop_last());
        assert(text::join(all, " "@) == rtk_command(sub, args.drop_last()) + " "@ + args.last());
        if args.len() == 1 {
            assert(args.drop_last().len() == 0);
        } else {
            assert(text::join(args, " "@) == text::join(args.drop_last(), " "@) + " "@
                + args.last());
            assert(rtk_command(sub, args.drop_last()) + " "@ + args.last() =~= rtk_command(
                sub,
                args,
            ));
        }
    }
}

/// A rewrite begins with the word `rtk` and one space, and something follows.
proof fn lemma_begins_with_rtk(command: Seq<char>)
    requires
        rewritten(command) is Some,
    ensures
        ({
            let result = rewritten(command)->0;
            &&& result.len() > 4
            &&& result.take(4) == "rtk "@
            &&& !text::white_space(result[0])
            &&& !text::white_space(result[4])
        }),
{
    let result = rewritten(command)->0;
    reveal_strlit("rtk ");
    reveal_strlit("ls");
    reveal_strlit("grep");
    reveal_strlit("find");
    reveal_strlit("rtk read ");
    reveal_strlit("rtk git ");
    assert(result.take(4) =~= "rtk "@);
}

/// A single character occurs in a text as soon as it stands anywhere in it.
proof fn lemma_char_occurs(s: Seq<char>, sub: Seq<char>, i: int)
    requires
        0 <= i < s.len(),
        sub.len() == 1,
        s[i] == sub[0],
    ensures
        text::contains(s, sub),
{
    assert(s.subrange(i, i + 1) =~= sub);
    assert(text::occurs_at(s, sub, i));
}

/// A text does not occur where one of its characters stands nowhere.
proof fn lemma_char_missing(s: Seq<char>, sub: Seq<char>, k: int)
    requires
        0 <= k < sub.len(),
        forall|i: int| 0 <= i < s.len() ==> #[trigger] s[i] != sub[k],
    ensures
        !text::contains(s, sub),
{
    if text::contains(s, sub) {
        let i = choose|i: int| text::occurs_at(s, sub, i);
        assert(s.subrange(i, i + sub.len())[k] == s[i + k]);
    }
}

/// A command that pipes, chains, redirects, substitutes or groups stays as it is: one
/// of these characters anywhere in it, or a line break between its words, is enough.
pub proof fn law_shell_syntax_stays(command: Seq<char>, i: int)
    requires
        0 <= i < text::trim(command).len(),
        ({
            let c = text::trim(command)[i];
            ||| c == '|'
            ||| c == '&'
            ||| c == ';'
            ||| c == '>'
            ||| c == '<'
            ||| c == '`'
            ||| c == '\n'
            ||| c == '('
            ||| c == ')'
            ||| c == '{'
            ||| c == '}'
        }),
    ensures
        rewritten(command) is None,
{
    let s = text::trim(command);
    reveal_strlit("|");
    reveal_strlit("&");
    reveal_strlit(";");
    reveal_strlit(">");
    reveal_strlit("<");
    reveal_strlit("`");
    reveal_strlit("\n");
    reveal_strlit("(");
    reveal_strlit(")");
    reveal_strlit("{");
    reveal_strlit("}");
    if s[i] == '|' {
        lemma_char_occurs(s, "|"@, i);
    } else if s[i] == '&' {
        lemma_char_occurs(s, "&"@, i);
    } else if s[i] == ';' {
        lemma_char_occurs(s, ";"@, i);
    } else if s[i] == '>' {
        lemma_char_occurs(s, ">"@, i);
    } else if s[i] == '<' {
        lemma_char_occurs(s, "<"@, i);
    } else if s[i] == '`' {
        lemma_char_occurs(s, "`"@, i);
    } else if s[i] == '\n' {
        lemma_char_occurs(s, "\n"@, i);
    } else if s[i] == '(' {
        lemma_char_occurs(s, "("@, i);
    } else if s[i] == ')' {
        lemma_char_occurs(s, ")"@, i);
    } else if s[i] == '{' {
        lemma_char_occurs(s, "{"@, i);
    } else {
        lemma_char_occurs(s, "}"@, i);
    }
}

/// A text without a character that means something to a shell has no metacharacter.
proof fn lemma_no_metachar(s: Seq<char>)
    requires
        forall|i: int|
            0 <= i < s.len() ==> {
                let c = #[trigger] s[i];
                &&& c != '|' && c != '&' && c != ';' && c != '>' && c != '<' && c != '`'
                &&& c != '\n' && c != '(' && c != ')' && c != '{' && c != '}'
            },
    ensures
        !has_metachar(s),
{
    reveal_strlit("|");
    reveal_strlit("&");
    reveal_strlit(";");
    reveal_strlit(">");
    reveal_strlit("<");
    reveal_strlit("`");
    reveal_strlit("$(");
    reveal_strlit("&&");
    reveal_strlit("||");
    reveal_strlit("\n");
    reveal_strlit("(");
    reveal_strlit(")");
    reveal_strlit("{");
    reveal_strlit("}");
    lemma_char_missing(s, "|"@, 0);
    lemma_char_missing(s, "&"@, 0);
    lemma_char_missing(s, ";"@, 0);
    lemma_char_missing(s, ">"@, 0);
    lemma_char_missing(s, "<"@, 0);
    lemma_char_missing(s, "`"@, 0);
    lemma_char_missing(s, "$("@, 1);
    lemma_char_missing(s, "&&"@, 0);
    lemma_char_missing(s, "||"@, 0);
    lemma_char_missing(s, "\n"@, 0);
    lemma_char_missing(s, "("@, 0);
    lemma_char_missing(s, ")"@, 0);
    lemma_char_missing(s, "{"@, 0);
    lemma_char_missing(s, "}"@, 0);
}

/// Without quotes as well it is simple.
proof fn lemma_simple(s: Seq<char>)
    requires
        forall|i: int|
            0 <= i < s.len() ==> {
                let c = #[trigger] s[i];
                &&& c != '|' && c != '&' && c != ';' && c != '>' && c != '<' && c != '`'
                &&& c != '\n' && c != '(' && c != ')' && c != '{' && c != '}'
                &&& c != '"' && c != '\'' && c != '\\'
            },
    ensures
        !has_metachar(s),
        !unclear_quoting(s),
{
    lemma_no_metachar(s);
    if s.len() > 0 {
        assert(s[s.len() - 1] != '\\');
    }
}

/// A command with quotes is rewritten only where it has one space between its words,
/// and never where it ends with a backslash. Then it is rewritten as one without
/// quotes is.
pub proof fn law_quotes_keep_their_meaning(command: Seq<char>, i: int)
    requires
        0 <= i < text::trim(command).len(),
        text::trim(command)[i] == '"' || text::trim(command)[i] == '\'' || text::trim(command)[i]
            == '\\',
    ensures
        rewritten(command) is Some ==> text::trim(command) == text::join(
            text::words(text::trim(command)),
            " "@,
        ) && text::trim(command).last() != '\\',
        ({
            let words = text::words(text::trim(command));
            &&& text::trim(command) == text::join(words, " "@)
            &&& text::trim(command).last() != '\\'
            &&& forall|k: int|
                0 <= k < text::trim(command).len() ==> {
                    let c = #[trigger] text::trim(command)[k];
                    &&& c != '|' && c != '&' && c != ';' && c != '>' && c != '<' && c != '`'
                    &&& c != '\n' && c != '(' && c != ')' && c != '{' && c != '}'
                }
            &&& words.len() > 0
            &&& words[0] == "ls"@ || words[0] == "grep"@ || words[0] == "find"@
        } ==> rewritten(command) == Some(
            text::join(
                seq!["rtk"@, text::words(text::trim(command))[0]] + text::words(
                    text::trim(command),
                ).skip(1),
                " "@,
            ),
        )),
{
    let s = text::trim(command);
    let words = text::words(s);
    assert(quote_char(s[i]));
    if {
        &&& s == text::join(words, " "@)
        &&& s.last() != '\\'
        &&& forall|k: int|
            0 <= k < s.len() ==> {
                let c = #[trigger] s[k];
                &&& c != '|' && c != '&' && c != ';' && c != '>' && c != '<' && c != '`'
                &&& c != '\n' && c != '(' && c != ')' && c != '{' && c != '}'
            }
        &&& words.len() > 0
        &&& words[0] == "ls"@ || words[0] == "grep"@ || words[0] == "find"@
    } {
        lemma_no_metachar(s);
        lemma_first_word(s);
        lemma_literals();
        lemma_join_of_rtk(words[0], words.skip(1));
        reveal_strlit("rtk");
        reveal_strlit("rtk ");
        reveal_strlit("ls");
        reveal_strlit("cat");
        reveal_strlit("grep");
        reveal_strlit("find");
        assert(words[0][0] != 'r' && words[0][0] != 'c');
        if text::starts_with(s, "rtk "@) {
            assert(s.subrange(0, 4)[0] == s[0]);
        }
        if words[0] == "find"@ {
            assert("find"@[0] != "grep"@[0]);
        }
    }
}

/// Of git only `status`, `log`, `diff`, `show` and `blame` are ever rewritten; what
/// can change a repository stays as it is.
pub proof fn law_git_that_writes_stays(command: Seq<char>)
    requires
        text::words(text::trim(command)).len() > 0,
        text::words(text::trim(command))[0] == "git"@,
        rewritten(command) is Some,
    ensures
        ({
            let words = text::words(text::trim(command));
            &&& words.len() >= 2
            &&& {
                ||| words[1] == "status"@
                ||| words[1] == "log"@
                ||| words[1] == "diff"@
                ||| words[1] == "show"@
                ||| words[1] == "blame"@
            }
        }),
{
    reveal_strlit("git");
    reveal_strlit("ls");
    reveal_strlit("cat");
    reveal_strlit("grep");
    reveal_strlit("find");
    let words = text::words(text::trim(command));
    assert("git"@ != "cat"@) by {
        assert("git"@[0] != "cat"@[0]);
    }
    assert(words.skip(1).len() > 0);
    assert(words.skip(1)[0] == words[1]);
}

/// Only `ls`, `cat`, `grep`, `find` and `git` are ever rewritten, and `cat` only where
/// it has arguments and none of them is a flag, be it in quotes or not.
pub proof fn law_other_programs_stay(command: Seq<char>)
    requires
        rewritten(command) is Some,
    ensures
        ({
            let words = text::words(text::trim(command));
            &&& words.len() > 0
            &&& {
                ||| words[0] == "ls"@
                ||| words[0] == "cat"@
                ||| words[0] == "grep"@
                ||| words[0] == "find"@
                ||| words[0] == "git"@
            }
            &&& words[0] == "cat"@ ==> words.len() >= 2 && forall|i: int, k: int|
                {
                    &&& 1 <= i < words.len()
                    &&& 0 <= k < words[i].len()
                    &&& forall|j: int|
                        0 <= j < k ==> {
                            ||| (#[trigger] words[i][j]) == '"'
                            ||| words[i][j] == '\''
                            ||| words[i][j] == '\\'
                        }
                } ==> #[trigger] words[i][k] != '-'
        }),
{
    let words = text::words(text::trim(command));
    let args = words.skip(1);
    if words[0] == "cat"@ {
        reveal_strlit("ls");
        reveal_strlit("cat");
        assert forall|i: int, k: int|
            {
                &&& 1 <= i < words.len()
                &&& 0 <= k < words[i].len()
                &&& forall|j: int|
                    0 <= j < k ==> {
                        ||| (#[trigger] words[i][j]) == '"'
                        ||| words[i][j] == '\''
                        ||| words[i][j] == '\\'
                    }
            } implies #[trigger] words[i][k] != '-' by {
            assert(args[i - 1] == words[i]);
            if words[i][k] == '-' {
                lemma_flag(words[i], k);
                assert(is_flag(args[i - 1]));
                assert(has_flag(args));
            }
        }
    }
}

/// A dash behind nothing but quotes makes a flag.
proof fn lemma_flag(arg: Seq<char>, k: int)
    requires
        0 <= k < arg.len(),
        arg[k] == '-',
        forall|j: int| 0 <= j < k ==> quote_char(#[trigger] arg[j]),
    ensures
        is_flag(arg),
    decreases k,
{
    if k > 0 {
        let rest = arg.drop_first();
        assert(quote_char(arg[0]));
        assert forall|j: int| 0 <= j < k - 1 implies quote_char(#[trigger] rest[j]) by {
            assert(rest[j] == arg[j + 1]);
        }
        lemma_flag(rest, k - 1);
    }
}

/// An argument without quotes that does not begin with a dash is no flag.
proof fn lemma_no_flag(arg: Seq<char>)
    requires
        arg.len() > 0,
        !quote_char(arg[0]),
        arg[0] != '-',
    ensures
        !is_flag(arg),
{
}

/// A simple command, without quotes and without characters that mean something to a
/// shell, is rewritten where there is an equivalent: `ls`, `grep` and `find` with any
/// arguments, `git` with one of the subcommands that only read, and `cat` with one
/// argument or more, none of which begins with a dash. The result is `rtk`, the name
/// of the program, or `read` for `cat`, and the arguments, with one space between.
pub proof fn law_simple_commands_are_rewritten(command: Seq<char>)
    requires
        forall|i: int|
            0 <= i < text::trim(command).len() ==> {
                let c = #[trigger] text::trim(command)[i];
                &&& c != '|' && c != '&' && c != ';' && c != '>' && c != '<' && c != '`'
                &&& c != '\n' && c != '(' && c != ')' && c != '{' && c != '}'
                &&& c != '"' && c != '\'' && c != '\\'
            },
        text::words(text::trim(command)).len() > 0,
    ensures
        ({
            let words = text::words(text::trim(command));
            let (program, args) = (words[0], words.skip(1));
            &&& program == "ls"@ || program == "grep"@ || program == "find"@ ==> rewritten(command)
                == Some(text::join(seq!["rtk"@, program] + args, " "@))
            &&& program == "git"@ && words.len() >= 2 && (words[1] == "status"@ || words[1]
                == "log"@ || words[1] == "diff"@ || words[1] == "show"@ || words[1] == "blame"@)
                ==> rewritten(command) == Some(text::join(seq!["rtk"@, "git"@] + args, " "@))
            &&& program == "cat"@ && words.len() >= 2 && (forall|i: int|
                1 <= i < words.len() ==> (#[trigger] words[i])[0] != '-') ==> rewritten(command)
                == Some(text::join(seq!["rtk"@, "read"@] + args, " "@))
        }),
{
    let s = text::trim(command);
    let words = text::words(s);
    let (program, args) = (words[0], words.skip(1));
    lemma_simple(s);
    lemma_literals();
    lemma_join_of_rtk(program, args);
    lemma_join_of_rtk("read"@, args);
    lemma_first_word(s);
    text::lemma_words_clean(s);
    reveal_strlit("rtk");
    reveal_strlit("rtk ");
    reveal_strlit("ls");
    reveal_strlit("cat");
    reveal_strlit("grep");
    reveal_strlit("find");
    reveal_strlit("git");
    if program == "ls"@ || program == "cat"@ || program == "grep"@ || program == "find"@ || program
        == "git"@ {
        assert(program[0] != 'r');
        assert(!text::starts_with(s, "rtk "@)) by {
            if text::starts_with(s, "rtk "@) {
                assert(s.subrange(0, 4)[0] == s[0]);
            }
        }
        assert(s != "rtk"@);
    }
    if program == "git"@ && words.len() >= 2 {
        assert(args[0] == words[1]);
        assert("git"@[0] != "cat"@[0]);
        assert("rtk git "@ + text::join(args, " "@) =~= rtk_command("git"@, args));
    }
    if program == "grep"@ {
        assert("grep"@[0] != "cat"@[0]);
    }
    if program == "find"@ {
        assert("find"@[0] != "cat"@[0]);
        assert("find"@[0] != "grep"@[0]);
    }
    if program == "cat"@ && words.len() >= 2 && forall|i: int|
        1 <= i < words.len() ==> (#[trigger] words[i])[0] != '-' {
        assert forall|i: int| 0 <= i < args.len() implies !is_flag(#[trigger] args[i]) by {
            assert(args[i] == words[i + 1]);
            lemma_word_char(s, i + 1);
            lemma_no_flag(args[i]);
        }
        assert("rtk read "@ + text::join(args, " "@) =~= rtk_command("read"@, args));
    }
}

/// The first word of a text that does not begin with white space begins where the
/// text does.
proof fn lemma_first_word(s: Seq<char>)
    requires
        text::words(s).len() > 0,
    ensures
        s.len() > 0,
        !text::white_space(s[0]) ==> text::words(s)[0].len() > 0 && text::words(s)[0][0] == s[0],
    decreases s.len(),
{
    let front = s.drop_last();
    if text::words(front).len() > 0 {
        lemma_first_word(front);
        text::lemma_words_clean(front);
        assert(text::is_word(text::words(front)[0]));
        assert(front[0] == s[0]);
    } else if s.len() > 1 && !text::white_space(s[0]) {
        assert(text::words(front).len() > 0) by {
            lemma_has_word(front);
        }
    }
}

proof fn lemma_has_word(s: Seq<char>)
    requires
        s.len() > 0,
        !text::white_space(s[0]),
    ensures
        text::words(s).len() > 0,
    decreases s.len(),
{
    text::lemma_words_clean(s);
    if text::white_space(s.last()) {
        lemma_has_word(s.drop_last());
    }
}

/// The first character of a word of a text stands in the text.
proof fn lemma_word_char(s: Seq<char>, i: int)
    requires
        0 <= i < text::words(s).len(),
    ensures
        text::words(s)[i].len() > 0,
        s.contains(text::words(s)[i][0]),
    decreases s.len(),
{
    text::lemma_words_clean(s);
    assert(text::is_word(text::words(s)[i]));
    let front = s.drop_last();
    let before = text::words(front);
    if i < before.len() {
        lemma_word_char(front, i);
        let k = choose|k: int| 0 <= k < front.len() && front[k] == before[i][0];
        assert(s[k] == front[k]);
        assert(text::words(s)[i][0] == before[i][0]);
    } else {
        assert(s[s.len() - 1] == s.last());
    }
}

/// The hook puts in exactly what the rewrite gives: nothing where `rtk` is not there,
/// nothing where the call has no command, and else the rewritten command where there
/// is one.
pub proof fn law_the_hook_puts_in_the_rewrite(available: bool, input: json::JsonView)
    ensures
        !available ==> replacement(available, input) is None,
        json::text_field(input, "command"@) is None ==> replacement(available, input) is None,
        available && json::text_field(input, "command"@) is Some ==> replacement(available, input)
            == rewritten(json::text_field(input, "command"@)->0),
{
    if let Some(command) = json::text_field(input, "command"@) {
        law_rewrite_happens_once(command);
    }
}

} // verus!
