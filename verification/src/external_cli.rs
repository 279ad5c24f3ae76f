//! Shared parts of the tools that wrap an external command line program: where
//! to look for the program, and how its result is shown.

use vstd::prelude::*;

use crate::text;
use crate::tool;
use crate::tool::{ToolOutput, ToolOutputView};

verus! {

/// The path `rel` below the directory `base`, in the manner of Unix: an absolute
/// `rel` stands for itself, and one slash separates the two otherwise.
pub open spec fn path_below(base: Seq<char>, rel: Seq<char>) -> Seq<char> {
    if rel.len() > 0 && rel[0] == '/' {
        rel
    } else if base.len() == 0 || base.last() == '/' {
        base + rel
    } else {
        base.push('/') + rel
    }
}

/// The path `rel` below the directory `base`.
pub fn join_path(base: &str, rel: &str) -> (r: String)
    ensures
        r@ == path_below(base@, rel@),
{
    if text::starts_with_char(rel, '/') {
        return rel.to_owned();
    }
    let mut out = base.to_owned();
    if !base.is_empty() && !text::ends_with_char(base, '/') {
        out.push('/');
    }
    out.append(rel);
    out
}

/// Every directory of `dirs` with `rel` below it.
pub open spec fn all_below(dirs: Seq<Seq<char>>, rel: Seq<char>) -> Seq<Seq<char>> {
    Seq::new(dirs.len(), |i: int| path_below(dirs[i], rel))
}

/// The install directories that a reduced `PATH` often lacks, in the order in
/// which they are searched. `nvm_versions` are the directories of the node
/// versions that nvm has installed below `home`.
pub open spec fn extra_dirs(home: Option<Seq<char>>, nvm_versions: Seq<Seq<char>>) -> Seq<
    Seq<char>,
> {
    let system = seq!["/opt/homebrew/bin"@, "/usr/local/bin"@, "/usr/bin"@];
    match home {
        Some(h) => seq![
            path_below(h, ".cargo/bin"@),
            path_below(h, ".local/bin"@),
            path_below(h, ".pyenv/shims"@),
        ] + all_below(nvm_versions, "bin"@) + system,
        None => system,
    }
}

/// The paths at which a program named `name` is looked for: `PATH` first, then
/// the extra directories. Directories that are not absolute are those below
/// `current_dir`.
pub open spec fn candidates(
    name: Seq<char>,
    path_dirs: Seq<Seq<char>>,
    home: Option<Seq<char>>,
    nvm_versions: Seq<Seq<char>>,
    current_dir: Seq<char>,
) -> Seq<Seq<char>> {
    let dirs = path_dirs + extra_dirs(home, nvm_versions);
    Seq::new(dirs.len(), |i: int| path_below(current_dir, path_below(dirs[i], name)))
}

/// A path that does not depend on the current directory.
pub open spec fn is_absolute(path: Seq<char>) -> bool {
    path.len() > 0 && path[0] == '/'
}

/// A program is looked for at absolute paths only, whatever `PATH` holds.
pub proof fn law_candidates_are_absolute(
    name: Seq<char>,
    path_dirs: Seq<Seq<char>>,
    home: Option<Seq<char>>,
    nvm_versions: Seq<Seq<char>>,
    current_dir: Seq<char>,
)
    requires
        is_absolute(current_dir),
    ensures
        ({
            let all = candidates(name, path_dirs, home, nvm_versions, current_dir);
            forall|i: int| 0 <= i < all.len() ==> is_absolute(#[trigger] all[i])
        }),
{
}

/// The install directories that a reduced `PATH` often lacks.
pub fn extra_search_dirs(home: Option<&str>, nvm_versions: &Vec<String>) -> (r: Vec<String>)
    ensures
        text::texts(r@) == extra_dirs(text::opt_str(home), text::texts(nvm_versions@)),
{
    let mut dirs: Vec<String> = Vec::new();
    assert(text::texts(dirs@) =~= Seq::<Seq<char>>::empty());
    if let Some(h) = home {
        text::push_text(&mut dirs, join_path(h, ".cargo/bin"));
        text::push_text(&mut dirs, join_path(h, ".local/bin"));
        text::push_text(&mut dirs, join_path(h, ".pyenv/shims"));
        let ghost front = text::texts(dirs@);
        let ghost below = all_below(text::texts(nvm_versions@), "bin"@);
        let mut i: usize = 0;
        assert(below.take(0) =~= Seq::<Seq<char>>::empty());
        while i < nvm_versions.len()
            invariant
                i <= nvm_versions.len(),
                below == all_below(text::texts(nvm_versions@), "bin"@),
                text::texts(dirs@) == front + below.take(i as int),
            decreases nvm_versions.len() - i,
        {
            text::push_text(&mut dirs, join_path(nvm_versions[i].as_str(), "bin"));
            assert(below.take(i + 1) =~= below.take(i as int).push(below[i as int]));
            assert(front + below.take(i as int).push(below[i as int]) =~= (front + below.take(
                i as int,
            )).push(below[i as int]));
            i += 1;
        }
        assert(below.take(i as int) =~= below);
    }
    text::push_text(&mut dirs, "/opt/homebrew/bin".to_owned());
    text::push_text(&mut dirs, "/usr/local/bin".to_owned());
    text::push_text(&mut dirs, "/usr/bin".to_owned());
    assert(text::texts(dirs@) =~= extra_dirs(text::opt_str(home), text::texts(nvm_versions@)));
    dirs
}

/// The paths at which the program `name` is looked for, in order. `current_dir` is
/// the current directory.
pub fn binary_candidates(
    name: &str,
    path_dirs: &Vec<String>,
    home: Option<&str>,
    nvm_versions: &Vec<String>,
    current_dir: &str,
) -> (r: Vec<String>)
    ensures
        text::texts(r@) == candidates(
            name@,
            text::texts(path_dirs@),
            text::opt_str(home),
            text::texts(nvm_versions@),
            current_dir@,
        ),
{
    let extra = extra_search_dirs(home, nvm_versions);
    let mut found = candidates_in(path_dirs, name);
    let mut more = candidates_in(&extra, name);
    let ghost first = text::texts(found@);
    let ghost second = text::texts(more@);
    found.append(&mut more);
    assert(text::texts(found@) =~= first + second);
    let ghost all = candidates(
        name@,
        text::texts(path_dirs@),
        text::opt_str(home),
        text::texts(nvm_versions@),
        current_dir@,
    );
    let mut out: Vec<String> = Vec::new();
    let mut i: usize = 0;
    while i < found.len()
        invariant
            i <= found.len(),
            all.len() == found.len(),
            forall|j: int|
                0 <= j < found.len() ==> #[trigger] all[j] == path_below(
                    current_dir@,
                    text::texts(found@)[j],
                ),
            text::texts(out@) == all.take(i as int),
        decreases found.len() - i,
    {
        text::push_text(&mut out, join_path(current_dir, found[i].as_str()));
        assert(all[i as int] == path_below(current_dir@, text::texts(found@)[i as int]));
        assert(text::texts(out@) =~= all.take(i + 1));
        i += 1;
    }
    assert(all.take(i as int) =~= all);
    out
}

/// The name of the executable file of the program `bin`.
pub fn executable_name(bin: &str, windows: bool) -> (r: String)
    ensures
        r@ == if windows {
            bin@ + ".exe"@
        } else {
            bin@
        },
{
    let mut name = bin.to_owned();
    if windows {
        name.append(".exe");
    }
    name
}

/// The paths of `name` below each of `dirs`.
pub fn candidates_in(dirs: &Vec<String>, name: &str) -> (r: Vec<String>)
    ensures
        text::texts(r@) == all_below(text::texts(dirs@), name@),
{
    let mut out: Vec<String> = Vec::new();
    let mut i: usize = 0;
    while i < dirs.len()
        invariant
            i <= dirs.len(),
            text::texts(out@) == all_below(text::texts(dirs@), name@).take(i as int),
        decreases dirs.len() - i,
    {
        text::push_text(&mut out, join_path(dirs[i].as_str(), name));
        assert(text::texts(out@) =~= all_below(text::texts(dirs@), name@).take(i + 1));
        i += 1;
    }
    assert(text::texts(out@) =~= all_below(text::texts(dirs@), name@));
    out
}

/// The first of `candidates` that was found usable. `usable[i]` tells whether
/// the path at position `i` names an executable file.
pub fn find_binary(candidates: &Vec<String>, usable: &Vec<bool>) -> (r: Option<String>)
    requires
        usable.len() == candidates.len(),
    ensures
        match r {
            Some(path) => exists|i: int|
                0 <= i < usable.len() && usable[i] && path@ == candidates[i]@ && forall|j: int|
                    0 <= j < i ==> !usable[j],
            None => forall|j: int| 0 <= j < usable.len() ==> !usable[j],
        },
{
    let mut i: usize = 0;
    while i < candidates.len()
        invariant
            i <= candidates.len(),
            usable.len() == candidates.len(),
            forall|j: int| 0 <= j < i ==> !usable[j],
        decreases candidates.len() - i,
    {
        if usable[i] {
            return Some(candidates[i].clone());
        }
        i += 1;
    }
    None
}

/// What is known of the permissions of a file.
#[derive(Debug, Clone, Copy, PartialEq, Eq, Structural)]
pub enum FileMode {
    /// The system keeps no permission bits.
    NotKept,
    /// The permission bits could not be read.
    Unreadable,
    /// The Unix permission bits.
    Bits(u32),
}

/// Whether a file may be executed: it is a regular file, and one of its execute
/// bits is set where the system keeps such bits.
pub fn is_executable(is_file: bool, mode: FileMode) -> (r: bool)
    ensures
        r == (is_file && match mode {
            FileMode::NotKept => true,
            FileMode::Unreadable => false,
            FileMode::Bits(bits) => bits & 0o111 != 0,
        }),
{
    if !is_file {
        return false;
    }
    match mode {
        FileMode::NotKept => true,
        FileMode::Unreadable => false,
        FileMode::Bits(bits) => bits & 0o111 != 0,
    }
}

/// The text that `String::from_utf8_lossy` makes of some bytes.
pub uninterp spec fn lossy_text(bytes: Seq<u8>) -> Seq<char>;

/// Calls `String::from_utf8_lossy`. The text is a function of the bytes alone,
/// named [`lossy_text`]; bytes that are valid UTF-8 stand for the text that they
/// encode. How invalid bytes are replaced is not stated.
#[verifier::external_body]
pub(crate) fn decode_lossy(bytes: &[u8]) -> (r: String)
    ensures
        r@ == lossy_text(bytes@),
        vstd::utf8::valid_utf8(bytes@) ==> r@ == vstd::utf8::decode_utf8(bytes@),
{
    String::from_utf8_lossy(bytes).to_string()
}

/// The result of running an external program.
#[derive(Debug)]
pub struct CliResult {
    /// The exit code; none where a signal ended the program.
    pub status: Option<i32>,
    pub stdout: String,
    pub stderr: String,
}

/// What a program wrote, both streams together: each without trailing white
/// space, a newline between them where neither is empty.
pub open spec fn combined_text(stdout: Seq<char>, stderr: Seq<char>) -> Seq<char> {
    let out = text::trim_end(stdout);
    let err = text::trim_end(stderr);
    if out.len() > 0 && err.len() > 0 {
        out.push('\n') + err
    } else {
        out + err
    }
}

impl CliResult {
    /// The result of a program that ended with `status` after it wrote the given
    /// bytes.
    pub fn from_output(status: Option<i32>, stdout: &[u8], stderr: &[u8]) -> (r: CliResult)
        ensures
            r.status == status,
            r.stdout@ == lossy_text(stdout@),
            r.stderr@ == lossy_text(stderr@),
            vstd::utf8::valid_utf8(stdout@) ==> r.stdout@ == vstd::utf8::decode_utf8(stdout@),
            vstd::utf8::valid_utf8(stderr@) ==> r.stderr@ == vstd::utf8::decode_utf8(stderr@),
    {
        CliResult { status, stdout: decode_lossy(stdout), stderr: decode_lossy(stderr) }
    }

    /// Whether the program ended with exit code zero.
    pub fn success(&self) -> (r: bool)
        ensures
            r == (self.status == Some(0i32)),
    {
        match self.status {
            Some(code) => code == 0,
            None => false,
        }
    }

    /// Everything that the program wrote, as one text.
    pub fn combined(&self) -> (r: String)
        ensures
            r@ == combined_text(self.stdout@, self.stderr@),
    {
        let stdout = text::trimmed_end(self.stdout.as_str());
        let stderr = text::trimmed_end(self.stderr.as_str());
        let mut out = stdout;
        if !stderr.as_str().is_empty() {
            if !out.as_str().is_empty() {
                out.push('\n');
            }
            out.append(stderr.as_str());
        }
        assert(out@ =~= combined_text(self.stdout@, self.stderr@));
        out
    }
}

/// How the exit status of a failed program is named.
pub open spec fn status_text(status: Option<i32>) -> Seq<char> {
    match status {
        Some(code) => text::signed_decimal(code as int),
        None => "signal"@,
    }
}

/// How the result of `tool` doing `action` is shown.
pub open spec fn cli_output(
    tool: Seq<char>,
    action: Seq<char>,
    status: Option<i32>,
    stdout: Seq<char>,
    stderr: Seq<char>,
) -> ToolOutputView {
    let body = combined_text(stdout, stderr);
    let label = tool + " "@ + action;
    if status == Some(0i32) {
        tool::titled_output(
            if body.len() == 0 {
                label + ": done (no output)."@
            } else {
                body
            },
            label,
        )
    } else {
        tool::titled_output(
            label + " failed (exit "@ + status_text(status) + "):\n"@ + (if body.len() == 0 {
                "(no output)"@
            } else {
                body
            }),
            label + " failed"@,
        )
    }
}

/// Shows the result of an external program: its output under a title on success,
/// and a message with the exit code otherwise.
pub fn format_cli_result(tool: &str, action: &str, result: CliResult) -> (r: ToolOutput)
    ensures
        r@ == cli_output(tool@, action@, result.status, result.stdout@, result.stderr@),
{
    let body = result.combined();
    let mut label = tool.to_owned();
    label.append(" ");
    label.append(action);
    if result.success() {
        let body = if body.as_str().is_empty() {
            let mut done = label.clone();
            done.append(": done (no output).");
            done
        } else {
            body
        };
        ToolOutput::new(body).with_title(label.as_str())
    } else {
        let code = match result.status {
            Some(c) => text::signed_decimal_text(c as i64),
            None => "signal".to_owned(),
        };
        let mut message = label.clone();
        message.append(" failed (exit ");
        message.append(code.as_str());
        message.append("):\n");
        if body.as_str().is_empty() {
            message.append("(no output)");
        } else {
            message.append(body.as_str());
        }
        label.append(" failed");
        ToolOutput::new(message).with_title(label.as_str())
    }
}

/// One slash stands between a directory and a path below it, whether or not the
/// directory ends with one; an absolute path stands for itself.
pub proof fn law_one_slash_joins_paths(base: Seq<char>, rel: Seq<char>)
    ensures
        rel.len() > 0 && rel[0] == '/' ==> path_below(base, rel) == rel,
        base.len() > 0 && base.last() != '/' && (rel.len() == 0 || rel[0] != '/') ==> path_below(
            base,
            rel,
        ) == base + "/"@ + rel,
        base.len() > 0 && base.last() == '/' && (rel.len() == 0 || rel[0] != '/') ==> path_below(
            base,
            rel,
        ) == base + rel,
{
    reveal_strlit("/");
    if base.len() > 0 && base.last() != '/' && (rel.len() == 0 || rel[0] != '/') {
        assert(path_below(base, rel) =~= base + "/"@ + rel);
    }
}

/// A program is looked for in every directory of `PATH`, in that order, before any
/// other, then below the home directory, in the directories of the node versions, and
/// last in three system directories.
pub proof fn law_where_a_program_is_looked_for(
    name: Seq<char>,
    path_dirs: Seq<Seq<char>>,
    home: Option<Seq<char>>,
    nvm_versions: Seq<Seq<char>>,
    current_dir: Seq<char>,
    i: int,
)
    requires
        name.len() > 0,
        name[0] != '/',
        home is Some ==> home->0.len() > 0 && home->0[0] == '/' && home->0.last() != '/',
    ensures
        ({
            let all = candidates(name, path_dirs, home, nvm_versions, current_dir);
            let n = path_dirs.len() as int;
            let v = nvm_versions.len() as int;
            &&& all.len() == n + 3 + if home is Some {
                v + 3
            } else {
                0
            }
            &&& 0 <= i < n && path_dirs[i].len() > 0 && path_dirs[i][0] == '/'
                && path_dirs[i].last() != '/' ==> all[i] == path_dirs[i] + "/"@ + name
            &&& 0 <= i < n && path_dirs[i].len() > 0 && path_dirs[i][0] != '/'
                && path_dirs[i].last() != '/' && current_dir.len() > 0 && current_dir.last() != '/'
                ==> all[i] == current_dir + "/"@ + path_dirs[i] + "/"@ + name
            &&& home is Some ==> all[n] == home->0 + "/.cargo/bin/"@ + name
            &&& home is Some ==> all[n + 1] == home->0 + "/.local/bin/"@ + name
            &&& home is Some ==> all[n + 2] == home->0 + "/.pyenv/shims/"@ + name
            &&& home is Some && 0 <= i < v && nvm_versions[i].len() > 0 && nvm_versions[i][0] == '/'
                && nvm_versions[i].last() != '/' ==> all[n + 3 + i] == nvm_versions[i] + "/bin/"@
                + name
            &&& all[all.len() - 3] == "/opt/homebrew/bin/"@ + name
            &&& all[all.len() - 2] == "/usr/local/bin/"@ + name
            &&& all[all.len() - 1] == "/usr/bin/"@ + name
        }),
{
    reveal_strlit("/");
    reveal_strlit("bin");
    reveal_strlit(".cargo/bin");
    reveal_strlit(".local/bin");
    reveal_strlit(".pyenv/shims");
    reveal_strlit("/.cargo/bin/");
    reveal_strlit("/.local/bin/");
    reveal_strlit("/.pyenv/shims/");
    reveal_strlit("/bin/");
    reveal_strlit("/opt/homebrew/bin");
    reveal_strlit("/usr/local/bin");
    reveal_strlit("/usr/bin");
    reveal_strlit("/opt/homebrew/bin/");
    reveal_strlit("/usr/local/bin/");
    reveal_strlit("/usr/bin/");
    let all = candidates(name, path_dirs, home, nvm_versions, current_dir);
    let extra = extra_dirs(home, nvm_versions);
    let dirs = path_dirs + extra;
    let n = path_dirs.len() as int;
    let v = nvm_versions.len() as int;
    let m = extra.len() as int;
    assert(forall|k: int| 0 <= k < n ==> #[trigger] dirs[k] == path_dirs[k]);
    assert(forall|k: int| 0 <= k < m ==> dirs[n + k] == #[trigger] extra[k]);
    if 0 <= i < n && path_dirs[i].len() > 0 && path_dirs[i].last() != '/' {
        assert(dirs[i] == path_dirs[i]);
        if path_dirs[i][0] == '/' {
            assert(all[i] =~= path_dirs[i] + "/"@ + name);
        } else if current_dir.len() > 0 && current_dir.last() != '/' {
            assert(all[i] =~= current_dir + "/"@ + path_dirs[i] + "/"@ + name);
        }
    }
    assert(extra[m - 3] == "/opt/homebrew/bin"@);
    assert(extra[m - 2] == "/usr/local/bin"@);
    assert(extra[m - 1] == "/usr/bin"@);
    assert(dirs[n + m - 3] == extra[m - 3]);
    assert(dirs[n + m - 2] == extra[m - 2]);
    assert(dirs[n + m - 1] == extra[m - 1]);
    assert(all[n + m - 3] =~= "/opt/homebrew/bin/"@ + name);
    assert(all[n + m - 2] =~= "/usr/local/bin/"@ + name);
    assert(all[n + m - 1] =~= "/usr/bin/"@ + name);
    if home is Some {
        let h = home->0;
        assert(extra[0] =~= h + "/"@ + ".cargo/bin"@);
        assert(extra[1] =~= h + "/"@ + ".local/bin"@);
        assert(extra[2] =~= h + "/"@ + ".pyenv/shims"@);
        assert(dirs[n] == extra[0] && dirs[n + 1] == extra[1] && dirs[n + 2] == extra[2]);
        assert(all[n] =~= h + "/.cargo/bin/"@ + name);
        assert(all[n + 1] =~= h + "/.local/bin/"@ + name);
        assert(all[n + 2] =~= h + "/.pyenv/shims/"@ + name);
        if 0 <= i < v && nvm_versions[i].len() > 0 && nvm_versions[i][0] == '/'
            && nvm_versions[i].last() != '/' {
            assert(extra[3 + i] =~= nvm_versions[i] + "/"@ + "bin"@);
            assert(dirs[n + 3 + i] == extra[3 + i]);
            assert(all[n + 3 + i] =~= nvm_versions[i] + "/bin/"@ + name);
        }
    }
}

/// What a program wrote to either stream is shown, what it wrote to its standard
/// output first. Only white space at the ends is left out, and one newline stands
/// between the two.
pub proof fn law_both_streams_are_shown(stdout: Seq<char>, stderr: Seq<char>, n: int, m: int)
    requires
        0 <= n <= stdout.len(),
        0 <= m <= stderr.len(),
        n > 0 ==> !text::white_space(stdout[n - 1]),
        m > 0 ==> !text::white_space(stderr[m - 1]),
        forall|i: int| n <= i < stdout.len() ==> text::white_space(#[trigger] stdout[i]),
        forall|i: int| m <= i < stderr.len() ==> text::white_space(#[trigger] stderr[i]),
    ensures
        n > 0 && m > 0 ==> combined_text(stdout, stderr) == stdout.take(n) + "\n"@ + stderr.take(m),
        n == 0 ==> combined_text(stdout, stderr) == stderr.take(m),
        m == 0 ==> combined_text(stdout, stderr) == stdout.take(n),
{
    reveal_strlit("\n");
    lemma_trimmed_to(stdout, n);
    lemma_trimmed_to(stderr, m);
    if n > 0 && m > 0 {
        assert(combined_text(stdout, stderr) =~= stdout.take(n) + "\n"@ + stderr.take(m));
    } else if n == 0 {
        assert(combined_text(stdout, stderr) =~= stderr.take(m));
    }
    if m == 0 {
        assert(combined_text(stdout, stderr) =~= stdout.take(n));
    }
}

proof fn lemma_trimmed_to(s: Seq<char>, n: int)
    requires
        0 <= n <= s.len(),
        n > 0 ==> !text::white_space(s[n - 1]),
        forall|i: int| n <= i < s.len() ==> text::white_space(#[trigger] s[i]),
    ensures
        text::trim_end(s) == s.take(n),
{
    text::law_only_white_space_leaves_the_end(s);
    let kept = text::trim_end(s);
    if n > 0 {
        text::lemma_trim_end_keeps(s, n - 1);
    }
    if kept.len() > n {
        assert(kept.last() == s[kept.len() - 1]);
    }
    assert(kept =~= s.take(n));
}

/// A program that ended with exit code zero shows what it wrote, and any other says
/// that it failed, how, and what it wrote. The title says what was done, and whether it
/// failed.
pub proof fn law_failures_are_shown_as_such(
    tool: Seq<char>,
    action: Seq<char>,
    status: Option<i32>,
    stdout: Seq<char>,
    stderr: Seq<char>,
)
    ensures
        ({
            let shown = cli_output(tool, action, status, stdout, stderr);
            let written = combined_text(stdout, stderr);
            let label = tool + " "@ + action;
            &&& status == Some(0i32) ==> shown.title == Some(label)
            &&& status == Some(0i32) && written.len() > 0 ==> shown.output == written
            &&& status == Some(0i32) && written.len() == 0 ==> shown.output == label
                + ": done (no output)."@
            &&& status != Some(0i32) ==> shown.title == Some(label + " failed"@)
            &&& status is Some && status != Some(0i32) ==> shown.output == label + " failed (exit "@
                + text::signed_decimal(status->0 as int) + "):\n"@ + if written.len() > 0 {
                written
            } else {
                "(no output)"@
            }
            &&& status is None ==> shown.output == label + " failed (exit "@ + "signal"@ + "):\n"@
                + if written.len() > 0 {
                written
            } else {
                "(no output)"@
            }
        }),
{
}

} // verus!
