//! Hook configuration.

use vstd::prelude::*;

use super::command_hook;
use super::command_hook::{CommandHook, CommandHookView, HookPhase};
use super::matcher;
use super::matcher::{HookMatcher, HookMatcherView};
use crate::external_cli;
use crate::text;

verus! {

/// How long a command hook may take where the configuration does not say, in
/// milliseconds.
pub const DEFAULT_TIMEOUT_MS: u64 = 5000;

/// The hook configuration: command hooks of both phases.
#[derive(Debug)]
pub struct HookConfig {
    pub pre_tool_use: Vec<HookConfigEntry>,
    pub post_tool_use: Vec<HookConfigEntry>,
}

/// A single configured command hook.
#[derive(Debug)]
pub struct HookConfigEntry {
    /// The tools that the hook is for.
    pub matcher: HookMatcher,
    /// Path of the external program; may begin with `~`.
    pub command: String,
    /// How long the program may take, in milliseconds.
    pub timeout_ms: u64,
    /// Name for logging.
    pub name: Option<String>,
}

/// What a [`HookConfigEntry`] means.
pub struct HookConfigEntryView {
    pub matcher: HookMatcherView,
    pub command: Seq<char>,
    pub timeout_ms: u64,
    pub name: Option<Seq<char>>,
}

/// What a [`HookConfig`] means.
pub struct HookConfigView {
    pub pre_tool_use: Seq<HookConfigEntryView>,
    pub post_tool_use: Seq<HookConfigEntryView>,
}

impl View for HookConfigEntry {
    type V = HookConfigEntryView;

    open spec fn view(&self) -> HookConfigEntryView {
        HookConfigEntryView {
            matcher: self.matcher@,
            command: self.command@,
            timeout_ms: self.timeout_ms,
            name: text::opt_text(self.name),
        }
    }
}

/// What a list of entries means.
pub open spec fn entries_view(entries: Seq<HookConfigEntry>) -> Seq<HookConfigEntryView> {
    Seq::new(entries.len(), |i: int| entries[i]@)
}

impl View for HookConfig {
    type V = HookConfigView;

    open spec fn view(&self) -> HookConfigView {
        HookConfigView {
            pre_tool_use: entries_view(self.pre_tool_use@),
            post_tool_use: entries_view(self.post_tool_use@),
        }
    }
}

/// The path `path` with a leading `~` replaced by the home directory, where there
/// is one.
pub open spec fn expanded(path: Seq<char>, home: Option<Seq<char>>) -> Seq<char> {
    match home {
        Some(h) => if text::starts_with(path, "~/"@) {
            external_cli::path_below(h, path.skip(2))
        } else if path == "~"@ {
            h
        } else {
            path
        },
        None => path,
    }
}

/// The name of the configured hook at position `index` of its phase, where the
/// configuration gives none.
pub open spec fn default_label(phase: HookPhase, index: nat, raw: Seq<char>) -> Seq<char> {
    "command:"@ + command_hook::phase_name(phase) + ":"@ + text::decimal(index) + ":"@ + raw
}

/// The hook that an entry at position `index` of its phase describes.
pub open spec fn configured_hook(
    entry: HookConfigEntryView,
    phase: HookPhase,
    index: nat,
    home: Option<Seq<char>>,
) -> CommandHookView {
    CommandHookView {
        name: match entry.name {
            Some(name) => name,
            None => default_label(phase, index, entry.matcher.raw),
        },
        matcher: entry.matcher,
        program: expanded(entry.command, home),
        timeout_ms: entry.timeout_ms,
        phase,
    }
}

/// The hooks that the entries of one phase describe.
pub open spec fn configured_phase(
    entries: Seq<HookConfigEntryView>,
    phase: HookPhase,
    home: Option<Seq<char>>,
) -> Seq<CommandHookView> {
    Seq::new(entries.len(), |i: int| configured_hook(entries[i], phase, i as nat, home))
}

/// The hooks that a configuration describes: first those before a call, then
/// those after it, each in their order.
pub open spec fn configured_hooks(
    config: HookConfigView,
    home: Option<Seq<char>>,
) -> Seq<CommandHookView> {
    configured_phase(config.pre_tool_use, HookPhase::Pre, home) + configured_phase(
        config.post_tool_use,
        HookPhase::Post,
        home,
    )
}

/// The matcher of an entry that names none: it matches every tool.
pub fn default_matcher() -> (r: HookMatcher)
    ensures
        r@ == matcher::described_matcher("*"@),
{
    HookMatcher::parse("*")
}

/// The timeout of an entry that names none.
pub fn default_timeout_ms() -> (r: u64)
    ensures
        r == DEFAULT_TIMEOUT_MS,
{
    DEFAULT_TIMEOUT_MS
}

/// Whether the text of a configuration file holds a configuration at all: a
/// file that is missing or blank counts as no configuration.
pub fn holds_config(text: Option<&str>) -> (r: bool)
    ensures
        r == (text matches Some(t) && text::trim(t@).len() > 0),
{
    match text {
        Some(t) => {
            let trimmed = text::trimmed(t);
            !trimmed.as_str().is_empty()
        },
        None => false,
    }
}

/// The path `path` with a leading `~` replaced by the home directory, where there
/// is one.
pub fn expand_tilde(path: &str, home: Option<&str>) -> (r: String)
    ensures
        r@ == expanded(path@, text::opt_str(home)),
{
    match home {
        Some(h) => {
            if text::has_prefix(path, "~/") {
                proof {
                    reveal_strlit("~/");
                }
                let rest = text::rest_of(path, 2);
                external_cli::join_path(h, rest.as_str())
            } else if text::same(path, "~") {
                h.to_owned()
            } else {
                path.to_owned()
            }
        },
        None => path.to_owned(),
    }
}

/// The home directory, given the values of `HOME` and `USERPROFILE`: the first
/// of them that is set, unless it is empty.
pub fn home_dir<'a>(home: Option<&'a str>, user_profile: Option<&'a str>) -> (r: Option<&'a str>)
    ensures
        r == {
            let set = if home is Some {
                home
            } else {
                user_profile
            };
            if set is Some && set->0@.len() > 0 {
                set
            } else {
                None
            }
        },
{
    let set = match home {
        Some(h) => Some(h),
        None => user_profile,
    };
    match set {
        Some(dir) => {
            if dir.is_empty() {
                None
            } else {
                Some(dir)
            }
        },
        None => None,
    }
}

impl Clone for HookConfigEntry {
    /// A copy of the entry.
    fn clone(&self) -> (r: HookConfigEntry)
        ensures
            r@ == self@,
    {
        let name = match &self.name {
            Some(name) => Some(name.clone()),
            None => None,
        };
        HookConfigEntry {
            matcher: self.matcher.clone(),
            command: self.command.clone(),
            timeout_ms: self.timeout_ms,
            name,
        }
    }
}

impl Default for HookConfig {
    /// A configuration without hooks.
    fn default() -> (r: HookConfig)
        ensures
            r@.pre_tool_use.len() == 0,
            r@.post_tool_use.len() == 0,
    {
        HookConfig::empty()
    }
}

impl HookConfigEntry {
    /// The hook that the entry at position `index` of its phase describes.
    pub fn to_command_hook(&self, phase: HookPhase, index: usize, home: Option<&str>) -> (r:
        CommandHook)
        ensures
            r@ == configured_hook(self@, phase, index as nat, text::opt_str(home)),
    {
        let label = match &self.name {
            Some(name) => name.clone(),
            None => {
                let mut label = "command:".to_owned();
                label.append(phase.as_str());
                label.append(":");
                let position = text::decimal_text(index as u64);
                label.append(position.as_str());
                label.append(":");
                label.append(self.matcher.raw());
                label
            },
        };
        CommandHook::new(
            label,
            self.matcher.duplicate(),
            expand_tilde(self.command.as_str(), home),
            self.timeout_ms,
            phase,
        )
    }
}

impl HookConfig {
    /// A configuration without hooks.
    pub fn empty() -> (r: HookConfig)
        ensures
            r@.pre_tool_use.len() == 0,
            r@.post_tool_use.len() == 0,
    {
        HookConfig { pre_tool_use: Vec::new(), post_tool_use: Vec::new() }
    }

    /// The configured command hooks of both phases.
    pub fn command_hooks(&self, home: Option<&str>) -> (r: Vec<CommandHook>)
        ensures
            command_hook::hooks_view(r@) == configured_hooks(self@, text::opt_str(home)),
    {
        let mut hooks = phase_hooks(&self.pre_tool_use, HookPhase::Pre, home);
        let mut after = phase_hooks(&self.post_tool_use, HookPhase::Post, home);
        let ghost first = command_hook::hooks_view(hooks@);
        let ghost second = command_hook::hooks_view(after@);
        hooks.append(&mut after);
        assert(command_hook::hooks_view(hooks@) =~= first + second);
        hooks
    }
}

/// The hooks that the entries of one phase describe.
fn phase_hooks(entries: &Vec<HookConfigEntry>, phase: HookPhase, home: Option<&str>) -> (r: Vec<
    CommandHook,
>)
    ensures
        command_hook::hooks_view(r@) == configured_phase(
            entries_view(entries@),
            phase,
            text::opt_str(home),
        ),
{
    let mut hooks: Vec<CommandHook> = Vec::new();
    let ghost all = configured_phase(entries_view(entries@), phase, text::opt_str(home));
    let mut i: usize = 0;
    while i < entries.len()
        invariant
            i <= entries.len(),
            all == configured_phase(entries_view(entries@), phase, text::opt_str(home)),
            hooks.len() == i,
            forall|j: int| 0 <= j < i ==> (#[trigger] hooks[j])@ == all[j],
        decreases entries.len() - i,
    {
        hooks.push(entries[i].to_command_hook(phase, i, home));
        i += 1;
    }
    assert(command_hook::hooks_view(hooks@) =~= all);
    hooks
}

/// Every entry of the configuration makes one hook, those that act before a tool runs
/// first, each list in its order. A hook is for the tools of its entry's matcher, has
/// its time limit, runs its program, and is named as the entry says, or else after its
/// event, its place in its list and its matcher.
pub proof fn law_every_entry_makes_a_hook(
    config: HookConfigView,
    home: Option<Seq<char>>,
    i: int,
)
    ensures
        ({
            let hooks = configured_hooks(config, home);
            let n = config.pre_tool_use.len() as int;
            let m = config.post_tool_use.len() as int;
            &&& hooks.len() == n + m
            &&& 0 <= i < n ==> {
                let entry = config.pre_tool_use[i];
                &&& hooks[i].phase == HookPhase::Pre
                &&& hooks[i].matcher == entry.matcher
                &&& hooks[i].timeout_ms == entry.timeout_ms
                &&& hooks[i].program == expanded(entry.command, home)
                &&& entry.name is Some ==> hooks[i].name == entry.name->0
                &&& entry.name is None ==> hooks[i].name == "command:PreToolUse:"@ + text::decimal(
                    i as nat,
                ) + ":"@ + entry.matcher.raw
            }
            &&& 0 <= i < m ==> {
                let entry = config.post_tool_use[i];
                &&& hooks[n + i].phase == HookPhase::Post
                &&& hooks[n + i].matcher == entry.matcher
                &&& hooks[n + i].timeout_ms == entry.timeout_ms
                &&& hooks[n + i].program == expanded(entry.command, home)
                &&& entry.name is Some ==> hooks[n + i].name == entry.name->0
                &&& entry.name is None ==> hooks[n + i].name == "command:PostToolUse:"@
                    + text::decimal(i as nat) + ":"@ + entry.matcher.raw
            }
        }),
{
    reveal_strlit("command:");
    reveal_strlit("PreToolUse");
    reveal_strlit("PostToolUse");
    reveal_strlit(":");
    reveal_strlit("command:PreToolUse:");
    reveal_strlit("command:PostToolUse:");
    assert("command:"@ + "PreToolUse"@ + ":"@ =~= "command:PreToolUse:"@);
    assert("command:"@ + "PostToolUse"@ + ":"@ =~= "command:PostToolUse:"@);
}

/// A tilde at the front of a path stands for the home directory, alone or before a
/// slash; every other path stays as it is, and so does each where no home directory is
/// known.
pub proof fn law_a_tilde_stands_for_home(path: Seq<char>, home: Seq<char>)
    requires
        home.len() > 0,
        home.last() != '/',
    ensures
        path.len() > 2 && path[0] == '~' && path[1] == '/' && path[2] != '/' ==> expanded(
            path,
            Some(home),
        ) == home + path.skip(1),
        path.len() == 1 && path[0] == '~' ==> expanded(path, Some(home)) == home,
        path.len() == 0 || path[0] != '~' || path.len() > 1 && path[1] != '/' ==> expanded(
            path,
            Some(home),
        ) == path,
        expanded(path, None) == path,
{
    reveal_strlit("~/");
    reveal_strlit("~");
    if path.len() >= 2 && path[0] == '~' && path[1] == '/' {
        assert(path.subrange(0, 2) =~= "~/"@);
        assert(text::starts_with(path, "~/"@));
        if path.len() > 2 && path[2] != '/' {
            assert(external_cli::path_below(home, path.skip(2)) =~= home + path.skip(1));
        }
    } else if text::starts_with(path, "~/"@) {
        assert(path.subrange(0, 2)[0] == path[0]);
        assert(path.subrange(0, 2)[1] == path[1]);
    }
    if path.len() == 1 && path[0] == '~' {
        assert(path =~= "~"@);
        assert(!text::starts_with(path, "~/"@));
    }
}

} // verus!
