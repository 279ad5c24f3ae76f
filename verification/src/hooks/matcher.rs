//! Tool-name matcher for hooks.

use vstd::prelude::*;

use crate::text;

verus! {

/// How a hook entry matches tool names.
///
/// - `"bash"` matches only `bash`
/// - `"bash|jsbash|grep"` matches any listed name
/// - `"*"`, an empty text, or a list with `*` in it matches every tool
#[derive(Debug)]
pub struct HookMatcher {
    raw: String,
    names: Vec<String>,
    wildcard: bool,
}

/// What a [`HookMatcher`] means.
pub struct HookMatcherView {
    /// The text that the matcher was made from.
    pub raw: Seq<char>,
    /// The names that are listed in it.
    pub names: Seq<Seq<char>>,
    /// Whether it matches every tool.
    pub wildcard: bool,
}

/// The names among `parts`: each without surrounding white space, and without
/// those of which nothing is left.
pub open spec fn listed_names(parts: Seq<Seq<char>>) -> Seq<Seq<char>>
    decreases parts.len(),
{
    if parts.len() == 0 {
        Seq::empty()
    } else {
        let before = listed_names(parts.drop_last());
        let name = text::trim(parts.last());
        if name.len() == 0 {
            before
        } else {
            before.push(name)
        }
    }
}

/// The matcher that `raw` describes.
pub open spec fn described_matcher(raw: Seq<char>) -> HookMatcherView {
    let trimmed = text::trim(raw);
    if trimmed == "*"@ || trimmed.len() == 0 {
        HookMatcherView { raw, names: Seq::empty(), wildcard: true }
    } else {
        let names = listed_names(text::split(trimmed, '|'));
        HookMatcherView { raw, names, wildcard: names.contains("*"@) }
    }
}

/// Whether a matcher accepts the tool `tool_name`.
pub open spec fn accepts(matcher: HookMatcherView, tool_name: Seq<char>) -> bool {
    matcher.wildcard || matcher.names.contains(tool_name)
}

impl View for HookMatcher {
    type V = HookMatcherView;

    closed spec fn view(&self) -> HookMatcherView {
        HookMatcherView {
            raw: self.raw@,
            names: text::texts(self.names@),
            wildcard: self.wildcard,
        }
    }
}

/// Whether `name` is among `names`.
fn is_listed(names: &Vec<String>, name: &str) -> (r: bool)
    ensures
        r == text::texts(names@).contains(name@),
{
    let mut i: usize = 0;
    while i < names.len()
        invariant
            i <= names.len(),
            forall|j: int| 0 <= j < i ==> text::texts(names@)[j] != name@,
        decreases names.len() - i,
    {
        if text::same(names[i].as_str(), name) {
            assert(text::texts(names@)[i as int] == name@);
            return true;
        }
        i += 1;
    }
    false
}

impl HookMatcher {
    /// The matcher that `raw` describes.
    pub fn parse(raw: &str) -> (r: HookMatcher)
        ensures
            r@ == described_matcher(raw@),
    {
        let trimmed = text::trimmed(raw);
        if text::same(trimmed.as_str(), "*") || trimmed.as_str().is_empty() {
            let r = HookMatcher { raw: raw.to_owned(), names: Vec::new(), wildcard: true };
            assert(r@.names =~= Seq::<Seq<char>>::empty());
            return r;
        }
        let parts = text::split_on(trimmed.as_str(), '|');
        let ghost all = text::texts(parts@);
        let mut names: Vec<String> = Vec::new();
        let mut i: usize = 0;
        assert(text::texts(names@) =~= listed_names(all.take(0)));
        while i < parts.len()
            invariant
                i <= parts.len(),
                all == text::texts(parts@),
                text::texts(names@) == listed_names(all.take(i as int)),
            decreases parts.len() - i,
        {
            assert(all.take(i + 1).drop_last() =~= all.take(i as int));
            let name = text::trimmed(parts[i].as_str());
            if !name.as_str().is_empty() {
                text::push_text(&mut names, name);
            }
            i += 1;
        }
        assert(all.take(i as int) =~= all);
        let wildcard = is_listed(&names, "*");
        HookMatcher { raw: raw.to_owned(), names, wildcard }
    }

    /// Whether the matcher accepts the tool `tool_name`.
    pub fn matches(&self, tool_name: &str) -> (r: bool)
        ensures
            r == accepts(self@, tool_name@),
    {
        self.wildcard || is_listed(&self.names, tool_name)
    }

    /// The text that the matcher was made from.
    pub fn raw(&self) -> (r: &str)
        ensures
            r@ == self@.raw,
    {
        self.raw.as_str()
    }

    /// A copy of the matcher.
    pub fn duplicate(&self) -> (r: HookMatcher)
        ensures
            r@ == self@,
    {
        HookMatcher {
            raw: self.raw.clone(),
            names: text::copy_texts(&self.names),
            wildcard: self.wildcard,
        }
    }
}

impl Clone for HookMatcher {
    /// A copy of the matcher.
    fn clone(&self) -> (r: HookMatcher)
        ensures
            r@ == self@,
    {
        self.duplicate()
    }
}

/// A description that is a single name matches that tool and no other.
pub proof fn law_single_name_matches_itself_only(raw: Seq<char>, tool_name: Seq<char>)
    requires
        !text::trim(raw).contains('|'),
        text::trim(raw).len() > 0,
        text::trim(raw) != "*"@,
    ensures
        accepts(described_matcher(raw), tool_name) == (tool_name == text::trim(raw)),
{
    let name = text::trim(raw);
    text::lemma_split_single(name, '|');
    text::lemma_trim_twice(raw);
    let parts = seq![name];
    assert(parts.drop_last() =~= Seq::<Seq<char>>::empty());
    assert(listed_names(parts.drop_last()) =~= Seq::<Seq<char>>::empty());
    let names = listed_names(parts);
    assert(names =~= seq![name]);
    assert(names[0] == name);
    assert(names.contains(name));
}

/// A star, and a blank description, match every tool.
pub proof fn law_wildcard_matches_everything(raw: Seq<char>, tool_name: Seq<char>)
    requires
        text::trim(raw) == "*"@ || text::trim(raw).len() == 0,
    ensures
        accepts(described_matcher(raw), tool_name),
{
}

/// An alternation of two descriptions matches exactly what one of them matches.
pub proof fn law_alternation_matches_either(a: Seq<char>, b: Seq<char>, tool_name: Seq<char>)
    requires
        text::trim(a).len() > 0,
        text::trim(b).len() > 0,
    ensures
        accepts(described_matcher(a.push('|') + b), tool_name) == (accepts(
            described_matcher(a),
            tool_name,
        ) || accepts(described_matcher(b), tool_name)),
{
    let whole = a.push('|') + b;
    let (first, second) = (names_in(a), names_in(b));
    lemma_names_of_trimmed(a);
    lemma_names_of_trimmed(b);
    lemma_names_of_trimmed(whole);
    text::lemma_split_joined(a, b, '|');
    lemma_names_of_both(text::split(a, '|'), text::split(b, '|'));
    assert(names_in(whole) == first + second);
    assert(whole[a.len() as int] == '|');
    text::lemma_trim_keeps(whole, a.len() as int);
    lemma_names_of_star(a);
    lemma_names_of_star(b);
    lemma_names_of_star(whole);
    assert forall|name: Seq<char>| #[trigger] (first + second).contains(name) == (first.contains(
        name,
    ) || second.contains(name)) by {
        lemma_contains_either(first, second, name);
    }
    assert((first + second).contains(tool_name) == (first.contains(tool_name) || second.contains(
        tool_name,
    )));
    assert((first + second).contains("*"@) == (first.contains("*"@) || second.contains("*"@)));
}

/// The names in a description.
spec fn names_in(raw: Seq<char>) -> Seq<Seq<char>> {
    listed_names(text::split(raw, '|'))
}

proof fn lemma_contains_either(a: Seq<Seq<char>>, b: Seq<Seq<char>>, name: Seq<char>)
    ensures
        (a + b).contains(name) == (a.contains(name) || b.contains(name)),
{
    let all = a + b;
    if a.contains(name) {
        let i = choose|i: int| 0 <= i < a.len() && a[i] == name;
        assert(all[i] == name);
    }
    if b.contains(name) {
        let i = choose|i: int| 0 <= i < b.len() && b[i] == name;
        assert(all[a.len() + i] == name);
    }
    if all.contains(name) {
        let i = choose|i: int| 0 <= i < all.len() && all[i] == name;
        if i < a.len() {
            assert(a[i] == name);
        } else {
            assert(b[i - a.len()] == name);
        }
    }
}

/// The star is the only name in a description that is a star.
proof fn lemma_names_of_star(raw: Seq<char>)
    requires
        names_in(text::trim(raw)) == names_in(raw),
    ensures
        text::trim(raw) == "*"@ ==> names_in(raw) == seq!["*"@] && names_in(raw).contains("*"@),
{
    if text::trim(raw) == "*"@ {
        reveal_strlit("*");
        text::lemma_split_single("*"@, '|');
        text::lemma_trim_clean("*"@);
        let parts = seq!["*"@];
        assert(parts.drop_last() =~= Seq::<Seq<char>>::empty());
        assert(listed_names(parts.drop_last()) =~= Seq::<Seq<char>>::empty());
        assert(listed_names(parts) =~= seq!["*"@]);
        assert(seq!["*"@][0] == "*"@);
    }
}

/// The names in two lists of parts are those in the one, then those in the other.
proof fn lemma_names_of_both(a: Seq<Seq<char>>, b: Seq<Seq<char>>)
    ensures
        listed_names(a + b) == listed_names(a) + listed_names(b),
    decreases b.len(),
{
    let all = a + b;
    if b.len() == 0 {
        assert(all =~= a);
        assert(listed_names(a) + listed_names(b) =~= listed_names(a));
    } else {
        lemma_names_of_both(a, b.drop_last());
        assert(all.drop_last() =~= a + b.drop_last());
        assert(all.last() == b.last());
        assert(listed_names(all) =~= listed_names(a) + listed_names(b));
    }
}

/// White space around a description changes none of its names.
proof fn lemma_names_of_trimmed(raw: Seq<char>)
    ensures
        names_in(text::trim(raw)) == names_in(raw),
{
    lemma_names_of_trimmed_start(raw);
    lemma_names_of_trimmed_end(text::trim_start(raw));
}

proof fn lemma_names_of_trimmed_end(raw: Seq<char>)
    ensures
        names_in(text::trim_end(raw)) == names_in(raw),
    decreases raw.len(),
{
    if raw.len() > 0 && text::white_space(raw.last()) {
        let front = raw.drop_last();
        lemma_names_of_trimmed_end(front);
        text::lemma_split_not_empty(front, '|');
        let before = text::split(front, '|');
        let now = text::split(raw, '|');
        assert(now.drop_last() =~= before.drop_last());
        text::lemma_trim_padded(before.last(), raw.last());
    }
}

proof fn lemma_names_of_trimmed_start(raw: Seq<char>)
    ensures
        names_in(text::trim_start(raw)) == names_in(raw),
    decreases raw.len(),
{
    if raw.len() > 0 && text::white_space(raw[0]) {
        let (c, tail) = (raw[0], raw.drop_first());
        lemma_names_of_trimmed_start(tail);
        text::lemma_split_prefixed(c, tail, '|');
        assert(raw =~= seq![c] + tail);
        let before = text::split(tail, '|');
        let now = text::split(raw, '|');
        let rest = before.drop_first();
        assert(before =~= seq![before[0]] + rest);
        assert(now =~= seq![seq![c] + before[0]] + rest);
        lemma_names_of_both(seq![before[0]], rest);
        lemma_names_of_both(seq![seq![c] + before[0]], rest);
        assert((seq![c] + before[0]).drop_first() =~= before[0]);
        let (old_first, new_first) = (seq![before[0]], seq![seq![c] + before[0]]);
        assert(old_first.drop_last() =~= new_first.drop_last());
    }
}

/// A blank alternative changes nothing: neither at the front nor at the end does it
/// add a tool or take one away.
pub proof fn law_blank_alternatives_are_ignored(a: Seq<char>, blank: Seq<char>, tool_name: Seq<char>)
    requires
        text::trim(a).len() > 0,
        text::trim(blank).len() == 0,
    ensures
        accepts(described_matcher(a.push('|') + blank), tool_name) == accepts(
            described_matcher(a),
            tool_name,
        ),
        accepts(described_matcher(blank.push('|') + a), tool_name) == accepts(
            described_matcher(a),
            tool_name,
        ),
{
    let back = a.push('|') + blank;
    let front = blank.push('|') + a;
    text::lemma_split_joined(a, blank, '|');
    text::lemma_split_joined(blank, a, '|');
    lemma_names_of_both(text::split(a, '|'), text::split(blank, '|'));
    lemma_names_of_both(text::split(blank, '|'), text::split(a, '|'));
    lemma_names_of_blank(blank);
    assert(names_in(back) =~= names_in(a));
    assert(names_in(front) =~= names_in(a));
    lemma_names_of_trimmed(back);
    lemma_names_of_trimmed(front);
    lemma_names_of_trimmed(a);
    lemma_names_of_star(a);
    lemma_names_of_star(back);
    lemma_names_of_star(front);
    assert(back[a.len() as int] == '|');
    assert(front[blank.len() as int] == '|');
    text::lemma_trim_keeps(back, a.len() as int);
    text::lemma_trim_keeps(front, blank.len() as int);
}

/// What is blank lists no names.
proof fn lemma_names_of_blank(blank: Seq<char>)
    requires
        text::trim(blank).len() == 0,
    ensures
        names_in(blank).len() == 0,
{
    lemma_names_of_trimmed(blank);
    let none = text::trim(blank);
    assert(none =~= Seq::<char>::empty());
    assert(!none.contains('|'));
    text::lemma_split_single(none, '|');
    assert(text::trim(none).len() == 0) by {
        text::lemma_trim_twice(blank);
    }
    assert(text::split(none, '|').drop_last() =~= Seq::<Seq<char>>::empty());
    assert(listed_names(Seq::<Seq<char>>::empty()).len() == 0);
}

/// A matcher keeps the text that it was made from, and white space around it does not
/// change what it accepts.
pub proof fn law_white_space_does_not_matter(raw: Seq<char>, tool_name: Seq<char>)
    ensures
        described_matcher(raw).raw == raw,
        accepts(described_matcher(raw), tool_name) == accepts(
            described_matcher(text::trim(raw)),
            tool_name,
        ),
{
    text::lemma_trim_twice(raw);
}

} // verus!
