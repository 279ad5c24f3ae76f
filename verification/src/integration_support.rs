//! Shared parts of the integrations of external agent tools.
//!
//! An integration writes routing guidance into a shared document, as a block
//! between two markers of its own, and imports directories of skills.

use vstd::prelude::*;

use crate::external_cli;
use crate::order;
use crate::text;

verus! {

/// `front`, `block` and `rest` as paragraphs: a blank line between neighbours, and
/// nothing for an empty `front` or `rest`.
pub open spec fn paragraphs(front: Seq<char>, block: Seq<char>, rest: Seq<char>) -> Seq<char> {
    let before = if front.len() > 0 {
        front + "\n\n"@
    } else {
        Seq::empty()
    };
    let after = if rest.len() > 0 {
        "\n\n"@ + rest
    } else {
        Seq::empty()
    };
    before + block + after
}

/// Where the marked region of a document begins, and where the text behind it does:
/// from the first `start` up to the first `end` that does not begin before it, both
/// inclusive. The two may overlap. None where there is no `start`, or no such `end`.
pub open spec fn marked_region(existing: Seq<char>, start: Seq<char>, end: Seq<char>) -> Option<
    (int, int),
> {
    match text::find(existing, start) {
        Some(s) => match text::find(existing.skip(s), end) {
            Some(e) => Some(
                (
                    s,
                    if e + end.len() < start.len() {
                        s + start.len()
                    } else {
                        s + e + end.len()
                    },
                ),
            ),
            None => None,
        },
        None => None,
    }
}

/// The document `existing` with `block` in the place of the marked region, or, where
/// there is none, with `block` as its last paragraph.
pub open spec fn upserted(
    existing: Seq<char>,
    block: Seq<char>,
    start: Seq<char>,
    end: Seq<char>,
) -> Seq<char> {
    match marked_region(existing, start, end) {
        Some((from, to)) => paragraphs(
            text::trim_end(existing.take(from)),
            block,
            text::trim_start(existing.skip(to)),
        ),
        None => if text::trim(existing).len() == 0 {
            block
        } else {
            paragraphs(text::trim_end(existing), block, Seq::empty())
        },
    }
}

/// The text before the marked region and the text behind it.
fn around_region(existing: &str, block_start: &str, block_end: &str) -> (r: Option<
    (String, String),
>)
    ensures
        match (r, marked_region(existing@, block_start@, block_end@)) {
            (Some((before, behind)), Some((from, to))) => before@ == existing@.take(from)
                && behind@ == existing@.skip(to),
            (None, None) => true,
            _ => false,
        },
{
    let s = match text::position_of(existing, block_start) {
        Some(s) => s,
        None => return None,
    };
    let start = text::chars_of(block_start);
    let rest = text::rest_of(existing, s);
    let e = match text::position_of(rest.as_str(), block_end) {
        Some(e) => e,
        None => return None,
    };
    let tail = text::chars_of(rest.as_str());
    let end = text::chars_of(block_end);
    assert(e + end.len() <= tail.len());
    let to = if e + end.len() < start.len() {
        start.len()
    } else {
        e + end.len()
    };
    let before = text::slice_of(existing, 0, s);
    let behind = text::rest_of(rest.as_str(), to);
    assert(before@ =~= existing@.take(s as int));
    assert(behind@ =~= existing@.skip(s + to));
    Some((before, behind))
}

/// Puts a marked block into a document, in the place of the one that is there.
///
/// Where there is a start marker with an end marker that does not begin before it,
/// the region between them, inclusive, is replaced. Otherwise the block is appended.
/// The text around it stays, with a blank line between.
pub fn upsert_marked_block(
    existing: &str,
    block: &str,
    block_start: &str,
    block_end: &str,
) -> (r: String)
    ensures
        r@ == upserted(existing@, block@, block_start@, block_end@),
{
    if let Some((before, behind)) = around_region(existing, block_start, block_end) {
        let front = text::trimmed_end(before.as_str());
        let rest = text::trimmed_start(behind.as_str());
        let mut out = front;
        if !out.as_str().is_empty() {
            out.append("\n\n");
        }
        out.append(block);
        if !rest.as_str().is_empty() {
            out.append("\n\n");
            out.append(rest.as_str());
        }
        assert(out@ =~= upserted(existing@, block@, block_start@, block_end@));
        return out;
    }
    let trimmed = text::trimmed(existing);
    if trimmed.as_str().is_empty() {
        block.to_owned()
    } else {
        let mut out = text::trimmed_end(existing);
        proof {
            lemma_not_blank(existing@);
        }
        out.append("\n\n");
        out.append(block);
        assert(out@ =~= paragraphs(text::trim_end(existing@), block@, Seq::empty()));
        out
    }
}

/// What is not blank is not empty without its trailing white space.
proof fn lemma_not_blank(s: Seq<char>)
    requires
        text::trim(s).len() > 0,
    ensures
        text::trim_end(s).len() > 0,
{
    text::lemma_trim_start_suffix(s);
    text::lemma_trim_start_front(s);
    let front = text::trim_start(s);
    text::lemma_trim_end_prefix(front);
    let k = s.len() - front.len();
    assert(s[k] == front[0]);
    text::lemma_trim_end_keeps(s, k);
}

/// The content that the routing document needs for a block to be in it; none where
/// it stays as it is, because the block is there and `overwrite` is not asked for.
pub open spec fn ensured(
    existing: Seq<char>,
    block: Seq<char>,
    start: Seq<char>,
    end: Seq<char>,
    overwrite: bool,
) -> Option<Seq<char>> {
    if text::contains(existing, start) && !overwrite {
        None
    } else {
        Some(upserted(existing, block, start, end))
    }
}

/// The new content of the routing document, in which the block is to be; none where
/// it stays as it is. `existing` is what the document holds, empty where there is
/// none.
pub fn ensure_preferred_tools_block(
    existing: &str,
    block: &str,
    block_start: &str,
    block_end: &str,
    overwrite: bool,
) -> (r: Option<String>)
    ensures
        text::opt_text(r) == ensured(existing@, block@, block_start@, block_end@, overwrite),
{
    if text::is_in(block_start, existing) && !overwrite {
        return None;
    }
    Some(upsert_marked_block(existing, block, block_start, block_end))
}

/// Whether the routing document, if there is one, has a block with this marker.
pub fn preferred_tools_block_present(existing: Option<&str>, block_start: &str) -> (r: bool)
    ensures
        r == (existing matches Some(s) && text::contains(s@, block_start@)),
{
    match existing {
        Some(s) => text::is_in(block_start, s),
        None => false,
    }
}

/// The path of the routing document in the configuration directory `jcode_dir`.
pub fn preferred_tools_path(jcode_dir: &str) -> (r: String)
    ensures
        r@ == external_cli::path_below(jcode_dir@, "preferred-tools.md"@),
{
    external_cli::join_path(jcode_dir, "preferred-tools.md")
}

/// What becomes of a directory that is to be copied.
#[derive(Debug, Clone, Copy, PartialEq, Eq, Structural)]
pub enum CopyPlan {
    /// Its target is there and stays.
    Keep,
    /// Its target is there and is removed first.
    Replace,
    /// Its target is not there yet.
    Create,
}

/// What becomes of a directory that is to be copied.
pub fn plan_copy(target_exists: bool, overwrite: bool) -> (r: CopyPlan)
    ensures
        r == if !target_exists {
            CopyPlan::Create
        } else if overwrite {
            CopyPlan::Replace
        } else {
            CopyPlan::Keep
        },
{
    if target_exists {
        if overwrite {
            CopyPlan::Replace
        } else {
            CopyPlan::Keep
        }
    } else {
        CopyPlan::Create
    }
}

/// An entry of a directory of skills.
#[derive(Debug)]
pub struct SkillEntry {
    pub name: String,
    pub is_dir: bool,
    /// Whether there is a `SKILL.md` in it.
    pub has_skill_file: bool,
    /// Whether a skill of that name is imported already.
    pub installed: bool,
}

/// An entry is to be imported: it is a skill, and it is not there yet or is to be
/// overwritten.
pub open spec fn importable(entry: SkillEntry, overwrite: bool) -> bool {
    entry.is_dir && entry.has_skill_file && (!entry.installed || overwrite)
}

/// The names of the entries that are to be imported, in the order of the entries.
pub open spec fn importable_names(entries: Seq<SkillEntry>, overwrite: bool) -> Seq<Seq<char>>
    decreases entries.len(),
{
    if entries.len() == 0 {
        Seq::empty()
    } else {
        let before = importable_names(entries.drop_last(), overwrite);
        if importable(entries.last(), overwrite) {
            before.push(entries.last().name@)
        } else {
            before
        }
    }
}

/// The names of the skills to import, sorted.
pub fn skills_to_import(entries: &Vec<SkillEntry>, overwrite: bool) -> (r: Vec<String>)
    ensures
        text::texts(r@) == order::arranged(
            importable_names(entries@, overwrite),
            order::text_order(),
        ),
{
    let mut names: Vec<String> = Vec::new();
    let mut i: usize = 0;
    assert(text::texts(names@) =~= importable_names(entries@.take(0), overwrite));
    while i < entries.len()
        invariant
            i <= entries.len(),
            text::texts(names@) == importable_names(entries@.take(i as int), overwrite),
        decreases entries.len() - i,
    {
        assert(entries@.take(i + 1).drop_last() =~= entries@.take(i as int));
        let entry = &entries[i];
        if entry.is_dir && entry.has_skill_file && (!entry.installed || overwrite) {
            text::push_text(&mut names, entry.name.clone());
        }
        i += 1;
    }
    assert(entries@.take(i as int) =~= entries@);
    order::arrange_texts(names)
}

/// The directories that may be the root of a tool's package, in the order in which
/// they are tried.
pub open spec fn package_roots(
    explicit: Option<Seq<char>>,
    env_value: Option<Seq<char>>,
    current_dir: Option<Seq<char>>,
    node_modules_name: Seq<char>,
) -> Seq<Seq<char>> {
    let first = match explicit {
        Some(root) => seq![root],
        None => Seq::empty(),
    };
    let second = match env_value {
        Some(root) => if text::trim(root).len() > 0 {
            seq![root]
        } else {
            Seq::empty()
        },
        None => Seq::empty(),
    };
    let third = match current_dir {
        Some(dir) => seq![
            external_cli::path_below(
                external_cli::path_below(dir, "node_modules"@),
                node_modules_name,
            ),
        ],
        None => Seq::empty(),
    };
    first + second + third
}

/// The directories that may be the root of a tool's package: an explicit one, the
/// one that an environment variable names, and the one among the installed node
/// packages.
pub fn root_candidates(
    explicit: Option<&str>,
    env_value: Option<&str>,
    current_dir: Option<&str>,
    node_modules_name: &str,
) -> (r: Vec<String>)
    ensures
        text::texts(r@) == package_roots(
            text::opt_str(explicit),
            text::opt_str(env_value),
            text::opt_str(current_dir),
            node_modules_name@,
        ),
{
    let mut roots: Vec<String> = Vec::new();
    assert(text::texts(roots@) =~= Seq::<Seq<char>>::empty());
    if let Some(root) = explicit {
        text::push_text(&mut roots, root.to_owned());
    }
    if let Some(root) = env_value {
        let trimmed = text::trimmed(root);
        if !trimmed.as_str().is_empty() {
            text::push_text(&mut roots, root.to_owned());
        }
    }
    if let Some(dir) = current_dir {
        let modules = external_cli::join_path(dir, "node_modules");
        text::push_text(
            &mut roots,
            external_cli::join_path(modules.as_str(), node_modules_name),
        );
    }
    assert(text::texts(roots@) =~= package_roots(
        text::opt_str(explicit),
        text::opt_str(env_value),
        text::opt_str(current_dir),
        node_modules_name@,
    ));
    roots
}

/// The first of `roots` that has a directory of skills. `has_skills[i]` tells
/// whether the one at position `i` has.
pub fn find_root_with_skills(roots: &Vec<String>, has_skills: &Vec<bool>) -> (r: Option<String>)
    requires
        has_skills.len() == roots.len(),
    ensures
        match r {
            Some(root) => exists|i: int|
                0 <= i < roots.len() && has_skills[i] && root@ == roots[i]@ && forall|j: int|
                    0 <= j < i ==> !has_skills[j],
            None => forall|j: int| 0 <= j < roots.len() ==> !has_skills[j],
        },
{
    external_cli::find_binary(roots, has_skills)
}

/// A predicate on names answers `answer` for `name`.
pub open spec fn answers<F: Fn(&str) -> bool>(
    predicate: F,
    name: Seq<char>,
    answer: bool,
) -> bool {
    exists|s: &str| s@ == name && #[trigger] call_ensures(predicate, (s,), answer)
}

/// The number of skills among `entries` for which the answer is yes.
pub open spec fn chosen(entries: Seq<SkillEntry>, answered: Seq<bool>) -> nat
    decreases entries.len(),
{
    if entries.len() == 0 {
        0
    } else {
        chosen(entries.drop_last(), answered.drop_last()) + if entries.last().has_skill_file
            && answered.last() {
            1nat
        } else {
            0nat
        }
    }
}

/// The number of skills among `entries` whose name satisfies `predicate`.
pub fn count_skills_matching<F: Fn(&str) -> bool>(entries: &Vec<SkillEntry>, predicate: F) -> (r:
    usize)
    requires
        forall|s: &str| call_requires(predicate, (s,)),
    ensures
        exists|answered: Seq<bool>|
            {
                &&& answered.len() == entries.len()
                &&& r == #[trigger] chosen(entries@, answered)
                &&& forall|i: int|
                    0 <= i < entries.len() && (#[trigger] entries[i]).has_skill_file ==> answers(
                        predicate,
                        entries[i].name@,
                        answered[i],
                    )
            },
{
    let ghost mut answered: Seq<bool> = Seq::empty();
    let mut n: usize = 0;
    let mut i: usize = 0;
    while i < entries.len()
        invariant
            i <= entries.len(),
            n <= i,
            forall|s: &str| call_requires(predicate, (s,)),
            answered.len() == i,
            n == chosen(entries@.take(i as int), answered),
            forall|j: int|
                0 <= j < i && (#[trigger] entries[j]).has_skill_file ==> answers(
                    predicate,
                    entries[j].name@,
                    answered[j],
                ),
        decreases entries.len() - i,
    {
        let ghost before = answered;
        assert(entries@.take(i + 1).drop_last() =~= entries@.take(i as int));
        if entries[i].has_skill_file {
            let name = entries[i].name.as_str();
            let answer = predicate(name);
            assert(call_ensures(predicate, (name,), answer));
            assert(answers(predicate, entries[i as int].name@, answer));
            proof {
                answered = answered.push(answer);
            }
            if answer {
                n += 1;
            }
        } else {
            proof {
                answered = answered.push(false);
            }
        }
        assert(answered.drop_last() =~= before);
        i += 1;
    }
    assert(entries@.take(i as int) =~= entries@);
    assert(n == chosen(entries@, answered));
    n
}

/// How a yes-or-no fact is named.
pub open spec fn yes_or_no(value: bool) -> Seq<char> {
    if value {
        "yes"@
    } else {
        "no"@
    }
}

/// Names a yes-or-no fact.
pub fn yes_no(value: bool) -> (r: &'static str)
    ensures
        r@ == yes_or_no(value),
{
    if value {
        "yes"
    } else {
        "no"
    }
}

/// What an upsert leaves before the block and behind it.
spec fn surroundings(existing: Seq<char>, start: Seq<char>, end: Seq<char>) -> (
    Seq<char>,
    Seq<char>,
) {
    match marked_region(existing, start, end) {
        Some((from, to)) => (
            text::trim_end(existing.take(from)),
            text::trim_start(existing.skip(to)),
        ),
        None => if text::trim(existing).len() == 0 {
            (Seq::empty(), Seq::empty())
        } else {
            (text::trim_end(existing), Seq::empty())
        },
    }
}

proof fn lemma_upserted(existing: Seq<char>, block: Seq<char>, start: Seq<char>, end: Seq<char>)
    ensures
        ({
            let (front, rest) = surroundings(existing, start, end);
            upserted(existing, block, start, end) == paragraphs(front, block, rest)
        }),
{
    assert(paragraphs(Seq::empty(), block, Seq::empty()) =~= block);
}

/// The block is in the document afterwards.
pub proof fn law_block_is_present_after_upsert(
    existing: Seq<char>,
    block: Seq<char>,
    start: Seq<char>,
    end: Seq<char>,
)
    ensures
        text::contains(upserted(existing, block, start, end), block),
{
    let (front, rest) = surroundings(existing, start, end);
    lemma_upserted(existing, block, start, end);
    lemma_block_place(front, block, rest);
}

/// The place of the block among the paragraphs.
spec fn block_place(front: Seq<char>) -> int {
    if front.len() > 0 {
        front.len() as int + 2
    } else {
        0
    }
}

proof fn lemma_block_place(front: Seq<char>, block: Seq<char>, rest: Seq<char>)
    ensures
        text::occurs_at(paragraphs(front, block, rest), block, block_place(front)),
{
    reveal_strlit("\n\n");
    let after = paragraphs(front, block, rest);
    let p = block_place(front);
    assert(after.subrange(p, p + block.len()) =~= block);
}

/// A block is well formed for its markers: it begins with the one, which is a single
/// line, and ends with the first occurrence of the other. The two may overlap.
pub open spec fn is_marked(block: Seq<char>, start: Seq<char>, end: Seq<char>) -> bool {
    &&& start.len() > 0
    &&& !start.contains('\n')
    &&& text::occurs_at(block, start, 0)
    &&& text::first_occurs_at(block, end, block.len() - end.len())
}

/// A block that begins with the one marker, ends with the other and holds each once
/// is well formed for them.
pub proof fn law_marked_block_is_well_formed(block: Seq<char>, start: Seq<char>, end: Seq<char>)
    requires
        start.len() > 0,
        !start.contains('\n'),
        text::occurs_at(block, start, 0),
        text::occurs_at(block, end, block.len() - end.len()),
        stands_once(block, end),
    ensures
        is_marked(block, start, end),
{
    let k = choose|k: int|
        text::occurs_at(block, end, k) && forall|j: int|
            #[trigger] text::occurs_at(block, end, j) ==> j == k;
    assert(block.len() - end.len() == k);
}

/// Putting in the same block twice is the same as once.
pub proof fn law_upsert_is_idempotent(
    existing: Seq<char>,
    block: Seq<char>,
    start: Seq<char>,
    end: Seq<char>,
)
    requires
        is_marked(block, start, end),
        text::contains(existing, start) ==> marked_region(existing, start, end) is Some,
    ensures
        upserted(upserted(existing, block, start, end), block, start, end) == upserted(
            existing,
            block,
            start,
            end,
        ),
{
    let (front, rest) = surroundings(existing, start, end);
    let after = upserted(existing, block, start, end);
    lemma_upserted(existing, block, start, end);
    assert(front.len() > 0 ==> !text::white_space(front.last())) by {
        match marked_region(existing, start, end) {
            Some((from, _)) => text::lemma_trim_end_back(existing.take(from)),
            None => text::lemma_trim_end_back(existing),
        }
    }
    assert(rest.len() > 0 ==> !text::white_space(rest[0])) by {
        if let Some((_, to)) = marked_region(existing, start, end) {
            text::lemma_trim_start_front(existing.skip(to));
        }
    }
    lemma_front_is_free(existing, start, end);
    let p = block_place(front);
    lemma_first_in_paragraphs(front, block, rest, start, 0);
    text::lemma_find(after, start, p);
    let tail = after.skip(p);
    let e = block.len() - end.len();
    reveal_strlit("\n\n");
    assert(text::first_occurs_at(tail, end, e)) by {
        assert(tail.take(block.len() as int) =~= block);
        assert(tail.subrange(e, e + end.len()) =~= block.subrange(e, e + end.len()));
        assert forall|j: int| 0 <= j < e implies !text::occurs_at(tail, end, j) by {
            assert(tail.subrange(j, j + end.len()) =~= block.subrange(j, j + end.len()));
            assert(!text::occurs_at(block, end, j));
        }
    }
    text::lemma_find(tail, end, e);
    let behind = after.skip(p + block.len());
    let before = after.take(p);
    if front.len() > 0 {
        assert(before =~= front + "\n\n"@);
        lemma_trim_end_of_padded(front);
    } else {
        assert(before =~= Seq::<char>::empty());
    }
    if rest.len() > 0 {
        assert(behind =~= "\n\n"@ + rest);
        lemma_trim_start_of_padded(rest);
    } else {
        assert(behind =~= Seq::<char>::empty());
    }
    assert(marked_region(after, start, end) == Some((p, p + block.len())));
}

/// The text before the block holds no start marker.
proof fn lemma_front_is_free(existing: Seq<char>, start: Seq<char>, end: Seq<char>)
    requires
        start.len() > 0,
        text::contains(existing, start) ==> marked_region(existing, start, end) is Some,
    ensures
        !text::contains(surroundings(existing, start, end).0, start),
{
    let (front, _) = surroundings(existing, start, end);
    if text::contains(front, start) {
        let i = choose|i: int| text::occurs_at(front, start, i);
        assert(text::occurs_at(front, start, i));
        match marked_region(existing, start, end) {
            Some((from, _)) => {
                let w = choose|w: int| text::occurs_at(existing, start, w);
                let _ = text::lemma_first_occurrence(existing, start, w);
                text::lemma_trim_end_prefix(existing.take(from));
                assert(existing.subrange(i, i + start.len()) =~= front.subrange(
                    i,
                    i + start.len(),
                ));
                assert(text::occurs_at(existing, start, i));
            },
            None => {
                text::lemma_trim_end_prefix(existing);
                assert(existing.subrange(i, i + start.len()) =~= front.subrange(
                    i,
                    i + start.len(),
                ));
                assert(text::occurs_at(existing, start, i));
                assert(text::contains(existing, start));
            },
        }
    }
}

/// What is replaced is one region of the document: the text before it and the text
/// behind it do not overlap, so that nothing around the block is doubled.
pub proof fn law_nothing_around_is_doubled(existing: Seq<char>, start: Seq<char>, end: Seq<char>)
    ensures
        match marked_region(existing, start, end) {
            Some((from, to)) => {
                &&& 0 <= from
                &&& from + start.len() <= to
                &&& from + end.len() <= to
                &&& to <= existing.len()
            },
            None => true,
        },
{
    if let Some((from, to)) = marked_region(existing, start, end) {
        let w = choose|w: int| text::occurs_at(existing, start, w);
        let _ = text::lemma_first_occurrence(existing, start, w);
        let tail = existing.skip(from);
        let v = choose|v: int| text::occurs_at(tail, end, v);
        let _ = text::lemma_first_occurrence(tail, end, v);
    }
}

/// A marker stands in a text at one place and no other.
pub open spec fn stands_once(s: Seq<char>, marker: Seq<char>) -> bool {
    exists|i: int|
        text::occurs_at(s, marker, i) && forall|j: int|
            #[trigger] text::occurs_at(s, marker, j) ==> j == i
}

/// A start marker that the document does not hold, and the block holds once, stands
/// in the document once afterwards.
pub proof fn law_marker_stands_once(
    existing: Seq<char>,
    block: Seq<char>,
    start: Seq<char>,
    end: Seq<char>,
)
    requires
        start.len() > 0,
        !start.contains('\n'),
        !text::contains(existing, start),
        stands_once(block, start),
    ensures
        stands_once(upserted(existing, block, start, end), start),
{
    let k = choose|k: int|
        text::occurs_at(block, start, k) && forall|j: int|
            #[trigger] text::occurs_at(block, start, j) ==> j == k;
    let (front, rest) = surroundings(existing, start, end);
    let after = upserted(existing, block, start, end);
    lemma_upserted(existing, block, start, end);
    lemma_front_is_free(existing, start, end);
    assert(rest =~= Seq::<char>::empty());
    let p = block_place(front);
    let n = start.len() as int;
    lemma_first_in_paragraphs(front, block, rest, start, k);
    reveal_strlit("\n\n");
    assert(text::occurs_at(after, start, p + k));
    assert forall|j: int| #[trigger] text::occurs_at(after, start, j) implies j == p + k by {
        if j >= p {
            assert(after.subrange(j, j + n) =~= block.subrange(j - p, j - p + n));
            assert(text::occurs_at(block, start, j - p));
        }
    }
}

/// The first occurrence of a marker among the paragraphs is that in the block.
proof fn lemma_first_in_paragraphs(
    front: Seq<char>,
    block: Seq<char>,
    rest: Seq<char>,
    marker: Seq<char>,
    i: int,
)
    requires
        marker.len() > 0,
        !marker.contains('\n'),
        !text::contains(front, marker),
        text::first_occurs_at(block, marker, i),
    ensures
        text::first_occurs_at(paragraphs(front, block, rest), marker, block_place(front) + i),
{
    reveal_strlit("\n\n");
    let after = paragraphs(front, block, rest);
    let p = block_place(front);
    let n = marker.len() as int;
    assert(after.subrange(p + i, p + i + n) =~= block.subrange(i, i + n));
    assert forall|j: int| 0 <= j < p + i implies !text::occurs_at(after, marker, j) by {
        if text::occurs_at(after, marker, j) {
            if j >= p {
                assert(after.subrange(j, j + n) =~= block.subrange(j - p, j - p + n));
                assert(text::occurs_at(block, marker, j - p));
            } else if j + n <= front.len() {
                assert(after.subrange(j, j + n) =~= front.subrange(j, j + n));
                assert(text::occurs_at(front, marker, j));
            } else {
                // The marker would reach into the blank line.
                let k = if j <= front.len() {
                    front.len() as int
                } else {
                    j
                };
                assert(after[k] == '\n');
                assert(after.subrange(j, j + n)[k - j] == '\n');
                assert(marker[k - j] == '\n');
            }
        }
    }
}

proof fn lemma_trim_end_of_padded(front: Seq<char>)
    requires
        front.len() > 0,
        !text::white_space(front.last()),
    ensures
        text::trim_end(front + "\n\n"@) == front,
{
    reveal_strlit("\n\n");
    let padded = front + "\n\n"@;
    assert(padded.drop_last() =~= front.push('\n'));
    assert(padded.drop_last().drop_last() =~= front);
    assert(text::trim_end(padded) == text::trim_end(padded.drop_last()));
    assert(text::trim_end(padded.drop_last()) == text::trim_end(front));
}

proof fn lemma_trim_start_of_padded(rest: Seq<char>)
    requires
        rest.len() > 0,
        !text::white_space(rest[0]),
    ensures
        text::trim_start("\n\n"@ + rest) == rest,
{
    reveal_strlit("\n\n");
    let padded = "\n\n"@ + rest;
    assert(padded.drop_first() =~= seq!['\n'] + rest);
    assert(padded.drop_first().drop_first() =~= rest);
    assert(text::trim_start(padded) == text::trim_start(padded.drop_first()));
    assert(text::trim_start(padded.drop_first()) == text::trim_start(rest));
}

/// Once the block is in the document, asking for it again without overwriting
/// changes nothing.
pub proof fn law_ensured_block_stays(
    existing: Seq<char>,
    block: Seq<char>,
    start: Seq<char>,
    end: Seq<char>,
    overwrite: bool,
)
    requires
        text::contains(block, start),
    ensures
        match ensured(existing, block, start, end, overwrite) {
            Some(written) => ensured(written, block, start, end, false) is None,
            None => ensured(existing, block, start, end, false) is None,
        },
{
    if let Some(written) = ensured(existing, block, start, end, overwrite) {
        law_block_is_present_after_upsert(existing, block, start, end);
        let p = choose|p: int| text::occurs_at(written, block, p);
        let i = choose|i: int| text::occurs_at(block, start, i);
        let whole = written.subrange(p, p + block.len());
        assert(whole == block);
        assert(whole.subrange(i, i + start.len()) =~= written.subrange(p + i, p + i + start.len()));
        assert(text::occurs_at(written, start, p + i));
    }
}

/// The skills that are imported are sorted by name, and they are exactly the ones
/// that are to be imported.
pub proof fn law_imports_are_sorted(entries: Seq<SkillEntry>, overwrite: bool)
    ensures
        ({
            let names = importable_names(entries, overwrite);
            let imported = order::arranged(names, order::text_order());
            &&& order::in_order(imported, order::text_order())
            &&& imported.to_multiset() == names.to_multiset()
        }),
{
    let names = importable_names(entries, overwrite);
    order::lemma_text_order();
    order::law_arranged_is_in_order(names, order::text_order());
    order::law_arranged_keeps_items(names, order::text_order());
}

/// Skills that are imported already are not imported again, unless they are to be
/// overwritten.
pub proof fn law_import_is_not_repeated(entries: Seq<SkillEntry>)
    requires
        forall|i: int| 0 <= i < entries.len() ==> (#[trigger] entries[i]).installed,
    ensures
        importable_names(entries, false).len() == 0,
    decreases entries.len(),
{
    if entries.len() > 0 {
        assert(entries.last() == entries[entries.len() - 1]);
        law_import_is_not_repeated(entries.drop_last());
    }
}

/// A document that has no marked region, for want of a start marker or of an end
/// marker behind it, keeps all of its text: the block comes behind it, after a blank
/// line. Only white space at the document's end is left out, and a document of
/// nothing but white space.
pub proof fn law_a_new_block_keeps_the_document(
    existing: Seq<char>,
    block: Seq<char>,
    start: Seq<char>,
    end: Seq<char>,
)
    requires
        text::find(existing, start) matches Some(s) ==> text::find(existing.skip(s), end) is None,
    ensures
        (forall|i: int| 0 <= i < existing.len() ==> text::white_space(#[trigger] existing[i]))
            ==> upserted(existing, block, start, end) == block,
        forall|n: int|
            {
                &&& 0 < n <= existing.len()
                &&& !text::white_space(existing[n - 1])
                &&& forall|i: int|
                    n <= i < existing.len() ==> text::white_space(#[trigger] existing[i])
            } ==> upserted(existing, block, start, end) == #[trigger] existing.take(n) + "\n\n"@
                + block,
{
    text::law_trimming_keeps_the_middle(existing);
    text::law_only_white_space_leaves_the_end(existing);
    let kept = text::trim_end(existing);
    assert forall|n: int|
        {
            &&& 0 < n <= existing.len()
            &&& !text::white_space(existing[n - 1])
            &&& forall|i: int|
                n <= i < existing.len() ==> text::white_space(#[trigger] existing[i])
        } implies upserted(existing, block, start, end) == #[trigger] existing.take(n) + "\n\n"@
        + block by {
        text::lemma_trim_end_keeps(existing, n - 1);
        if kept.len() > n {
            assert(kept.last() == existing[kept.len() - 1]);
        }
        assert(kept =~= existing.take(n));
        lemma_not_empty_trimmed(existing, n - 1);
        assert(upserted(existing, block, start, end) =~= existing.take(n) + "\n\n"@ + block);
    }
}

/// What holds a character that is no white space is not blank.
proof fn lemma_not_empty_trimmed(s: Seq<char>, i: int)
    requires
        0 <= i < s.len(),
        !text::white_space(s[i]),
    ensures
        text::trim(s).len() > 0,
{
    text::law_only_white_space_leaves_the_front(s);
    let front = text::trim_start(s);
    let n = s.len() - front.len();
    assert(front[i - n] == s[i]);
    text::lemma_trim_end_keeps(front, i - n);
}

/// Where a document has a marked region, from the first start marker to the first
/// end marker that does not begin before it, the text in front of the region and the
/// text behind it both stay, with the block between them. Only white space next to
/// the region is left out; a blank line takes its place where there is text.
pub proof fn law_a_replaced_block_keeps_the_document(
    existing: Seq<char>,
    block: Seq<char>,
    start: Seq<char>,
    end: Seq<char>,
    s: int,
    e: int,
)
    requires
        0 <= s <= e,
        s + start.len() <= existing.len(),
        e + end.len() <= existing.len(),
        existing.subrange(s, s + start.len()) == start,
        existing.subrange(e, e + end.len()) == end,
        forall|i: int| 0 <= i < s ==> #[trigger] existing.subrange(i, i + start.len()) != start,
        forall|i: int| s <= i < e ==> #[trigger] existing.subrange(i, i + end.len()) != end,
    ensures
        exists|n: int, m: int|
            {
                &&& 0 <= n <= s
                &&& s + start.len() <= m <= existing.len()
                &&& e + end.len() <= m
                &&& forall|i: int| n <= i < s ==> text::white_space(#[trigger] existing[i])
                &&& forall|i: int|
                    s + start.len() <= i < m && e + end.len() <= i ==> text::white_space(
                        #[trigger] existing[i],
                    )
                &&& n > 0 ==> !text::white_space(existing[n - 1])
                &&& m < existing.len() ==> !text::white_space(existing[m])
                &&& upserted(existing, block, start, end) == (if n > 0 {
                    #[trigger] existing.take(n) + "\n\n"@
                } else {
                    Seq::empty()
                }) + block + (if m < existing.len() {
                    "\n\n"@ + #[trigger] existing.skip(m)
                } else {
                    Seq::empty()
                })
            },
{
    lemma_region(existing, start, end, s, e);
    let to = if e + end.len() < s + start.len() {
        s + start.len()
    } else {
        e + end.len()
    };
    let front = existing.take(s);
    let behind = existing.skip(to);
    text::law_only_white_space_leaves_the_end(front);
    text::law_only_white_space_leaves_the_front(behind);
    let n = text::trim_end(front).len() as int;
    let m = existing.len() - text::trim_start(behind).len();
    assert(text::trim_end(front) =~= existing.take(n));
    assert(text::trim_start(behind) =~= existing.skip(m)) by {
        assert(behind =~= behind.take(m - to) + text::trim_start(behind));
        assert(behind.skip(m - to) =~= text::trim_start(behind));
    }
    assert forall|i: int| n <= i < s implies text::white_space(#[trigger] existing[i]) by {
        assert(front[i] == existing[i]);
    }
    assert forall|i: int|
        s + start.len() <= i < m && e + end.len() <= i implies text::white_space(
        #[trigger] existing[i],
    ) by {
        assert(behind[i - to] == existing[i]);
    }
    assert(upserted(existing, block, start, end) =~= (if n > 0 {
        existing.take(n) + "\n\n"@
    } else {
        Seq::empty()
    }) + block + (if m < existing.len() {
        "\n\n"@ + existing.skip(m)
    } else {
        Seq::empty()
    }));
}

/// The first start marker and the first end marker that does not begin before it
/// make the marked region.
proof fn lemma_region(existing: Seq<char>, start: Seq<char>, end: Seq<char>, s: int, e: int)
    requires
        0 <= s <= e,
        s + start.len() <= existing.len(),
        e + end.len() <= existing.len(),
        existing.subrange(s, s + start.len()) == start,
        existing.subrange(e, e + end.len()) == end,
        forall|i: int| 0 <= i < s ==> #[trigger] existing.subrange(i, i + start.len()) != start,
        forall|i: int| s <= i < e ==> #[trigger] existing.subrange(i, i + end.len()) != end,
    ensures
        marked_region(existing, start, end) == Some(
            (
                s,
                if e + end.len() < s + start.len() {
                    s + start.len()
                } else {
                    e + end.len()
                },
            ),
        ),
{
    let tail = existing.skip(s);
    assert(text::first_occurs_at(existing, start, s)) by {
        assert forall|i: int| 0 <= i < s implies !text::occurs_at(existing, start, i) by {
            if i + start.len() <= existing.len() {
                assert(existing.subrange(i, i + start.len()) != start);
            }
        }
    }
    text::lemma_find(existing, start, s);
    assert(text::first_occurs_at(tail, end, e - s)) by {
        assert(tail.subrange(e - s, e - s + end.len()) =~= existing.subrange(e, e + end.len()));
        assert forall|i: int| 0 <= i < e - s implies !text::occurs_at(tail, end, i) by {
            if i + end.len() <= tail.len() {
                assert(tail.subrange(i, i + end.len()) =~= existing.subrange(
                    s + i,
                    s + i + end.len(),
                ));
                assert(existing.subrange(s + i, s + i + end.len()) != end);
            }
        }
    }
    text::lemma_find(tail, end, e - s);
}

/// White space has nothing but white space in it.
proof fn lemma_only_white(s: Seq<char>)
    requires
        forall|i: int| 0 <= i < s.len() ==> text::white_space(#[trigger] s[i]),
    ensures
        s.filter(|c: char| !text::white_space(c)).len() == 0,
    decreases s.len(),
{
    reveal(Seq::filter);
    if s.len() > 0 {
        assert(text::white_space(s[s.len() - 1]));
        assert forall|i: int| 0 <= i < s.len() - 1 implies text::white_space(
            #[trigger] s.drop_last()[i],
        ) by {
            assert(s.drop_last()[i] == s[i]);
        }
        lemma_only_white(s.drop_last());
    }
}

proof fn lemma_trimmed_text(s: Seq<char>)
    ensures
        text::trim_end(s).filter(|c: char| !text::white_space(c)) == s.filter(
            |c: char| !text::white_space(c),
        ),
        text::trim_start(s).filter(|c: char| !text::white_space(c)) == s.filter(
            |c: char| !text::white_space(c),
        ),
{
    let dark = |c: char| !text::white_space(c);
    text::law_only_white_space_leaves_the_end(s);
    text::law_only_white_space_leaves_the_front(s);
    let k = text::trim_end(s).len() as int;
    let n = s.len() - text::trim_start(s).len();
    lemma_only_white(s.skip(k));
    lemma_only_white(s.take(n));
    Seq::filter_distributes_over_add(text::trim_end(s), s.skip(k), dark);
    Seq::filter_distributes_over_add(s.take(n), text::trim_start(s), dark);
    assert(text::trim_end(s).filter(dark) + s.skip(k).filter(dark) =~= text::trim_end(s).filter(
        dark,
    ));
    assert(s.take(n).filter(dark) + text::trim_start(s).filter(dark) =~= text::trim_start(
        s,
    ).filter(dark));
}

proof fn lemma_paragraphs_text(front: Seq<char>, block: Seq<char>, rest: Seq<char>)
    ensures
        paragraphs(front, block, rest).filter(|c: char| !text::white_space(c)) == front.filter(
            |c: char| !text::white_space(c),
        ) + block.filter(|c: char| !text::white_space(c)) + rest.filter(
            |c: char| !text::white_space(c),
        ),
{
    let dark = |c: char| !text::white_space(c);
    reveal_strlit("\n\n");
    let before = if front.len() > 0 {
        front + "\n\n"@
    } else {
        Seq::empty()
    };
    let after = if rest.len() > 0 {
        "\n\n"@ + rest
    } else {
        Seq::empty()
    };
    lemma_only_white("\n\n"@);
    Seq::filter_distributes_over_add(front, "\n\n"@, dark);
    Seq::filter_distributes_over_add("\n\n"@, rest, dark);
    Seq::filter_distributes_over_add(before + block, after, dark);
    Seq::filter_distributes_over_add(before, block, dark);
    if front.len() == 0 {
        assert(front =~= Seq::<char>::empty());
    }
    if rest.len() == 0 {
        assert(rest =~= Seq::<char>::empty());
    }
    assert(before.filter(dark) =~= front.filter(dark));
    assert(after.filter(dark) =~= rest.filter(dark));
}

/// Nothing but white space is ever lost around a marked region, and nothing is added
/// but the block: of the characters that are no white space, those in front of the
/// region, those of the block and those behind the region stand in the result, in
/// this order. Without a region they are those of the document and those of the block.
pub proof fn law_no_text_is_lost(
    existing: Seq<char>,
    block: Seq<char>,
    start: Seq<char>,
    end: Seq<char>,
)
    ensures
        ({
            let dark = |c: char| !text::white_space(c);
            let result = upserted(existing, block, start, end);
            match text::find(existing, start) {
                Some(s) => match text::find(existing.skip(s), end) {
                    Some(e) => {
                        let to = if e + end.len() < start.len() {
                            s + start.len()
                        } else {
                            s + e + end.len()
                        };
                        result.filter(dark) == existing.take(s).filter(dark) + block.filter(dark)
                            + existing.skip(to).filter(dark)
                    },
                    None => result.filter(dark) == existing.filter(dark) + block.filter(dark),
                },
                None => result.filter(dark) == existing.filter(dark) + block.filter(dark),
            }
        }),
{
    let dark = |c: char| !text::white_space(c);
    match marked_region(existing, start, end) {
        Some((from, to)) => {
            lemma_trimmed_text(existing.take(from));
            lemma_trimmed_text(existing.skip(to));
            lemma_paragraphs_text(
                text::trim_end(existing.take(from)),
                block,
                text::trim_start(existing.skip(to)),
            );
        },
        None => {
            lemma_trimmed_text(existing);
            lemma_trimmed_text(text::trim_start(existing));
            if text::trim(existing).len() == 0 {
                assert(text::trim(existing) =~= Seq::<char>::empty());
                reveal(Seq::filter);
                assert(existing.filter(dark) == text::trim(existing).filter(dark));
                assert(existing.filter(dark) =~= Seq::<char>::empty());
                assert(existing.filter(dark) + block.filter(dark) =~= block.filter(dark));
            } else {
                lemma_paragraphs_text(text::trim_end(existing), block, Seq::empty());
                assert(Seq::<char>::empty().filter(dark) =~= Seq::<char>::empty()) by {
                    reveal(Seq::filter);
                }
                assert(existing.filter(dark) + block.filter(dark) + Seq::<char>::empty()
                    =~= existing.filter(dark) + block.filter(dark));
            }
        },
    }
}

/// A block that is there is replaced only where that is asked for; one that is not
/// there is put in either way.
pub proof fn law_only_overwriting_replaces(
    existing: Seq<char>,
    block: Seq<char>,
    start: Seq<char>,
    end: Seq<char>,
    overwrite: bool,
)
    ensures
        ensured(existing, block, start, end, overwrite) is None <==> !overwrite && exists|i: int|
            0 <= i && i + start.len() <= existing.len() && #[trigger] existing.subrange(
                i,
                i + start.len(),
            ) == start,
        ensured(existing, block, start, end, overwrite) is Some ==> ensured(
            existing,
            block,
            start,
            end,
            overwrite,
        ) == Some(upserted(existing, block, start, end)),
{
    if text::contains(existing, start) {
        let i = choose|i: int| text::occurs_at(existing, start, i);
        assert(existing.subrange(i, i + start.len()) == start);
    }
    if exists|i: int|
        0 <= i && i + start.len() <= existing.len() && #[trigger] existing.subrange(
            i,
            i + start.len(),
        ) == start {
        let i = choose|i: int|
            0 <= i && i + start.len() <= existing.len() && #[trigger] existing.subrange(
                i,
                i + start.len(),
            ) == start;
        assert(text::occurs_at(existing, start, i));
    }
}

/// Imported are the names of just those directories that hold a skill and are not
/// there yet or are to be overwritten, each as often as it stands among the entries.
pub proof fn law_every_new_skill_is_imported(entries: Seq<SkillEntry>, overwrite: bool)
    ensures
        importable_names(entries, overwrite) == entries.filter(
            |e: SkillEntry| e.is_dir && e.has_skill_file && (!e.installed || overwrite),
        ).map_values(|e: SkillEntry| e.name@),
    decreases entries.len(),
{
    let wanted = |e: SkillEntry| e.is_dir && e.has_skill_file && (!e.installed || overwrite);
    let name = |e: SkillEntry| e.name@;
    reveal(Seq::filter);
    if entries.len() > 0 {
        law_every_new_skill_is_imported(entries.drop_last(), overwrite);
        let before = entries.drop_last().filter(wanted);
        assert(before.push(entries.last()).map_values(name) =~= before.map_values(name).push(
            entries.last().name@,
        ));
    }
    assert(importable_names(entries, overwrite) =~= entries.filter(wanted).map_values(name));
}

/// A skill is counted where the answer for its name is yes, and nothing else is.
pub proof fn law_every_chosen_skill_counts(entries: Seq<SkillEntry>, answered: Seq<bool>)
    requires
        answered.len() == entries.len(),
    ensures
        chosen(entries, answered) == entries.zip_with(answered).filter(
            |pair: (SkillEntry, bool)| pair.0.has_skill_file && pair.1,
        ).len(),
    decreases entries.len(),
{
    reveal(Seq::filter);
    let pairs = entries.zip_with(answered);
    if entries.len() > 0 {
        law_every_chosen_skill_counts(entries.drop_last(), answered.drop_last());
        assert(pairs.drop_last() =~= entries.drop_last().zip_with(answered.drop_last()));
        assert(pairs.last() == (entries.last(), answered.last()));
    }
}

/// The root of a package is looked for where an explicit root says, then where the
/// environment says, unless that is blank, and then among the installed node packages
/// of the current directory.
pub proof fn law_where_a_package_is_looked_for(
    explicit: Option<Seq<char>>,
    env_value: Option<Seq<char>>,
    current_dir: Option<Seq<char>>,
    name: Seq<char>,
)
    ensures
        ({
            let roots = package_roots(explicit, env_value, current_dir, name);
            let e: int = if explicit is Some {
                1
            } else {
                0
            };
            let v: int = if env_value is Some && text::trim(env_value->0).len() > 0 {
                1
            } else {
                0
            };
            let d: int = if current_dir is Some {
                1
            } else {
                0
            };
            &&& roots.len() == e + v + d
            &&& e == 1 ==> roots[0] == explicit->0
            &&& v == 1 ==> roots[e] == env_value->0
            &&& d == 1 && current_dir->0.len() > 0 && current_dir->0.last() != '/' && name.len() > 0
                && name[0] != '/' ==> roots[e + v] == current_dir->0 + "/node_modules/"@ + name
        }),
{
    reveal_strlit("node_modules");
    reveal_strlit("/node_modules/");
    let roots = package_roots(explicit, env_value, current_dir, name);
    if current_dir is Some && current_dir->0.len() > 0 && current_dir->0.last() != '/' && name.len()
        > 0 && name[0] != '/' {
        let dir = current_dir->0;
        let modules = external_cli::path_below(dir, "node_modules"@);
        assert(modules.last() == 's');
        assert(external_cli::path_below(modules, name) =~= dir + "/node_modules/"@ + name);
    }
}

} // verus!
