//! The garden: a worklist for tending a memory graph.
//!
//! The worklist names memories that are likely duplicates of each other, similar
//! memories that nothing relates yet, and memories to prune. It changes no graph.

use vstd::prelude::*;

use super::float;
use crate::order;
use crate::order::Ranked;
use crate::text;

verus! {

/// 0.95: from here on two memories count as duplicates.
pub const DEDUP_SIMILARITY_THRESHOLD: u32 = 0x3F73_3333;

/// 0.78: from here on two memories count as similar.
pub const RELATIONSHIP_SIMILARITY_THRESHOLD: u32 = 0x3F47_AE14;

/// 0.05: below it, confidence counts as low.
pub const PRUNE_CONFIDENCE_THRESHOLD: u32 = 0x3D4C_CCCD;

/// The strength up to which a memory counts as weakly reinforced.
pub const WEAK_STRENGTH: u32 = 1;

/// The number of candidates that one graph contributes at most.
pub const MAX_CANDIDATES_PER_SCOPE: usize = 40;

/// What a candidate proposes.
#[derive(Debug, Clone, Copy, PartialEq, Eq, Structural)]
pub enum GardenCandidateKind {
    Deduplicate,
    Relate,
    Prune,
}

/// A proposal for tending the graph.
#[derive(Debug, Clone, PartialEq)]
pub struct MemoryGardenCandidate {
    pub kind: GardenCandidateKind,
    pub scope: String,
    pub primary_id: String,
    pub secondary_id: Option<String>,
    pub score_bits: u32,
    pub centrality_bits: u32,
    pub reason: String,
}

/// What a [`MemoryGardenCandidate`] means.
pub struct CandidateView {
    pub kind: GardenCandidateKind,
    pub scope: Seq<char>,
    pub primary_id: Seq<char>,
    pub secondary_id: Option<Seq<char>>,
    pub score_bits: u32,
    pub centrality_bits: u32,
    pub reason: Seq<char>,
}

impl View for MemoryGardenCandidate {
    type V = CandidateView;

    open spec fn view(&self) -> CandidateView {
        CandidateView {
            kind: self.kind,
            scope: self.scope@,
            primary_id: self.primary_id@,
            secondary_id: text::opt_text(self.secondary_id),
            score_bits: self.score_bits,
            centrality_bits: self.centrality_bits,
            reason: self.reason@,
        }
    }
}

/// What a list of candidates means.
pub open spec fn candidates_view(candidates: Seq<MemoryGardenCandidate>) -> Seq<CandidateView> {
    Seq::new(candidates.len(), |i: int| candidates[i]@)
}

/// How central a memory is in its graph.
#[derive(Debug, Clone, PartialEq)]
pub struct MemoryGraphScore {
    pub id: String,
    pub centrality_bits: u32,
}

/// What a list of scores means.
pub open spec fn scores_view(scores: Seq<MemoryGraphScore>) -> Seq<(Seq<char>, u32)> {
    Seq::new(scores.len(), |i: int| (scores[i].id@, scores[i].centrality_bits))
}

/// A memory, as far as the garden looks at it.
#[derive(Debug)]
pub struct MemoryEntry {
    pub id: String,
    pub active: bool,
    /// How often the memory was reinforced.
    pub strength: u32,
    /// The effective confidence.
    pub confidence_bits: u32,
    /// One minus the effective confidence.
    pub doubt_bits: u32,
    /// The length of the embedding, where the memory has one.
    pub embedding_len: Option<usize>,
}

/// What a [`MemoryEntry`] means.
pub struct MemoryView {
    pub id: Seq<char>,
    pub active: bool,
    pub strength: u32,
    pub confidence_bits: u32,
    pub doubt_bits: u32,
    pub embedding_len: Option<usize>,
}

impl View for MemoryEntry {
    type V = MemoryView;

    open spec fn view(&self) -> MemoryView {
        MemoryView {
            id: self.id@,
            active: self.active,
            strength: self.strength,
            confidence_bits: self.confidence_bits,
            doubt_bits: self.doubt_bits,
            embedding_len: self.embedding_len,
        }
    }
}

/// What an edge of the graph says.
#[derive(Debug, Clone, Copy, PartialEq, Eq, Structural)]
pub enum EdgeKind {
    RelatesTo,
    Other,
}

/// An edge of the graph.
#[derive(Debug)]
pub struct MemoryEdge {
    pub source: String,
    pub target: String,
    pub kind: EdgeKind,
}

/// A memory graph, as far as the garden looks at it.
#[derive(Debug)]
pub struct MemoryGraph {
    pub memories: Vec<MemoryEntry>,
    pub edges: Vec<MemoryEdge>,
}

/// What a [`MemoryGraph`] means.
pub struct GraphView {
    pub memories: Seq<MemoryView>,
    pub edges: Seq<(Seq<char>, Seq<char>, EdgeKind)>,
}

impl View for MemoryGraph {
    type V = GraphView;

    open spec fn view(&self) -> GraphView {
        GraphView {
            memories: Seq::new(self.memories@.len(), |i: int| self.memories@[i]@),
            edges: Seq::new(
                self.edges@.len(),
                |i: int| (self.edges@[i].source@, self.edges@[i].target@, self.edges@[i].kind),
            ),
        }
    }
}

/// The place of a kind among the candidates: lower ones come first.
pub open spec fn priority(kind: GardenCandidateKind) -> int {
    match kind {
        GardenCandidateKind::Deduplicate => 0,
        GardenCandidateKind::Prune => 1,
        GardenCandidateKind::Relate => 2,
    }
}

/// The order of optional texts: none comes first.
pub open spec fn optional_le(a: Option<Seq<char>>, b: Option<Seq<char>>) -> bool {
    match (a, b) {
        (None, _) => true,
        (Some(_), None) => false,
        (Some(x), Some(y)) => text::lex_le(x, y),
    }
}

/// `a` may stand before `b` in the worklist: by kind, then the more central one,
/// then the one with the higher score, then by the memories' names.
pub open spec fn candidate_le(a: CandidateView, b: CandidateView) -> bool {
    let (ca, cb) = (float::total_rank(a.centrality_bits), float::total_rank(b.centrality_bits));
    let (sa, sb) = (float::total_rank(a.score_bits), float::total_rank(b.score_bits));
    if priority(a.kind) != priority(b.kind) {
        priority(a.kind) < priority(b.kind)
    } else if ca != cb {
        ca > cb
    } else if sa != sb {
        sa > sb
    } else if a.primary_id != b.primary_id {
        text::lex_le(a.primary_id, b.primary_id)
    } else {
        optional_le(a.secondary_id, b.secondary_id)
    }
}

/// The order of the worklist.
pub open spec fn worklist_order() -> spec_fn(CandidateView, CandidateView) -> bool {
    |a: CandidateView, b: CandidateView| candidate_le(a, b)
}

/// The centrality of the memory `id`: the last one given for it, or zero.
pub open spec fn centrality_of(scores: Seq<(Seq<char>, u32)>, id: Seq<char>) -> u32
    decreases scores.len(),
{
    if scores.len() == 0 {
        0
    } else if scores.last().0 == id {
        scores.last().1
    } else {
        centrality_of(scores.drop_last(), id)
    }
}

/// A memory is to be pruned: it is inactive, or confidence in it is low and it is
/// weakly reinforced.
pub open spec fn prunable(memory: MemoryView) -> bool {
    ||| !memory.active
    ||| float::less_than(memory.confidence_bits, PRUNE_CONFIDENCE_THRESHOLD) && memory.strength
        <= WEAK_STRENGTH
}

/// The candidate that proposes to prune `memory`.
pub open spec fn prune_candidate(
    scope: Seq<char>,
    scores: Seq<(Seq<char>, u32)>,
    memory: MemoryView,
) -> CandidateView {
    CandidateView {
        kind: GardenCandidateKind::Prune,
        scope,
        primary_id: memory.id,
        secondary_id: None,
        score_bits: memory.doubt_bits,
        centrality_bits: centrality_of(scores, memory.id),
        reason: if memory.active {
            "low effective confidence and weak reinforcement"@
        } else {
            "inactive or superseded memory"@
        },
    }
}

/// The candidates that propose to prune one of `memories`.
pub open spec fn prune_candidates(
    scope: Seq<char>,
    scores: Seq<(Seq<char>, u32)>,
    memories: Seq<MemoryView>,
) -> Seq<CandidateView>
    decreases memories.len(),
{
    if memories.len() == 0 {
        Seq::empty()
    } else {
        let before = prune_candidates(scope, scores, memories.drop_last());
        if prunable(memories.last()) {
            before.push(prune_candidate(scope, scores, memories.last()))
        } else {
            before
        }
    }
}

/// The positions of the active memories that have an embedding.
pub open spec fn embedded_positions(memories: Seq<MemoryView>) -> Seq<int>
    decreases memories.len(),
{
    if memories.len() == 0 {
        Seq::empty()
    } else {
        let before = embedded_positions(memories.drop_last());
        if memories.last().active && memories.last().embedding_len is Some {
            before.push(memories.len() - 1)
        } else {
            before
        }
    }
}

/// The order of positions by the names of the memories there.
pub open spec fn order_by_id(memories: Seq<MemoryView>) -> spec_fn(int, int) -> bool {
    |a: int, b: int| text::lex_le(memories[a].id, memories[b].id)
}

/// The positions of the active memories that have an embedding, by name.
pub open spec fn positions_by_id(memories: Seq<MemoryView>) -> Seq<int> {
    order::arranged(embedded_positions(memories), order_by_id(memories))
}

/// The pairs of `positions`, from those of the place `i` with the place `j` on,
/// whose embeddings have the same length.
pub open spec fn pairs_from(
    memories: Seq<MemoryView>,
    positions: Seq<int>,
    i: int,
    j: int,
) -> Seq<(int, int)>
    decreases positions.len() - i, positions.len() - j,
{
    if i >= positions.len() {
        Seq::empty()
    } else if j >= positions.len() {
        pairs_from(memories, positions, i + 1, i + 2)
    } else {
        let rest = pairs_from(memories, positions, i, j + 1);
        let (p, q) = (positions[i], positions[j]);
        if memories[p].embedding_len == memories[q].embedding_len {
            seq![(p, q)] + rest
        } else {
            rest
        }
    }
}

/// The pairs of memories whose similarity matters, as positions in the graph: the
/// first of a pair comes first by name.
pub open spec fn similar_pairs(memories: Seq<MemoryView>) -> Seq<(int, int)> {
    pairs_from(memories, positions_by_id(memories), 0, 1)
}

/// Some edge relates the memories `a` and `b`, in either direction.
pub open spec fn related(edges: Seq<(Seq<char>, Seq<char>, EdgeKind)>, a: Seq<char>, b: Seq<char>)
    -> bool {
    exists|i: int|
        0 <= i < edges.len() && (#[trigger] edges[i]).2 == EdgeKind::RelatesTo && ((edges[i].0
            == a && edges[i].1 == b) || (edges[i].0 == b && edges[i].1 == a))
}

/// The candidate, if any, for two memories of the given similarity.
pub open spec fn pair_candidate(
    scope: Seq<char>,
    scores: Seq<(Seq<char>, u32)>,
    graph: GraphView,
    pair: (int, int),
    similarity: u32,
) -> Option<CandidateView> {
    let a = graph.memories[pair.0].id;
    let b = graph.memories[pair.1].id;
    let kind_and_reason = if float::at_least(similarity, DEDUP_SIMILARITY_THRESHOLD) {
        Some(
            (
                GardenCandidateKind::Deduplicate,
                "embedding similarity exceeds dedup threshold"@,
            ),
        )
    } else if float::at_least(similarity, RELATIONSHIP_SIMILARITY_THRESHOLD) && !related(
        graph.edges,
        a,
        b,
    ) {
        Some(
            (
                GardenCandidateKind::Relate,
                "similar active memories are not explicitly related"@,
            ),
        )
    } else {
        None
    };
    match kind_and_reason {
        Some((kind, reason)) => Some(
            CandidateView {
                kind,
                scope,
                primary_id: a,
                secondary_id: Some(b),
                score_bits: similarity,
                centrality_bits: float::greater_of(
                    centrality_of(scores, a),
                    centrality_of(scores, b),
                ),
                reason,
            },
        ),
        None => None,
    }
}

/// The candidates for pairs of memories of the given similarities.
pub open spec fn pair_candidates(
    scope: Seq<char>,
    scores: Seq<(Seq<char>, u32)>,
    graph: GraphView,
    pairs: Seq<(int, int)>,
    similarities: Seq<u32>,
) -> Seq<CandidateView>
    decreases pairs.len(),
{
    if pairs.len() == 0 {
        Seq::empty()
    } else {
        let before = pair_candidates(
            scope,
            scores,
            graph,
            pairs.drop_last(),
            similarities.drop_last(),
        );
        match pair_candidate(scope, scores, graph, pairs.last(), similarities.last()) {
            Some(candidate) => before.push(candidate),
            None => before,
        }
    }
}

/// The first `n` items of `s`, or all where there are fewer.
pub open spec fn at_most(s: Seq<CandidateView>, n: int) -> Seq<CandidateView> {
    if s.len() <= n {
        s
    } else {
        s.take(n)
    }
}

/// The worklist of one graph. `similarities` are those of the graph's
/// [`similar_pairs`].
pub open spec fn graph_worklist(
    scope: Seq<char>,
    graph: GraphView,
    scores: Seq<(Seq<char>, u32)>,
    similarities: Seq<u32>,
) -> Seq<CandidateView> {
    at_most(
        order::arranged(
            prune_candidates(scope, scores, graph.memories) + pair_candidates(
                scope,
                scores,
                graph,
                similar_pairs(graph.memories),
                similarities,
            ),
            worklist_order(),
        ),
        MAX_CANDIDATES_PER_SCOPE as int,
    )
}

/// The place of a kind among the candidates.
pub fn candidate_priority(kind: GardenCandidateKind) -> (r: u8)
    ensures
        r == priority(kind),
{
    match kind {
        GardenCandidateKind::Deduplicate => 0,
        GardenCandidateKind::Prune => 1,
        GardenCandidateKind::Relate => 2,
    }
}

impl Ranked for MemoryGardenCandidate {
    open spec fn not_after(&self, other: &Self) -> bool {
        candidate_le(self@, other@)
    }

    fn ranks_before(&self, other: &Self) -> (r: bool) {
        let (pa, pb) = (candidate_priority(self.kind), candidate_priority(other.kind));
        if pa != pb {
            return pa < pb;
        }
        let ca = float::total_rank_of(self.centrality_bits);
        let cb = float::total_rank_of(other.centrality_bits);
        if ca != cb {
            return ca > cb;
        }
        let sa = float::total_rank_of(self.score_bits);
        let sb = float::total_rank_of(other.score_bits);
        if sa != sb {
            return sa > sb;
        }
        if !text::same(self.primary_id.as_str(), other.primary_id.as_str()) {
            return text::in_order(self.primary_id.as_str(), other.primary_id.as_str());
        }
        match (&self.secondary_id, &other.secondary_id) {
            (None, _) => true,
            (Some(_), None) => false,
            (Some(x), Some(y)) => text::in_order(x.as_str(), y.as_str()),
        }
    }
}

/// A memory's position, with its name.
struct Placed {
    position: usize,
    id: String,
}

impl Ranked for Placed {
    closed spec fn not_after(&self, other: &Self) -> bool {
        text::lex_le(self.id@, other.id@)
    }

    fn ranks_before(&self, other: &Self) -> (r: bool) {
        text::in_order(self.id.as_str(), other.id.as_str())
    }
}

/// Whether a memory is to be pruned.
pub fn should_prune(memory: &MemoryEntry) -> (r: bool)
    ensures
        r == prunable(memory@),
{
    !memory.active || (float::is_less_than(memory.confidence_bits, PRUNE_CONFIDENCE_THRESHOLD)
        && memory.strength <= WEAK_STRENGTH)
}

/// Whether some edge relates the memories `a` and `b`, in either direction.
pub fn has_relates_edge(graph: &MemoryGraph, a: &str, b: &str) -> (r: bool)
    ensures
        r == related(graph@.edges, a@, b@),
{
    let ghost edges = graph@.edges;
    let mut i: usize = 0;
    while i < graph.edges.len()
        invariant
            i <= graph.edges.len(),
            edges == graph@.edges,
            forall|j: int|
                0 <= j < i ==> !((#[trigger] edges[j]).2 == EdgeKind::RelatesTo && ((edges[j].0
                    == a@ && edges[j].1 == b@) || (edges[j].0 == b@ && edges[j].1 == a@))),
        decreases graph.edges.len() - i,
    {
        let edge = &graph.edges[i];
        if edge.kind == EdgeKind::RelatesTo {
            let source = edge.source.as_str();
            let target = edge.target.as_str();
            let forth = text::same(source, a) && text::same(target, b);
            let back = text::same(source, b) && text::same(target, a);
            if forth || back {
                assert(edges[i as int].2 == EdgeKind::RelatesTo);
                return true;
            }
        }
        i += 1;
    }
    false
}

/// The centrality of the memory `id`.
fn find_centrality(scores: &Vec<MemoryGraphScore>, id: &str) -> (r: u32)
    ensures
        r == centrality_of(scores_view(scores@), id@),
{
    let ghost all = scores_view(scores@);
    let mut i: usize = scores.len();
    assert(all.take(i as int) =~= all);
    while i > 0
        invariant
            i <= scores.len(),
            all == scores_view(scores@),
            centrality_of(all, id@) == centrality_of(all.take(i as int), id@),
        decreases i,
    {
        assert(all.take(i as int).drop_last() =~= all.take(i - 1));
        if text::same(scores[i - 1].id.as_str(), id) {
            return scores[i - 1].centrality_bits;
        }
        i -= 1;
    }
    0
}

/// A copy of a list of scores.
fn copy_scores(scores: &Vec<MemoryGraphScore>) -> (r: Vec<MemoryGraphScore>)
    ensures
        scores_view(r@) == scores_view(scores@),
{
    let mut out: Vec<MemoryGraphScore> = Vec::new();
    let mut i: usize = 0;
    while i < scores.len()
        invariant
            i <= scores.len(),
            out.len() == i,
            forall|j: int|
                0 <= j < i ==> (#[trigger] out[j]).id@ == scores[j].id@ && out[j].centrality_bits
                    == scores[j].centrality_bits,
        decreases scores.len() - i,
    {
        out.push(
            MemoryGraphScore {
                id: scores[i].id.clone(),
                centrality_bits: scores[i].centrality_bits,
            },
        );
        i += 1;
    }
    assert(scores_view(out@) =~= scores_view(scores@));
    out
}

/// Pairs of positions as integers.
pub open spec fn pairs_view(pairs: Seq<(usize, usize)>) -> Seq<(int, int)> {
    Seq::new(pairs.len(), |i: int| (pairs[i].0 as int, pairs[i].1 as int))
}

/// The positions of the active memories that have an embedding, by name.
fn embedded_by_id(graph: &MemoryGraph) -> (r: Vec<usize>)
    ensures
        Seq::new(r@.len(), |i: int| r@[i] as int) == positions_by_id(graph@.memories),
        forall|i: int| 0 <= i < r.len() ==> (#[trigger] r[i]) < graph.memories.len(),
{
    let memories = &graph.memories;
    let ghost views = graph@.memories;
    let mut placed: Vec<Placed> = Vec::new();
    let ghost f = |p: Placed| p.position as int;
    let mut i: usize = 0;
    assert(placed@.map_values(f) =~= embedded_positions(views.take(0)));
    while i < memories.len()
        invariant
            i <= memories.len(),
            views.len() == memories.len(),
            forall|i: int| 0 <= i < views.len() ==> views[i] == (#[trigger] memories[i])@,
            f == (|p: Placed| p.position as int),
            placed@.map_values(f) == embedded_positions(views.take(i as int)),
            forall|j: int|
                0 <= j < placed.len() ==> {
                    &&& (#[trigger] placed[j]).position < memories.len()
                    &&& placed[j].id@ == views[placed[j].position as int].id
                },
        decreases memories.len() - i,
    {
        assert(views.take(i + 1).drop_last() =~= views.take(i as int));
        let memory = &memories[i];
        assert(views[i as int] == memories[i as int]@);
        if memory.active && memory.embedding_len.is_some() {
            let ghost before = placed@;
            placed.push(Placed { position: i, id: memory.id.clone() });
            assert(placed@.map_values(f) =~= before.map_values(f).push(i as int));
        }
        i += 1;
    }
    assert(views.take(i as int) =~= views);
    let ghost loose = placed@;
    let placed = order::arrange(placed);
    proof {
        let le = order::ranking::<Placed>();
        order::lemma_arranged_elements(loose, le);
        assert forall|a: Placed, b: Placed| loose.contains(a) && loose.contains(b) implies
            #[trigger] le(a, b) == order_by_id(views)(f(a), f(b)) by {
            let x = choose|x: int| 0 <= x < loose.len() && loose[x] == a;
            let y = choose|y: int| 0 <= y < loose.len() && loose[y] == b;
            assert(loose[x] == a && loose[y] == b);
        }
        order::lemma_arranged_map(loose, f, le, order_by_id(views));
        assert forall|j: int| 0 <= j < placed.len() implies (#[trigger] placed[j]).position
            < memories.len() by {
            assert(order::arranged(loose, le).contains(placed@[j]));
            let x = choose|x: int| 0 <= x < loose.len() && loose[x] == placed@[j];
            assert(loose[x] == placed@[j]);
        }
    }
    let mut out: Vec<usize> = Vec::new();
    let mut k: usize = 0;
    while k < placed.len()
        invariant
            k <= placed.len(),
            out.len() == k,
            forall|j: int| 0 <= j < placed.len() ==> (#[trigger] placed[j]).position < memories.len(),
            forall|j: int| 0 <= j < k ==> (#[trigger] out[j]) == placed[j].position,
        decreases placed.len() - k,
    {
        out.push(placed[k].position);
        k += 1;
    }
    assert(Seq::new(out@.len(), |i: int| out@[i] as int) =~= placed@.map_values(f));
    out
}

/// The pairs of memories whose similarity matters, as positions in the graph.
pub fn comparable_pairs(graph: &MemoryGraph) -> (r: Vec<(usize, usize)>)
    ensures
        pairs_view(r@) == similar_pairs(graph@.memories),
        forall|k: int|
            0 <= k < r.len() ==> (#[trigger] r[k]).0 < graph.memories.len() && r[k].1
                < graph.memories.len(),
{
    let ghost views = graph@.memories;
    let order = embedded_by_id(graph);
    let ghost places = Seq::new(order@.len(), |i: int| order@[i] as int);
    let ghost all = similar_pairs(views);
    let mut out: Vec<(usize, usize)> = Vec::new();
    let mut i: usize = 0;
    assert(pairs_view(out@) + pairs_from(views, places, 0, 1) =~= all);
    while i < order.len()
        invariant
            i <= order.len(),
            views == graph@.memories,
            places == Seq::new(order@.len(), |i: int| order@[i] as int),
            forall|k: int| 0 <= k < order.len() ==> (#[trigger] order[k]) < graph.memories.len(),
            pairs_view(out@) + pairs_from(views, places, i as int, i + 1) == all,
            forall|k: int|
                0 <= k < out.len() ==> (#[trigger] out[k]).0 < graph.memories.len() && out[k].1
                    < graph.memories.len(),
        decreases order.len() - i,
    {
        let mut j: usize = i + 1;
        while j < order.len()
            invariant
                i < order.len(),
                i < j <= order.len(),
                views == graph@.memories,
                places == Seq::new(order@.len(), |i: int| order@[i] as int),
                forall|k: int|
                    0 <= k < order.len() ==> (#[trigger] order[k]) < graph.memories.len(),
                pairs_view(out@) + pairs_from(views, places, i as int, j as int) == all,
                forall|k: int|
                    0 <= k < out.len() ==> (#[trigger] out[k]).0 < graph.memories.len() && out[k].1
                        < graph.memories.len(),
            decreases order.len() - j,
        {
            let p = order[i];
            let q = order[j];
            let ghost rest = pairs_from(views, places, i as int, j + 1);
            let ghost before = pairs_view(out@);
            if graph.memories[p].embedding_len == graph.memories[q].embedding_len {
                out.push((p, q));
                assert(pairs_view(out@) =~= before.push((p as int, q as int)));
                assert(before + (seq![(p as int, q as int)] + rest) =~= pairs_view(out@) + rest);
            }
            j += 1;
        }
        i += 1;
    }
    assert(pairs_view(out@) =~= all);
    out
}

/// Appends a candidate to a list.
fn push_candidate(list: &mut Vec<MemoryGardenCandidate>, item: MemoryGardenCandidate)
    ensures
        candidates_view(final(list)@) == candidates_view(old(list)@).push(item@),
{
    let ghost before = candidates_view(list@);
    list.push(item);
    assert(candidates_view(list@) =~= before.push(item@));
}

/// Arranges candidates in the order of the worklist.
fn arrange_candidates(items: Vec<MemoryGardenCandidate>) -> (r: Vec<MemoryGardenCandidate>)
    ensures
        candidates_view(r@) == order::arranged(candidates_view(items@), worklist_order()),
{
    let ghost all = items@;
    let r = order::arrange(items);
    proof {
        let f = |c: MemoryGardenCandidate| c@;
        order::lemma_arranged_map(
            all,
            f,
            order::ranking::<MemoryGardenCandidate>(),
            worklist_order(),
        );
        assert(all.map_values(f) =~= candidates_view(all));
        assert(r@.map_values(f) =~= candidates_view(r@));
    }
    r
}

/// The candidates that propose to prune a memory of the graph.
fn find_prunable(scope: &str, graph: &MemoryGraph, scores: &Vec<MemoryGraphScore>) -> (r: Vec<
    MemoryGardenCandidate,
>)
    ensures
        candidates_view(r@) == prune_candidates(
            scope@,
            scores_view(scores@),
            graph@.memories,
        ),
{
    let ghost views = graph@.memories;
    let mut out: Vec<MemoryGardenCandidate> = Vec::new();
    let mut i: usize = 0;
    assert(candidates_view(out@) =~= prune_candidates(
        scope@,
        scores_view(scores@),
        views.take(0),
    ));
    while i < graph.memories.len()
        invariant
            i <= graph.memories.len(),
            views == graph@.memories,
            candidates_view(out@) == prune_candidates(
                scope@,
                scores_view(scores@),
                views.take(i as int),
            ),
        decreases graph.memories.len() - i,
    {
        assert(views.take(i + 1).drop_last() =~= views.take(i as int));
        let memory = &graph.memories[i];
        if should_prune(memory) {
            push_candidate(
                &mut out,
                MemoryGardenCandidate {
                    kind: GardenCandidateKind::Prune,
                    scope: scope.to_owned(),
                    primary_id: memory.id.clone(),
                    secondary_id: None,
                    score_bits: memory.doubt_bits,
                    centrality_bits: find_centrality(scores, memory.id.as_str()),
                    reason: if memory.active {
                        "low effective confidence and weak reinforcement".to_owned()
                    } else {
                        "inactive or superseded memory".to_owned()
                    },
                },
            );
        }
        i += 1;
    }
    assert(views.take(i as int) =~= views);
    out
}

/// The candidate, if any, for the memories at two positions.
fn compare_pair(
    scope: &str,
    graph: &MemoryGraph,
    scores: &Vec<MemoryGraphScore>,
    pair: (usize, usize),
    similarity: u32,
) -> (r: Option<MemoryGardenCandidate>)
    requires
        pair.0 < graph.memories.len(),
        pair.1 < graph.memories.len(),
    ensures
        match r {
            Some(candidate) => pair_candidate(
                scope@,
                scores_view(scores@),
                graph@,
                (pair.0 as int, pair.1 as int),
                similarity,
            ) == Some(candidate@),
            None => pair_candidate(
                scope@,
                scores_view(scores@),
                graph@,
                (pair.0 as int, pair.1 as int),
                similarity,
            ) is None,
        },
{
    let a = &graph.memories[pair.0].id;
    let b = &graph.memories[pair.1].id;
    let (kind, reason) = if float::is_at_least(similarity, DEDUP_SIMILARITY_THRESHOLD) {
        (GardenCandidateKind::Deduplicate, "embedding similarity exceeds dedup threshold")
    } else if float::is_at_least(similarity, RELATIONSHIP_SIMILARITY_THRESHOLD)
        && !has_relates_edge(graph, a.as_str(), b.as_str()) {
        (GardenCandidateKind::Relate, "similar active memories are not explicitly related")
    } else {
        return None;
    };
    let centrality_bits = float::greater(
        find_centrality(scores, a.as_str()),
        find_centrality(scores, b.as_str()),
    );
    Some(
        MemoryGardenCandidate {
            kind,
            scope: scope.to_owned(),
            primary_id: a.clone(),
            secondary_id: Some(b.clone()),
            score_bits: similarity,
            centrality_bits,
            reason: reason.to_owned(),
        },
    )
}

/// The worklist of one graph. `similarities` are the similarities of the
/// [`comparable_pairs`] of the graph, in their order.
pub fn garden_candidates_for_graph(
    scope: &str,
    graph: &MemoryGraph,
    scores: &Vec<MemoryGraphScore>,
    similarities: &Vec<u32>,
) -> (r: Vec<MemoryGardenCandidate>)
    requires
        similarities.len() == similar_pairs(graph@.memories).len(),
    ensures
        candidates_view(r@) == graph_worklist(
            scope@,
            graph@,
            scores_view(scores@),
            similarities@,
        ),
{
    let mut out = find_prunable(scope, graph, scores);
    let ghost prunes = candidates_view(out@);
    let pairs = comparable_pairs(graph);
    let ghost all = pairs_view(pairs@);
    let mut k: usize = 0;
    assert(pair_candidates(
        scope@,
        scores_view(scores@),
        graph@,
        all.take(0),
        similarities@.take(0),
    ) =~= Seq::<CandidateView>::empty());
    assert(candidates_view(out@) =~= prunes + Seq::<CandidateView>::empty());
    while k < pairs.len()
        invariant
            k <= pairs.len(),
            all == pairs_view(pairs@),
            similarities.len() == pairs.len(),
            forall|k: int|
                0 <= k < pairs.len() ==> (#[trigger] pairs[k]).0 < graph.memories.len()
                    && pairs[k].1 < graph.memories.len(),
            candidates_view(out@) == prunes + pair_candidates(
                scope@,
                scores_view(scores@),
                graph@,
                all.take(k as int),
                similarities@.take(k as int),
            ),
        decreases pairs.len() - k,
    {
        assert(all.take(k + 1).drop_last() =~= all.take(k as int));
        assert(similarities@.take(k + 1).drop_last() =~= similarities@.take(k as int));
        let ghost before = candidates_view(out@);
        if let Some(candidate) = compare_pair(scope, graph, scores, pairs[k], similarities[k]) {
            push_candidate(&mut out, candidate);
        }
        assert(candidates_view(out@) =~= prunes + pair_candidates(
            scope@,
            scores_view(scores@),
            graph@,
            all.take(k + 1),
            similarities@.take(k + 1),
        ));
        k += 1;
    }
    assert(all.take(k as int) =~= all);
    assert(similarities@.take(k as int) =~= similarities@);
    let mut out = arrange_candidates(out);
    let ghost sorted = candidates_view(out@);
    out.truncate(MAX_CANDIDATES_PER_SCOPE);
    assert(candidates_view(out@) =~= at_most(sorted, MAX_CANDIDATES_PER_SCOPE as int));
    out
}

/// A memory graph with what was computed about it: how central its memories are,
/// and the similarities of its [`comparable_pairs`].
#[derive(Debug)]
pub struct GardenScope {
    pub graph: MemoryGraph,
    pub scores: Vec<MemoryGraphScore>,
    pub similarities: Vec<u32>,
}

impl GardenScope {
    /// There is a similarity for each pair of memories that needs one.
    pub open spec fn is_complete(&self) -> bool {
        self.similarities@.len() == similar_pairs(self.graph@.memories).len()
    }

    /// The worklist of the graph.
    pub open spec fn worklist(&self, scope: Seq<char>) -> Seq<CandidateView> {
        graph_worklist(scope, self.graph@, scores_view(self.scores@), self.similarities@)
    }
}

/// The memory graphs of an agent: that of the project, and the global one.
#[derive(Debug)]
pub struct MemoryManager {
    pub project: GardenScope,
    pub global: GardenScope,
}

/// The worklist of both graphs.
#[derive(Debug, Clone, PartialEq)]
pub struct MemoryGardenReport {
    pub scanned_memories: usize,
    pub project_scores: Vec<MemoryGraphScore>,
    pub global_scores: Vec<MemoryGraphScore>,
    pub candidates: Vec<MemoryGardenCandidate>,
}

impl Default for MemoryGardenReport {
    /// The report of two graphs without memories.
    fn default() -> (r: MemoryGardenReport)
        ensures
            r.scanned_memories == 0,
            r.project_scores@.len() == 0,
            r.global_scores@.len() == 0,
            r.candidates@.len() == 0,
    {
        MemoryGardenReport {
            scanned_memories: 0,
            project_scores: Vec::new(),
            global_scores: Vec::new(),
            candidates: Vec::new(),
        }
    }
}

/// The worklists of both graphs as one.
pub open spec fn joint_worklist(project: GardenScope, global: GardenScope) -> Seq<CandidateView> {
    order::arranged(
        project.worklist("project"@) + global.worklist("global"@),
        worklist_order(),
    )
}

impl MemoryManager {
    /// Builds the worklist of both graphs; neither of them changes.
    pub fn garden_dry_run(&self) -> (r: MemoryGardenReport)
        requires
            self.project.is_complete(),
            self.global.is_complete(),
            self.project.graph.memories.len() + self.global.graph.memories.len() <= usize::MAX,
        ensures
            r.scanned_memories == self.project.graph.memories.len()
                + self.global.graph.memories.len(),
            scores_view(r.project_scores@) == scores_view(self.project.scores@),
            scores_view(r.global_scores@) == scores_view(self.global.scores@),
            candidates_view(r.candidates@) == joint_worklist(self.project, self.global),
    {
        let mut candidates = garden_candidates_for_graph(
            "project",
            &self.project.graph,
            &self.project.scores,
            &self.project.similarities,
        );
        let mut more = garden_candidates_for_graph(
            "global",
            &self.global.graph,
            &self.global.scores,
            &self.global.similarities,
        );
        let ghost first = candidates_view(candidates@);
        let ghost second = candidates_view(more@);
        candidates.append(&mut more);
        assert(candidates_view(candidates@) =~= first + second);
        let candidates = arrange_candidates(candidates);
        MemoryGardenReport {
            scanned_memories: self.project.graph.memories.len() + self.global.graph.memories.len(),
            project_scores: copy_scores(&self.project.scores),
            global_scores: copy_scores(&self.global.scores),
            candidates,
        }
    }
}

proof fn lemma_optional_total(a: Option<Seq<char>>, b: Option<Seq<char>>)
    ensures
        optional_le(a, b) || optional_le(b, a),
{
    if a is Some && b is Some {
        text::lemma_lex_total(a->0, b->0);
    }
}

proof fn lemma_optional_transitive(
    a: Option<Seq<char>>,
    b: Option<Seq<char>>,
    c: Option<Seq<char>>,
)
    requires
        optional_le(a, b),
        optional_le(b, c),
    ensures
        optional_le(a, c),
{
    if a is Some && b is Some && c is Some {
        text::lemma_lex_transitive(a->0, b->0, c->0);
    }
}

/// The worklist's order orders any two candidates, consistently.
pub proof fn law_worklist_order_is_an_order()
    ensures
        order::is_order(worklist_order()),
{
    let le = worklist_order();
    assert forall|a: CandidateView, b: CandidateView| #[trigger] le(a, b) || le(b, a) by {
        text::lemma_lex_total(a.primary_id, b.primary_id);
        lemma_optional_total(a.secondary_id, b.secondary_id);
    }
    assert forall|a: CandidateView, b: CandidateView, c: CandidateView| #[trigger]
        le(a, b) && #[trigger] le(b, c) implies le(a, c) by {
        if text::lex_le(a.primary_id, b.primary_id) && text::lex_le(b.primary_id, c.primary_id) {
            text::lemma_lex_transitive(a.primary_id, b.primary_id, c.primary_id);
            if a.primary_id == c.primary_id {
                text::lemma_lex_antisymmetric(a.primary_id, b.primary_id);
            }
        }
        if optional_le(a.secondary_id, b.secondary_id) && optional_le(
            b.secondary_id,
            c.secondary_id,
        ) {
            lemma_optional_transitive(a.secondary_id, b.secondary_id, c.secondary_id);
        }
    }
}

/// The worklist of a graph is in order and no longer than the limit.
pub proof fn law_graph_worklist_is_short_and_in_order(
    scope: Seq<char>,
    graph: GraphView,
    scores: Seq<(Seq<char>, u32)>,
    similarities: Seq<u32>,
)
    ensures
        order::in_order(
            graph_worklist(scope, graph, scores, similarities),
            worklist_order(),
        ),
        graph_worklist(scope, graph, scores, similarities).len() <= MAX_CANDIDATES_PER_SCOPE,
{
    let all = prune_candidates(scope, scores, graph.memories) + pair_candidates(
        scope,
        scores,
        graph,
        similar_pairs(graph.memories),
        similarities,
    );
    law_worklist_order_is_an_order();
    order::law_arranged_is_in_order(all, worklist_order());
}

/// The joint worklist is in order, holds the candidates of both graphs and no
/// others, and is at most twice as long as the limit for one.
pub proof fn law_joint_worklist_is_in_order(project: GardenScope, global: GardenScope)
    ensures
        order::in_order(joint_worklist(project, global), worklist_order()),
        joint_worklist(project, global).to_multiset() == (project.worklist("project"@)
            + global.worklist("global"@)).to_multiset(),
        joint_worklist(project, global).len() <= 2 * MAX_CANDIDATES_PER_SCOPE,
{
    let all = project.worklist("project"@) + global.worklist("global"@);
    law_worklist_order_is_an_order();
    order::law_arranged_is_in_order(all, worklist_order());
    order::law_arranged_keeps_items(all, worklist_order());
    law_graph_worklist_is_short_and_in_order(
        "project"@,
        project.graph@,
        scores_view(project.scores@),
        project.similarities@,
    );
    law_graph_worklist_is_short_and_in_order(
        "global"@,
        global.graph@,
        scores_view(global.scores@),
        global.similarities@,
    );
}

/// Every candidate has its grounds in the graph: a memory to prune that is
/// prunable, or a pair of memories whose similarity calls for it. Memories that an
/// edge relates already are never proposed to be related.
pub proof fn law_candidates_are_justified(
    scope: Seq<char>,
    graph: GraphView,
    scores: Seq<(Seq<char>, u32)>,
    similarities: Seq<u32>,
    candidate: CandidateView,
)
    requires
        similarities.len() == similar_pairs(graph.memories).len(),
        graph_worklist(scope, graph, scores, similarities).contains(candidate),
    ensures
        match candidate.kind {
            GardenCandidateKind::Prune => exists|i: int|
                0 <= i < graph.memories.len() && prunable(#[trigger] graph.memories[i])
                    && candidate == prune_candidate(scope, scores, graph.memories[i]),
            kind => {
                let pairs = similar_pairs(graph.memories);
                &&& exists|k: int|
                    0 <= k < pairs.len() && pair_candidate(
                        scope,
                        scores,
                        graph,
                        #[trigger] pairs[k],
                        similarities[k],
                    ) == Some(candidate)
                &&& float::at_least(
                    candidate.score_bits,
                    if kind == GardenCandidateKind::Deduplicate {
                        DEDUP_SIMILARITY_THRESHOLD
                    } else {
                        RELATIONSHIP_SIMILARITY_THRESHOLD
                    },
                )
                &&& kind == GardenCandidateKind::Relate ==> !related(
                    graph.edges,
                    candidate.primary_id,
                    candidate.secondary_id->0,
                )
            },
        },
{
    let prunes = prune_candidates(scope, scores, graph.memories);
    let pairs = pair_candidates(
        scope,
        scores,
        graph,
        similar_pairs(graph.memories),
        similarities,
    );
    let all = prunes + pairs;
    let sorted = order::arranged(all, worklist_order());
    let listed = graph_worklist(scope, graph, scores, similarities);
    let i = choose|i: int| 0 <= i < listed.len() && listed[i] == candidate;
    assert(sorted[i] == candidate);
    assert(sorted.contains(candidate));
    order::lemma_arranged_elements(all, worklist_order());
    let k = choose|k: int| 0 <= k < all.len() && all[k] == candidate;
    if k < prunes.len() {
        assert(prunes[k] == candidate);
        lemma_prune_grounds(scope, scores, graph.memories, candidate);
    } else {
        assert(pairs[k - prunes.len()] == candidate);
        lemma_pair_grounds(
            scope,
            scores,
            graph,
            similar_pairs(graph.memories),
            similarities,
            candidate,
        );
    }
}

proof fn lemma_prune_grounds(
    scope: Seq<char>,
    scores: Seq<(Seq<char>, u32)>,
    memories: Seq<MemoryView>,
    candidate: CandidateView,
)
    requires
        prune_candidates(scope, scores, memories).contains(candidate),
    ensures
        exists|i: int|
            0 <= i < memories.len() && prunable(#[trigger] memories[i]) && candidate
                == prune_candidate(scope, scores, memories[i]),
    decreases memories.len(),
{
    if memories.len() > 0 {
        let front = memories.drop_last();
        let before = prune_candidates(scope, scores, front);
        if before.contains(candidate) {
            lemma_prune_grounds(scope, scores, front, candidate);
            let i = choose|i: int|
                0 <= i < front.len() && prunable(#[trigger] front[i]) && candidate
                    == prune_candidate(scope, scores, front[i]);
            assert(memories[i] == front[i]);
        } else {
            let now = prune_candidates(scope, scores, memories);
            let k = choose|k: int| 0 <= k < now.len() && now[k] == candidate;
            if k < before.len() {
                assert(before[k] == candidate);
            }
            assert(prunable(memories[memories.len() - 1]));
        }
    }
}

proof fn lemma_pair_grounds(
    scope: Seq<char>,
    scores: Seq<(Seq<char>, u32)>,
    graph: GraphView,
    pairs: Seq<(int, int)>,
    similarities: Seq<u32>,
    candidate: CandidateView,
)
    requires
        similarities.len() == pairs.len(),
        pair_candidates(scope, scores, graph, pairs, similarities).contains(candidate),
    ensures
        exists|k: int|
            0 <= k < pairs.len() && pair_candidate(
                scope,
                scores,
                graph,
                #[trigger] pairs[k],
                similarities[k],
            ) == Some(candidate),
    decreases pairs.len(),
{
    if pairs.len() > 0 {
        let front = pairs.drop_last();
        let front_similarities = similarities.drop_last();
        let before = pair_candidates(scope, scores, graph, front, front_similarities);
        if before.contains(candidate) {
            lemma_pair_grounds(scope, scores, graph, front, front_similarities, candidate);
            let k = choose|k: int|
                0 <= k < front.len() && pair_candidate(
                    scope,
                    scores,
                    graph,
                    #[trigger] front[k],
                    front_similarities[k],
                ) == Some(candidate);
            assert(pairs[k] == front[k]);
            assert(similarities[k] == front_similarities[k]);
        } else {
            let now = pair_candidates(scope, scores, graph, pairs, similarities);
            let k = choose|k: int| 0 <= k < now.len() && now[k] == candidate;
            if k < before.len() {
                assert(before[k] == candidate);
            }
            assert(pairs[pairs.len() - 1] == pairs.last());
        }
    }
}

/// The positions of the active memories with an embedding are just those, none of
/// them twice.
proof fn lemma_embedded_positions(memories: Seq<MemoryView>)
    ensures
        embedded_positions(memories).no_duplicates(),
        forall|p: int| #[trigger]
            embedded_positions(memories).contains(p) <==> 0 <= p < memories.len()
                && memories[p].active && memories[p].embedding_len is Some,
    decreases memories.len(),
{
    let now = embedded_positions(memories);
    if memories.len() > 0 {
        let front = memories.drop_last();
        let before = embedded_positions(front);
        let last = memories.len() - 1;
        lemma_embedded_positions(front);
        assert(!before.contains(last));
        assert forall|p: int| #[trigger] now.contains(p) <==> 0 <= p < memories.len()
            && memories[p].active && memories[p].embedding_len is Some by {
            if 0 <= p < last {
                assert(front[p] == memories[p]);
            }
            if before.contains(p) {
                let k = choose|k: int| 0 <= k < before.len() && before[k] == p;
                assert(now[k] == p);
            } else if now.contains(p) {
                let k = choose|k: int| 0 <= k < now.len() && now[k] == p;
                if k < before.len() {
                    assert(before[k] == p);
                }
            }
            if p == last && now.len() > before.len() {
                assert(now[before.len() as int] == p);
            }
        }
        assert forall|i: int, j: int|
            0 <= i < now.len() && 0 <= j < now.len() && i != j implies now[i] != now[j] by {
            if i < before.len() {
                assert(before.contains(before[i]));
            }
            if j < before.len() {
                assert(before.contains(before[j]));
            }
        }
    }
}

proof fn lemma_positions_by_id(memories: Seq<MemoryView>)
    ensures
        positions_by_id(memories).no_duplicates(),
        forall|p: int| #[trigger]
            positions_by_id(memories).contains(p) <==> 0 <= p < memories.len()
                && memories[p].active && memories[p].embedding_len is Some,
        forall|i: int, j: int|
            0 <= i < j < positions_by_id(memories).len() ==> text::lex_le(
                memories[#[trigger] positions_by_id(memories)[i]].id,
                memories[#[trigger] positions_by_id(memories)[j]].id,
            ),
{
    let places = embedded_positions(memories);
    let le = order_by_id(memories);
    lemma_embedded_positions(memories);
    order::lemma_arranged_distinct(places, le);
    order::lemma_arranged_elements(places, le);
    assert forall|p: int| places.contains(p) implies #[trigger] positions_by_id(memories).contains(
        p,
    ) by {
        order::lemma_arranged_holds(places, le, p);
    }
    assert forall|p: int| positions_by_id(memories).contains(p) implies places.contains(p) by {
        assert(order::arranged(places, le).contains(p));
    }
    assert(order::is_order(le)) by {
        assert forall|a: int, b: int| #[trigger] le(a, b) || le(b, a) by {
            text::lemma_lex_total(memories[a].id, memories[b].id);
        }
        assert forall|a: int, b: int, c: int| #[trigger]
            le(a, b) && #[trigger] le(b, c) implies le(a, c) by {
            text::lemma_lex_transitive(memories[a].id, memories[b].id, memories[c].id);
        }
    }
    order::law_arranged_is_in_order(places, le);
    assert forall|i: int, j: int|
        0 <= i < j < positions_by_id(memories).len() implies text::lex_le(
        memories[#[trigger] positions_by_id(memories)[i]].id,
        memories[#[trigger] positions_by_id(memories)[j]].id,
    ) by {
        assert(le(order::arranged(places, le)[i], order::arranged(places, le)[j]));
    }
}

/// The pairs from a place on hold every pair of places from there on.
proof fn lemma_pairs_hold(
    memories: Seq<MemoryView>,
    positions: Seq<int>,
    i: int,
    j: int,
    a: int,
    b: int,
)
    requires
        0 <= i < j,
        i <= a < b < positions.len(),
        a == i ==> j <= b,
        memories[positions[a]].embedding_len == memories[positions[b]].embedding_len,
    ensures
        pairs_from(memories, positions, i, j).contains((positions[a], positions[b])),
    decreases positions.len() - i, positions.len() - j,
{
    let pair = (positions[a], positions[b]);
    let now = pairs_from(memories, positions, i, j);
    if j >= positions.len() {
        lemma_pairs_hold(memories, positions, i + 1, i + 2, a, b);
    } else if a == i && b == j {
        assert(now[0] == pair);
    } else {
        let rest = pairs_from(memories, positions, i, j + 1);
        lemma_pairs_hold(memories, positions, i, j + 1, a, b);
        let k = choose|k: int| 0 <= k < rest.len() && rest[k] == pair;
        assert(now[k + now.len() - rest.len()] == pair);
    }
}

/// A pair stands for two places, of which the first is before the second and not
/// before the place `i`, or is `i` with the second not before `j`.
spec fn from_places(positions: Seq<int>, i: int, j: int, pair: (int, int), a: int, b: int) -> bool {
    &&& i <= a < b < positions.len()
    &&& a == i ==> j <= b
    &&& pair == (positions[a], positions[b])
}

/// The pairs from a place on are of places from there on, with embeddings of the
/// same length, and none of them stands there twice.
proof fn lemma_pairs_come_from(memories: Seq<MemoryView>, positions: Seq<int>, i: int, j: int)
    requires
        positions.no_duplicates(),
        0 <= i < j,
    ensures
        forall|k: int|
            0 <= k < pairs_from(memories, positions, i, j).len() ==> {
                let pair = #[trigger] pairs_from(memories, positions, i, j)[k];
                &&& memories[pair.0].embedding_len == memories[pair.1].embedding_len
                &&& exists|a: int, b: int| #[trigger] from_places(positions, i, j, pair, a, b)
            },
        pairs_from(memories, positions, i, j).no_duplicates(),
    decreases positions.len() - i, positions.len() - j,
{
    let now = pairs_from(memories, positions, i, j);
    if i >= positions.len() {
    } else if j >= positions.len() {
        lemma_pairs_come_from(memories, positions, i + 1, i + 2);
        assert forall|k: int| 0 <= k < now.len() implies {
            let pair = #[trigger] now[k];
            &&& memories[pair.0].embedding_len == memories[pair.1].embedding_len
            &&& exists|a: int, b: int| #[trigger] from_places(positions, i, j, pair, a, b)
        } by {
            let pair = now[k];
            let (a, b) = choose|a: int, b: int| #[trigger]
                from_places(positions, i + 1, i + 2, pair, a, b);
            assert(from_places(positions, i, j, pair, a, b));
        }
    } else {
        let rest = pairs_from(memories, positions, i, j + 1);
        lemma_pairs_come_from(memories, positions, i, j + 1);
        let skipped = now.len() - rest.len();
        assert forall|k: int| 0 <= k < now.len() implies {
            let pair = #[trigger] now[k];
            &&& memories[pair.0].embedding_len == memories[pair.1].embedding_len
            &&& exists|a: int, b: int| #[trigger] from_places(positions, i, j, pair, a, b)
        } by {
            let pair = now[k];
            if k >= skipped {
                assert(rest[k - skipped] == pair);
                let (a, b) = choose|a: int, b: int| #[trigger]
                    from_places(positions, i, j + 1, pair, a, b);
                assert(from_places(positions, i, j, pair, a, b));
            } else {
                assert(from_places(positions, i, j, pair, i, j));
            }
        }
        if skipped == 1 {
            assert forall|k: int| 0 <= k < rest.len() implies #[trigger] rest[k] != now[0] by {
                let pair = rest[k];
                let (a, b) = choose|a: int, b: int| #[trigger]
                    from_places(positions, i, j + 1, pair, a, b);
                if pair == now[0] {
                    assert(positions[a] == positions[i]);
                    assert(positions[b] == positions[j]);
                }
            }
        }
        assert forall|k: int, l: int|
            0 <= k < now.len() && 0 <= l < now.len() && k != l implies now[k] != now[l] by {
            if k >= skipped {
                assert(now[k] == rest[k - skipped]);
            }
            if l >= skipped {
                assert(now[l] == rest[l - skipped]);
            }
        }
    }
}

/// Any two active memories whose embeddings have the same length are compared with
/// each other, wherever they stand in the graph and whatever their names are.
pub proof fn law_every_pair_is_compared(memories: Seq<MemoryView>, p: int, q: int)
    requires
        0 <= p < memories.len(),
        0 <= q < memories.len(),
        p != q,
        memories[p].active,
        memories[q].active,
        memories[p].embedding_len is Some,
        memories[p].embedding_len == memories[q].embedding_len,
    ensures
        similar_pairs(memories).contains((p, q)) || similar_pairs(memories).contains((q, p)),
{
    let positions = positions_by_id(memories);
    lemma_positions_by_id(memories);
    assert(positions.contains(p));
    assert(positions.contains(q));
    let a = choose|a: int| 0 <= a < positions.len() && positions[a] == p;
    let b = choose|b: int| 0 <= b < positions.len() && positions[b] == q;
    if a < b {
        lemma_pairs_hold(memories, positions, 0, 1, a, b);
    } else {
        lemma_pairs_hold(memories, positions, 0, 1, b, a);
    }
}

/// Only active memories whose embeddings have the same length are compared, each
/// with others and never with itself, the one that comes first by name first.
pub proof fn law_compared_memories_are_comparable(memories: Seq<MemoryView>, k: int)
    requires
        0 <= k < similar_pairs(memories).len(),
    ensures
        ({
            let (p, q) = similar_pairs(memories)[k];
            &&& 0 <= p < memories.len()
            &&& 0 <= q < memories.len()
            &&& p != q
            &&& memories[p].active
            &&& memories[q].active
            &&& memories[p].embedding_len is Some
            &&& memories[p].embedding_len == memories[q].embedding_len
            &&& text::lex_le(memories[p].id, memories[q].id)
        }),
{
    let positions = positions_by_id(memories);
    lemma_positions_by_id(memories);
    lemma_pairs_come_from(memories, positions, 0, 1);
    let pair = similar_pairs(memories)[k];
    let (a, b) = choose|a: int, b: int| #[trigger] from_places(positions, 0, 1, pair, a, b);
    assert(positions.contains(positions[a]));
    assert(positions.contains(positions[b]));
}

/// No two memories are compared twice, neither the same way round nor the other.
pub proof fn law_no_pair_is_compared_twice(memories: Seq<MemoryView>, k: int, l: int)
    requires
        0 <= k < similar_pairs(memories).len(),
        0 <= l < similar_pairs(memories).len(),
        k != l,
    ensures
        similar_pairs(memories)[k] != similar_pairs(memories)[l],
        similar_pairs(memories)[k] != (
            similar_pairs(memories)[l].1,
            similar_pairs(memories)[l].0,
        ),
{
    let positions = positions_by_id(memories);
    lemma_positions_by_id(memories);
    lemma_pairs_come_from(memories, positions, 0, 1);
    let first = similar_pairs(memories)[k];
    let second = similar_pairs(memories)[l];
    let (a, b) = choose|a: int, b: int| #[trigger] from_places(positions, 0, 1, first, a, b);
    let (c, d) = choose|c: int, d: int| #[trigger] from_places(positions, 0, 1, second, c, d);
    if first == (second.1, second.0) {
        assert(positions[a] == positions[d]);
        assert(positions[b] == positions[c]);
    }
}

/// Of what was found, what is not listed stands behind all that is, and then the
/// list is as long as it may be.
proof fn lemma_listed(
    scope: Seq<char>,
    graph: GraphView,
    scores: Seq<(Seq<char>, u32)>,
    similarities: Seq<u32>,
    candidate: CandidateView,
)
    requires
        prune_candidates(scope, scores, graph.memories).contains(candidate) || pair_candidates(
            scope,
            scores,
            graph,
            similar_pairs(graph.memories),
            similarities,
        ).contains(candidate),
    ensures
        ({
            let listed = graph_worklist(scope, graph, scores, similarities);
            ||| listed.contains(candidate)
            ||| listed.len() == 40 && forall|i: int|
                0 <= i < 40 ==> candidate_le(#[trigger] listed[i], candidate)
        }),
{
    let prunes = prune_candidates(scope, scores, graph.memories);
    let pairs = pair_candidates(
        scope,
        scores,
        graph,
        similar_pairs(graph.memories),
        similarities,
    );
    let all = prunes + pairs;
    if prunes.contains(candidate) {
        let k = choose|k: int| 0 <= k < prunes.len() && prunes[k] == candidate;
        assert(all[k] == candidate);
    } else {
        let k = choose|k: int| 0 <= k < pairs.len() && pairs[k] == candidate;
        assert(all[prunes.len() + k] == candidate);
    }
    let le = worklist_order();
    let sorted = order::arranged(all, le);
    let listed = graph_worklist(scope, graph, scores, similarities);
    order::lemma_arranged_holds(all, le, candidate);
    law_worklist_order_is_an_order();
    order::law_arranged_is_in_order(all, le);
    let k = choose|k: int| 0 <= k < sorted.len() && sorted[k] == candidate;
    if k < listed.len() {
        assert(listed[k] == candidate);
    } else {
        assert forall|i: int| 0 <= i < 40 implies candidate_le(#[trigger] listed[i], candidate) by {
            assert(listed[i] == sorted[i]);
            assert(le(sorted[i], sorted[k]));
        }
    }
}

proof fn lemma_prune_found(
    scope: Seq<char>,
    scores: Seq<(Seq<char>, u32)>,
    memories: Seq<MemoryView>,
    i: int,
)
    requires
        0 <= i < memories.len(),
        prunable(memories[i]),
    ensures
        prune_candidates(scope, scores, memories).contains(
            prune_candidate(scope, scores, memories[i]),
        ),
    decreases memories.len(),
{
    let front = memories.drop_last();
    let before = prune_candidates(scope, scores, front);
    let now = prune_candidates(scope, scores, memories);
    let candidate = prune_candidate(scope, scores, memories[i]);
    if i == front.len() {
        assert(now[before.len() as int] == candidate);
    } else {
        assert(front[i] == memories[i]);
        lemma_prune_found(scope, scores, front, i);
        let k = choose|k: int| 0 <= k < before.len() && before[k] == candidate;
        assert(now[k] == candidate);
    }
}

proof fn lemma_pair_found(
    scope: Seq<char>,
    scores: Seq<(Seq<char>, u32)>,
    graph: GraphView,
    pairs: Seq<(int, int)>,
    similarities: Seq<u32>,
    k: int,
    candidate: CandidateView,
)
    requires
        similarities.len() == pairs.len(),
        0 <= k < pairs.len(),
        pair_candidate(scope, scores, graph, pairs[k], similarities[k]) == Some(candidate),
    ensures
        pair_candidates(scope, scores, graph, pairs, similarities).contains(candidate),
    decreases pairs.len(),
{
    let front = pairs.drop_last();
    let front_similarities = similarities.drop_last();
    let before = pair_candidates(scope, scores, graph, front, front_similarities);
    let now = pair_candidates(scope, scores, graph, pairs, similarities);
    if k == front.len() {
        assert(now[before.len() as int] == candidate);
    } else {
        assert(front[k] == pairs[k]);
        assert(front_similarities[k] == similarities[k]);
        lemma_pair_found(scope, scores, graph, front, front_similarities, k, candidate);
        let m = choose|m: int| 0 <= m < before.len() && before[m] == candidate;
        assert(now[m] == candidate);
    }
}

/// Two active memories with embeddings of the same length have one similarity. From
/// 0.95 on they are proposed as duplicates, with that similarity for a score; from
/// 0.78 on and below 0.95 they are proposed to be related, where no edge relates
/// them in either direction. A proposal is left out only where forty others that may
/// stand before it are listed.
pub proof fn law_similar_memories_are_proposed(
    scope: Seq<char>,
    graph: GraphView,
    scores: Seq<(Seq<char>, u32)>,
    similarities: Seq<u32>,
    p: int,
    q: int,
)
    requires
        similarities.len() == similar_pairs(graph.memories).len(),
        0 <= p < graph.memories.len(),
        0 <= q < graph.memories.len(),
        p != q,
        graph.memories[p].active,
        graph.memories[q].active,
        graph.memories[p].embedding_len is Some,
        graph.memories[p].embedding_len == graph.memories[q].embedding_len,
    ensures
        exists|k: int|
            0 <= k < similarities.len() && {
                let pair = #[trigger] similar_pairs(graph.memories)[k];
                let similarity = similarities[k];
                let (a, b) = (graph.memories[pair.0].id, graph.memories[pair.1].id);
                let listed = graph_worklist(scope, graph, scores, similarities);
                &&& pair == (p, q) || pair == (q, p)
                &&& 0x3F73_3333 <= similarity <= 0x7F80_0000 ==> exists|c: CandidateView|
                    {
                        &&& c.kind == GardenCandidateKind::Deduplicate
                        &&& c.scope == scope
                        &&& c.primary_id == a
                        &&& c.secondary_id == Some(b)
                        &&& c.score_bits == similarity
                        &&& {
                            ||| #[trigger] listed.contains(c)
                            ||| listed.len() == 40 && forall|i: int|
                                0 <= i < 40 ==> candidate_le(#[trigger] listed[i], c)
                        }
                    }
                &&& 0x3F47_AE14 <= similarity < 0x3F73_3333 && (forall|i: int|
                    0 <= i < graph.edges.len() ==> #[trigger] graph.edges[i] != (
                        a,
                        b,
                        EdgeKind::RelatesTo,
                    ) && graph.edges[i] != (b, a, EdgeKind::RelatesTo)) ==> exists|
                    c: CandidateView,
                |
                    {
                        &&& c.kind == GardenCandidateKind::Relate
                        &&& c.scope == scope
                        &&& c.primary_id == a
                        &&& c.secondary_id == Some(b)
                        &&& c.score_bits == similarity
                        &&& {
                            ||| #[trigger] listed.contains(c)
                            ||| listed.len() == 40 && forall|i: int|
                                0 <= i < 40 ==> candidate_le(#[trigger] listed[i], c)
                        }
                    }
            },
{
    let pairs = similar_pairs(graph.memories);
    law_every_pair_is_compared(graph.memories, p, q);
    let k = choose|k: int| 0 <= k < pairs.len() && (pairs[k] == (p, q) || pairs[k] == (q, p));
    let pair = pairs[k];
    let similarity = similarities[k];
    let (a, b) = (graph.memories[pair.0].id, graph.memories[pair.1].id);
    let listed = graph_worklist(scope, graph, scores, similarities);
    let found = pair_candidate(scope, scores, graph, pair, similarity);
    if 0x3F73_3333 <= similarity <= 0x7F80_0000 {
        assert(found is Some);
    }
    if 0x3F47_AE14 <= similarity < 0x3F73_3333 && (forall|i: int|
        0 <= i < graph.edges.len() ==> #[trigger] graph.edges[i] != (a, b, EdgeKind::RelatesTo)
            && graph.edges[i] != (b, a, EdgeKind::RelatesTo)) {
        assert(!related(graph.edges, a, b)) by {
            if related(graph.edges, a, b) {
                let i = choose|i: int|
                    0 <= i < graph.edges.len() && (#[trigger] graph.edges[i]).2
                        == EdgeKind::RelatesTo && ((graph.edges[i].0 == a && graph.edges[i].1 == b)
                        || (graph.edges[i].0 == b && graph.edges[i].1 == a));
                assert(graph.edges[i] == (a, b, EdgeKind::RelatesTo) || graph.edges[i] == (
                    b,
                    a,
                    EdgeKind::RelatesTo,
                ));
            }
        }
        assert(found is Some);
    }
    if found is Some {
        let c = found->0;
        lemma_pair_found(scope, scores, graph, pairs, similarities, k, c);
        lemma_listed(scope, graph, scores, similarities, c);
        assert(listed.contains(c) || listed.len() == 40);
    }
}

/// An inactive memory is proposed to be pruned, and so is one whose confidence is
/// below 0.05 and that was reinforced at most once. The proposal is left out only
/// where forty others that may stand before it are listed.
pub proof fn law_stale_memories_are_proposed(
    scope: Seq<char>,
    graph: GraphView,
    scores: Seq<(Seq<char>, u32)>,
    similarities: Seq<u32>,
    i: int,
)
    requires
        0 <= i < graph.memories.len(),
        !graph.memories[i].active || graph.memories[i].strength <= 1 && (
        graph.memories[i].confidence_bits < 0x3D4C_CCCD || 0x8000_0000
            <= graph.memories[i].confidence_bits <= 0xFF80_0000),
    ensures
        exists|c: CandidateView|
            {
                let listed = graph_worklist(scope, graph, scores, similarities);
                &&& c.kind == GardenCandidateKind::Prune
                &&& c.scope == scope
                &&& c.primary_id == graph.memories[i].id
                &&& c.secondary_id is None
                &&& c.score_bits == graph.memories[i].doubt_bits
                &&& {
                    ||| #[trigger] graph_worklist(scope, graph, scores, similarities).contains(c)
                    ||| listed.len() == 40 && forall|k: int|
                        0 <= k < 40 ==> candidate_le(#[trigger] listed[k], c)
                }
            },
{
    let c = prune_candidate(scope, scores, graph.memories[i]);
    lemma_prune_found(scope, scores, graph.memories, i);
    lemma_listed(scope, graph, scores, similarities, c);
    let listed = graph_worklist(scope, graph, scores, similarities);
    assert(listed.contains(c) || listed.len() == 40);
}

/// What the list proposes of two memories holds of them: they are distinct, active
/// and have embeddings of the same length, the score is at least 0.95 for duplicates,
/// and at least 0.78 but below 0.95 for memories to be related, which no edge relates
/// in either direction. What it proposes to prune is inactive, or it is weak and
/// confidence in it is low.
pub proof fn law_proposals_hold_of_the_memories(
    scope: Seq<char>,
    graph: GraphView,
    scores: Seq<(Seq<char>, u32)>,
    similarities: Seq<u32>,
    c: CandidateView,
)
    requires
        similarities.len() == similar_pairs(graph.memories).len(),
        graph_worklist(scope, graph, scores, similarities).contains(c),
    ensures
        c.scope == scope,
        c.kind == GardenCandidateKind::Prune ==> c.secondary_id is None && exists|i: int|
            {
                &&& 0 <= i < graph.memories.len()
                &&& c.primary_id == (#[trigger] graph.memories[i]).id
                &&& c.score_bits == graph.memories[i].doubt_bits
                &&& c.centrality_bits == centrality_of(scores, c.primary_id)
                &&& {
                    ||| !graph.memories[i].active && c.reason == "inactive or superseded memory"@
                    ||| graph.memories[i].active && c.reason
                        == "low effective confidence and weak reinforcement"@
                        && graph.memories[i].strength <= 1 && (graph.memories[i].confidence_bits
                        < 0x3D4C_CCCD || 0x8000_0000 <= graph.memories[i].confidence_bits
                        <= 0xFF80_0000)
                }
            },
        c.kind != GardenCandidateKind::Prune ==> exists|p: int, q: int|
            {
                &&& 0 <= p < graph.memories.len()
                &&& 0 <= q < graph.memories.len()
                &&& p != q
                &&& (#[trigger] graph.memories[p]).active
                &&& (#[trigger] graph.memories[q]).active
                &&& graph.memories[p].embedding_len is Some
                &&& graph.memories[p].embedding_len == graph.memories[q].embedding_len
                &&& c.primary_id == graph.memories[p].id
                &&& c.secondary_id == Some(graph.memories[q].id)
                &&& text::lex_le(graph.memories[p].id, graph.memories[q].id)
                &&& c.centrality_bits == float::greater_of(
                    centrality_of(scores, graph.memories[p].id),
                    centrality_of(scores, graph.memories[q].id),
                )
            },
        c.kind == GardenCandidateKind::Deduplicate ==> 0x3F73_3333 <= c.score_bits <= 0x7F80_0000
            && c.reason == "embedding similarity exceeds dedup threshold"@,
        c.kind == GardenCandidateKind::Relate ==> 0x3F47_AE14 <= c.score_bits < 0x3F73_3333
            && c.reason == "similar active memories are not explicitly related"@ && forall|i: int|
            0 <= i < graph.edges.len() ==> #[trigger] graph.edges[i] != (
                c.primary_id,
                c.secondary_id->0,
                EdgeKind::RelatesTo,
            ) && graph.edges[i] != (c.secondary_id->0, c.primary_id, EdgeKind::RelatesTo),
{
    law_candidates_are_justified(scope, graph, scores, similarities, c);
    if c.kind == GardenCandidateKind::Prune {
        let i = choose|i: int|
            0 <= i < graph.memories.len() && prunable(#[trigger] graph.memories[i]) && c
                == prune_candidate(scope, scores, graph.memories[i]);
        assert(c.primary_id == graph.memories[i].id);
    } else {
        let pairs = similar_pairs(graph.memories);
        let k = choose|k: int|
            0 <= k < pairs.len() && pair_candidate(
                scope,
                scores,
                graph,
                #[trigger] pairs[k],
                similarities[k],
            ) == Some(c);
        law_compared_memories_are_comparable(graph.memories, k);
        let (p, q) = pairs[k];
        assert(graph.memories[p].active && graph.memories[q].active);
        if c.kind == GardenCandidateKind::Relate {
            let (a, b) = (c.primary_id, c.secondary_id->0);
            assert forall|i: int| 0 <= i < graph.edges.len() implies #[trigger] graph.edges[i] != (
                a,
                b,
                EdgeKind::RelatesTo,
            ) && graph.edges[i] != (b, a, EdgeKind::RelatesTo) by {
                if graph.edges[i] == (a, b, EdgeKind::RelatesTo) || graph.edges[i] == (
                    b,
                    a,
                    EdgeKind::RelatesTo,
                ) {
                    assert(graph.edges[i].2 == EdgeKind::RelatesTo);
                    assert(related(graph.edges, a, b));
                }
            }
        }
    }
}

/// Whether two memories are related is the same from either side, and only an edge
/// between these two that says so relates them.
pub proof fn law_relations_go_both_ways(
    edges: Seq<(Seq<char>, Seq<char>, EdgeKind)>,
    a: Seq<char>,
    b: Seq<char>,
)
    ensures
        related(edges, a, b) == related(edges, b, a),
        related(edges, a, b) <==> edges.contains((a, b, EdgeKind::RelatesTo)) || edges.contains(
            (b, a, EdgeKind::RelatesTo),
        ),
{
    if related(edges, a, b) {
        let i = choose|i: int|
            0 <= i < edges.len() && (#[trigger] edges[i]).2 == EdgeKind::RelatesTo && ((edges[i].0
                == a && edges[i].1 == b) || (edges[i].0 == b && edges[i].1 == a));
        assert(edges[i] == (a, b, EdgeKind::RelatesTo) || edges[i] == (b, a, EdgeKind::RelatesTo));
    }
    if related(edges, b, a) {
        let i = choose|i: int|
            0 <= i < edges.len() && (#[trigger] edges[i]).2 == EdgeKind::RelatesTo && ((edges[i].0
                == b && edges[i].1 == a) || (edges[i].0 == a && edges[i].1 == b));
        assert(edges[i] == (a, b, EdgeKind::RelatesTo) || edges[i] == (b, a, EdgeKind::RelatesTo));
    }
    if edges.contains((a, b, EdgeKind::RelatesTo)) {
        let i = choose|i: int| 0 <= i < edges.len() && edges[i] == (a, b, EdgeKind::RelatesTo);
        assert(edges[i].2 == EdgeKind::RelatesTo);
    }
    if edges.contains((b, a, EdgeKind::RelatesTo)) {
        let i = choose|i: int| 0 <= i < edges.len() && edges[i] == (b, a, EdgeKind::RelatesTo);
        assert(edges[i].2 == EdgeKind::RelatesTo);
    }
}

/// Duplicates come before what is to be pruned, and that before what is to be
/// related. Among proposals of one kind the more central ones come first, among those
/// the ones with the higher score, and among those the memories' names decide; the
/// numbers are not negative.
pub proof fn law_urgent_proposals_come_first(a: CandidateView, b: CandidateView)
    ensures
        a.kind == GardenCandidateKind::Deduplicate && b.kind != GardenCandidateKind::Deduplicate
            ==> candidate_le(a, b) && !candidate_le(b, a),
        a.kind == GardenCandidateKind::Prune && b.kind == GardenCandidateKind::Relate
            ==> candidate_le(a, b) && !candidate_le(b, a),
        a.kind == b.kind && b.centrality_bits < a.centrality_bits < 0x8000_0000 ==> candidate_le(
            a,
            b,
        ) && !candidate_le(b, a),
        a.kind == b.kind && a.centrality_bits == b.centrality_bits && b.score_bits < a.score_bits
            < 0x8000_0000 ==> candidate_le(a, b) && !candidate_le(b, a),
        a.kind == b.kind && a.centrality_bits == b.centrality_bits && a.score_bits == b.score_bits
            && a.primary_id != b.primary_id ==> (candidate_le(a, b) <==> text::lex_le(
            a.primary_id,
            b.primary_id,
        )),
        a.kind == b.kind && a.centrality_bits == b.centrality_bits && a.score_bits == b.score_bits
            && a.primary_id == b.primary_id && a.secondary_id is Some && b.secondary_id is Some
            ==> (candidate_le(a, b) <==> text::lex_le(a.secondary_id->0, b.secondary_id->0)),
{
}

/// A memory's centrality is the last one given under its name; without one it is
/// zero.
pub proof fn law_centrality_is_the_last_given(
    scores: Seq<(Seq<char>, u32)>,
    id: Seq<char>,
    k: int,
)
    requires
        forall|i: int| 0 <= i < scores.len() && k < i ==> (#[trigger] scores[i]).0 != id,
    ensures
        0 <= k < scores.len() && scores[k].0 == id ==> centrality_of(scores, id) == scores[k].1,
        k < 0 ==> centrality_of(scores, id) == 0,
    decreases scores.len(),
{
    if scores.len() > 0 && scores.last().0 != id {
        let front = scores.drop_last();
        assert forall|i: int| 0 <= i < front.len() && k < i implies (#[trigger] front[i]).0
            != id by {
            assert(front[i] == scores[i]);
        }
        if 0 <= k < front.len() {
            assert(front[k] == scores[k]);
        }
        law_centrality_is_the_last_given(front, id, k);
    }
}

/// The joint worklist says of each graph what that graph's own worklist says, under
/// the names `project` and `global`.
pub proof fn law_joint_worklist_holds_both(
    project: GardenScope,
    global: GardenScope,
    c: CandidateView,
)
    requires
        project.is_complete(),
        global.is_complete(),
    ensures
        joint_worklist(project, global).contains(c) <==> graph_worklist(
            "project"@,
            project.graph@,
            scores_view(project.scores@),
            project.similarities@,
        ).contains(c) || graph_worklist(
            "global"@,
            global.graph@,
            scores_view(global.scores@),
            global.similarities@,
        ).contains(c),
        joint_worklist(project, global).len() == graph_worklist(
            "project"@,
            project.graph@,
            scores_view(project.scores@),
            project.similarities@,
        ).len() + graph_worklist(
            "global"@,
            global.graph@,
            scores_view(global.scores@),
            global.similarities@,
        ).len(),
{
    let first = project.worklist("project"@);
    let second = global.worklist("global"@);
    let all = first + second;
    order::lemma_arranged_elements(all, worklist_order());
    if joint_worklist(project, global).contains(c) {
        assert(order::arranged(all, worklist_order()).contains(c));
        let k = choose|k: int| 0 <= k < all.len() && all[k] == c;
        if k < first.len() {
            assert(first[k] == c);
        } else {
            assert(second[k - first.len()] == c);
        }
    }
    if first.contains(c) {
        let k = choose|k: int| 0 <= k < first.len() && first[k] == c;
        assert(all[k] == c);
        order::lemma_arranged_holds(all, worklist_order(), c);
    }
    if second.contains(c) {
        let k = choose|k: int| 0 <= k < second.len() && second[k] == c;
        assert(all[first.len() + k] == c);
        order::lemma_arranged_holds(all, worklist_order(), c);
    }
}

} // verus!
