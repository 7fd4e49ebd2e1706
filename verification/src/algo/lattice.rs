//! What the syllable graph of an input is: which candidates enter it, with
//! what properties, and the laws that make the graph a function of its
//! sources.

use vstd::prelude::*;
use crate::algo::dictionary::{source, Corrector, Dictionary};
use crate::algo::graph::{Edge, EdgeProperties, SyllableGraph};
use crate::algo::spelling::{
    shift_credibility, shifted, Candidate, SpellingType, COMPLETION_PENALTY, CORRECTION_PENALTY,
};

verus! {

/// A candidate offered from `start` is taken into the graph: it ends behind
/// `start` and within the input, its score is not positive, and it is a
/// partial match only where completion is enabled.
pub open spec fn admissible(
    candidate: Candidate,
    start: usize,
    input_length: usize,
    completion: bool,
) -> bool {
    &&& start < candidate.end <= input_length
    &&& candidate.credibility <= 0
    &&& candidate.is_partial ==> completion
}

/// The properties with which a candidate enters the graph: its own score,
/// less the correction penalty where a corrector offered it, less the
/// completion penalty where it is a partial match.
pub open spec fn scored(candidate: Candidate, corrected: bool) -> EdgeProperties {
    let corrected_score = if corrected {
        shifted(candidate.credibility as int, CORRECTION_PENALTY as int)
    } else {
        candidate.credibility as int
    };
    let score = if candidate.is_partial {
        shifted(corrected_score, COMPLETION_PENALTY as int)
    } else {
        corrected_score
    };
    EdgeProperties { credibility: score as i64, is_correction: corrected }
}

/// Computes the properties with which a candidate enters the graph.
pub fn score(candidate: &Candidate, corrected: bool) -> (properties: EdgeProperties)
    ensures
        properties == scored(*candidate, corrected),
        candidate.credibility <= 0 ==> properties.credibility <= 0,
{
    let mut credibility: i64 = candidate.credibility;
    if corrected {
        credibility = shift_credibility(credibility, CORRECTION_PENALTY);
    }
    if candidate.is_partial {
        credibility = shift_credibility(credibility, COMPLETION_PENALTY);
    }
    EdgeProperties { credibility, is_correction: corrected }
}

/// The admissible candidate `candidate`, offered from `start`, accounts for
/// `edge` as it stands.
pub open spec fn backs(
    candidate: Candidate,
    start: usize,
    input_length: usize,
    completion: bool,
    corrected: bool,
    edge: Edge,
) -> bool {
    &&& admissible(candidate, start, input_length, completion)
    &&& edge.joins(start, candidate.end, candidate.syllable_id)
    &&& edge.properties == scored(candidate, corrected)
}

/// One of the first `limit` candidates accounts for `edge`.
pub open spec fn backed_within(
    candidates: Seq<Candidate>,
    limit: int,
    start: usize,
    input_length: usize,
    completion: bool,
    corrected: bool,
    edge: Edge,
) -> bool {
    exists|j: int|
        0 <= j < limit && backs(
            #[trigger] candidates[j],
            start,
            input_length,
            completion,
            corrected,
            edge,
        )
}

/// One of the first `limit` candidates is admissible, ends at `position` and
/// has the classification `spelling_type`.
pub open spec fn arrives_within(
    candidates: Seq<Candidate>,
    limit: int,
    start: usize,
    input_length: usize,
    completion: bool,
    position: int,
    spelling_type: SpellingType,
) -> bool {
    exists|j: int|
        0 <= j < limit && admissible(#[trigger] candidates[j], start, input_length, completion)
            && candidates[j].end == position && candidates[j].spelling_type == spelling_type
}

/// The graph has taken in `candidate`, offered from `start`: it holds the
/// edge, with properties that prevail over the candidate's, and the
/// candidate's end is reached with a classification that is at least as
/// preferred as the candidate's.
pub open spec fn served(graph: SyllableGraph, start: usize, candidate: Candidate, corrected: bool) -> bool {
    &&& graph.has_vertex(candidate.end as int)
    &&& graph.vertex_type(candidate.end as int).rank() <= candidate.spelling_type.rank()
    &&& exists|e: int|
        0 <= e < graph.edges@.len() && (#[trigger] graph.edges@[e]).joins(
            start,
            candidate.end,
            candidate.syllable_id,
        ) && graph.edges@[e].properties.prevails_over(scored(candidate, corrected))
}

/// From `before` to `after` nothing was lost: each position reached stays
/// reached, with a classification at least as preferred; each edge keeps its
/// handle, start, end and syllable, with properties that prevail over its
/// earlier ones.
pub open spec fn extends(before: SyllableGraph, after: SyllableGraph) -> bool {
    &&& after.input_length == before.input_length
    &&& after.vertices@.len() == before.vertices@.len()
    &&& after.edges@.len() >= before.edges@.len()
    &&& forall|p: int|
        before.has_vertex(p) ==> #[trigger] after.has_vertex(p) && after.vertex_type(p).rank()
            <= before.vertex_type(p).rank()
    &&& forall|i: int|
        0 <= i < before.edges@.len() ==> (#[trigger] after.edges@[i]).joins(
            before.edges@[i].start,
            before.edges@[i].end,
            before.edges@[i].syllable_id,
        ) && after.edges@[i].properties.prevails_over(before.edges@[i].properties)
}

/// A candidate that was taken in stays taken in as the graph grows.
pub proof fn lemma_served_persists(
    before: SyllableGraph,
    after: SyllableGraph,
    start: usize,
    candidate: Candidate,
    corrected: bool,
)
    requires
        extends(before, after),
        served(before, start, candidate, corrected),
    ensures
        served(after, start, candidate, corrected),
{
    let e = choose|e: int|
        0 <= e < before.edges@.len() && (#[trigger] before.edges@[e]).joins(
            start,
            candidate.end,
            candidate.syllable_id,
        ) && before.edges@[e].properties.prevails_over(scored(candidate, corrected));
    assert(after.edges@[e].joins(start, candidate.end, candidate.syllable_id));
    assert(after.edges@[e].properties.prevails_over(scored(candidate, corrected)));
    assert(after.has_vertex(candidate.end as int));
}

/// Some admissible candidate that is looked up at the edge's start accounts
/// for `edge` as it stands.
#[verifier::opaque]
pub open spec fn edge_backed<D: Dictionary, C: Corrector>(
    dictionary: &D,
    corrector: Option<&C>,
    input_length: usize,
    completion: bool,
    edge: Edge,
) -> bool {
    exists|corrected: bool|
        backed_within(
            #[trigger] source(dictionary, corrector, edge.start, corrected),
            source(dictionary, corrector, edge.start, corrected).len() as int,
            edge.start,
            input_length,
            completion,
            corrected,
            edge,
        )
}

/// Some admissible candidate, looked up at a position that the graph has
/// reached, ends at `position` and has the classification that the graph
/// gives `position`.
#[verifier::opaque]
pub open spec fn vertex_backed<D: Dictionary, C: Corrector>(
    dictionary: &D,
    corrector: Option<&C>,
    completion: bool,
    graph: SyllableGraph,
    position: int,
) -> bool {
    exists|start: usize, corrected: bool|
        graph.has_vertex(start as int) && arrives_within(
            #[trigger] source(dictionary, corrector, start, corrected),
            source(dictionary, corrector, start, corrected).len() as int,
            start,
            graph.input_length,
            completion,
            position,
            graph.vertex_type(position),
        )
}

/// An admissible candidate from a reached position that ends at `position`
/// with the classification of `position` shows `position` to be backed.
pub proof fn lemma_vertex_backed_by<D: Dictionary, C: Corrector>(
    dictionary: &D,
    corrector: Option<&C>,
    completion: bool,
    graph: SyllableGraph,
    position: int,
    start: usize,
    corrected: bool,
    k: int,
)
    requires
        graph.has_vertex(start as int),
        0 <= k < source(dictionary, corrector, start, corrected).len(),
        admissible(
            source(dictionary, corrector, start, corrected)[k],
            start,
            graph.input_length,
            completion,
        ),
        source(dictionary, corrector, start, corrected)[k].end == position,
        source(dictionary, corrector, start, corrected)[k].spelling_type == graph.vertex_type(
            position,
        ),
    ensures
        vertex_backed(dictionary, corrector, completion, graph, position),
{
    reveal(vertex_backed);
    assert(arrives_within(
        source(dictionary, corrector, start, corrected),
        source(dictionary, corrector, start, corrected).len() as int,
        start,
        graph.input_length,
        completion,
        position,
        graph.vertex_type(position),
    ));
}

/// The candidate that backs a position: where it was looked up, from which
/// source, and its place in what was found there.
pub proof fn lemma_backing_of_vertex<D: Dictionary, C: Corrector>(
    dictionary: &D,
    corrector: Option<&C>,
    completion: bool,
    graph: SyllableGraph,
    position: int,
) -> (found: (usize, bool, int))
    requires
        vertex_backed(dictionary, corrector, completion, graph, position),
    ensures
        graph.has_vertex(found.0 as int),
        0 <= found.2 < source(dictionary, corrector, found.0, found.1).len(),
        admissible(
            source(dictionary, corrector, found.0, found.1)[found.2],
            found.0,
            graph.input_length,
            completion,
        ),
        source(dictionary, corrector, found.0, found.1)[found.2].end == position,
        source(dictionary, corrector, found.0, found.1)[found.2].spelling_type == graph.vertex_type(
            position,
        ),
{
    reveal(vertex_backed);
    let (start, corrected) = choose|start: usize, corrected: bool|
        graph.has_vertex(start as int) && arrives_within(
            #[trigger] source(dictionary, corrector, start, corrected),
            source(dictionary, corrector, start, corrected).len() as int,
            start,
            graph.input_length,
            completion,
            position,
            graph.vertex_type(position),
        );
    let given = source(dictionary, corrector, start, corrected);
    let k = choose|k: int|
        0 <= k < given.len() && admissible(#[trigger] given[k], start, graph.input_length, completion)
            && given[k].end == position && given[k].spelling_type == graph.vertex_type(position);
    (start, corrected, k)
}

/// The candidate that accounts for an edge: from which source it came, and
/// its place in what was found at the edge's start.
pub proof fn lemma_backing_of_edge<D: Dictionary, C: Corrector>(
    dictionary: &D,
    corrector: Option<&C>,
    input_length: usize,
    completion: bool,
    edge: Edge,
) -> (found: (bool, int))
    requires
        edge_backed(dictionary, corrector, input_length, completion, edge),
    ensures
        0 <= found.1 < source(dictionary, corrector, edge.start, found.0).len(),
        backs(
            source(dictionary, corrector, edge.start, found.0)[found.1],
            edge.start,
            input_length,
            completion,
            found.0,
            edge,
        ),
{
    reveal(edge_backed);
    let corrected = choose|corrected: bool|
        backed_within(
            #[trigger] source(dictionary, corrector, edge.start, corrected),
            source(dictionary, corrector, edge.start, corrected).len() as int,
            edge.start,
            input_length,
            completion,
            corrected,
            edge,
        );
    let given = source(dictionary, corrector, edge.start, corrected);
    let k = choose|k: int|
        0 <= k < given.len() && backs(
            #[trigger] given[k],
            edge.start,
            input_length,
            completion,
            corrected,
            edge,
        );
    (corrected, k)
}

/// Every admissible candidate that is looked up at a reached position before
/// `limit` has been taken in.
pub open spec fn closed_below<D: Dictionary, C: Corrector>(
    dictionary: &D,
    corrector: Option<&C>,
    completion: bool,
    graph: SyllableGraph,
    limit: int,
) -> bool {
    forall|start: usize, corrected: bool, k: int|
        start < limit && graph.has_vertex(start as int) && 0 <= k < source(
            dictionary,
            corrector,
            start,
            corrected,
        ).len() && admissible(
            #[trigger] source(dictionary, corrector, start, corrected)[k],
            start,
            graph.input_length,
            completion,
        ) ==> served(graph, start, source(dictionary, corrector, start, corrected)[k], corrected)
}

/// `graph` is the syllable graph of an input of `input_length` characters
/// under the given sources.
pub open spec fn is_lattice_of<D: Dictionary, C: Corrector>(
    graph: SyllableGraph,
    input_length: usize,
    dictionary: &D,
    corrector: Option<&C>,
    completion: bool,
) -> bool {
    &&& graph.well_formed()
    &&& graph.input_length == input_length
    &&& input_length == 0 ==> graph.vertices@.len() == 0 && graph.edges@.len() == 0
    &&& input_length > 0 ==> graph.vertices@.len() == input_length + 1 && graph.vertices@[0] == Some(
        SpellingType::Normal,
    )
    &&& closed_below(dictionary, corrector, completion, graph, input_length + 1)
    &&& grounded(dictionary, corrector, completion, graph)
}

/// `after` is `before` with the candidates `candidates`, offered from
/// `start`, taken in: nothing was lost, every admissible candidate is
/// served, and whatever changed is accounted for by one of them.
#[verifier::opaque]
pub open spec fn taken_in(
    before: SyllableGraph,
    after: SyllableGraph,
    start: usize,
    candidates: Seq<Candidate>,
    corrected: bool,
    completion: bool,
) -> bool {
    &&& after.well_formed()
    &&& extends(before, after)
    &&& after.interpreted_length == before.interpreted_length
    &&& after.indices == before.indices
    &&& forall|p: int| 0 <= p <= start ==> (#[trigger] after.vertices@[p]) == before.vertices@[p]
    &&& forall|p: int|
        0 <= p < after.vertices@.len() && (#[trigger] after.vertices@[p]) != before.vertices@[p]
            ==> arrives_within(
            candidates,
            candidates.len() as int,
            start,
            after.input_length,
            completion,
            p,
            after.vertex_type(p),
        )
    &&& forall|i: int|
        0 <= i < before.edges@.len() ==> (#[trigger] after.edges@[i]) == before.edges@[i]
            || backed_within(
            candidates,
            candidates.len() as int,
            start,
            after.input_length,
            completion,
            corrected,
            after.edges@[i],
        )
    &&& forall|i: int|
        before.edges@.len() <= i < after.edges@.len() ==> backed_within(
            candidates,
            candidates.len() as int,
            start,
            after.input_length,
            completion,
            corrected,
            #[trigger] after.edges@[i],
        )
    &&& forall|k: int|
        0 <= k < candidates.len() && admissible(
            #[trigger] candidates[k],
            start,
            after.input_length,
            completion,
        ) ==> served(after, start, candidates[k], corrected)
}

/// Every admissible candidate that one source gives at `position` has been
/// taken in.
pub open spec fn closed_at<D: Dictionary, C: Corrector>(
    dictionary: &D,
    corrector: Option<&C>,
    completion: bool,
    graph: SyllableGraph,
    position: usize,
    corrected: bool,
) -> bool {
    forall|k: int|
        0 <= k < source(dictionary, corrector, position, corrected).len() && admissible(
            #[trigger] source(dictionary, corrector, position, corrected)[k],
            position,
            graph.input_length,
            completion,
        ) ==> served(graph, position, source(dictionary, corrector, position, corrected)[k], corrected)
}

/// Every edge is accounted for by a candidate, and every position behind
/// the first by a candidate that ends at it.
pub open spec fn grounded<D: Dictionary, C: Corrector>(
    dictionary: &D,
    corrector: Option<&C>,
    completion: bool,
    graph: SyllableGraph,
) -> bool {
    &&& forall|e: int|
        0 <= e < graph.edges@.len() ==> edge_backed(
            dictionary,
            corrector,
            graph.input_length,
            completion,
            #[trigger] graph.edges@[e],
        )
    &&& forall|p: int|
        0 < p && #[trigger] graph.has_vertex(p) ==> vertex_backed(
            dictionary,
            corrector,
            completion,
            graph,
            p,
        )
}

/// Taking in what one source gives at `position` keeps the graph closed
/// before `position` and grounded, and closes it at `position` for that
/// source.
pub(crate) proof fn lemma_taken_in<D: Dictionary, C: Corrector>(
    dictionary: &D,
    corrector: Option<&C>,
    completion: bool,
    before: SyllableGraph,
    after: SyllableGraph,
    position: usize,
    corrected: bool,
)
    requires
        taken_in(
            before,
            after,
            position,
            source(dictionary, corrector, position, corrected),
            corrected,
            completion,
        ),
        before.has_vertex(position as int),
        closed_below(dictionary, corrector, completion, before, position as int),
        grounded(dictionary, corrector, completion, before),
    ensures
        after.well_formed(),
        after.input_length == before.input_length,
        after.vertices@.len() == before.vertices@.len(),
        after.has_vertex(position as int),
        after.interpreted_length == before.interpreted_length,
        after.indices == before.indices,
        forall|p: int| 0 <= p <= position ==> (#[trigger] after.vertices@[p]) == before.vertices@[p],
        closed_below(dictionary, corrector, completion, after, position as int),
        grounded(dictionary, corrector, completion, after),
        closed_at(dictionary, corrector, completion, after, position, corrected),
        closed_at(dictionary, corrector, completion, before, position, !corrected) ==> closed_at(
            dictionary,
            corrector,
            completion,
            after,
            position,
            !corrected,
        ),
{
    reveal(taken_in);
    reveal(edge_backed);
    let given = source(dictionary, corrector, position, corrected);
    assert forall|start: usize, from_corrector: bool, k: int|
        start < position && after.has_vertex(start as int) && 0 <= k < source(
            dictionary,
            corrector,
            start,
            from_corrector,
        ).len() && admissible(
            #[trigger] source(dictionary, corrector, start, from_corrector)[k],
            start,
            after.input_length,
            completion,
        ) implies served(
        after,
        start,
        source(dictionary, corrector, start, from_corrector)[k],
        from_corrector,
    ) by {
        assert(after.vertices@[start as int] == before.vertices@[start as int]);
        assert(before.has_vertex(start as int));
        lemma_served_persists(
            before,
            after,
            start,
            source(dictionary, corrector, start, from_corrector)[k],
            from_corrector,
        );
    }
    assert forall|e: int| 0 <= e < after.edges@.len() implies edge_backed(
        dictionary,
        corrector,
        after.input_length,
        completion,
        #[trigger] after.edges@[e],
    ) by {
        let edge = after.edges@[e];
        if e < before.edges@.len() && edge == before.edges@[e] {
            assert(edge_backed(dictionary, corrector, before.input_length, completion, before.edges@[e]));
        } else {
            assert(backed_within(
                given,
                given.len() as int,
                position,
                after.input_length,
                completion,
                corrected,
                edge,
            ));
            assert(edge.start == position);
            assert(backed_within(
                source(dictionary, corrector, edge.start, corrected),
                source(dictionary, corrector, edge.start, corrected).len() as int,
                edge.start,
                after.input_length,
                completion,
                corrected,
                edge,
            ));
        }
    }
    assert forall|p: int| 0 < p && #[trigger] after.has_vertex(p) implies vertex_backed(
        dictionary,
        corrector,
        completion,
        after,
        p,
    ) by {
        if after.vertices@[p] == before.vertices@[p] {
            assert(before.has_vertex(p));
            let found = lemma_backing_of_vertex(dictionary, corrector, completion, before, p);
            assert(after.has_vertex(found.0 as int));
            lemma_vertex_backed_by(
                dictionary,
                corrector,
                completion,
                after,
                p,
                found.0,
                found.1,
                found.2,
            );
        } else {
            assert(after.has_vertex(position as int));
            let k = choose|k: int|
                0 <= k < given.len() && admissible(
                    #[trigger] given[k],
                    position,
                    after.input_length,
                    completion,
                ) && given[k].end == p && given[k].spelling_type == after.vertex_type(p);
            lemma_vertex_backed_by(
                dictionary,
                corrector,
                completion,
                after,
                p,
                position,
                corrected,
                k,
            );
        }
    }
    let other = !corrected;
    if closed_at(dictionary, corrector, completion, before, position, other) {
        assert forall|k: int|
            0 <= k < source(dictionary, corrector, position, other).len() && admissible(
                #[trigger] source(dictionary, corrector, position, other)[k],
                position,
                after.input_length,
                completion,
            ) implies served(
            after,
            position,
            source(dictionary, corrector, position, other)[k],
            other,
        ) by {
            lemma_served_persists(
                before,
                after,
                position,
                source(dictionary, corrector, position, other)[k],
                other,
            );
        }
    }
}

/// Closure and grounding speak of the positions and edges alone.
pub(crate) proof fn lemma_same_lattice<D: Dictionary, C: Corrector>(
    dictionary: &D,
    corrector: Option<&C>,
    completion: bool,
    before: SyllableGraph,
    after: SyllableGraph,
    limit: int,
)
    requires
        after.input_length == before.input_length,
        after.vertices@ == before.vertices@,
        after.edges@ == before.edges@,
        closed_below(dictionary, corrector, completion, before, limit),
        grounded(dictionary, corrector, completion, before),
    ensures
        closed_below(dictionary, corrector, completion, after, limit),
        grounded(dictionary, corrector, completion, after),
{
    reveal(edge_backed);
    assert(extends(before, after));
    assert forall|start: usize, from_corrector: bool, k: int|
        start < limit && after.has_vertex(start as int) && 0 <= k < source(
            dictionary,
            corrector,
            start,
            from_corrector,
        ).len() && admissible(
            #[trigger] source(dictionary, corrector, start, from_corrector)[k],
            start,
            after.input_length,
            completion,
        ) implies served(
        after,
        start,
        source(dictionary, corrector, start, from_corrector)[k],
        from_corrector,
    ) by {
        assert(before.has_vertex(start as int));
        lemma_served_persists(
            before,
            after,
            start,
            source(dictionary, corrector, start, from_corrector)[k],
            from_corrector,
        );
    }
    assert forall|p: int| 0 < p && #[trigger] after.has_vertex(p) implies vertex_backed(
        dictionary,
        corrector,
        completion,
        after,
        p,
    ) by {
        assert(before.has_vertex(p));
        let found = lemma_backing_of_vertex(dictionary, corrector, completion, before, p);
        assert(after.has_vertex(found.0 as int));
        lemma_vertex_backed_by(
            dictionary,
            corrector,
            completion,
            after,
            p,
            found.0,
            found.1,
            found.2,
        );
    }
    assert forall|e: int| 0 <= e < after.edges@.len() implies edge_backed(
        dictionary,
        corrector,
        after.input_length,
        completion,
        #[trigger] after.edges@[e],
    ) by {
        assert(edge_backed(dictionary, corrector, before.input_length, completion, before.edges@[e]));
    }
}

/// A graph that is closed before `position`, and at `position` for both
/// sources, is closed before the next position.
pub(crate) proof fn lemma_closed_next<D: Dictionary, C: Corrector>(
    dictionary: &D,
    corrector: Option<&C>,
    completion: bool,
    graph: SyllableGraph,
    position: usize,
)
    requires
        closed_below(dictionary, corrector, completion, graph, position as int),
        closed_at(dictionary, corrector, completion, graph, position, false),
        closed_at(dictionary, corrector, completion, graph, position, true),
    ensures
        closed_below(dictionary, corrector, completion, graph, position + 1),
{
    assert forall|start: usize, from_corrector: bool, k: int|
        start < position + 1 && graph.has_vertex(start as int) && 0 <= k < source(
            dictionary,
            corrector,
            start,
            from_corrector,
        ).len() && admissible(
            #[trigger] source(dictionary, corrector, start, from_corrector)[k],
            start,
            graph.input_length,
            completion,
        ) implies served(
        graph,
        start,
        source(dictionary, corrector, start, from_corrector)[k],
        from_corrector,
    ) by {
        if start == position {
            if from_corrector {
                assert(closed_at(dictionary, corrector, completion, graph, position, true));
            } else {
                assert(closed_at(dictionary, corrector, completion, graph, position, false));
            }
        }
    }
}

/// The sources determine which positions are reached: a position that one
/// graph of an input reaches, every graph of that input under the same
/// sources reaches, with a classification at least as preferred.
pub proof fn lemma_reached_alike<D: Dictionary, C: Corrector>(
    first: SyllableGraph,
    second: SyllableGraph,
    input_length: usize,
    dictionary: &D,
    corrector: Option<&C>,
    completion: bool,
    position: int,
)
    requires
        is_lattice_of(first, input_length, dictionary, corrector, completion),
        is_lattice_of(second, input_length, dictionary, corrector, completion),
        first.has_vertex(position),
    ensures
        second.has_vertex(position),
        second.vertex_type(position).rank() <= first.vertex_type(position).rank(),
    decreases position,
{
    if position > 0 {
        let found = lemma_backing_of_vertex(dictionary, corrector, completion, first, position);
        let start = found.0;
        let corrected = found.1;
        let k = found.2;
        let given = source(dictionary, corrector, start, corrected);
        lemma_reached_alike(
            first,
            second,
            input_length,
            dictionary,
            corrector,
            completion,
            start as int,
        );
        assert(served(second, start, given[k], corrected));
    }
}

/// The sources determine the classification of every reached position.
pub proof fn lemma_classified_alike<D: Dictionary, C: Corrector>(
    first: SyllableGraph,
    second: SyllableGraph,
    input_length: usize,
    dictionary: &D,
    corrector: Option<&C>,
    completion: bool,
    position: int,
)
    requires
        is_lattice_of(first, input_length, dictionary, corrector, completion),
        is_lattice_of(second, input_length, dictionary, corrector, completion),
        first.has_vertex(position),
    ensures
        second.has_vertex(position),
        second.vertex_type(position) == first.vertex_type(position),
{
    lemma_reached_alike(first, second, input_length, dictionary, corrector, completion, position);
    lemma_reached_alike(second, first, input_length, dictionary, corrector, completion, position);
}

/// The sources determine the edges and their properties: an edge of one
/// graph of an input is, as it stands, an edge of every graph of that input
/// under the same sources.
pub proof fn lemma_edges_alike<D: Dictionary, C: Corrector>(
    first: SyllableGraph,
    second: SyllableGraph,
    input_length: usize,
    dictionary: &D,
    corrector: Option<&C>,
    completion: bool,
    handle: int,
)
    requires
        is_lattice_of(first, input_length, dictionary, corrector, completion),
        is_lattice_of(second, input_length, dictionary, corrector, completion),
        0 <= handle < first.edges@.len(),
    ensures
        exists|other: int|
            0 <= other < second.edges@.len() && #[trigger] second.edges@[other]
                == first.edges@[handle],
{
    let edge = first.edges@[handle];
    assert(first.edge_fits(handle));
    let found = lemma_backing_of_edge(dictionary, corrector, input_length, completion, edge);
    let candidate = source(dictionary, corrector, edge.start, found.0)[found.1];
    lemma_reached_alike(
        first,
        second,
        input_length,
        dictionary,
        corrector,
        completion,
        edge.start as int,
    );
    assert(served(second, edge.start, candidate, found.0));
    let other = choose|other: int|
        0 <= other < second.edges@.len() && (#[trigger] second.edges@[other]).joins(
            edge.start,
            candidate.end,
            candidate.syllable_id,
        ) && second.edges@[other].properties.prevails_over(scored(candidate, found.0));
    let twin = second.edges@[other];
    let twin_found = lemma_backing_of_edge(dictionary, corrector, input_length, completion, twin);
    let twin_candidate = source(dictionary, corrector, edge.start, twin_found.0)[twin_found.1];
    assert(served(first, edge.start, twin_candidate, twin_found.0));
    let back = choose|back: int|
        0 <= back < first.edges@.len() && (#[trigger] first.edges@[back]).joins(
            edge.start,
            twin_candidate.end,
            twin_candidate.syllable_id,
        ) && first.edges@[back].properties.prevails_over(scored(twin_candidate, twin_found.0));
    assert(first.edges@[back].joins(edge.start, edge.end, edge.syllable_id));
    assert(first.edges@[handle].joins(edge.start, edge.end, edge.syllable_id));
    assert(back == handle);
    assert(twin.properties == edge.properties);
    assert(twin == edge);
}

} // verus!
