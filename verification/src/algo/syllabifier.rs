//! Construction of the syllable graph, its index, and the resolution of
//! ambiguous syllable boundaries.

use vstd::prelude::*;
use crate::algo::dictionary::{source, Corrector, Dictionary};
use crate::algo::graph::{
    descending_run, find_group, has_group, has_link, index_lookup, lemma_run_complete,
    lemma_run_empty, lemma_run_ignores_properties, Edge, EdgeProperties, IndexGroup,
    SyllableGraph,
};
use crate::algo::lattice::{
    admissible, arrives_within, backed_within, closed_below, extends, grounded, is_lattice_of,
    lemma_closed_next, lemma_same_lattice, lemma_served_persists, lemma_taken_in, score, scored,
    served, taken_in,
};
use crate::algo::spelling::{
    shift_credibility, shifted, Candidate, SpellingType, SyllableId, AMBIGUITY_PENALTY,
    FAVOURED_SYLLABLE, JOINT_BONUS,
};

verus! {

/// Edge `i` is the second half of a decomposition of the span from `start`
/// to `end` into two edges: it ends at `end` and starts where some edge from
/// `start` ends.
pub open spec fn competes(edges: Seq<Edge>, i: int, start: usize, end: usize) -> bool {
    edges[i].end == end && has_link(edges, start, edges[i].start)
}

/// A competing edge starts at a joint strictly inside the span.
pub proof fn lemma_joint_inside(graph: SyllableGraph, i: int, start: usize, end: usize)
    requires
        graph.well_formed(),
        0 <= i < graph.edges@.len(),
        competes(graph.edges@, i, start, end),
    ensures
        start < graph.edges@[i].start < end,
{
    let joint = graph.edges@[i].start;
    let j = choose|j: int|
        0 <= j < graph.edges@.len() && (#[trigger] graph.edges@[j]).start == start
            && graph.edges@[j].end == joint;
    assert(graph.edge_fits(j));
    assert(graph.edge_fits(i));
}

/// The properties of a competing spelling after resolution: the favoured
/// syllable first gains the bonus, then every syllable takes the ambiguity
/// penalty.
pub open spec fn discouraged(properties: EdgeProperties, syllable_id: SyllableId) -> EdgeProperties {
    let raised = if syllable_id == FAVOURED_SYLLABLE {
        shifted(properties.credibility as int, JOINT_BONUS as int)
    } else {
        properties.credibility as int
    };
    EdgeProperties {
        credibility: shifted(raised, AMBIGUITY_PENALTY as int) as i64,
        is_correction: properties.is_correction,
    }
}

/// Edge `i` of the graph after the resolution of the span from `start` to
/// `end`.
pub open spec fn resolved_edge(edges: Seq<Edge>, i: int, start: usize, end: usize) -> Edge {
    if competes(edges, i, start, end) {
        Edge {
            start: edges[i].start,
            end: edges[i].end,
            syllable_id: edges[i].syllable_id,
            properties: discouraged(edges[i].properties, edges[i].syllable_id),
        }
    } else {
        edges[i]
    }
}

/// Settings of the syllabification.
#[derive(Debug)]
pub struct Syllabifier {
    /// Characters that separate syllables explicitly. The dictionary reads
    /// them; the construction of the graph does not.
    pub delimiters: String,
    /// Partial matches are taken, at a penalty.
    pub enable_completion: bool,
    /// Read by the ranking of the graph's paths; every spelling still enters
    /// the graph.
    pub strict_spelling: bool,
}

impl Default for Syllabifier {
    fn default() -> (r: Syllabifier)
        ensures
            r.delimiters@.len() == 0,
            !r.enable_completion,
            !r.strict_spelling,
    {
        Syllabifier::new()
    }
}

impl From<(String, bool, bool)> for Syllabifier {
    /// Settings from the delimiters, whether completion is enabled, and
    /// whether spelling is strict.
    fn from(value: (String, bool, bool)) -> (r: Syllabifier) {
        Syllabifier { delimiters: value.0, enable_completion: value.1, strict_spelling: value.2 }
    }
}

impl vstd::std_specs::convert::FromSpecImpl<(String, bool, bool)> for Syllabifier {
    open spec fn obeys_from_spec() -> bool {
        true
    }

    open spec fn from_spec(value: (String, bool, bool)) -> Syllabifier {
        Syllabifier { delimiters: value.0, enable_completion: value.1, strict_spelling: value.2 }
    }
}

impl Syllabifier {
    pub fn new() -> (r: Syllabifier)
        ensures
            r.delimiters@.len() == 0,
            !r.enable_completion,
            !r.strict_spelling,
    {
        Syllabifier { delimiters: String::new(), enable_completion: false, strict_spelling: false }
    }

    /// Builds in `graph` the syllable graph of `input` and returns the
    /// farthest position reached. Positions count the characters of `input`;
    /// what the characters are is the sources' business.
    pub fn build_syllable_graph<D: Dictionary, C: Corrector>(
        &self,
        input: &str,
        dictionary: &D,
        corrector: Option<&C>,
        graph: &mut SyllableGraph,
    ) -> (farthest: usize)
        requires
            input@.len() < usize::MAX,
        ensures
            is_lattice_of(
                *final(graph),
                input@.len() as usize,
                dictionary,
                corrector,
                self.enable_completion,
            ),
            input@.len() > 0 ==> final(graph).has_vertex(0) && final(graph).vertex_type(0)
                == SpellingType::Normal,
            forall|e: int|
                0 <= e < final(graph).edges@.len() ==> (#[trigger] final(graph).edges@[e]).start
                    < final(graph).edges@[e].end <= input@.len(),
            final(graph).indices@.len() == 0,
            final(graph).interpreted_length == farthest,
            input@.len() == 0 ==> farthest == 0,
            input@.len() > 0 ==> final(graph).has_vertex(farthest as int),
            forall|p: int| #[trigger] final(graph).has_vertex(p) ==> p <= farthest,
    {
        let input_length = input.unicode_len();
        self.build_for_length(input_length, dictionary, corrector, graph)
    }

    /// Builds in `graph` the syllable graph of an input of `input_length`
    /// characters and returns the farthest position reached.
    ///
    /// Position 0 is reached as a normal spelling. From every reached
    /// position the dictionary is looked up, and the corrector where there is
    /// one; each admissible candidate becomes an edge and its end is reached.
    /// Where several candidates give the same edge, the one that prevails
    /// stays; a position takes the most preferred classification among the
    /// candidates that end at it. An empty input gives an empty graph.
    ///
    /// The pending positions wait in a frontier that is taken in ascending
    /// order, each with the most preferred classification seen so far. Every
    /// edge ends behind its start, so a position is taken once, after every
    /// spelling that ends at it is known, and its classification then stays.
    pub fn build_for_length<D: Dictionary, C: Corrector>(
        &self,
        input_length: usize,
        dictionary: &D,
        corrector: Option<&C>,
        graph: &mut SyllableGraph,
    ) -> (farthest: usize)
        requires
            input_length < usize::MAX,
        ensures
            is_lattice_of(*final(graph), input_length, dictionary, corrector, self.enable_completion),
            input_length > 0 ==> final(graph).has_vertex(0) && final(graph).vertex_type(0)
                == SpellingType::Normal,
            forall|e: int|
                0 <= e < final(graph).edges@.len() ==> (#[trigger] final(graph).edges@[e]).start
                    < final(graph).edges@[e].end <= input_length,
            final(graph).indices@.len() == 0,
            final(graph).interpreted_length == farthest,
            input_length == 0 ==> farthest == 0,
            input_length > 0 ==> final(graph).has_vertex(farthest as int),
            forall|p: int| #[trigger] final(graph).has_vertex(p) ==> p <= farthest,
    {
        graph.input_length = input_length;
        graph.interpreted_length = 0;
        graph.vertices = Vec::new();
        graph.edges = Vec::new();
        graph.indices = Vec::new();
        if input_length == 0 {
            return 0;
        }
        let mut frontier: Vec<Option<SpellingType>> = Vec::new();
        while frontier.len() <= input_length
            invariant
                frontier@.len() <= input_length + 1,
                input_length < usize::MAX,
                forall|p: int| 0 <= p < frontier@.len() ==> (#[trigger] frontier@[p]).is_none(),
            decreases input_length + 1 - frontier@.len(),
        {
            frontier.push(None);
        }
        frontier.set(0, Some(SpellingType::Normal));
        graph.vertices = frontier;
        let mut farthest: usize = 0;
        let mut position: usize = 0;
        while position <= input_length
            invariant
                0 < input_length < usize::MAX,
                position <= input_length + 1,
                graph.input_length == input_length,
                graph.well_formed(),
                graph.vertices@.len() == input_length + 1,
                graph.indices@.len() == 0,
                graph.interpreted_length == 0,
                graph.vertices@[0] == Some(SpellingType::Normal),
                graph.has_vertex(farthest as int),
                position == 0 ==> farthest == 0,
                position > 0 ==> farthest < position,
                forall|p: int| 0 <= p < position && #[trigger] graph.has_vertex(p) ==> p <= farthest,
                closed_below(dictionary, corrector, self.enable_completion, *graph, position as int),
                grounded(dictionary, corrector, self.enable_completion, *graph),
            decreases input_length + 1 - position,
        {
            if graph.vertices[position].is_some() {
                farthest = position;
                self.expand(graph, position, dictionary, corrector);
            }
            position += 1;
        }
        let ghost swept = *graph;
        graph.interpreted_length = farthest;
        proof {
            lemma_same_lattice(
                dictionary,
                corrector,
                self.enable_completion,
                swept,
                *graph,
                input_length + 1,
            );
            assert forall|i: int| 0 <= i < graph.edges@.len() implies #[trigger] graph.edge_fits(i) by {
                assert(swept.edge_fits(i));
            }
            assert forall|p: int| #[trigger] graph.has_vertex(p) implies p <= farthest by {
                assert(swept.has_vertex(p));
            }
            assert forall|e: int| 0 <= e < graph.edges@.len() implies (#[trigger] graph.edges@[e]).start
                < graph.edges@[e].end <= input_length by {
                assert(graph.edge_fits(e));
            }
        }
        farthest
    }

    /// Looks up the sources at the reached position `position` and takes in
    /// what they give.
    fn expand<D: Dictionary, C: Corrector>(
        &self,
        graph: &mut SyllableGraph,
        position: usize,
        dictionary: &D,
        corrector: Option<&C>,
    )
        requires
            old(graph).well_formed(),
            old(graph).vertices@.len() == old(graph).input_length + 1,
            old(graph).has_vertex(position as int),
            closed_below(dictionary, corrector, self.enable_completion, *old(graph), position as int),
            grounded(dictionary, corrector, self.enable_completion, *old(graph)),
        ensures
            final(graph).well_formed(),
            final(graph).input_length == old(graph).input_length,
            final(graph).vertices@.len() == old(graph).vertices@.len(),
            final(graph).interpreted_length == old(graph).interpreted_length,
            final(graph).indices == old(graph).indices,
            forall|p: int|
                0 <= p <= position ==> (#[trigger] final(graph).vertices@[p]) == old(graph).vertices@[p],
            closed_below(
                dictionary,
                corrector,
                self.enable_completion,
                *final(graph),
                position + 1,
            ),
            grounded(dictionary, corrector, self.enable_completion, *final(graph)),
    {
        let ghost before = *graph;
        let found = dictionary.lookup(position);
        self.absorb(graph, position, &found, false);
        let ghost between = *graph;
        proof {
            lemma_taken_in(
                dictionary,
                corrector,
                self.enable_completion,
                before,
                between,
                position,
                false,
            );
        }
        match corrector {
            Some(present) => {
                let suggested = present.suggest(position);
                self.absorb(graph, position, &suggested, true);
                proof {
                    lemma_taken_in(
                        dictionary,
                        corrector,
                        self.enable_completion,
                        between,
                        *graph,
                        position,
                        true,
                    );
                }
            },
            None => {
                assert(source(dictionary, corrector, position, true).len() == 0);
            },
        }
        proof {
            lemma_closed_next(dictionary, corrector, self.enable_completion, *graph, position);
        }
    }

    /// Rebuilds the index from the edges: for every start and syllable, the
    /// handles of the edges that leave that start and spell that syllable,
    /// the farthest end first. The index holds handles, never properties, so
    /// that a later change of an edge's score is seen through it.
    pub fn transpose(&self, graph: &mut SyllableGraph)
        requires
            old(graph).well_formed(),
        ensures
            final(graph).indexed(),
            old(graph).indexed() ==> forall|start: usize, syllable_id: SyllableId| #[trigger]
                index_lookup(final(graph).indices@, start, syllable_id) == index_lookup(
                    old(graph).indices@,
                    start,
                    syllable_id,
                ),
            final(graph).well_formed(),
            final(graph).edges == old(graph).edges,
            final(graph).vertices == old(graph).vertices,
            final(graph).input_length == old(graph).input_length,
            final(graph).interpreted_length == old(graph).interpreted_length,
    {
        let mut groups: Vec<IndexGroup> = Vec::new();
        let mut i: usize = 0;
        while i < graph.edges.len()
            invariant
                *graph == *old(graph),
                graph.well_formed(),
                i <= graph.edges@.len(),
                forall|g: int| 0 <= g < groups@.len() ==> (#[trigger] groups@[g]).handles@.len() > 0,
                forall|g: int, h: int|
                    0 <= g < h < groups@.len() ==> !((#[trigger] groups@[g]).start == (
                    #[trigger] groups@[h]).start && groups@[g].syllable_id == groups@[h].syllable_id),
                forall|g: int|
                    0 <= g < groups@.len() ==> (#[trigger] groups@[g]).handles@ == descending_run(
                        graph.edges@,
                        groups@[g].start,
                        groups@[g].syllable_id,
                        0,
                        graph.input_length + 1,
                    ),
                forall|j: int|
                    0 <= j < i ==> has_group(
                        groups@,
                        (#[trigger] graph.edges@[j]).start,
                        graph.edges@[j].syllable_id,
                    ),
            decreases graph.edges@.len() - i,
        {
            let edge = graph.edges[i];
            if !find_group(&groups, edge.start, edge.syllable_id) {
                let ghost earlier = groups@;
                let handles = graph.collect_run(edge.start, edge.syllable_id);
                proof {
                    assert(graph.edge_fits(i as int));
                    lemma_run_complete(
                        graph.edges@,
                        edge.start,
                        edge.syllable_id,
                        0,
                        graph.input_length + 1,
                        i as int,
                    );
                }
                groups.push(IndexGroup { start: edge.start, syllable_id: edge.syllable_id, handles });
                proof {
                    let last = earlier.len() as int;
                    assert(groups@[last].start == edge.start && groups@[last].syllable_id
                        == edge.syllable_id);
                    assert forall|j: int| 0 <= j < i + 1 implies has_group(
                        groups@,
                        (#[trigger] graph.edges@[j]).start,
                        graph.edges@[j].syllable_id,
                    ) by {
                        if j < i {
                            let g = choose|g: int|
                                0 <= g < earlier.len() && (#[trigger] earlier[g]).start
                                    == graph.edges@[j].start && earlier[g].syllable_id
                                    == graph.edges@[j].syllable_id;
                            assert(groups@[g] == earlier[g]);
                        }
                    }
                    assert forall|g: int, h: int| 0 <= g < h < groups@.len() implies !((
                    #[trigger] groups@[g]).start == (#[trigger] groups@[h]).start
                        && groups@[g].syllable_id == groups@[h].syllable_id) by {
                        assert(groups@[g] == earlier[g]);
                        if h < last {
                            assert(groups@[h] == earlier[h]);
                        }
                    }
                }
            }
            i += 1;
        }
        graph.indices = groups;
        proof {
            assert forall|i: int| 0 <= i < graph.edges@.len() implies #[trigger] graph.edge_fits(i) by {
                assert(old(graph).edge_fits(i));
            }
            assert forall|start: usize, syllable_id: SyllableId| #[trigger]
                index_lookup(graph.indices@, start, syllable_id) == descending_run(
                    graph.edges@,
                    start,
                    syllable_id,
                    0,
                    graph.input_length + 1,
                ) by {
                if !has_group(graph.indices@, start, syllable_id) {
                    lemma_run_empty(graph.edges@, start, syllable_id, 0, graph.input_length + 1);
                }
            }
        }
    }

    /// Penalises the decompositions of the span from `start` to `end` into
    /// two edges. Every edge that ends at `end` and starts at a joint, a
    /// position where some edge from `start` ends, takes the ambiguity
    /// penalty; the favoured syllable first gains the bonus. All other edges,
    /// the positions and the index stay as they are.
    pub fn check_overlapped_spellings(&self, graph: &mut SyllableGraph, start: usize, end: usize)
        requires
            old(graph).well_formed(),
            old(graph).has_vertex(start as int),
        ensures
            final(graph).well_formed(),
            final(graph).input_length == old(graph).input_length,
            final(graph).interpreted_length == old(graph).interpreted_length,
            final(graph).vertices == old(graph).vertices,
            final(graph).indices == old(graph).indices,
            old(graph).indexed() ==> final(graph).indexed(),
            final(graph).edges@.len() == old(graph).edges@.len(),
            forall|i: int|
                0 <= i < old(graph).edges@.len() ==> #[trigger] final(graph).edges@[i] == resolved_edge(
                    old(graph).edges@,
                    i,
                    start,
                    end,
                ),
            forall|i: int|
                0 <= i < old(graph).edges@.len() && competes(old(graph).edges@, i, start, end) && old(
                    graph,
                ).edges@[i].syllable_id != FAVOURED_SYLLABLE && old(graph).edges@[i].properties.credibility
                    + AMBIGUITY_PENALTY >= i64::MIN ==> (
                #[trigger] final(graph).edges@[i]).properties.credibility == old(
                    graph,
                ).edges@[i].properties.credibility + AMBIGUITY_PENALTY,
            forall|i: int|
                0 <= i < old(graph).edges@.len() && !competes(old(graph).edges@, i, start, end)
                    ==> #[trigger] final(graph).edges@[i] == old(graph).edges@[i],
    {
        let ghost origin = *graph;
        let n = graph.input_length;
        let mut joints: Vec<bool> = Vec::new();
        while joints.len() <= n
            invariant
                n < usize::MAX,
                joints@.len() <= n + 1,
                forall|p: int| 0 <= p < joints@.len() ==> !(#[trigger] joints@[p]),
            decreases n + 1 - joints@.len(),
        {
            joints.push(false);
        }
        let mut j: usize = 0;
        while j < graph.edges.len()
            invariant
                *graph == origin,
                origin.well_formed(),
                n == origin.input_length,
                j <= graph.edges@.len(),
                joints@.len() == n + 1,
                forall|p: int|
                    0 <= p <= n ==> (#[trigger] joints@[p] <==> exists|h: int|
                        0 <= h < j && (#[trigger] origin.edges@[h]).start == start
                            && origin.edges@[h].end == p),
            decreases graph.edges@.len() - j,
        {
            let edge = graph.edges[j];
            assert(origin.edge_fits(j as int));
            if edge.start == start {
                let ghost marked = joints@;
                joints.set(edge.end, true);
                proof {
                    assert forall|p: int| 0 <= p <= n implies (#[trigger] joints@[p] <==> exists|h: int|
                        0 <= h < j + 1 && (#[trigger] origin.edges@[h]).start == start
                            && origin.edges@[h].end == p) by {
                        if p == edge.end {
                            assert(origin.edges@[j as int].start == start && origin.edges@[j as int].end == p);
                        } else {
                            assert(joints@[p] == marked[p]);
                        }
                    }
                }
            }
            j += 1;
        }
        let mut i: usize = 0;
        while i < graph.edges.len()
            invariant
                origin.well_formed(),
                n == origin.input_length,
                graph.input_length == origin.input_length,
                graph.interpreted_length == origin.interpreted_length,
                graph.vertices == origin.vertices,
                graph.indices == origin.indices,
                graph.edges@.len() == origin.edges@.len(),
                i <= graph.edges@.len(),
                joints@.len() == n + 1,
                forall|p: int|
                    0 <= p <= n ==> (#[trigger] joints@[p] <==> has_link(origin.edges@, start, p as usize)),
                forall|h: int|
                    0 <= h < i ==> #[trigger] graph.edges@[h] == resolved_edge(origin.edges@, h, start, end),
                forall|h: int| i <= h < graph.edges@.len() ==> #[trigger] graph.edges@[h] == origin.edges@[h],
            decreases graph.edges@.len() - i,
        {
            let edge = graph.edges[i];
            assert(origin.edge_fits(i as int));
            if edge.end == end && joints[edge.start] {
                let mut credibility: i64 = edge.properties.credibility;
                if edge.syllable_id == FAVOURED_SYLLABLE {
                    credibility = shift_credibility(credibility, JOINT_BONUS);
                }
                credibility = shift_credibility(credibility, AMBIGUITY_PENALTY);
                graph.edges.set(
                    i,
                    Edge {
                        start: edge.start,
                        end: edge.end,
                        syllable_id: edge.syllable_id,
                        properties: EdgeProperties {
                            credibility,
                            is_correction: edge.properties.is_correction,
                        },
                    },
                );
            }
            i += 1;
        }
        proof {
            assert forall|i: int| 0 <= i < graph.edges@.len() implies #[trigger] graph.edge_fits(i) by {
                assert(origin.edge_fits(i));
                assert(graph.edges@[i] == resolved_edge(origin.edges@, i, start, end));
            }
            assert forall|a: int, b: int| 0 <= a < b < graph.edges@.len() implies !(
            #[trigger] graph.edges@[a]).joins(
                (#[trigger] graph.edges@[b]).start,
                graph.edges@[b].end,
                graph.edges@[b].syllable_id,
            ) by {
                assert(graph.edges@[a] == resolved_edge(origin.edges@, a, start, end));
                assert(graph.edges@[b] == resolved_edge(origin.edges@, b, start, end));
                assert(!origin.edges@[a].joins(
                    origin.edges@[b].start,
                    origin.edges@[b].end,
                    origin.edges@[b].syllable_id,
                ));
            }
            if origin.indexed() {
                assert forall|from: usize, syllable_id: SyllableId| #[trigger]
                    index_lookup(graph.indices@, from, syllable_id) == descending_run(
                        graph.edges@,
                        from,
                        syllable_id,
                        0,
                        graph.input_length + 1,
                    ) by {
                    assert forall|h: int| 0 <= h < origin.edges@.len() implies (
                    #[trigger] graph.edges@[h]).joins(
                        origin.edges@[h].start,
                        origin.edges@[h].end,
                        origin.edges@[h].syllable_id,
                    ) by {
                        assert(graph.edges@[h] == resolved_edge(origin.edges@, h, start, end));
                    }
                    lemma_run_ignores_properties(
                        origin.edges@,
                        graph.edges@,
                        from,
                        syllable_id,
                        0,
                        graph.input_length + 1,
                    );
                    assert(index_lookup(origin.indices@, from, syllable_id) == descending_run(
                        origin.edges@,
                        from,
                        syllable_id,
                        0,
                        origin.input_length + 1,
                    ));
                }
            }
        }
    }

    /// Takes the candidates offered from `start` into the graph, in their
    /// order.
    fn absorb(
        &self,
        graph: &mut SyllableGraph,
        start: usize,
        candidates: &Vec<Candidate>,
        corrected: bool,
    )
        requires
            old(graph).well_formed(),
            old(graph).vertices@.len() == old(graph).input_length + 1,
            old(graph).has_vertex(start as int),
        ensures
            taken_in(
                *old(graph),
                *final(graph),
                start,
                candidates@,
                corrected,
                self.enable_completion,
            ),
    {
        let ghost origin = *graph;
        let n = graph.input_length;
        let mut k: usize = 0;
        proof {
            reveal(taken_in);
        }
        while k < candidates.len()
            invariant
                k <= candidates@.len(),
                n == graph.input_length,
                graph.well_formed(),
                origin.well_formed(),
                origin.vertices@.len() == n + 1,
                origin.has_vertex(start as int),
                extends(origin, *graph),
                graph.interpreted_length == origin.interpreted_length,
                graph.indices == origin.indices,
                forall|p: int| 0 <= p <= start ==> (#[trigger] graph.vertices@[p]) == origin.vertices@[p],
                forall|p: int|
                    0 <= p < graph.vertices@.len() && (#[trigger] graph.vertices@[p])
                        != origin.vertices@[p] ==> arrives_within(
                        candidates@,
                        k as int,
                        start,
                        n,
                        self.enable_completion,
                        p,
                        graph.vertex_type(p),
                    ),
                forall|i: int|
                    0 <= i < origin.edges@.len() ==> (#[trigger] graph.edges@[i]) == origin.edges@[i]
                        || backed_within(
                        candidates@,
                        k as int,
                        start,
                        n,
                        self.enable_completion,
                        corrected,
                        graph.edges@[i],
                    ),
                forall|i: int|
                    origin.edges@.len() <= i < graph.edges@.len() ==> backed_within(
                        candidates@,
                        k as int,
                        start,
                        n,
                        self.enable_completion,
                        corrected,
                        #[trigger] graph.edges@[i],
                    ),
                forall|j: int|
                    0 <= j < k && admissible(#[trigger] candidates@[j], start, n, self.enable_completion)
                        ==> served(*graph, start, candidates@[j], corrected),
            decreases candidates@.len() - k,
        {
            let candidate = candidates[k];
            if start < candidate.end && candidate.end <= n && candidate.credibility <= 0 && (
                !candidate.is_partial || self.enable_completion) {
                let ghost before = *graph;
                let properties = score(&candidate, corrected);
                let found = graph.find_edge(start, candidate.end, candidate.syllable_id);
                let ghost handle: int = if found.is_some() {
                    found.unwrap() as int
                } else {
                    graph.edges@.len() as int
                };
                match found {
                    Some(e) => {
                        let current = graph.edges[e];
                        if !current.properties.prevails(&properties) {
                            graph.edges.set(
                                e,
                                Edge {
                                    start: current.start,
                                    end: current.end,
                                    syllable_id: current.syllable_id,
                                    properties,
                                },
                            );
                        }
                    },
                    None => {
                        graph.edges.push(
                            Edge {
                                start,
                                end: candidate.end,
                                syllable_id: candidate.syllable_id,
                                properties,
                            },
                        );
                    },
                }
                let reached = match graph.vertices[candidate.end] {
                    Some(known) => known.preferred(candidate.spelling_type),
                    None => candidate.spelling_type,
                };
                graph.vertices.set(candidate.end, Some(reached));
                proof {
                    assert(extends(before, *graph));
                    assert(graph.well_formed()) by {
                        assert forall|i: int| 0 <= i < graph.edges@.len() implies #[trigger] graph.edge_fits(i) by {
                            if i < before.edges@.len() {
                                assert(before.edge_fits(i));
                            }
                        }
                    }
                    assert(candidates@[k as int] == candidate);
                    assert(graph.edges@[handle].joins(start, candidate.end, candidate.syllable_id));
                    assert(graph.edges@[handle].properties.prevails_over(scored(candidate, corrected)));
                    assert(served(*graph, start, candidate, corrected));
                    assert forall|j: int|
                        0 <= j < k && admissible(#[trigger] candidates@[j], start, n, self.enable_completion)
                        implies served(*graph, start, candidates@[j], corrected) by {
                        lemma_served_persists(before, *graph, start, candidates@[j], corrected);
                    }
                }
            }
            k += 1;
        }
    }
}

} // verus!
