//! The syllable graph: positions reached, spellings between them, and the
//! index of those spellings by syllable.

use vstd::prelude::*;
use crate::algo::spelling::{Credibility, SpellingType, SyllableId};

verus! {

/// What is known of one spelling between two positions.
#[derive(Clone, Copy, Debug, PartialEq, Eq, Structural)]
pub struct EdgeProperties {
    pub credibility: Credibility,
    pub is_correction: bool,
}

impl EdgeProperties {
    /// Properties of a spelling that the dictionary itself supplied.
    pub fn new(credibility: Credibility) -> (r: EdgeProperties)
        ensures
            r.credibility == credibility,
            !r.is_correction,
    {
        EdgeProperties { credibility, is_correction: false }
    }

    /// `self` is kept when `other` is offered for the same edge: it has the
    /// higher score, or the same score and is no correction where `other` is
    /// none either.
    pub open spec fn prevails_over(self, other: EdgeProperties) -> bool {
        self.credibility > other.credibility || (self.credibility == other.credibility && (
            !self.is_correction || other.is_correction))
    }

    /// Whether `self` is kept when `other` is offered for the same edge.
    pub fn prevails(&self, other: &EdgeProperties) -> (r: bool)
        ensures
            r == self.prevails_over(*other),
    {
        self.credibility > other.credibility || (self.credibility == other.credibility && (
            !self.is_correction || other.is_correction))
    }
}

impl Default for EdgeProperties {
    fn default() -> (r: EdgeProperties)
        ensures
            r.credibility == 0,
            !r.is_correction,
    {
        EdgeProperties { credibility: 0, is_correction: false }
    }
}

/// One recognised spelling from `start` to `end`. Its place in the graph's
/// edge list is the handle by which the index refers to it.
#[derive(Clone, Copy, Debug, PartialEq, Eq, Structural)]
pub struct Edge {
    pub start: usize,
    pub end: usize,
    pub syllable_id: SyllableId,
    pub properties: EdgeProperties,
}

impl Edge {
    /// The edge runs from `start` to `end` and spells `syllable_id`.
    pub open spec fn joins(self, start: usize, end: usize, syllable_id: SyllableId) -> bool {
        self.start == start && self.end == end && self.syllable_id == syllable_id
    }
}

/// The handles of the edges that leave `start` and spell `syllable_id`.
#[derive(Debug)]
pub struct IndexGroup {
    pub start: usize,
    pub syllable_id: SyllableId,
    pub handles: Vec<usize>,
}

/// Some edge of `edges` runs from `start` to `end` and spells `syllable_id`.
pub open spec fn has_edge(edges: Seq<Edge>, start: usize, end: usize, syllable_id: SyllableId) -> bool {
    exists|i: int| 0 <= i < edges.len() && (#[trigger] edges[i]).joins(start, end, syllable_id)
}

/// The handle of the edge from `start` to `end` that spells `syllable_id`.
pub open spec fn edge_at(edges: Seq<Edge>, start: usize, end: usize, syllable_id: SyllableId) -> int {
    choose|i: int| 0 <= i < edges.len() && (#[trigger] edges[i]).joins(start, end, syllable_id)
}

/// No two edges share start, end and syllable.
pub open spec fn distinct_keys(edges: Seq<Edge>) -> bool {
    forall|i: int, j: int|
        0 <= i < j < edges.len() ==> !(#[trigger] edges[i]).joins(
            (#[trigger] edges[j]).start,
            edges[j].end,
            edges[j].syllable_id,
        )
}

/// Some edge of `edges` runs from `from` to `to`.
pub open spec fn has_link(edges: Seq<Edge>, from: usize, to: usize) -> bool {
    exists|j: int| 0 <= j < edges.len() && (#[trigger] edges[j]).start == from && edges[j].end == to
}

/// The handles of the edges of `edges` that leave `start`, spell
/// `syllable_id` and end at a position from `low` up to, not including,
/// `high`: the farthest end first.
pub open spec fn descending_run(
    edges: Seq<Edge>,
    start: usize,
    syllable_id: SyllableId,
    low: int,
    high: int,
) -> Seq<usize>
    decreases high - low,
{
    if low >= high || low < 0 || low > usize::MAX {
        Seq::empty()
    } else {
        let longer = descending_run(edges, start, syllable_id, low + 1, high);
        if has_edge(edges, start, low as usize, syllable_id) {
            longer.push(edge_at(edges, start, low as usize, syllable_id) as usize)
        } else {
            longer
        }
    }
}

/// Some group of `groups` is for `start` and `syllable_id`.
pub open spec fn has_group(groups: Seq<IndexGroup>, start: usize, syllable_id: SyllableId) -> bool {
    exists|g: int|
        0 <= g < groups.len() && (#[trigger] groups[g]).start == start && groups[g].syllable_id
            == syllable_id
}

/// What the index holds for `start` and `syllable_id`: the handles of that
/// group, or nothing where there is no such group.
pub open spec fn index_lookup(groups: Seq<IndexGroup>, start: usize, syllable_id: SyllableId) -> Seq<
    usize,
> {
    if has_group(groups, start, syllable_id) {
        let g = choose|g: int|
            0 <= g < groups.len() && (#[trigger] groups[g]).start == start && groups[g].syllable_id
                == syllable_id;
        groups[g].handles@
    } else {
        Seq::empty()
    }
}

/// A lattice over the positions of one input.
#[derive(Debug)]
pub struct SyllableGraph {
    pub input_length: usize,
    /// The farthest position that some sequence of spellings reaches.
    pub interpreted_length: usize,
    /// For each position, its classification if it was reached.
    pub vertices: Vec<Option<SpellingType>>,
    /// The spellings; the one store of their properties.
    pub edges: Vec<Edge>,
    /// The edges' handles by start and syllable.
    pub indices: Vec<IndexGroup>,
}

impl SyllableGraph {
    /// Position `position` was reached.
    pub open spec fn has_vertex(&self, position: int) -> bool {
        0 <= position < self.vertices@.len() && self.vertices@[position].is_some()
    }

    /// The classification of a position that was reached.
    pub open spec fn vertex_type(&self, position: int) -> SpellingType {
        self.vertices@[position].unwrap()
    }

    /// Edge `i` lies within the input, joins two reached positions, and has
    /// no positive score.
    pub open spec fn edge_fits(&self, i: int) -> bool {
        let edge = self.edges@[i];
        &&& edge.start < edge.end <= self.input_length
        &&& self.has_vertex(edge.start as int)
        &&& self.has_vertex(edge.end as int)
        &&& edge.properties.credibility <= 0
    }

    /// The graph's invariant.
    pub open spec fn well_formed(&self) -> bool {
        &&& self.interpreted_length <= self.input_length < usize::MAX
        &&& self.vertices@.len() <= self.input_length + 1
        &&& forall|i: int| 0 <= i < self.edges@.len() ==> #[trigger] self.edge_fits(i)
        &&& distinct_keys(self.edges@)
    }

    /// The index holds, for every start and syllable, the handles of the
    /// edges that leave that start and spell that syllable, the farthest end
    /// first; no two groups are for the same start and syllable, and no
    /// group is empty.
    pub open spec fn indexed(&self) -> bool {
        &&& forall|g: int| 0 <= g < self.indices@.len() ==> (#[trigger] self.indices@[g]).handles@.len() > 0
        &&& forall|start: usize, syllable_id: SyllableId| #[trigger]
            index_lookup(self.indices@, start, syllable_id) == descending_run(
                self.edges@,
                start,
                syllable_id,
                0,
                self.input_length + 1,
            )
        &&& forall|g: int, h: int|
            0 <= g < h < self.indices@.len() ==> !((#[trigger] self.indices@[g]).start
                == (#[trigger] self.indices@[h]).start && self.indices@[g].syllable_id
                == self.indices@[h].syllable_id)
    }

    /// The handle of the edge from `start` to `end` that spells
    /// `syllable_id`, if there is one.
    pub fn find_edge(&self, start: usize, end: usize, syllable_id: SyllableId) -> (found: Option<usize>)
        requires
            distinct_keys(self.edges@),
        ensures
            found.is_some() == has_edge(self.edges@, start, end, syllable_id),
            found.is_some() ==> found.unwrap() == edge_at(self.edges@, start, end, syllable_id)
                && found.unwrap() < self.edges@.len()
                && self.edges@[found.unwrap() as int].joins(start, end, syllable_id),
    {
        let mut i: usize = 0;
        while i < self.edges.len()
            invariant
                i <= self.edges@.len(),
                distinct_keys(self.edges@),
                forall|j: int| 0 <= j < i ==> !(#[trigger] self.edges@[j]).joins(start, end, syllable_id),
            decreases self.edges@.len() - i,
        {
            let edge = self.edges[i];
            if edge.start == start && edge.end == end && edge.syllable_id == syllable_id {
                proof {
                    assert(self.edges@[i as int].joins(start, end, syllable_id));
                    let c = edge_at(self.edges@, start, end, syllable_id);
                    assert(self.edges@[c].joins(start, end, syllable_id));
                    assert(c == i);
                }
                return Some(i);
            }
            i += 1;
        }
        None
    }

    /// The handles of the edges that leave `start` and spell `syllable_id`,
    /// the farthest end first.
    pub fn collect_run(&self, start: usize, syllable_id: SyllableId) -> (handles: Vec<usize>)
        requires
            self.input_length < usize::MAX,
            distinct_keys(self.edges@),
        ensures
            handles@ == descending_run(self.edges@, start, syllable_id, 0, self.input_length + 1),
    {
        let mut handles: Vec<usize> = Vec::new();
        let mut low: usize = self.input_length + 1;
        while low > 0
            invariant
                self.input_length < usize::MAX,
                distinct_keys(self.edges@),
                low <= self.input_length + 1,
                handles@ == descending_run(
                    self.edges@,
                    start,
                    syllable_id,
                    low as int,
                    self.input_length + 1,
                ),
            decreases low,
        {
            low -= 1;
            match self.find_edge(start, low, syllable_id) {
                Some(e) => {
                    handles.push(e);
                },
                None => {},
            }
        }
        handles
    }
}

/// Whether some group of `groups` is for `start` and `syllable_id`.
pub fn find_group(groups: &Vec<IndexGroup>, start: usize, syllable_id: SyllableId) -> (found: bool)
    ensures
        found == has_group(groups@, start, syllable_id),
{
    let mut g: usize = 0;
    while g < groups.len()
        invariant
            g <= groups@.len(),
            forall|h: int|
                0 <= h < g ==> !((#[trigger] groups@[h]).start == start && groups@[h].syllable_id
                    == syllable_id),
        decreases groups@.len() - g,
    {
        if groups[g].start == start && groups[g].syllable_id == syllable_id {
            return true;
        }
        g += 1;
    }
    false
}

/// Where no edge leaves `start` and spells `syllable_id`, the run is empty.
pub proof fn lemma_run_empty(
    edges: Seq<Edge>,
    start: usize,
    syllable_id: SyllableId,
    low: int,
    high: int,
)
    requires
        forall|i: int|
            0 <= i < edges.len() ==> !((#[trigger] edges[i]).start == start && edges[i].syllable_id
                == syllable_id),
    ensures
        descending_run(edges, start, syllable_id, low, high).len() == 0,
    decreases high - low,
{
    if !(low >= high || low < 0 || low > usize::MAX) {
        lemma_run_empty(edges, start, syllable_id, low + 1, high);
    }
}

/// Every handle of a run names an edge that leaves `start`, spells
/// `syllable_id` and ends from `low` up to, not including, `high`; along the
/// run the ends strictly descend.
pub proof fn lemma_run_descends(
    edges: Seq<Edge>,
    start: usize,
    syllable_id: SyllableId,
    low: int,
    high: int,
)
    requires
        edges.len() <= usize::MAX,
    ensures
        forall|a: int|
            0 <= a < descending_run(edges, start, syllable_id, low, high).len() ==> {
                let handle = #[trigger] descending_run(edges, start, syllable_id, low, high)[a];
                &&& handle < edges.len()
                &&& edges[handle as int].start == start
                &&& edges[handle as int].syllable_id == syllable_id
                &&& low <= edges[handle as int].end < high
            },
        forall|a: int, b: int|
            0 <= a < b < descending_run(edges, start, syllable_id, low, high).len() ==> edges[(
            #[trigger] descending_run(edges, start, syllable_id, low, high)[a]) as int].end > edges[(
            #[trigger] descending_run(edges, start, syllable_id, low, high)[b]) as int].end,
    decreases high - low,
{
    if !(low >= high || low < 0 || low > usize::MAX) {
        lemma_run_descends(edges, start, syllable_id, low + 1, high);
        let run = descending_run(edges, start, syllable_id, low, high);
        let longer = descending_run(edges, start, syllable_id, low + 1, high);
        if has_edge(edges, start, low as usize, syllable_id) {
            let e = edge_at(edges, start, low as usize, syllable_id);
            assert(0 <= e < edges.len() && edges[e].joins(start, low as usize, syllable_id));
            assert(run == longer.push(e as usize));
        } else {
            assert(run == longer);
        }
        assert forall|a: int| 0 <= a < run.len() implies {
            let handle = #[trigger] run[a];
            &&& handle < edges.len()
            &&& edges[handle as int].start == start
            &&& edges[handle as int].syllable_id == syllable_id
            &&& low <= edges[handle as int].end < high
        } by {
            if a < longer.len() {
                assert(run[a] == longer[a]);
            }
        }
        assert forall|a: int, b: int| 0 <= a < b < run.len() implies edges[(#[trigger] run[a]) as int].end
            > edges[(#[trigger] run[b]) as int].end by {
            assert(run[a] == longer[a]);
            if b < longer.len() {
                assert(run[b] == longer[b]);
            }
        }
    }
}

/// Every edge that leaves `start`, spells `syllable_id` and ends from `low`
/// up to, not including, `high` has its handle in the run.
pub proof fn lemma_run_complete(
    edges: Seq<Edge>,
    start: usize,
    syllable_id: SyllableId,
    low: int,
    high: int,
    handle: int,
)
    requires
        edges.len() <= usize::MAX,
        distinct_keys(edges),
        0 <= handle < edges.len(),
        edges[handle].start == start,
        edges[handle].syllable_id == syllable_id,
        0 <= low <= edges[handle].end < high,
    ensures
        descending_run(edges, start, syllable_id, low, high).contains(handle as usize),
    decreases high - low,
{
    let run = descending_run(edges, start, syllable_id, low, high);
    let longer = descending_run(edges, start, syllable_id, low + 1, high);
    if edges[handle].end == low {
        assert(edges[handle].joins(start, low as usize, syllable_id));
        let e = edge_at(edges, start, low as usize, syllable_id);
        assert(0 <= e < edges.len() && edges[e].joins(start, low as usize, syllable_id));
        assert(e == handle);
        assert(run == longer.push(handle as usize));
        assert(run[longer.len() as int] == handle as usize);
    } else {
        lemma_run_complete(edges, start, syllable_id, low + 1, high, handle);
        let at = choose|at: int| 0 <= at < longer.len() && longer[at] == handle as usize;
        assert(run[at] == handle as usize);
    }
}

/// A run names its edges by start, end and syllable alone: where two edge
/// lists agree in these, handle by handle, their runs are the same.
pub proof fn lemma_run_ignores_properties(
    first: Seq<Edge>,
    second: Seq<Edge>,
    start: usize,
    syllable_id: SyllableId,
    low: int,
    high: int,
)
    requires
        first.len() == second.len(),
        distinct_keys(first),
        forall|i: int|
            0 <= i < first.len() ==> (#[trigger] second[i]).joins(
                first[i].start,
                first[i].end,
                first[i].syllable_id,
            ),
    ensures
        descending_run(first, start, syllable_id, low, high) == descending_run(
            second,
            start,
            syllable_id,
            low,
            high,
        ),
    decreases high - low,
{
    if !(low >= high || low < 0 || low > usize::MAX) {
        lemma_run_ignores_properties(first, second, start, syllable_id, low + 1, high);
        let end = low as usize;
        if has_edge(first, start, end, syllable_id) {
            let a = edge_at(first, start, end, syllable_id);
            assert(0 <= a < first.len() && first[a].joins(start, end, syllable_id));
            assert(second[a].joins(start, end, syllable_id));
            let b = edge_at(second, start, end, syllable_id);
            assert(0 <= b < second.len() && second[b].joins(start, end, syllable_id));
            assert(first[b].joins(start, end, syllable_id));
            assert(a == b);
        } else if has_edge(second, start, end, syllable_id) {
            let b = edge_at(second, start, end, syllable_id);
            assert(0 <= b < second.len() && second[b].joins(start, end, syllable_id));
            assert(first[b].joins(start, end, syllable_id));
        }
    }
}

/// What an indexed graph holds for a start and a syllable: handles of edges
/// that leave that start and spell that syllable, every such edge among
/// them, the ends strictly descending.
pub proof fn lemma_index_content(graph: SyllableGraph, start: usize, syllable_id: SyllableId)
    requires
        graph.well_formed(),
        graph.indexed(),
        graph.edges@.len() <= usize::MAX,
    ensures
        forall|a: int|
            0 <= a < index_lookup(graph.indices@, start, syllable_id).len() ==> {
                let handle = #[trigger] index_lookup(graph.indices@, start, syllable_id)[a];
                &&& handle < graph.edges@.len()
                &&& graph.edges@[handle as int].start == start
                &&& graph.edges@[handle as int].syllable_id == syllable_id
            },
        forall|a: int, b: int|
            0 <= a < b < index_lookup(graph.indices@, start, syllable_id).len() ==> graph.edges@[(
            #[trigger] index_lookup(graph.indices@, start, syllable_id)[a]) as int].end
                > graph.edges@[(#[trigger] index_lookup(
                graph.indices@,
                start,
                syllable_id,
            )[b]) as int].end,
        forall|handle: int|
            0 <= handle < graph.edges@.len() && (#[trigger] graph.edges@[handle]).start == start
                && graph.edges@[handle].syllable_id == syllable_id ==> index_lookup(
                graph.indices@,
                start,
                syllable_id,
            ).contains(handle as usize),
{
    let run = descending_run(graph.edges@, start, syllable_id, 0, graph.input_length + 1);
    assert(index_lookup(graph.indices@, start, syllable_id) == run);
    lemma_run_descends(graph.edges@, start, syllable_id, 0, graph.input_length + 1);
    assert forall|handle: int|
        0 <= handle < graph.edges@.len() && (#[trigger] graph.edges@[handle]).start == start
            && graph.edges@[handle].syllable_id == syllable_id implies run.contains(
        handle as usize,
    ) by {
        assert(graph.edge_fits(handle));
        lemma_run_complete(
            graph.edges@,
            start,
            syllable_id,
            0,
            graph.input_length + 1,
            handle,
        );
    }
}

/// The index is a function of the edges: two graphs with the same edges and
/// input length, each indexed, hold the same handles for every start and
/// syllable. So indexing a graph again changes nothing in what it holds.
pub proof fn lemma_index_determined(
    first: SyllableGraph,
    second: SyllableGraph,
    start: usize,
    syllable_id: SyllableId,
)
    requires
        first.indexed(),
        second.indexed(),
        second.edges@ == first.edges@,
        second.input_length == first.input_length,
    ensures
        index_lookup(second.indices@, start, syllable_id) == index_lookup(
            first.indices@,
            start,
            syllable_id,
        ),
{
}

impl Default for SyllableGraph {
    fn default() -> (r: SyllableGraph)
        ensures
            r.well_formed(),
            r.input_length == 0,
            r.interpreted_length == 0,
            r.vertices@.len() == 0,
            r.edges@.len() == 0,
            r.indices@.len() == 0,
    {
        SyllableGraph {
            input_length: 0,
            interpreted_length: 0,
            vertices: Vec::new(),
            edges: Vec::new(),
            indices: Vec::new(),
        }
    }
}

} // verus!
