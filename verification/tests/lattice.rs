use syllable_lattice::add;
use syllable_lattice::algo::dictionary::SpellingTable;
use syllable_lattice::algo::graph::{Edge, EdgeProperties, SyllableGraph};
use syllable_lattice::algo::spelling::{
    shift_credibility, Candidate, SpellingType, AMBIGUITY_PENALTY, COMPLETION_PENALTY,
    CORRECTION_PENALTY, JOINT_BONUS,
};
use syllable_lattice::algo::lattice::score;
use syllable_lattice::algo::syllabifier::Syllabifier;

fn spelling(end: usize, syllable_id: i32, credibility: i64) -> Candidate {
    Candidate {
        end,
        syllable_id,
        spelling_type: SpellingType::Normal,
        credibility,
        is_partial: false,
    }
}

fn typed(end: usize, syllable_id: i32, spelling_type: SpellingType) -> Candidate {
    Candidate { end, syllable_id, spelling_type, credibility: 0, is_partial: false }
}

fn table(input_length: usize, entries: Vec<(usize, Candidate)>) -> SpellingTable {
    let mut rows: Vec<Vec<Candidate>> = Vec::new();
    for _ in 0..=input_length {
        rows.push(Vec::new());
    }
    for (start, candidate) in entries {
        rows[start].push(candidate);
    }
    SpellingTable::new(rows)
}

fn build(syllabifier: &Syllabifier, input_length: usize, dictionary: &SpellingTable) -> (SyllableGraph, usize) {
    let mut graph = SyllableGraph::default();
    let input = "a".repeat(input_length);
    let farthest =
        syllabifier.build_syllable_graph::<SpellingTable, SpellingTable>(&input, dictionary, None, &mut graph);
    (graph, farthest)
}

fn edge(graph: &SyllableGraph, start: usize, end: usize, syllable_id: i32) -> Edge {
    let handle = graph.find_edge(start, end, syllable_id).unwrap();
    graph.edges[handle]
}

fn reached(graph: &SyllableGraph) -> Vec<usize> {
    let mut positions = Vec::new();
    for (position, vertex) in graph.vertices.iter().enumerate() {
        if vertex.is_some() {
            positions.push(position);
        }
    }
    positions
}

fn lookup(graph: &SyllableGraph, start: usize, syllable_id: i32) -> Vec<usize> {
    for group in graph.indices.iter() {
        if group.start == start && group.syllable_id == syllable_id {
            return group.handles.clone();
        }
    }
    Vec::new()
}

fn resolve_all(syllabifier: &Syllabifier, graph: &mut SyllableGraph) {
    let spans: Vec<(usize, usize)> = graph.edges.iter().map(|e| (e.start, e.end)).collect();
    for (start, end) in spans {
        syllabifier.check_overlapped_spellings(graph, start, end);
    }
}

#[test]
fn it_works() {
    let result = add(2, 2);
    assert_eq!(result, 4);
}

#[test]
fn add_reaches_the_largest_value() {
    assert_eq!(add(u64::MAX - 1, 1), u64::MAX);
    assert_eq!(add(0, 0), 0);
}

#[test]
fn new_syllabifier_has_everything_off() {
    let syllabifier = Syllabifier::new();
    assert_eq!(syllabifier.delimiters, "");
    assert!(!syllabifier.enable_completion);
    assert!(!syllabifier.strict_spelling);
    let by_default = Syllabifier::default();
    assert_eq!(by_default.delimiters, "");
    assert!(!by_default.enable_completion);
    assert!(!by_default.strict_spelling);
}

#[test]
fn syllabifier_from_settings() {
    let syllabifier = Syllabifier::from((String::from(" '"), true, false));
    assert_eq!(syllabifier.delimiters, " '");
    assert!(syllabifier.enable_completion);
    assert!(!syllabifier.strict_spelling);
}

#[test]
fn edge_properties_start_as_no_correction() {
    let properties = EdgeProperties::new(-250_000);
    assert_eq!(properties.credibility, -250_000);
    assert!(!properties.is_correction);
    assert_eq!(EdgeProperties::default(), EdgeProperties { credibility: 0, is_correction: false });
}

#[test]
fn default_graph_is_empty() {
    let graph = SyllableGraph::default();
    assert_eq!(graph.input_length, 0);
    assert_eq!(graph.interpreted_length, 0);
    assert!(graph.vertices.is_empty());
    assert!(graph.edges.is_empty());
    assert!(graph.indices.is_empty());
}

#[test]
fn penalties_are_the_logarithms() {
    assert_eq!(COMPLETION_PENALTY, (0.5f64.ln() * 1e6).round() as i64);
    assert_eq!(CORRECTION_PENALTY, (0.01f64.ln() * 1e6).round() as i64);
    assert_eq!(AMBIGUITY_PENALTY, (1e-10f64.ln() * 1e6).round() as i64);
    assert_eq!(JOINT_BONUS, 1_000_000);
}

#[test]
fn shifting_saturates() {
    assert_eq!(shift_credibility(-5, -7), -12);
    assert_eq!(shift_credibility(-5, 7), 2);
    assert_eq!(shift_credibility(i64::MIN + 3, -10), i64::MIN);
    assert_eq!(shift_credibility(i64::MAX - 3, 10), i64::MAX);
}

#[test]
fn preference_follows_the_order() {
    assert_eq!(SpellingType::Invalid.preference(), 0);
    assert_eq!(SpellingType::Normal.preference(), 1);
    assert_eq!(SpellingType::Fuzzy.preference(), 2);
    assert_eq!(SpellingType::AbbreviatedWholeSyllable.preference(), 3);
    assert_eq!(SpellingType::AbbreviatedSingleChar.preference(), 4);
    assert_eq!(SpellingType::Completion.preference(), 5);
    assert_eq!(SpellingType::Fuzzy.preferred(SpellingType::Normal), SpellingType::Normal);
    assert_eq!(SpellingType::Normal.preferred(SpellingType::Completion), SpellingType::Normal);
    assert_eq!(SpellingType::Fuzzy.preferred(SpellingType::Fuzzy), SpellingType::Fuzzy);
    assert!(SpellingType::Invalid < SpellingType::Normal);
    assert!(SpellingType::Normal < SpellingType::Fuzzy);
    assert!(SpellingType::Fuzzy < SpellingType::AbbreviatedWholeSyllable);
    assert!(SpellingType::AbbreviatedWholeSyllable < SpellingType::AbbreviatedSingleChar);
    assert!(SpellingType::AbbreviatedSingleChar < SpellingType::Completion);
}

#[test]
fn prevailing_prefers_score_then_no_correction() {
    let plain = EdgeProperties { credibility: -10, is_correction: false };
    let fixed = EdgeProperties { credibility: -10, is_correction: true };
    let worse = EdgeProperties { credibility: -11, is_correction: false };
    assert!(plain.prevails(&fixed));
    assert!(!fixed.prevails(&plain));
    assert!(plain.prevails(&plain));
    assert!(fixed.prevails(&worse));
    assert!(!worse.prevails(&fixed));
}

#[test]
fn score_applies_the_penalties() {
    let exact = spelling(3, 1, -100);
    let partial = Candidate { is_partial: true, ..exact };
    assert_eq!(score(&exact, false), EdgeProperties { credibility: -100, is_correction: false });
    assert_eq!(
        score(&exact, true),
        EdgeProperties { credibility: -100 + CORRECTION_PENALTY, is_correction: true }
    );
    assert_eq!(
        score(&partial, false),
        EdgeProperties { credibility: -100 + COMPLETION_PENALTY, is_correction: false }
    );
    assert_eq!(
        score(&partial, true),
        EdgeProperties {
            credibility: -100 + CORRECTION_PENALTY + COMPLETION_PENALTY,
            is_correction: true
        }
    );
}

#[test]
fn empty_input_gives_an_empty_graph() {
    let dictionary = table(0, vec![]);
    let (graph, farthest) = build(&Syllabifier::new(), 0, &dictionary);
    assert_eq!(farthest, 0);
    assert!(reached(&graph).is_empty());
    assert!(graph.edges.is_empty());
    assert_eq!(graph.interpreted_length, 0);
}

#[test]
fn first_position_is_normal() {
    let dictionary = table(4, vec![]);
    let (graph, farthest) = build(&Syllabifier::new(), 4, &dictionary);
    assert_eq!(graph.vertices[0], Some(SpellingType::Normal));
    assert_eq!(reached(&graph), vec![0]);
    assert_eq!(farthest, 0);
    assert!(graph.edges.is_empty());
}

#[test]
fn single_syllable_input() {
    let dictionary = table(1, vec![(0, spelling(1, 7, -5))]);
    let (graph, farthest) = build(&Syllabifier::new(), 1, &dictionary);
    assert_eq!(farthest, 1);
    assert_eq!(reached(&graph), vec![0, 1]);
    assert_eq!(graph.edges.len(), 1);
    assert_eq!(
        graph.edges[0],
        Edge {
            start: 0,
            end: 1,
            syllable_id: 7,
            properties: EdgeProperties { credibility: -5, is_correction: false }
        }
    );
    assert_eq!(graph.interpreted_length, 1);
    assert_eq!(graph.input_length, 1);
}

#[test]
fn edges_stay_within_the_input() {
    let dictionary = table(
        3,
        vec![
            (0, spelling(2, 1, 0)),
            (0, spelling(9, 2, 0)),
            (0, spelling(0, 3, 0)),
            (0, spelling(3, 4, 5)),
            (2, spelling(1, 5, 0)),
            (2, spelling(3, 6, -1)),
        ],
    );
    let (graph, farthest) = build(&Syllabifier::new(), 3, &dictionary);
    assert_eq!(farthest, 3);
    assert_eq!(graph.edges.len(), 2);
    for e in graph.edges.iter() {
        assert!(e.start < e.end && e.end <= 3);
        assert!(e.properties.credibility <= 0);
    }
    assert_eq!(edge(&graph, 0, 2, 1).properties.credibility, 0);
    assert_eq!(edge(&graph, 2, 3, 6).properties.credibility, -1);
}

#[test]
fn unreachable_positions_are_not_looked_up() {
    let dictionary = table(
        6,
        vec![(0, spelling(2, 1, 0)), (3, spelling(5, 2, 0)), (2, spelling(4, 3, 0))],
    );
    let (graph, farthest) = build(&Syllabifier::new(), 6, &dictionary);
    assert_eq!(reached(&graph), vec![0, 2, 4]);
    assert_eq!(farthest, 4);
    assert_eq!(graph.interpreted_length, 4);
    assert_eq!(graph.edges.len(), 2);
    assert_eq!(graph.find_edge(3, 5, 2), None);
}

#[test]
fn position_takes_the_most_preferred_type() {
    let dictionary = table(
        4,
        vec![
            (0, typed(2, 1, SpellingType::Fuzzy)),
            (0, typed(1, 2, SpellingType::AbbreviatedSingleChar)),
            (1, typed(2, 3, SpellingType::Normal)),
            (1, typed(4, 4, SpellingType::Completion)),
            (2, typed(4, 5, SpellingType::AbbreviatedWholeSyllable)),
        ],
    );
    let (graph, farthest) = build(&Syllabifier::new(), 4, &dictionary);
    assert_eq!(farthest, 4);
    assert_eq!(graph.vertices[0], Some(SpellingType::Normal));
    assert_eq!(graph.vertices[1], Some(SpellingType::AbbreviatedSingleChar));
    assert_eq!(graph.vertices[2], Some(SpellingType::Normal));
    assert_eq!(graph.vertices[3], None);
    assert_eq!(graph.vertices[4], Some(SpellingType::AbbreviatedWholeSyllable));
}

#[test]
fn better_candidate_for_the_same_edge_stays() {
    let dictionary = table(
        2,
        vec![(0, spelling(2, 1, -30)), (0, spelling(2, 1, -10)), (0, spelling(2, 1, -20))],
    );
    let (graph, _) = build(&Syllabifier::new(), 2, &dictionary);
    assert_eq!(graph.edges.len(), 1);
    assert_eq!(edge(&graph, 0, 2, 1).properties, EdgeProperties { credibility: -10, is_correction: false });
}

#[test]
fn corrections_are_marked_and_penalised() {
    let dictionary = table(2, vec![(0, spelling(2, 1, CORRECTION_PENALTY - 100))]);
    let corrector = table(2, vec![(0, spelling(2, 1, -100)), (0, spelling(1, 9, -3))]);
    let mut graph = SyllableGraph::default();
    let farthest =
        Syllabifier::new().build_syllable_graph("ni", &dictionary, Some(&corrector), &mut graph);
    assert_eq!(farthest, 2);
    assert_eq!(reached(&graph), vec![0, 1, 2]);
    assert_eq!(
        edge(&graph, 0, 2, 1).properties,
        EdgeProperties { credibility: CORRECTION_PENALTY - 100, is_correction: false }
    );
    assert_eq!(
        edge(&graph, 0, 1, 9).properties,
        EdgeProperties { credibility: CORRECTION_PENALTY - 3, is_correction: true }
    );
}

#[test]
fn correction_replaces_a_worse_spelling() {
    let dictionary = table(2, vec![(0, spelling(2, 1, CORRECTION_PENALTY - 100))]);
    let corrector = table(2, vec![(0, spelling(2, 1, -99))]);
    let mut graph = SyllableGraph::default();
    Syllabifier::new().build_syllable_graph("ni", &dictionary, Some(&corrector), &mut graph);
    assert_eq!(
        edge(&graph, 0, 2, 1).properties,
        EdgeProperties { credibility: CORRECTION_PENALTY - 99, is_correction: true }
    );
}

#[test]
fn partial_match_takes_the_completion_penalty() {
    let base: i64 = -1_500_000;
    let partial = Candidate {
        end: 4,
        syllable_id: 3,
        spelling_type: SpellingType::Completion,
        credibility: base,
        is_partial: true,
    };
    let exact = Candidate { is_partial: false, syllable_id: 4, ..partial };
    let dictionary = table(4, vec![(0, spelling(2, 1, 0)), (2, partial), (2, exact)]);
    let completing = Syllabifier::from((String::new(), true, false));
    let (graph, farthest) = build(&completing, 4, &dictionary);
    assert_eq!(farthest, 4);
    assert_eq!(edge(&graph, 2, 4, 3).properties.credibility, base + COMPLETION_PENALTY);
    assert_eq!(edge(&graph, 2, 4, 3).properties.credibility, -2_193_147);
    assert_eq!(edge(&graph, 2, 4, 4).properties.credibility, base);
    assert!(edge(&graph, 2, 4, 3).properties.credibility < edge(&graph, 2, 4, 4).properties.credibility);
}

#[test]
fn partial_match_is_left_out_without_completion() {
    let partial = Candidate {
        end: 4,
        syllable_id: 3,
        spelling_type: SpellingType::Completion,
        credibility: -7,
        is_partial: true,
    };
    let dictionary = table(4, vec![(0, spelling(2, 1, 0)), (2, partial)]);
    let (graph, farthest) = build(&Syllabifier::new(), 4, &dictionary);
    assert_eq!(farthest, 2);
    assert_eq!(graph.find_edge(2, 4, 3), None);
    assert_eq!(reached(&graph), vec![0, 2]);
}

#[test]
fn building_again_starts_afresh() {
    let long = table(3, vec![(0, spelling(3, 1, 0))]);
    let short = table(1, vec![(0, spelling(1, 2, -4))]);
    let syllabifier = Syllabifier::new();
    let mut graph = SyllableGraph::default();
    syllabifier.build_syllable_graph::<SpellingTable, SpellingTable>("hao", &long, None, &mut graph);
    syllabifier.transpose(&mut graph);
    let farthest = syllabifier.build_syllable_graph::<SpellingTable, SpellingTable>("a", &short, None, &mut graph);
    assert_eq!(farthest, 1);
    assert_eq!(graph.input_length, 1);
    assert_eq!(graph.edges.len(), 1);
    assert!(graph.indices.is_empty());
    assert_eq!(reached(&graph), vec![0, 1]);
}

#[test]
fn index_lists_longer_matches_first() {
    let dictionary = table(
        5,
        vec![
            (0, spelling(1, 7, 0)),
            (0, spelling(3, 7, -1)),
            (0, spelling(2, 7, -2)),
            (0, spelling(2, 8, -3)),
            (2, spelling(5, 7, -4)),
            (2, spelling(3, 7, -5)),
        ],
    );
    let syllabifier = Syllabifier::new();
    let (mut graph, _) = build(&syllabifier, 5, &dictionary);
    syllabifier.transpose(&mut graph);
    let ends = |graph: &SyllableGraph, start: usize, id: i32| -> Vec<usize> {
        lookup(graph, start, id).iter().map(|h| graph.edges[*h].end).collect()
    };
    assert_eq!(ends(&graph, 0, 7), vec![3, 2, 1]);
    assert_eq!(ends(&graph, 0, 8), vec![2]);
    assert_eq!(ends(&graph, 2, 7), vec![5, 3]);
    assert_eq!(ends(&graph, 1, 7), Vec::<usize>::new());
    assert_eq!(ends(&graph, 0, 9), Vec::<usize>::new());
    assert_eq!(graph.indices.len(), 3);
    for h in lookup(&graph, 0, 7) {
        assert_eq!(graph.edges[h].start, 0);
        assert_eq!(graph.edges[h].syllable_id, 7);
    }
    assert_eq!(graph.collect_run(0, 7), lookup(&graph, 0, 7));
}

#[test]
fn transposing_twice_changes_nothing() {
    let dictionary = table(
        4,
        vec![(0, spelling(1, 1, 0)), (0, spelling(3, 1, 0)), (1, spelling(4, 2, 0)), (3, spelling(4, 2, 0))],
    );
    let syllabifier = Syllabifier::new();
    let (mut graph, _) = build(&syllabifier, 4, &dictionary);
    syllabifier.transpose(&mut graph);
    let once: Vec<(usize, i32, Vec<usize>)> =
        graph.indices.iter().map(|g| (g.start, g.syllable_id, g.handles.clone())).collect();
    syllabifier.transpose(&mut graph);
    let twice: Vec<(usize, i32, Vec<usize>)> =
        graph.indices.iter().map(|g| (g.start, g.syllable_id, g.handles.clone())).collect();
    assert_eq!(once, twice);
    assert_eq!(once.len(), 3);
}

#[test]
fn score_change_is_seen_through_the_index() {
    let dictionary = table(
        5,
        vec![(0, spelling(2, 5, 0)), (2, spelling(3, 6, -1)), (2, spelling(5, 7, -2)), (3, spelling(5, 8, -3))],
    );
    let syllabifier = Syllabifier::new();
    let (mut graph, _) = build(&syllabifier, 5, &dictionary);
    syllabifier.transpose(&mut graph);
    let handle = lookup(&graph, 3, 8)[0];
    assert_eq!(graph.edges[handle].properties.credibility, -3);
    syllabifier.check_overlapped_spellings(&mut graph, 2, 5);
    assert_eq!(lookup(&graph, 3, 8), vec![handle]);
    assert_eq!(graph.edges[handle].properties.credibility, -3 + AMBIGUITY_PENALTY);
}

#[test]
fn competing_decomposition_is_penalised() {
    let with_unit = table(
        8,
        vec![
            (0, spelling(2, 10, -1)),
            (2, spelling(5, 20, -2)),
            (2, spelling(3, 30, -3)),
            (3, spelling(5, 40, -4)),
            (3, spelling(5, 41, -6)),
            (5, spelling(8, 50, -5)),
        ],
    );
    let without_unit = table(
        8,
        vec![
            (0, spelling(2, 10, -1)),
            (2, spelling(3, 30, -3)),
            (3, spelling(5, 40, -4)),
            (3, spelling(5, 41, -6)),
            (5, spelling(8, 50, -5)),
        ],
    );
    let syllabifier = Syllabifier::new();
    let (mut graph, farthest) = build(&syllabifier, 8, &with_unit);
    let (mut control, _) = build(&syllabifier, 8, &without_unit);
    assert_eq!(farthest, 8);
    resolve_all(&syllabifier, &mut graph);
    resolve_all(&syllabifier, &mut control);
    assert_eq!(edge(&graph, 3, 5, 40).properties.credibility, -4 + AMBIGUITY_PENALTY);
    assert_eq!(edge(&graph, 3, 5, 41).properties.credibility, -6 + AMBIGUITY_PENALTY);
    assert_eq!(edge(&control, 3, 5, 40).properties.credibility, -4);
    assert_eq!(edge(&control, 3, 5, 41).properties.credibility, -6);
    assert!(
        edge(&graph, 3, 5, 40).properties.credibility < edge(&control, 3, 5, 40).properties.credibility
    );
    assert_eq!(edge(&graph, 0, 2, 10).properties.credibility, -1);
    assert_eq!(edge(&graph, 2, 5, 20).properties.credibility, -2);
    assert_eq!(edge(&graph, 2, 3, 30).properties.credibility, -3);
    assert_eq!(edge(&graph, 5, 8, 50).properties.credibility, -5);
    assert_eq!(reached(&graph), reached(&control));
}

#[test]
fn favoured_syllable_gains_the_bonus_first() {
    let dictionary = table(
        3,
        vec![(0, spelling(1, 5, 0)), (0, spelling(3, 6, 0)), (1, spelling(3, 1, -9)), (1, spelling(3, 2, -9))],
    );
    let syllabifier = Syllabifier::new();
    let (mut graph, _) = build(&syllabifier, 3, &dictionary);
    syllabifier.check_overlapped_spellings(&mut graph, 0, 3);
    assert_eq!(edge(&graph, 1, 3, 1).properties.credibility, -9 + JOINT_BONUS + AMBIGUITY_PENALTY);
    assert_eq!(edge(&graph, 1, 3, 1).properties.credibility, -22_025_860);
    assert_eq!(edge(&graph, 1, 3, 2).properties.credibility, -9 + AMBIGUITY_PENALTY);
    assert_eq!(edge(&graph, 0, 1, 5).properties.credibility, 0);
    assert_eq!(edge(&graph, 0, 3, 6).properties.credibility, 0);
}

#[test]
fn spans_that_nothing_decomposes_are_left_alone() {
    let dictionary = table(
        4,
        vec![(0, spelling(2, 1, -1)), (2, spelling(4, 2, -2)), (0, spelling(4, 3, -3))],
    );
    let syllabifier = Syllabifier::new();
    let (mut graph, _) = build(&syllabifier, 4, &dictionary);
    let before: Vec<Edge> = graph.edges.clone();
    syllabifier.check_overlapped_spellings(&mut graph, 0, 3);
    assert_eq!(graph.edges, before);
    syllabifier.check_overlapped_spellings(&mut graph, 2, 4);
    assert_eq!(graph.edges, before);
    syllabifier.check_overlapped_spellings(&mut graph, 0, 4);
    assert_eq!(edge(&graph, 2, 4, 2).properties.credibility, -2 + AMBIGUITY_PENALTY);
    assert_eq!(edge(&graph, 0, 2, 1).properties.credibility, -1);
    assert_eq!(edge(&graph, 0, 4, 3).properties.credibility, -3);
}

#[test]
fn table_rows_are_copied_out() {
    let dictionary = table(2, vec![(1, spelling(2, 4, -8)), (1, spelling(2, 5, -9))]);
    assert_eq!(dictionary.fetch(1), vec![spelling(2, 4, -8), spelling(2, 5, -9)]);
    assert_eq!(dictionary.fetch(0), Vec::<Candidate>::new());
    assert_eq!(dictionary.fetch(17), Vec::<Candidate>::new());
}

#[test]
fn positions_count_characters() {
    let dictionary = table(2, vec![(0, spelling(1, 1, 0)), (1, spelling(2, 2, 0)), (2, spelling(3, 3, 0))]);
    let mut graph = SyllableGraph::default();
    let farthest = Syllabifier::new().build_syllable_graph::<SpellingTable, SpellingTable>(
        "l\u{fc}e",
        &dictionary,
        None,
        &mut graph,
    );
    assert_eq!(graph.input_length, 3);
    assert_eq!(farthest, 3);
    let mut by_length = SyllableGraph::default();
    let same = Syllabifier::new().build_for_length::<SpellingTable, SpellingTable>(3, &dictionary, None, &mut by_length);
    assert_eq!(same, 3);
    assert_eq!(by_length.edges, graph.edges);
    assert_eq!(by_length.vertices, graph.vertices);
}
