use iching::analysis::HexagramAnalysis;
use iching::error::Error;
use iching::hexagram::Hexagram;
use iching::operation::SearchOperation;
use iching::path::count_line_changes;
use iching::sequence::{
    find_min_random_sequence, king_wen, least_total_ops, min_by_total_ops,
    random_sequence_analysis, SequenceAnalysis,
};

#[test]
fn king_wen_counts_from_one_to_sixty_four() {
    let sequence = king_wen();
    assert_eq!(sequence.len(), 64);
    for (i, number) in sequence.iter().enumerate() {
        assert_eq!(*number, i + 1);
    }
}

#[test]
fn a_single_hexagram_has_no_leg() {
    let analysis = SequenceAnalysis::new(vec![5]).unwrap();
    assert_eq!(analysis.sequence, vec![5]);
    assert_eq!(analysis.total_ops, 0);
    assert_eq!(analysis.total_line_changes, 0);
    assert_eq!(analysis.total_paths, 1);
    assert!(analysis.shortest_paths.is_empty());
    let empty = SequenceAnalysis::new(Vec::new()).unwrap();
    assert_eq!(empty.total_ops, 0);
    assert_eq!(empty.total_paths, 1);
    assert!(empty.shortest_paths.is_empty());
}

#[test]
fn there_and_back_again() {
    let analysis = SequenceAnalysis::new(vec![1, 2, 1]).unwrap();
    assert_eq!(analysis.sequence, vec![1, 2, 1]);
    assert_eq!(analysis.total_ops, 2);
    assert_eq!(analysis.total_line_changes, 12);
    assert_eq!(analysis.total_paths, 1);
    assert_eq!(analysis.shortest_paths.len(), 2);
    assert_eq!(
        analysis.shortest_paths[1],
        vec![vec![
            (Hexagram::numbered(2), SearchOperation::NoOp),
            (Hexagram::numbered(1), SearchOperation::InverseHexagram),
        ]]
    );
}

#[test]
fn totals_are_those_of_the_legs() {
    let analysis = SequenceAnalysis::new(vec![11, 12, 12, 3, 50]).unwrap();
    assert_eq!(analysis.shortest_paths.len(), 4);
    let mut ops = 0u64;
    let mut changes = 0u64;
    let mut choices = 1u128;
    for paths in &analysis.shortest_paths {
        ops += paths[0].len() as u64 - 1;
        changes += count_line_changes(&paths[0]);
        choices *= paths.len() as u128;
    }
    assert_eq!(analysis.total_ops, ops);
    assert_eq!(analysis.total_line_changes, changes);
    assert_eq!(analysis.total_paths, choices);
    assert_eq!(analysis.shortest_paths[0].len(), 3);
    assert_eq!(analysis.shortest_paths[1].len(), 1);
    assert_eq!(analysis.shortest_paths[1][0].len(), 1);
}

#[test]
fn a_sequence_with_a_number_out_of_range() {
    assert_eq!(SequenceAnalysis::new(vec![0, 1]).err(), Some(Error::InvalidStart(0)));
    assert_eq!(SequenceAnalysis::new(vec![65, 0]).err(), Some(Error::InvalidStart(65)));
    assert_eq!(SequenceAnalysis::new(vec![1, 65]).err(), Some(Error::InvalidEnd(65)));
    assert_eq!(SequenceAnalysis::new(vec![1, 2, 0, 70]).err(), Some(Error::InvalidEnd(0)));
    assert!(SequenceAnalysis::new(vec![70]).is_ok());
}

#[test]
fn default_analysis_is_empty() {
    let analysis = SequenceAnalysis::default();
    assert!(analysis.sequence.is_empty());
    assert!(analysis.shortest_paths.is_empty());
    assert_eq!(analysis.total_ops, 0);
    assert_eq!(analysis.total_line_changes, 0);
    assert_eq!(analysis.total_paths, 0);
}

#[test]
fn the_first_of_the_least_is_picked() {
    let a = SequenceAnalysis::new(vec![1, 2, 1]).unwrap();
    let b = SequenceAnalysis::new(vec![1, 2]).unwrap();
    let c = SequenceAnalysis::new(vec![2, 1]).unwrap();
    let d = SequenceAnalysis::new(vec![1, 2, 1, 2]).unwrap();
    assert_eq!((a.total_ops, b.total_ops, c.total_ops, d.total_ops), (2, 1, 1, 3));
    let analyses = vec![a, b, c, d];
    assert_eq!(least_total_ops(&analyses), Some(1));
    let least = min_by_total_ops(analyses).unwrap();
    assert_eq!(least.sequence, vec![1, 2]);
    assert_eq!(least.total_ops, 1);
    assert_eq!(least_total_ops(&Vec::new()), None);
    assert!(min_by_total_ops(Vec::new()).is_none());
}

#[test]
fn a_random_sequence_holds_every_hexagram_once() {
    let analysis = random_sequence_analysis();
    assert_ne!(analysis.sequence, king_wen());
    let mut sorted = analysis.sequence.clone();
    sorted.sort();
    assert_eq!(sorted, king_wen());
    assert_eq!(analysis.shortest_paths.len(), 63);
    let mut ops = 0u64;
    for paths in &analysis.shortest_paths {
        ops += paths[0].len() as u64 - 1;
    }
    assert_eq!(analysis.total_ops, ops);
}

#[test]
fn the_best_of_some_random_sequences() {
    let analysis = find_min_random_sequence(3).unwrap();
    let mut sorted = analysis.sequence.clone();
    sorted.sort();
    assert_eq!(sorted, king_wen());
    assert_eq!(analysis.shortest_paths.len(), 63);
    let again = SequenceAnalysis::new(analysis.sequence.clone()).unwrap();
    assert_eq!(again.total_ops, analysis.total_ops);
    assert_eq!(again.total_line_changes, analysis.total_line_changes);
    assert_eq!(again.total_paths, analysis.total_paths);
    assert_eq!(again.shortest_paths, analysis.shortest_paths);
}

#[test]
fn analysis_of_a_hexagram() {
    let analysis = HexagramAnalysis::new(3).unwrap();
    assert_eq!(analysis.hexagram, Hexagram::numbered(3));
    assert_eq!(analysis.bottom_trigram.number, 2);
    assert_eq!(analysis.top_trigram.number, 3);
    assert_eq!(analysis.bottom_nuclear_trigram.number, 5);
    assert_eq!(analysis.top_nuclear_trigram.number, 4);
    let mut expected = Vec::new();
    for op in SearchOperation::all_operations() {
        let reached = op.apply(&analysis.hexagram);
        if reached.number != 3 {
            expected.push((reached, op));
        }
    }
    assert_eq!(analysis.reacheable_hexagrams, expected);
    assert_eq!(analysis.reacheable_hexagrams[0].0.number, 8);
    assert_eq!(HexagramAnalysis::new(0).err(), Some(Error::InvalidHexagram(0)));
    assert_eq!(HexagramAnalysis::new(65).err(), Some(Error::InvalidHexagram(65)));
}

#[test]
fn analysis_of_heaven_leaves_out_what_changes_nothing() {
    // All lines of hexagram 1 are closed: whatever only rearranges them gives hexagram 1 back.
    let analysis = HexagramAnalysis::new(1).unwrap();
    let ops: Vec<SearchOperation> = analysis.reacheable_hexagrams.iter().map(|r| r.1).collect();
    assert_eq!(ops.len(), 9);
    assert_eq!(ops[6], SearchOperation::InverseBottomTrigram);
    assert_eq!(ops[7], SearchOperation::InverseTopTrigram);
    assert_eq!(ops[8], SearchOperation::InverseHexagram);
    assert_eq!(analysis.reacheable_hexagrams[8].0.number, 2);
}
