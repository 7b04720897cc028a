use iching::error::Error;
use iching::hexagram::{create_hexagram, Hexagram, HexagramLine, HEXAGRAMS};
use iching::operation::SearchOperation;
use iching::path::{count_line_changes, Path};
use iching::search::HexagramSearcher;

#[test]
fn test_find_path() {
    let searcher = HexagramSearcher {
        start_hexagram: create_hexagram(1, HEXAGRAMS[0].1),
        end_hexagram: create_hexagram(2, HEXAGRAMS[1].1),
    };
    let expected_path = vec![vec![
        (create_hexagram(1, HEXAGRAMS[0].1), SearchOperation::NoOp),
        (
            create_hexagram(2, HEXAGRAMS[1].1),
            SearchOperation::InverseHexagram,
        ),
    ]];
    let path = searcher.find_shortest_paths(false);
    assert_eq!(path, expected_path);
}

fn check_paths(start: usize, end: usize, paths: &[Path]) {
    assert!(!paths.is_empty());
    let length = paths[0].len();
    for path in paths {
        assert_eq!(path.len(), length);
        assert_eq!(path[0], (Hexagram::numbered(start), SearchOperation::NoOp));
        assert_eq!(path[path.len() - 1].0, Hexagram::numbered(end));
        for i in 1..path.len() {
            assert_ne!(path[i].1, SearchOperation::NoOp);
            assert_eq!(path[i].1.apply(&path[i - 1].0), path[i].0);
        }
    }
    for i in 0..paths.len() {
        for j in i + 1..paths.len() {
            assert_ne!(paths[i], paths[j]);
        }
    }
}

#[test]
fn every_pair_has_a_path() {
    for start in 1..=64usize {
        for end in (1..=64usize).step_by(7) {
            let searcher = HexagramSearcher::new(start, end).unwrap();
            let paths = searcher.find_shortest_paths(false);
            check_paths(start, end, &paths);
        }
    }
}

#[test]
fn least_line_changes_are_a_part_of_all_shortest_paths() {
    for (start, end) in [(1usize, 2usize), (3, 50), (11, 12), (63, 64), (5, 36), (27, 28)] {
        let searcher = HexagramSearcher::new(start, end).unwrap();
        let all = searcher.find_shortest_paths(true);
        let least = searcher.find_shortest_paths(false);
        check_paths(start, end, &all);
        check_paths(start, end, &least);
        assert_eq!(all[0].len(), least[0].len());
        let changes = count_line_changes(&least[0]);
        for path in &least {
            assert_eq!(count_line_changes(path), changes);
            assert!(all.contains(path));
        }
        for path in &all {
            if least.contains(path) {
                assert_eq!(count_line_changes(path), changes);
            } else {
                assert!(count_line_changes(path) > changes);
            }
        }
        let kept: Vec<Path> =
            all.iter().filter(|p| count_line_changes(p) == changes).cloned().collect();
        assert_eq!(kept, least);
        assert_eq!(HexagramSearcher::find_least_lines_changed(&all), least);
    }
}

#[test]
fn heaven_to_earth_is_one_inversion() {
    let searcher = HexagramSearcher::new(1, 2).unwrap();
    let paths = searcher.find_shortest_paths(false);
    assert_eq!(paths.len(), 1);
    assert_eq!(paths[0].len(), 2);
    assert_eq!(paths[0][1].1, SearchOperation::InverseHexagram);
    assert_eq!(count_line_changes(&paths[0]), 6);
    let all = searcher.find_shortest_paths(true);
    assert_eq!(all, paths);
}

#[test]
fn a_hexagram_reaches_itself_in_no_steps() {
    for number in [1usize, 5, 64] {
        let searcher = HexagramSearcher::new(number, number).unwrap();
        let expected = vec![vec![(Hexagram::numbered(number), SearchOperation::NoOp)]];
        assert_eq!(searcher.find_shortest_paths(false), expected);
        assert_eq!(searcher.find_shortest_paths(true), expected);
    }
}

#[test]
fn paths_come_in_the_order_of_the_catalogue() {
    // From hexagram 2 (all lines open) to hexagram 24 (bottom line closed) one step is
    // enough, and only the inversion of the first line makes it.
    let searcher = HexagramSearcher::new(2, 24).unwrap();
    let all = searcher.find_shortest_paths(true);
    assert_eq!(
        all,
        vec![vec![
            (Hexagram::numbered(2), SearchOperation::NoOp),
            (Hexagram::numbered(24), SearchOperation::InverseLine(HexagramLine::First)),
        ]]
    );
    // From hexagram 11 to hexagram 12 three operations lead in one step: the exchange of the
    // trigrams, the inversion and the reversal of the hexagram, in this order.
    let searcher = HexagramSearcher::new(11, 12).unwrap();
    let all = searcher.find_shortest_paths(true);
    let ops: Vec<SearchOperation> = all.iter().map(|p| p[1].1).collect();
    assert_eq!(
        ops,
        vec![
            SearchOperation::FlipTrigrams,
            SearchOperation::InverseHexagram,
            SearchOperation::ReverseHexagram,
        ]
    );
    for path in &all {
        assert_eq!(count_line_changes(path), 6);
    }
    assert_eq!(searcher.find_shortest_paths(false), all);
}

#[test]
fn numbers_out_of_range_are_turned_down() {
    assert_eq!(HexagramSearcher::new(0, 5).err(), Some(Error::InvalidStart(0)));
    assert_eq!(HexagramSearcher::new(65, 5).err(), Some(Error::InvalidStart(65)));
    assert_eq!(HexagramSearcher::new(5, 0).err(), Some(Error::InvalidEnd(0)));
    assert_eq!(HexagramSearcher::new(5, 65).err(), Some(Error::InvalidEnd(65)));
    assert_eq!(HexagramSearcher::new(0, 0).err(), Some(Error::InvalidStart(0)));
    let searcher = HexagramSearcher::new(1, 64).unwrap();
    assert_eq!(searcher.start_hexagram, Hexagram::numbered(1));
    assert_eq!(searcher.end_hexagram, Hexagram::numbered(64));
}

#[test]
fn line_changes_of_a_path() {
    let path: Path = vec![
        (Hexagram::numbered(1), SearchOperation::NoOp),
        (Hexagram::numbered(2), SearchOperation::InverseHexagram),
        (Hexagram::numbered(24), SearchOperation::InverseLine(HexagramLine::First)),
    ];
    assert_eq!(count_line_changes(&path), 7);
    assert_eq!(count_line_changes(&path[..1].to_vec()), 0);
    assert_eq!(count_line_changes(&Vec::new()), 0);
}

#[test]
fn least_lines_changed_of_given_paths() {
    let short: Path = vec![
        (Hexagram::numbered(2), SearchOperation::NoOp),
        (Hexagram::numbered(24), SearchOperation::InverseLine(HexagramLine::First)),
    ];
    let long: Path = vec![
        (Hexagram::numbered(1), SearchOperation::NoOp),
        (Hexagram::numbered(2), SearchOperation::InverseHexagram),
    ];
    let paths = vec![long.clone(), short.clone(), long.clone(), short.clone()];
    assert_eq!(
        HexagramSearcher::find_least_lines_changed(&paths),
        vec![short.clone(), short.clone()]
    );
    let none: Vec<Path> = Vec::new();
    assert_eq!(HexagramSearcher::find_least_lines_changed(&none), none);
}
