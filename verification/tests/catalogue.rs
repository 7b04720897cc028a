use iching::hexagram::{
    create_hexagram, hexagram_index, Hexagram, HexagramLine, HEXAGRAMS,
};
use iching::line::Line;
use iching::trigram::{create_trigram, trigram_index, Trigram, TrigramLine, TRIGRAMS};

/// Verifies that the correct trigrams are extracted from an hexagram.
#[test]
fn hexagram_trigrams() {
    let index = hexagram_index();
    assert_eq!(index.len(), 64);
    for hexagram in index.iter() {
        let (bottom, top) = hexagram.trigrams();

        assert_eq!(bottom.lines.len(), 3);
        assert_eq!(top.lines.len(), 3);
        assert_eq!(bottom.lines[0], hexagram.lines[0]);
        assert_eq!(bottom.lines[1], hexagram.lines[1]);
        assert_eq!(bottom.lines[2], hexagram.lines[2]);
        assert_eq!(top.lines[0], hexagram.lines[3]);
        assert_eq!(top.lines[1], hexagram.lines[4]);
        assert_eq!(top.lines[2], hexagram.lines[5]);
    }
}

#[test]
fn line_inverse_flips() {
    assert_eq!(Line::Open.inverse(), Line::Closed);
    assert_eq!(Line::Closed.inverse(), Line::Open);
    assert_eq!(Line::from(0u8), Line::Open);
    assert_eq!(Line::from(1u8), Line::Closed);
    assert_eq!(Line::from(7u8), Line::Closed);
}

#[test]
fn lookup_round_trip_for_every_number() {
    for number in 1..=64usize {
        let row = HEXAGRAMS[number - 1];
        assert_eq!(row.0 as usize, number);
        let listed = create_hexagram(row.0, row.1);
        let found = Hexagram::lookup(listed.lines);
        assert_eq!(found.number as usize, number);
        assert_eq!(found, listed);
        assert_eq!(Hexagram::numbered(number), listed);
    }
}

#[test]
fn lookup_finds_named_hexagrams() {
    let c = Line::Closed;
    let o = Line::Open;
    assert_eq!(Hexagram::lookup([c, c, c, c, c, c]).number, 1);
    assert_eq!(Hexagram::lookup([o, o, o, o, o, o]).number, 2);
    assert_eq!(Hexagram::lookup([c, o, o, o, c, o]).number, 3);
    assert_eq!(Hexagram::lookup([c, c, c, o, o, o]).number, 11);
    assert_eq!(Hexagram::lookup([o, o, o, c, c, c]).number, 12);
    assert_eq!(Hexagram::lookup([c, o, c, o, c, o]).number, 63);
    assert_eq!(Hexagram::lookup([o, c, o, c, o, c]).number, 64);
}

#[test]
fn hexagram_index_places_each_pattern() {
    let index = hexagram_index();
    for (code, hexagram) in index.iter().enumerate() {
        let mut place = 0;
        for (i, line) in hexagram.lines.iter().enumerate() {
            if *line == Line::Closed {
                place += 1 << i;
            }
        }
        assert_eq!(place, code);
        assert_eq!(Hexagram::lookup(hexagram.lines), *hexagram);
        assert_eq!(
            create_hexagram(
                HEXAGRAMS[hexagram.number as usize - 1].0,
                HEXAGRAMS[hexagram.number as usize - 1].1
            ),
            *hexagram
        );
    }
    assert_eq!(index[0].number, 2);
    assert_eq!(index[63].number, 1);
}

#[test]
fn trigram_lookup_round_trip() {
    for number in 1..=8usize {
        let row = TRIGRAMS[number - 1];
        let listed = create_trigram(row.0, row.1);
        assert_eq!(listed.number as usize, number);
        assert_eq!(Trigram::lookup(listed.lines), listed);
    }
    let index = trigram_index();
    assert_eq!(index.len(), 8);
    assert_eq!(index[0].number, 5);
    assert_eq!(index[7].number, 1);
    assert_eq!(index[1].number, 2);
    assert_eq!(index[4].number, 4);
}

#[test]
fn trigram_operations() {
    let c = Line::Closed;
    let o = Line::Open;
    let thunder = Trigram::lookup([c, o, o]);
    assert_eq!(thunder.number, 2);
    assert_eq!(thunder.reverse(), Trigram { number: 4, lines: [o, o, c] });
    assert_eq!(thunder.inverse(), Trigram { number: 6, lines: [o, c, c] });
    assert_eq!(thunder.inverse_line(TrigramLine::First), Trigram { number: 5, lines: [o, o, o] });
    assert_eq!(thunder.inverse_line(TrigramLine::Second), Trigram { number: 8, lines: [c, c, o] });
    assert_eq!(thunder.inverse_line(TrigramLine::Third), Trigram { number: 7, lines: [c, o, c] });
    assert_eq!(TrigramLine::First.line_to_index(), 0);
    assert_eq!(TrigramLine::Second.line_to_index(), 1);
    assert_eq!(TrigramLine::Third.line_to_index(), 2);
}

#[test]
fn hexagram_line_indices() {
    assert_eq!(HexagramLine::First.line_to_index(), 0);
    assert_eq!(HexagramLine::Second.line_to_index(), 1);
    assert_eq!(HexagramLine::Third.line_to_index(), 2);
    assert_eq!(HexagramLine::Fourth.line_to_index(), 3);
    assert_eq!(HexagramLine::Fifth.line_to_index(), 4);
    assert_eq!(HexagramLine::Sixth.line_to_index(), 5);
}

#[test]
fn trigrams_and_nuclear_trigrams_of_hexagram_three() {
    // Hexagram 3 has the lines 1 0 0 0 1 0 from the bottom.
    let h = Hexagram::numbered(3);
    let (bottom, top) = h.trigrams();
    assert_eq!(bottom.number, 2);
    assert_eq!(top.number, 3);
    let (bottom_nuclear, top_nuclear) = h.nuclear_trigrams();
    assert_eq!(bottom_nuclear.number, 5);
    assert_eq!(top_nuclear.number, 4);
}

#[test]
fn line_changes_between_hexagrams() {
    let one = Hexagram::numbered(1);
    let two = Hexagram::numbered(2);
    let three = Hexagram::numbered(3);
    assert_eq!(one.num_line_changes(&two), 6);
    assert_eq!(one.num_line_changes(&one), 0);
    assert_eq!(one.num_line_changes(&three), 4);
    assert_eq!(two.num_line_changes(&three), 2);
    assert_eq!(three.num_line_changes(&two), 2);
}

#[test]
fn same_compares_number_and_lines() {
    let one = Hexagram::numbered(1);
    assert!(one.same(&Hexagram::numbered(1)));
    assert!(!one.same(&Hexagram::numbered(2)));
    assert!(!one.same(&create_hexagram(2, [1, 1, 1, 1, 1, 1])));
}
