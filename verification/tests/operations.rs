use iching::hexagram::{Hexagram, HexagramLine};
use iching::line::Line;
use iching::operation::SearchOperation;

fn hexagram(lines: [u8; 6]) -> Hexagram {
    Hexagram::lookup([
        Line::from(lines[0]),
        Line::from(lines[1]),
        Line::from(lines[2]),
        Line::from(lines[3]),
        Line::from(lines[4]),
        Line::from(lines[5]),
    ])
}

#[test]
fn catalogue_has_seventeen_operations_in_order() {
    let ops = SearchOperation::all_operations();
    assert_eq!(
        ops,
        vec![
            SearchOperation::InverseLine(HexagramLine::First),
            SearchOperation::InverseLine(HexagramLine::Second),
            SearchOperation::InverseLine(HexagramLine::Third),
            SearchOperation::InverseLine(HexagramLine::Fourth),
            SearchOperation::InverseLine(HexagramLine::Fifth),
            SearchOperation::InverseLine(HexagramLine::Sixth),
            SearchOperation::InverseBottomTrigram,
            SearchOperation::InverseTopTrigram,
            SearchOperation::ReverseBottomTrigram,
            SearchOperation::ReverseTopTrigram,
            SearchOperation::FlipTrigrams,
            SearchOperation::MirrorTrigrams,
            SearchOperation::NuclearTrigrams,
            SearchOperation::InverseHexagram,
            SearchOperation::ReverseHexagram,
            SearchOperation::MixTrigramsBottomFirst,
            SearchOperation::MixTrigramsTopFirst,
        ]
    );
}

#[test]
fn noop_returns_the_hexagram() {
    for number in 1..=64usize {
        let h = Hexagram::numbered(number);
        assert_eq!(SearchOperation::NoOp.apply(&h), h);
    }
}

#[test]
fn operations_that_undo_themselves() {
    let ops = vec![
        SearchOperation::NoOp,
        SearchOperation::InverseLine(HexagramLine::First),
        SearchOperation::InverseLine(HexagramLine::Second),
        SearchOperation::InverseLine(HexagramLine::Third),
        SearchOperation::InverseLine(HexagramLine::Fourth),
        SearchOperation::InverseLine(HexagramLine::Fifth),
        SearchOperation::InverseLine(HexagramLine::Sixth),
        SearchOperation::InverseBottomTrigram,
        SearchOperation::InverseTopTrigram,
        SearchOperation::ReverseBottomTrigram,
        SearchOperation::ReverseTopTrigram,
        SearchOperation::FlipTrigrams,
        SearchOperation::MirrorTrigrams,
        SearchOperation::InverseHexagram,
        SearchOperation::ReverseHexagram,
    ];
    for number in 1..=64usize {
        let h = Hexagram::numbered(number);
        for op in ops.iter() {
            assert_eq!(op.apply(&op.apply(&h)), h);
        }
    }
}

#[test]
fn every_operation_stays_in_the_list() {
    for number in 1..=64usize {
        let h = Hexagram::numbered(number);
        for op in SearchOperation::all_operations() {
            let r = op.apply(&h);
            assert!(1 <= r.number && r.number <= 64);
            assert_eq!(Hexagram::numbered(r.number as usize), r);
        }
    }
}

#[test]
fn each_operation_on_one_hexagram() {
    // Lines of the subject from the bottom: 1 1 0 1 0 0 (hexagram 54).
    let h = hexagram([1, 1, 0, 1, 0, 0]);
    assert_eq!(h.number, 54);
    assert_eq!(h.inverse(), hexagram([0, 0, 1, 0, 1, 1]));
    assert_eq!(h.inverse_bottom_trigram(), hexagram([0, 0, 1, 1, 0, 0]));
    assert_eq!(h.inverse_top_trigram(), hexagram([1, 1, 0, 0, 1, 1]));
    assert_eq!(h.inverse_line(HexagramLine::First), hexagram([0, 1, 0, 1, 0, 0]));
    assert_eq!(h.inverse_line(HexagramLine::Second), hexagram([1, 0, 0, 1, 0, 0]));
    assert_eq!(h.inverse_line(HexagramLine::Third), hexagram([1, 1, 1, 1, 0, 0]));
    assert_eq!(h.inverse_line(HexagramLine::Fourth), hexagram([1, 1, 0, 0, 0, 0]));
    assert_eq!(h.inverse_line(HexagramLine::Fifth), hexagram([1, 1, 0, 1, 1, 0]));
    assert_eq!(h.inverse_line(HexagramLine::Sixth), hexagram([1, 1, 0, 1, 0, 1]));
    assert_eq!(h.reverse(), hexagram([0, 0, 1, 0, 1, 1]));
    assert_eq!(h.reverse_trigrams(), hexagram([0, 0, 1, 0, 1, 1]));
    assert_eq!(h.reverse_bottom_trigram(), hexagram([0, 1, 1, 1, 0, 0]));
    assert_eq!(h.reverse_top_trigram(), hexagram([1, 1, 0, 0, 0, 1]));
    assert_eq!(h.mirror_trigrams(), hexagram([0, 1, 1, 0, 0, 1]));
    assert_eq!(h.flip_trigrams(), hexagram([1, 0, 0, 1, 1, 0]));
    assert_eq!(h.use_nuclear_trigrams(), hexagram([1, 0, 1, 0, 1, 0]));
    assert_eq!(h.mix_trigrams_bottom_first(), hexagram([1, 1, 1, 0, 0, 0]));
    assert_eq!(h.mix_trigrams_top_first(), hexagram([1, 1, 0, 1, 0, 0]));
}

#[test]
fn apply_calls_the_operation() {
    let h = hexagram([1, 1, 0, 1, 0, 0]);
    assert_eq!(SearchOperation::InverseHexagram.apply(&h), h.inverse());
    assert_eq!(SearchOperation::ReverseHexagram.apply(&h), h.reverse());
    assert_eq!(SearchOperation::InverseBottomTrigram.apply(&h), h.inverse_bottom_trigram());
    assert_eq!(SearchOperation::InverseTopTrigram.apply(&h), h.inverse_top_trigram());
    assert_eq!(SearchOperation::ReverseBottomTrigram.apply(&h), h.reverse_bottom_trigram());
    assert_eq!(SearchOperation::ReverseTopTrigram.apply(&h), h.reverse_top_trigram());
    assert_eq!(SearchOperation::FlipTrigrams.apply(&h), h.flip_trigrams());
    assert_eq!(SearchOperation::MirrorTrigrams.apply(&h), h.mirror_trigrams());
    assert_eq!(SearchOperation::NuclearTrigrams.apply(&h), h.use_nuclear_trigrams());
    assert_eq!(SearchOperation::MixTrigramsBottomFirst.apply(&h), h.mix_trigrams_bottom_first());
    assert_eq!(SearchOperation::MixTrigramsTopFirst.apply(&h), h.mix_trigrams_top_first());
    assert_eq!(
        SearchOperation::InverseLine(HexagramLine::Fourth).apply(&h),
        h.inverse_line(HexagramLine::Fourth)
    );
}

#[test]
fn nuclear_hexagram_does_not_undo_itself() {
    let h = hexagram([1, 1, 0, 1, 0, 0]);
    let once = SearchOperation::NuclearTrigrams.apply(&h);
    let twice = SearchOperation::NuclearTrigrams.apply(&once);
    assert_eq!(once, hexagram([1, 0, 1, 0, 1, 0]));
    assert_eq!(twice, hexagram([0, 1, 0, 1, 0, 1]));
    assert_ne!(twice, h);
}
