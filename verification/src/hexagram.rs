//! Hexagrams: six lines and a number from 1 to 64, with the operations that
//! rearrange or flip the lines of a hexagram.

use crate::line::Line;
use crate::trigram::Trigram;
use vstd::prelude::*;

verus! {

/// The position of a line in a hexagram.
#[derive(Copy, Clone, Debug, PartialEq, Eq, Structural)]
pub enum HexagramLine {
    First,
    Second,
    Third,
    Fourth,
    Fifth,
    Sixth,
}

impl HexagramLine {
    /// The array index of the position, counted from the bottom.
    pub open spec fn index(self) -> int {
        match self {
            HexagramLine::First => 0,
            HexagramLine::Second => 1,
            HexagramLine::Third => 2,
            HexagramLine::Fourth => 3,
            HexagramLine::Fifth => 4,
            HexagramLine::Sixth => 5,
        }
    }

    /// Converts a line into an array index.
    pub fn line_to_index(&self) -> (i: usize)
        ensures
            i == self.index(),
    {
        match self {
            HexagramLine::First => 0,
            HexagramLine::Second => 1,
            HexagramLine::Third => 2,
            HexagramLine::Fourth => 3,
            HexagramLine::Fifth => 4,
            HexagramLine::Sixth => 5,
        }
    }
}

/// A single hexagram in a reading, consisting of six lines.
#[derive(Copy, Clone, Debug, Eq)]
pub struct Hexagram {
    /// The number of the hexagram, from 1 to 64.
    pub number: u8,
    /// The lines of the hexagram. The first line is the bottom line, and the last line is the top
    /// one.
    pub lines: [Line; 6],
}

/// The list of all I Ching hexagrams in the order of King Wen: each number
/// with its lines, bottom first, 1 for a closed line and 0 for an open one.
pub const HEXAGRAMS: [(u8, [u8; 6]); 64] = [
    (1, [1, 1, 1, 1, 1, 1]),
    (2, [0, 0, 0, 0, 0, 0]),
    (3, [1, 0, 0, 0, 1, 0]),
    (4, [0, 1, 0, 0, 0, 1]),
    (5, [1, 1, 1, 0, 1, 0]),
    (6, [0, 1, 0, 1, 1, 1]),
    (7, [0, 1, 0, 0, 0, 0]),
    (8, [0, 0, 0, 0, 1, 0]),
    (9, [1, 1, 1, 0, 1, 1]),
    (10, [1, 1, 0, 1, 1, 1]),
    (11, [1, 1, 1, 0, 0, 0]),
    (12, [0, 0, 0, 1, 1, 1]),
    (13, [1, 0, 1, 1, 1, 1]),
    (14, [1, 1, 1, 1, 0, 1]),
    (15, [0, 0, 1, 0, 0, 0]),
    (16, [0, 0, 0, 1, 0, 0]),
    (17, [1, 0, 0, 1, 1, 0]),
    (18, [0, 1, 1, 0, 0, 1]),
    (19, [1, 1, 0, 0, 0, 0]),
    (20, [0, 0, 0, 0, 1, 1]),
    (21, [1, 0, 0, 1, 0, 1]),
    (22, [1, 0, 1, 0, 0, 1]),
    (23, [0, 0, 0, 0, 0, 1]),
    (24, [1, 0, 0, 0, 0, 0]),
    (25, [1, 0, 0, 1, 1, 1]),
    (26, [1, 1, 1, 0, 0, 1]),
    (27, [1, 0, 0, 0, 0, 1]),
    (28, [0, 1, 1, 1, 1, 0]),
    (29, [0, 1, 0, 0, 1, 0]),
    (30, [1, 0, 1, 1, 0, 1]),
    (31, [0, 0, 1, 1, 1, 0]),
    (32, [0, 1, 1, 1, 0, 0]),
    (33, [0, 0, 1, 1, 1, 1]),
    (34, [1, 1, 1, 1, 0, 0]),
    (35, [0, 0, 0, 1, 0, 1]),
    (36, [1, 0, 1, 0, 0, 0]),
    (37, [1, 0, 1, 0, 1, 1]),
    (38, [1, 1, 0, 1, 0, 1]),
    (39, [0, 0, 1, 0, 1, 0]),
    (40, [0, 1, 0, 1, 0, 0]),
    (41, [1, 1, 0, 0, 0, 1]),
    (42, [1, 0, 0, 0, 1, 1]),
    (43, [1, 1, 1, 1, 1, 0]),
    (44, [0, 1, 1, 1, 1, 1]),
    (45, [0, 0, 0, 1, 1, 0]),
    (46, [0, 1, 1, 0, 0, 0]),
    (47, [0, 1, 0, 1, 1, 0]),
    (48, [0, 1, 1, 0, 1, 0]),
    (49, [1, 0, 1, 1, 1, 0]),
    (50, [0, 1, 1, 1, 0, 1]),
    (51, [1, 0, 0, 1, 0, 0]),
    (52, [0, 0, 1, 0, 0, 1]),
    (53, [0, 0, 1, 0, 1, 1]),
    (54, [1, 1, 0, 1, 0, 0]),
    (55, [1, 0, 1, 1, 0, 0]),
    (56, [0, 0, 1, 1, 0, 1]),
    (57, [0, 1, 1, 0, 1, 1]),
    (58, [1, 1, 0, 1, 1, 0]),
    (59, [0, 1, 0, 0, 1, 1]),
    (60, [1, 1, 0, 0, 1, 0]),
    (61, [1, 1, 0, 0, 1, 1]),
    (62, [0, 0, 1, 1, 0, 0]),
    (63, [1, 0, 1, 0, 1, 0]),
    (64, [0, 1, 0, 1, 0, 1]),
];

/// For each pattern of six lines, the number of the hexagram that has it. The
/// pattern is counted in binary, the bottom line being worth 1 and each line
/// above it twice the one below.
const HEXAGRAM_INDEX: [u8; 64] = [
    2, 24, 7, 19, 15, 36, 46, 11,
    16, 51, 40, 54, 62, 55, 32, 34,
    8, 3, 29, 60, 39, 63, 48, 5,
    45, 17, 47, 58, 31, 49, 28, 43,
    23, 27, 4, 41, 52, 22, 18, 26,
    35, 21, 64, 38, 56, 30, 50, 14,
    20, 42, 59, 61, 53, 37, 57, 9,
    12, 25, 6, 10, 33, 13, 44, 1,
];

/// The lines that the list gives for the hexagram `number`.
#[verifier::opaque]
pub open spec fn catalogue_lines(number: int) -> Seq<Line> {
    let row = HEXAGRAMS[number - 1].1;
    seq![
        Line::of(row[0]),
        Line::of(row[1]),
        Line::of(row[2]),
        Line::of(row[3]),
        Line::of(row[4]),
        Line::of(row[5]),
    ]
}

/// The place of a pattern of six lines among the sixty-four patterns.
pub open spec fn hexagram_code(l: Seq<Line>) -> int {
    l[0].bit() + 2 * l[1].bit() + 4 * l[2].bit() + 8 * l[3].bit() + 16 * l[4].bit() + 32
        * l[5].bit()
}

/// The number of places at which two patterns of six lines differ.
pub open spec fn line_changes(a: Seq<Line>, b: Seq<Line>) -> int {
    a[0].differs(b[0]) + a[1].differs(b[1]) + a[2].differs(b[2]) + a[3].differs(b[3])
        + a[4].differs(b[4]) + a[5].differs(b[5])
}

/// Six lines, each flipped.
pub open spec fn flipped6(l: Seq<Line>) -> Seq<Line> {
    seq![
        l[0].flipped(),
        l[1].flipped(),
        l[2].flipped(),
        l[3].flipped(),
        l[4].flipped(),
        l[5].flipped(),
    ]
}

/// Six lines with the lower three flipped.
pub open spec fn flipped_bottom(l: Seq<Line>) -> Seq<Line> {
    seq![l[0].flipped(), l[1].flipped(), l[2].flipped(), l[3], l[4], l[5]]
}

/// Six lines with the upper three flipped.
pub open spec fn flipped_top(l: Seq<Line>) -> Seq<Line> {
    seq![l[0], l[1], l[2], l[3].flipped(), l[4].flipped(), l[5].flipped()]
}

/// Six lines with the line at index `i` flipped.
pub open spec fn flipped_at(l: Seq<Line>, i: int) -> Seq<Line> {
    l.update(i, l[i].flipped())
}

/// Six lines in the opposite order.
pub open spec fn reversed6(l: Seq<Line>) -> Seq<Line> {
    seq![l[5], l[4], l[3], l[2], l[1], l[0]]
}

/// Six lines with the lower three in the opposite order.
pub open spec fn reversed_bottom(l: Seq<Line>) -> Seq<Line> {
    seq![l[2], l[1], l[0], l[3], l[4], l[5]]
}

/// Six lines with the upper three in the opposite order.
pub open spec fn reversed_top(l: Seq<Line>) -> Seq<Line> {
    seq![l[0], l[1], l[2], l[5], l[4], l[3]]
}

/// Six lines with the lower three and the upper three each in the opposite order.
pub open spec fn mirrored(l: Seq<Line>) -> Seq<Line> {
    seq![l[2], l[1], l[0], l[5], l[4], l[3]]
}

/// Six lines with the lower three and the upper three exchanged.
pub open spec fn swapped(l: Seq<Line>) -> Seq<Line> {
    seq![l[3], l[4], l[5], l[0], l[1], l[2]]
}

/// The second to fourth line below the third to fifth line.
pub open spec fn nuclear(l: Seq<Line>) -> Seq<Line> {
    seq![l[1], l[2], l[3], l[2], l[3], l[4]]
}

/// The lines of the two halves taken in turn, the lower half first.
pub open spec fn mixed_bottom_first(l: Seq<Line>) -> Seq<Line> {
    seq![l[0], l[3], l[1], l[4], l[2], l[5]]
}

/// The lines of the two halves taken in turn, the upper half first.
pub open spec fn mixed_top_first(l: Seq<Line>) -> Seq<Line> {
    seq![l[3], l[0], l[4], l[1], l[5], l[2]]
}

impl PartialEq for Hexagram {
    fn eq(&self, other: &Hexagram) -> (r: bool) {
        let r = self.number == other.number && self.lines[0] == other.lines[0] && self.lines[1]
            == other.lines[1] && self.lines[2] == other.lines[2] && self.lines[3] == other.lines[3]
            && self.lines[4] == other.lines[4] && self.lines[5] == other.lines[5];
        proof {
            if r {
                assert(self.lines@ =~= other.lines@);
            }
        }
        r
    }
}

impl vstd::std_specs::cmp::PartialEqSpecImpl for Hexagram {
    open spec fn obeys_eq_spec() -> bool {
        true
    }

    open spec fn eq_spec(&self, other: &Hexagram) -> bool {
        self.number == other.number && self.lines@ == other.lines@
    }
}

impl Hexagram {
    /// The hexagram is one of the sixty-four of the list: its number is that
    /// of the entry that has its lines.
    pub open spec fn is_catalogued(self) -> bool {
        1 <= self.number <= 64 && self.lines@ == catalogue_lines(self.number as int)
    }

    /// The hexagram of the list that has the given lines.
    pub open spec fn with_lines(lines: Seq<Line>) -> Hexagram {
        choose|h: Hexagram| h.is_catalogued() && h.lines@ == lines
    }

    /// The hexagram that the list gives for `number`.
    pub open spec fn of_number(number: int) -> Hexagram {
        Hexagram::with_lines(catalogue_lines(number))
    }

    /// Finds the hexagram that has the given lines. Every pattern of six lines
    /// belongs to exactly one hexagram, so the search always succeeds.
    pub fn lookup(lines: [Line; 6]) -> (r: Hexagram)
        ensures
            r.lines == lines,
            r.is_catalogued(),
            r == Hexagram::with_lines(lines@),
    {
        let code = code_of(&lines);
        let r = Hexagram { number: HEXAGRAM_INDEX[code], lines };
        proof {
            lemma_index_inverts(code as int);
            lemma_code_decides(catalogue_lines(r.number as int), r.lines@);
            lemma_with_lines(r);
        }
        r
    }

    /// The hexagram that the list gives for a number from 1 to 64.
    pub fn numbered(number: usize) -> (r: Hexagram)
        requires
            1 <= number <= 64,
        ensures
            r.number == number,
            r.is_catalogued(),
            r == Hexagram::of_number(number as int),
    {
        let row = HEXAGRAMS[number - 1];
        let r = create_hexagram(row.0, row.1);
        proof {
            reveal(catalogue_lines);
            assert(r.lines@ =~= catalogue_lines(number as int));
            lemma_with_lines(r);
        }
        r
    }

    /// Whether two hexagrams have the same number and the same lines.
    pub fn same(&self, other: &Hexagram) -> (r: bool)
        ensures
            r == (*self == *other),
    {
        let r = *self == *other;
        proof {
            if r {
                assert(self.lines =~= other.lines);
            }
        }
        r
    }

    /// Returns the bottom and top trigrams of the hexagram.
    pub fn trigrams(&self) -> (r: (Trigram, Trigram))
        ensures
            r.0.is_catalogued(),
            r.1.is_catalogued(),
            r.0.lines@ == self.lines@.subrange(0, 3),
            r.1.lines@ == self.lines@.subrange(3, 6),
            r.0 == Trigram::with_lines(self.lines@.subrange(0, 3)),
            r.1 == Trigram::with_lines(self.lines@.subrange(3, 6)),
    {
        let bottom = Trigram::lookup([self.lines[0], self.lines[1], self.lines[2]]);
        let top = Trigram::lookup([self.lines[3], self.lines[4], self.lines[5]]);
        proof {
            assert(bottom.lines@ =~= self.lines@.subrange(0, 3));
            assert(top.lines@ =~= self.lines@.subrange(3, 6));
        }
        (bottom, top)
    }

    /// Returns the bottom and top nuclear trigrams of the hexagram: the one
    /// formed by the second, third and fourth line, and the one formed by the
    /// third, fourth and fifth line.
    pub fn nuclear_trigrams(&self) -> (r: (Trigram, Trigram))
        ensures
            r.0.is_catalogued(),
            r.1.is_catalogued(),
            r.0.lines@ == self.lines@.subrange(1, 4),
            r.1.lines@ == self.lines@.subrange(2, 5),
            r.0 == Trigram::with_lines(self.lines@.subrange(1, 4)),
            r.1 == Trigram::with_lines(self.lines@.subrange(2, 5)),
    {
        let bottom = Trigram::lookup([self.lines[1], self.lines[2], self.lines[3]]);
        let top = Trigram::lookup([self.lines[2], self.lines[3], self.lines[4]]);
        proof {
            assert(bottom.lines@ =~= self.lines@.subrange(1, 4));
            assert(top.lines@ =~= self.lines@.subrange(2, 5));
        }
        (bottom, top)
    }

    /// Counts the number of line changes between this and other hexagram.
    pub fn num_line_changes(&self, other: &Hexagram) -> (count: usize)
        ensures
            count == line_changes(self.lines@, other.lines@),
            count <= 6,
    {
        let mut count: usize = 0;
        if self.lines[0] != other.lines[0] {
            count += 1;
        }
        if self.lines[1] != other.lines[1] {
            count += 1;
        }
        if self.lines[2] != other.lines[2] {
            count += 1;
        }
        if self.lines[3] != other.lines[3] {
            count += 1;
        }
        if self.lines[4] != other.lines[4] {
            count += 1;
        }
        if self.lines[5] != other.lines[5] {
            count += 1;
        }
        count
    }

    /// Returns the hexagram obtained by inverting all lines in this hexagram.
    pub fn inverse(&self) -> (r: Hexagram)
        ensures
            r.is_catalogued(),
            r.lines@ == flipped6(self.lines@),
    {
        let lines = [
            self.lines[0].inverse(),
            self.lines[1].inverse(),
            self.lines[2].inverse(),
            self.lines[3].inverse(),
            self.lines[4].inverse(),
            self.lines[5].inverse(),
        ];
        Hexagram::lookup(lines)
    }

    /// Returns the hexagram obtained by inverting the bottom trigram of this hexagram.
    pub fn inverse_bottom_trigram(&self) -> (r: Hexagram)
        ensures
            r.is_catalogued(),
            r.lines@ == flipped_bottom(self.lines@),
    {
        let (bottom, top) = self.trigrams();
        let lines = [
            bottom.lines[0].inverse(),
            bottom.lines[1].inverse(),
            bottom.lines[2].inverse(),
            top.lines[0],
            top.lines[1],
            top.lines[2],
        ];
        Hexagram::lookup(lines)
    }

    /// Returns the hexagram obtained by inverting the top trigram of this hexagram.
    pub fn inverse_top_trigram(&self) -> (r: Hexagram)
        ensures
            r.is_catalogued(),
            r.lines@ == flipped_top(self.lines@),
    {
        let (bottom, top) = self.trigrams();
        let lines = [
            bottom.lines[0],
            bottom.lines[1],
            bottom.lines[2],
            top.lines[0].inverse(),
            top.lines[1].inverse(),
            top.lines[2].inverse(),
        ];
        Hexagram::lookup(lines)
    }

    /// Returns the hexagram obtained by inverting the given line. The line number is zero-based,
    /// with zero being the bottom line.
    pub fn inverse_line(&self, line: HexagramLine) -> (r: Hexagram)
        ensures
            r.is_catalogued(),
            r.lines@ == flipped_at(self.lines@, line.index()),
    {
        let mut lines = self.lines;
        let index = line.line_to_index();
        lines[index] = lines[index].inverse();
        Hexagram::lookup(lines)
    }

    /// Returns the hexagram obtained by reversing the order of the lines in this hexagram.
    pub fn reverse(&self) -> (r: Hexagram)
        ensures
            r.is_catalogued(),
            r.lines@ == reversed6(self.lines@),
    {
        let lines = [
            self.lines[5],
            self.lines[4],
            self.lines[3],
            self.lines[2],
            self.lines[1],
            self.lines[0],
        ];
        Hexagram::lookup(lines)
    }

    /// Returns the hexagram obtained by reversing the trigrams of this hexagram: the top
    /// trigram reversed goes below the bottom trigram reversed, which reverses all six lines.
    pub fn reverse_trigrams(&self) -> (r: Hexagram)
        ensures
            r.is_catalogued(),
            r.lines@ == reversed6(self.lines@),
    {
        let (bottom, top) = self.trigrams();
        let lines = [
            top.lines[2],
            top.lines[1],
            top.lines[0],
            bottom.lines[2],
            bottom.lines[1],
            bottom.lines[0],
        ];
        Hexagram::lookup(lines)
    }

    /// Returns the hexagram obtained by reversing the bottom trigram of this hexagram.
    pub fn reverse_bottom_trigram(&self) -> (r: Hexagram)
        ensures
            r.is_catalogued(),
            r.lines@ == reversed_bottom(self.lines@),
    {
        let (bottom, top) = self.trigrams();
        let lines = [
            bottom.lines[2],
            bottom.lines[1],
            bottom.lines[0],
            top.lines[0],
            top.lines[1],
            top.lines[2],
        ];
        Hexagram::lookup(lines)
    }

    /// Returns the hexagram obtained by reversing the top trigram of this hexagram.
    pub fn reverse_top_trigram(&self) -> (r: Hexagram)
        ensures
            r.is_catalogued(),
            r.lines@ == reversed_top(self.lines@),
    {
        let (bottom, top) = self.trigrams();
        let lines = [
            bottom.lines[0],
            bottom.lines[1],
            bottom.lines[2],
            top.lines[2],
            top.lines[1],
            top.lines[0],
        ];
        Hexagram::lookup(lines)
    }

    /// Returns the hexagram obtained by mirroring the trigrams of this hexagram along the dividing
    /// line between the two trigrams.
    pub fn mirror_trigrams(&self) -> (r: Hexagram)
        ensures
            r.is_catalogued(),
            r.lines@ == mirrored(self.lines@),
    {
        let (bottom, top) = self.trigrams();
        let lines = [
            bottom.lines[2],
            bottom.lines[1],
            bottom.lines[0],
            top.lines[2],
            top.lines[1],
            top.lines[0],
        ];
        Hexagram::lookup(lines)
    }

    /// Returns the hexagram obtained by exchanging the bottom and top trigrams of this hexagram.
    pub fn flip_trigrams(&self) -> (r: Hexagram)
        ensures
            r.is_catalogued(),
            r.lines@ == swapped(self.lines@),
    {
        let (bottom, top) = self.trigrams();
        let lines = [
            top.lines[0],
            top.lines[1],
            top.lines[2],
            bottom.lines[0],
            bottom.lines[1],
            bottom.lines[2],
        ];
        Hexagram::lookup(lines)
    }

    /// Returns the hexagram made of the two nuclear trigrams of this hexagram, the bottom
    /// nuclear trigram below the top one.
    pub fn use_nuclear_trigrams(&self) -> (r: Hexagram)
        ensures
            r.is_catalogued(),
            r.lines@ == nuclear(self.lines@),
    {
        let (bottom, top) = self.nuclear_trigrams();
        let lines = [
            bottom.lines[0],
            bottom.lines[1],
            bottom.lines[2],
            top.lines[0],
            top.lines[1],
            top.lines[2],
        ];
        Hexagram::lookup(lines)
    }

    /// Returns the hexagram whose lines are those of the bottom and top trigrams taken in
    /// turn, starting with the first line of the bottom trigram.
    pub fn mix_trigrams_bottom_first(&self) -> (r: Hexagram)
        ensures
            r.is_catalogued(),
            r.lines@ == mixed_bottom_first(self.lines@),
    {
        let (bottom, top) = self.trigrams();
        let lines = [
            bottom.lines[0],
            top.lines[0],
            bottom.lines[1],
            top.lines[1],
            bottom.lines[2],
            top.lines[2],
        ];
        Hexagram::lookup(lines)
    }

    /// Returns the hexagram whose lines are those of the bottom and top trigrams taken in
    /// turn, starting with the first line of the top trigram.
    pub fn mix_trigrams_top_first(&self) -> (r: Hexagram)
        ensures
            r.is_catalogued(),
            r.lines@ == mixed_top_first(self.lines@),
    {
        let (bottom, top) = self.trigrams();
        let lines = [
            top.lines[0],
            bottom.lines[0],
            top.lines[1],
            bottom.lines[1],
            top.lines[2],
            bottom.lines[2],
        ];
        Hexagram::lookup(lines)
    }
}

/// Creates a hexagram from a number and a list of lines. Nothing is checked:
/// the result is one of the sixty-four hexagrams only if the list pairs the
/// number with these lines.
pub fn create_hexagram(number: u8, input_lines: [u8; 6]) -> (r: Hexagram)
    ensures
        r.number == number,
        r.lines@ == seq![
            Line::of(input_lines[0]),
            Line::of(input_lines[1]),
            Line::of(input_lines[2]),
            Line::of(input_lines[3]),
            Line::of(input_lines[4]),
            Line::of(input_lines[5]),
        ],
{
    let lines = [
        Line::from(input_lines[0]),
        Line::from(input_lines[1]),
        Line::from(input_lines[2]),
        Line::from(input_lines[3]),
        Line::from(input_lines[4]),
        Line::from(input_lines[5]),
    ];
    Hexagram { number, lines }
}

/// The sixty-four hexagrams, each at the place that its pattern of lines
/// gives it: counted in binary, the bottom line being worth 1 and each line
/// above it twice the one below. Every entry of the list is visited once.
pub fn hexagram_index() -> (index: Vec<Hexagram>)
    ensures
        index@.len() == 64,
        forall|i: int| 0 <= i < 64 ==> (#[trigger] index@[i]).is_catalogued(),
        forall|i: int| 0 <= i < 64 ==> hexagram_code((#[trigger] index@[i]).lines@) == i,
{
    let first = Hexagram::numbered(1);
    let mut index: Vec<Hexagram> = Vec::new();
    let mut k: usize = 0;
    while k < 64
        invariant
            k <= 64,
            index@.len() == k,
        decreases 64 - k,
    {
        index.push(first);
        k += 1;
    }
    let mut n: usize = 0;
    while n < 64
        invariant
            n <= 64,
            index@.len() == 64,
            forall|m: int|
                1 <= m <= n ==> {
                    let h = #[trigger] index@[hexagram_code(catalogue_lines(m))];
                    h.number == m && h.is_catalogued()
                },
        decreases 64 - n,
    {
        let h = Hexagram::numbered(n + 1);
        let at = code_of(&h.lines);
        proof {
            assert forall|m: int| 1 <= m <= n implies hexagram_code(catalogue_lines(m))
                != at by {
                lemma_row_shape(m);
                if hexagram_code(catalogue_lines(m)) == at {
                    lemma_code_decides(catalogue_lines(m), h.lines@);
                    lemma_rows_distinct(m, n + 1);
                }
            }
        }
        index.set(at, h);
        n += 1;
    }
    proof {
        assert forall|i: int| 0 <= i < 64 implies (#[trigger] index@[i]).is_catalogued()
            && hexagram_code(index@[i].lines@) == i by {
            lemma_index_inverts(i);
            let m = HEXAGRAM_INDEX[i] as int;
            assert(index@[hexagram_code(catalogue_lines(m))].number == m);
        }
    }
    index
}

/// Computes the place of a pattern of six lines.
fn code_of(lines: &[Line; 6]) -> (code: usize)
    ensures
        code == hexagram_code(lines@),
        code < 64,
{
    let mut code: usize = 0;
    if lines[0] == Line::Closed {
        code += 1;
    }
    if lines[1] == Line::Closed {
        code += 2;
    }
    if lines[2] == Line::Closed {
        code += 4;
    }
    if lines[3] == Line::Closed {
        code += 8;
    }
    if lines[4] == Line::Closed {
        code += 16;
    }
    if lines[5] == Line::Closed {
        code += 32;
    }
    code
}

/// Two patterns of six lines at the same place are the same pattern.
pub proof fn lemma_code_decides(a: Seq<Line>, b: Seq<Line>)
    requires
        a.len() == 6,
        b.len() == 6,
        hexagram_code(a) == hexagram_code(b),
    ensures
        a == b,
{
    assert(a =~= b);
}

/// Each entry of the list has six lines and its own number.
pub proof fn lemma_row_shape(n: int)
    requires
        1 <= n <= 64,
    ensures
        catalogue_lines(n).len() == 6,
        HEXAGRAMS[n - 1].0 == n,
{
    reveal(catalogue_lines);
}

/// The index gives each entry of the list its number back.
proof fn lemma_index_finds(n: int)
    requires
        1 <= n <= 64,
    ensures
        0 <= hexagram_code(catalogue_lines(n)) < 64,
        HEXAGRAM_INDEX[hexagram_code(catalogue_lines(n))] == n,
{
    reveal(catalogue_lines);
}

/// The index names, for each pattern, an entry of the list that has it.
proof fn lemma_index_inverts(code: int)
    requires
        0 <= code < 64,
    ensures
        1 <= HEXAGRAM_INDEX[code] <= 64,
        catalogue_lines(HEXAGRAM_INDEX[code] as int).len() == 6,
        hexagram_code(catalogue_lines(HEXAGRAM_INDEX[code] as int)) == code,
{
    reveal(catalogue_lines);
}

/// No two entries of the list have the same lines.
pub proof fn lemma_rows_distinct(m: int, n: int)
    requires
        1 <= m <= 64,
        1 <= n <= 64,
        catalogue_lines(m) == catalogue_lines(n),
    ensures
        m == n,
{
    lemma_index_finds(m);
    lemma_index_finds(n);
}

/// Two hexagrams of the list with the same lines are the same hexagram.
pub proof fn lemma_unique(a: Hexagram, b: Hexagram)
    requires
        a.is_catalogued(),
        b.is_catalogued(),
        a.lines@ == b.lines@,
    ensures
        a == b,
{
    lemma_rows_distinct(a.number as int, b.number as int);
    assert(a.lines =~= b.lines);
}

/// A hexagram of the list is the one that `with_lines` picks for its lines.
pub proof fn lemma_with_lines(h: Hexagram)
    requires
        h.is_catalogued(),
    ensures
        Hexagram::with_lines(h.lines@) == h,
{
    let lines = h.lines@;
    let picked = Hexagram::with_lines(lines);
    assert(h.is_catalogued() && h.lines@ == lines);
    assert(picked.is_catalogued() && picked.lines@ == lines);
    lemma_unique(picked, h);
}

/// Every pattern of six lines belongs to a hexagram of the list.
pub proof fn lemma_every_pattern_catalogued(lines: Seq<Line>)
    requires
        lines.len() == 6,
    ensures
        Hexagram::with_lines(lines).is_catalogued(),
        Hexagram::with_lines(lines).lines@ == lines,
{
    let number = HEXAGRAM_INDEX[hexagram_code(lines)];
    let h = Hexagram {
        number,
        lines: [lines[0], lines[1], lines[2], lines[3], lines[4], lines[5]],
    };
    assert(h.lines@ =~= lines);
    lemma_index_inverts(hexagram_code(lines));
    lemma_code_decides(catalogue_lines(number as int), lines);
    assert(h.is_catalogued() && h.lines@ == lines);
}

/// Looking up the lines that the list gives for a number finds the hexagram
/// of that number.
pub proof fn lemma_lookup_round_trip(number: int)
    requires
        1 <= number <= 64,
    ensures
        Hexagram::with_lines(catalogue_lines(number)).number == number,
        Hexagram::of_number(number).is_catalogued(),
        Hexagram::of_number(number).number == number,
{
    lemma_row_shape(number);
    lemma_every_pattern_catalogued(catalogue_lines(number));
    lemma_rows_distinct(Hexagram::with_lines(catalogue_lines(number)).number as int, number);
}

} // verus!
