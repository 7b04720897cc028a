//! Trigrams: three lines and a number from 1 to 8.

use crate::line::Line;
use vstd::prelude::*;

verus! {

/// The position of a line in a trigram.
#[derive(Copy, Clone, Debug, PartialEq, Eq, Structural)]
pub enum TrigramLine {
    First,
    Second,
    Third,
}

impl TrigramLine {
    /// The array index of the position, counted from the bottom.
    pub open spec fn index(self) -> int {
        match self {
            TrigramLine::First => 0,
            TrigramLine::Second => 1,
            TrigramLine::Third => 2,
        }
    }

    /// Converts a line into an array index.
    pub fn line_to_index(&self) -> (i: usize)
        ensures
            i == self.index(),
    {
        match self {
            TrigramLine::First => 0,
            TrigramLine::Second => 1,
            TrigramLine::Third => 2,
        }
    }
}

/// A single trigram, consisting of three lines.
#[derive(Copy, Clone, Debug, Eq)]
pub struct Trigram {
    /// The number of the trigram, from 1 to 8.
    pub number: u8,
    /// The lines of the trigram. The first line is the bottom line, and the last line is the top
    /// one.
    pub lines: [Line; 3],
}

/// The list of all I Ching trigrams: each number with its lines, bottom first,
/// 1 for a closed line and 0 for an open one.
pub const TRIGRAMS: [(u8, [u8; 3]); 8] = [
    (1, [1, 1, 1]),
    (2, [1, 0, 0]),
    (3, [0, 1, 0]),
    (4, [0, 0, 1]),
    (5, [0, 0, 0]),
    (6, [0, 1, 1]),
    (7, [1, 0, 1]),
    (8, [1, 1, 0]),
];

/// For each pattern of three lines, the number of the trigram that has it. The
/// pattern is counted in binary, the bottom line being worth 1, the middle
/// line 2 and the top line 4.
const TRIGRAM_INDEX: [u8; 8] = [5, 2, 3, 8, 4, 7, 6, 1];

/// The lines that the list gives for the trigram `number`.
pub open spec fn trigram_lines(number: int) -> Seq<Line> {
    let row = TRIGRAMS[number - 1].1;
    seq![Line::of(row[0]), Line::of(row[1]), Line::of(row[2])]
}

/// Three lines in the opposite order.
pub open spec fn reversed3(l: Seq<Line>) -> Seq<Line> {
    seq![l[2], l[1], l[0]]
}

/// Three lines, each flipped.
pub open spec fn flipped3(l: Seq<Line>) -> Seq<Line> {
    seq![l[0].flipped(), l[1].flipped(), l[2].flipped()]
}

impl PartialEq for Trigram {
    fn eq(&self, other: &Trigram) -> (r: bool) {
        let r = self.number == other.number && self.lines[0] == other.lines[0] && self.lines[1]
            == other.lines[1] && self.lines[2] == other.lines[2];
        proof {
            if r {
                assert(self.lines@ =~= other.lines@);
            }
        }
        r
    }
}

impl vstd::std_specs::cmp::PartialEqSpecImpl for Trigram {
    open spec fn obeys_eq_spec() -> bool {
        true
    }

    open spec fn eq_spec(&self, other: &Trigram) -> bool {
        self.number == other.number && self.lines@ == other.lines@
    }
}

impl Trigram {
    /// The trigram is one of the eight of the list: its number is that of the
    /// entry that has its lines.
    pub open spec fn is_catalogued(self) -> bool {
        1 <= self.number <= 8 && self.lines@ == trigram_lines(self.number as int)
    }

    /// The trigram of the list that has the given lines.
    pub open spec fn with_lines(lines: Seq<Line>) -> Trigram {
        choose|t: Trigram| t.is_catalogued() && t.lines@ == lines
    }

    /// Finds the trigram that has the given lines. Every pattern of three lines
    /// belongs to exactly one trigram, so the search always succeeds.
    pub fn lookup(lines: [Line; 3]) -> (r: Trigram)
        ensures
            r.lines == lines,
            r.is_catalogued(),
            r == Trigram::with_lines(lines@),
    {
        let b0: usize = match lines[0] {
            Line::Open => 0,
            Line::Closed => 1,
        };
        let b1: usize = match lines[1] {
            Line::Open => 0,
            Line::Closed => 2,
        };
        let b2: usize = match lines[2] {
            Line::Open => 0,
            Line::Closed => 4,
        };
        let r = Trigram { number: TRIGRAM_INDEX[b0 + b1 + b2], lines };
        proof {
            assert(r.lines@ =~= trigram_lines(r.number as int));
            lemma_trigram_with_lines(r);
        }
        r
    }

    /// Returns the trigram obtained by reversing the order of the lines in this trigram.
    pub fn reverse(&self) -> (r: Trigram)
        ensures
            r.is_catalogued(),
            r.lines@ == reversed3(self.lines@),
    {
        let lines = [self.lines[2], self.lines[1], self.lines[0]];
        Trigram::lookup(lines)
    }

    /// Returns the trigram obtained by flipping the lines in this trigram.
    pub fn inverse(&self) -> (r: Trigram)
        ensures
            r.is_catalogued(),
            r.lines@ == flipped3(self.lines@),
    {
        let lines = [self.lines[0].inverse(), self.lines[1].inverse(), self.lines[2].inverse()];
        Trigram::lookup(lines)
    }

    /// Returns the trigram obtained by inverting the given line.
    pub fn inverse_line(&self, line: TrigramLine) -> (r: Trigram)
        ensures
            r.is_catalogued(),
            r.lines@ == self.lines@.update(line.index(), self.lines@[line.index()].flipped()),
    {
        let mut lines = self.lines;
        let index = line.line_to_index();
        lines[index] = lines[index].inverse();
        Trigram::lookup(lines)
    }
}

/// Creates a trigram from a number and a list of lines. Nothing is checked:
/// the result is one of the eight trigrams only if the list pairs the number
/// with these lines.
pub fn create_trigram(number: u8, lines: [u8; 3]) -> (r: Trigram)
    ensures
        r.number == number,
        r.lines@ == seq![Line::of(lines[0]), Line::of(lines[1]), Line::of(lines[2])],
{
    Trigram { number, lines: [Line::from(lines[0]), Line::from(lines[1]), Line::from(lines[2])] }
}

/// The eight trigrams, each at the place that its pattern of lines gives it:
/// counted in binary, the bottom line being worth 1, the middle line 2 and the
/// top line 4. Every entry of the list is visited once.
pub fn trigram_index() -> (index: Vec<Trigram>)
    ensures
        index@.len() == 8,
        forall|i: int| 0 <= i < 8 ==> (#[trigger] index@[i]).is_catalogued(),
        forall|i: int| 0 <= i < 8 ==> trigram_code((#[trigger] index@[i]).lines@) == i,
{
    let first = create_trigram(TRIGRAMS[0].0, TRIGRAMS[0].1);
    let mut index: Vec<Trigram> = Vec::new();
    let mut k: usize = 0;
    while k < 8
        invariant
            k <= 8,
            index@.len() == k,
        decreases 8 - k,
    {
        index.push(first);
        k += 1;
    }
    let mut n: usize = 0;
    while n < 8
        invariant
            n <= 8,
            index@.len() == 8,
            forall|m: int|
                1 <= m <= n ==> {
                    let t = #[trigger] index@[trigram_code(trigram_lines(m))];
                    t.number == m && t.lines@ == trigram_lines(m)
                },
        decreases 8 - n,
    {
        let t = create_trigram(TRIGRAMS[n].0, TRIGRAMS[n].1);
        let at = code_of(&t.lines);
        assert(t.lines@ =~= trigram_lines(n + 1));
        assert forall|m: int| 1 <= m <= n implies trigram_code(trigram_lines(m)) != at by {
            if trigram_code(trigram_lines(m)) == at {
                lemma_code_decides(trigram_lines(m), t.lines@);
                lemma_trigram_rows_distinct(m, n + 1);
            }
        }
        index.set(at, t);
        n += 1;
    }
    proof {
        assert forall|i: int| 0 <= i < 8 implies (#[trigger] index@[i]).is_catalogued()
            && trigram_code(index@[i].lines@) == i by {
            let m = TRIGRAM_INDEX[i] as int;
            assert(1 <= m <= 8 && trigram_code(trigram_lines(m)) == i);
        }
    }
    index
}

/// The place of a pattern of three lines among the eight patterns.
pub open spec fn trigram_code(lines: Seq<Line>) -> int {
    lines[0].bit() + 2 * lines[1].bit() + 4 * lines[2].bit()
}

/// Computes the place of a pattern of three lines.
fn code_of(lines: &[Line; 3]) -> (code: usize)
    ensures
        code == trigram_code(lines@),
{
    let b0: usize = match lines[0] {
        Line::Open => 0,
        Line::Closed => 1,
    };
    let b1: usize = match lines[1] {
        Line::Open => 0,
        Line::Closed => 2,
    };
    let b2: usize = match lines[2] {
        Line::Open => 0,
        Line::Closed => 4,
    };
    b0 + b1 + b2
}

/// Two patterns of three lines at the same place are the same pattern.
pub proof fn lemma_code_decides(a: Seq<Line>, b: Seq<Line>)
    requires
        a.len() == 3,
        b.len() == 3,
        trigram_code(a) == trigram_code(b),
    ensures
        a == b,
{
    assert(a =~= b);
}

/// No two entries of the list have the same lines.
pub proof fn lemma_trigram_rows_distinct(m: int, n: int)
    requires
        1 <= m <= 8,
        1 <= n <= 8,
        trigram_lines(m) == trigram_lines(n),
    ensures
        m == n,
{
    let a = trigram_lines(m);
    let b = trigram_lines(n);
    assert(a[0] == b[0] && a[1] == b[1] && a[2] == b[2]);
}

/// Two trigrams of the list with the same lines are the same trigram.
pub proof fn lemma_trigram_unique(a: Trigram, b: Trigram)
    requires
        a.is_catalogued(),
        b.is_catalogued(),
        a.lines@ == b.lines@,
    ensures
        a == b,
{
    lemma_trigram_rows_distinct(a.number as int, b.number as int);
    assert(a.lines =~= b.lines);
}

/// A trigram of the list is the one that `with_lines` picks for its lines.
pub proof fn lemma_trigram_with_lines(t: Trigram)
    requires
        t.is_catalogued(),
    ensures
        Trigram::with_lines(t.lines@) == t,
{
    let lines = t.lines@;
    let picked = Trigram::with_lines(lines);
    assert(t.is_catalogued() && t.lines@ == lines);
    assert(picked.is_catalogued() && picked.lines@ == lines);
    lemma_trigram_unique(picked, t);
}

} // verus!
