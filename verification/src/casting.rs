//! The two ways of casting the six throws of a reading: with three coins for
//! each line, or with forty-nine yarrow stalks that are split three times for
//! each line.
//!
//! A casting asks for one draw at a time and does not care where the draws
//! come from. The library itself draws from the generator of the thread; a
//! caller with another source hands each draw to `Casting::accept`.

use crate::error::Error;
use rand::Rng;
use vstd::prelude::*;

verus! {

/// The method used to generate the reading.
#[derive(Copy, Clone, Debug, PartialEq, Eq, Structural)]
pub enum ReadingMethod {
    /// A method using yarrow stalks. This is the traditional method, which is more involved. The
    /// probabilities that a yin or yang line will transform are not equal. This asymmetry reflects
    /// the traditional understanding of the intrinsic tendency of yin towards stability and of yang
    /// towards transformation.
    YarrowStalks,
    /// A method using random draws from a coin. This is a simplified method, which is easier to
    /// perform. The probabilities that a yin or yang line will transform are equal.
    Coin,
}

/// What a casting asks of its source.
#[derive(Copy, Clone, Debug, PartialEq, Eq, Structural)]
pub enum Draw {
    /// The throw of a coin: 2 for one side, 3 for the other.
    Coin,
    /// A split of the given number of stalks: the number of stalks on the
    /// right pile, at least 1 and at most two less than the stalks in hand,
    /// so that the left pile keeps at least two.
    Split(u8),
}

/// What is left of a pile that is counted off in fours: the last group, be
/// it of one, two, three or four stalks.
pub open spec fn remainder_of(pile: int) -> int {
    if pile % 4 == 0 {
        4
    } else {
        pile % 4
    }
}

/// The stalks that stay in hand after a split with `right` stalks on the
/// right pile: one stalk of the left pile is set aside with the remainders
/// of both piles.
pub open spec fn stalks_after(num_stalks: int, right: int) -> int {
    num_stalks - remainder_of(right) - remainder_of(num_stalks - right - 1) - 1
}

/// The groups of four that the two piles hold besides their remainders.
pub open spec fn groups_counted(num_stalks: int, right: int) -> int {
    let left = num_stalks - right - 1;
    (left - remainder_of(left)) / 4 + (right - remainder_of(right)) / 4
}

/// Counts the reminder from a pile.
pub fn pile_reminder(pile_size: u8) -> (reminder: u8)
    ensures
        reminder == remainder_of(pile_size as int),
        1 <= reminder <= 4,
{
    let reminder = pile_size % 4;
    if reminder == 0 {
        4
    } else {
        reminder
    }
}

/// Splits the yarrow stalks into two piles, sets one stalk aside, and counts the remainder from the
/// two piles. This procedure is repeated three times to generate a line from the reading. Returns
/// the remaining stalks and the number of groups of four stalks that were counted.
///
/// `right` is the number of stalks on the right pile. It is turned down
/// where it leaves the left pile fewer than two stalks.
pub fn yarrow_stalk_split(num_stalks: u8, right: u8) -> (r: Result<(u8, u8), Error>)
    ensures
        match r {
            Ok((rest, groups)) => {
                &&& 1 <= right <= num_stalks - 2
                &&& rest == stalks_after(num_stalks as int, right as int)
                &&& groups == groups_counted(num_stalks as int, right as int)
            },
            Err(e) => !(1 <= right <= num_stalks - 2) && e == Error::BadResponse,
        },
{
    if num_stalks < 3 || right < 1 || right > num_stalks - 2 {
        return Err(Error::BadResponse);
    }
    // Split the stalks into two piles.
    let left = num_stalks - right;

    // Take one stalk from the left pile and set it aside.
    let left = left - 1;

    // Count the groups of four and the remainder from the right pile.
    let right_reminder = pile_reminder(right);
    let right_groups = (right - right_reminder) / 4;

    // Count the groups of four and the remainder from the left pile.
    let left_reminder = pile_reminder(left);
    let left_groups = (left - left_reminder) / 4;

    // The remainders and the first stalk from the left pile are set aside.
    let new_num_stalks = num_stalks - right_reminder - left_reminder - 1;
    Ok((new_num_stalks, left_groups + right_groups))
}

/// The state of a casting as plain values.
pub struct CastingView {
    /// The method of the casting.
    pub method: ReadingMethod,
    /// The throws cast so far, the bottom line first.
    pub throws: Seq<u8>,
    /// With coins, the sum of the coins thrown for the line in progress;
    /// with yarrow stalks, the stalks in hand.
    pub held: int,
    /// The draws made for the line in progress.
    pub draws: int,
}

impl CastingView {
    /// The state of a casting that has not drawn yet.
    pub open spec fn fresh(method: ReadingMethod) -> CastingView {
        CastingView {
            method,
            throws: Seq::empty(),
            held: match method {
                ReadingMethod::Coin => 0,
                ReadingMethod::YarrowStalks => 49,
            },
            draws: 0,
        }
    }

    /// The state is one that a casting can be in.
    pub open spec fn valid(self) -> bool {
        &&& self.throws.len() <= 6
        &&& forall|i: int| 0 <= i < self.throws.len() ==> 6 <= #[trigger] self.throws[i] <= 9
        &&& 0 <= self.draws <= 2
        &&& match self.method {
            ReadingMethod::Coin => 2 * self.draws <= self.held <= 3 * self.draws,
            ReadingMethod::YarrowStalks => if self.draws == 0 {
                self.held == 49
            } else if self.draws == 1 {
                self.held == 44 || self.held == 40
            } else {
                self.held == 40 || self.held == 36 || self.held == 32
            },
        }
    }

    /// All six throws are cast.
    pub open spec fn complete(self) -> bool {
        self.throws.len() == 6
    }

    /// The draw that the casting asks for; none when it is complete.
    pub open spec fn wanted(self) -> Option<Draw> {
        if self.complete() {
            None
        } else {
            match self.method {
                ReadingMethod::Coin => Some(Draw::Coin),
                ReadingMethod::YarrowStalks => Some(Draw::Split(self.held as u8)),
            }
        }
    }

    /// The draw answers what the casting asks for.
    pub open spec fn accepts(self, draw: u8) -> bool {
        !self.complete() && match self.method {
            ReadingMethod::Coin => 2 <= draw <= 3,
            ReadingMethod::YarrowStalks => 1 <= draw <= self.held - 2,
        }
    }

    /// The state after a draw. The third draw of a line gives its throw: with
    /// coins the sum of the three coins, with yarrow stalks the groups of
    /// four counted at the third split.
    pub open spec fn after(self, draw: u8) -> CastingView {
        match self.method {
            ReadingMethod::Coin => if self.draws < 2 {
                CastingView { held: self.held + draw, draws: self.draws + 1, ..self }
            } else {
                CastingView {
                    throws: self.throws.push((self.held + draw) as u8),
                    held: 0,
                    draws: 0,
                    ..self
                }
            },
            ReadingMethod::YarrowStalks => if self.draws < 2 {
                CastingView {
                    held: stalks_after(self.held, draw as int),
                    draws: self.draws + 1,
                    ..self
                }
            } else {
                CastingView {
                    throws: self.throws.push(groups_counted(self.held, draw as int) as u8),
                    held: 49,
                    draws: 0,
                    ..self
                }
            },
        }
    }

    /// The draws that are still to be made.
    pub open spec fn draws_left(self) -> int {
        3 * (6 - self.throws.len()) - self.draws
    }
}

/// A casting in progress.
pub struct Casting {
    method: ReadingMethod,
    throws: Vec<u8>,
    held: u8,
    draws: u8,
}

impl View for Casting {
    type V = CastingView;

    closed spec fn view(&self) -> CastingView {
        CastingView {
            method: self.method,
            throws: self.throws@,
            held: self.held as int,
            draws: self.draws as int,
        }
    }
}

impl Casting {
    #[verifier::type_invariant]
    spec fn in_valid_state(self) -> bool {
        self@.valid()
    }

    /// Begins a casting.
    pub fn new(method: ReadingMethod) -> (casting: Casting)
        ensures
            casting@ == CastingView::fresh(method),
            casting@.valid(),
    {
        let held: u8 = match method {
            ReadingMethod::Coin => 0,
            ReadingMethod::YarrowStalks => 49,
        };
        Casting { method, throws: Vec::new(), held, draws: 0 }
    }

    /// The draw that the casting asks for next; none when all six throws are cast.
    pub fn next_draw(&self) -> (wanted: Option<Draw>)
        ensures
            self@.valid(),
            wanted == self@.wanted(),
    {
        proof {
            use_type_invariant(self);
        }
        if self.throws.len() == 6 {
            None
        } else {
            match self.method {
                ReadingMethod::Coin => Some(Draw::Coin),
                ReadingMethod::YarrowStalks => Some(Draw::Split(self.held)),
            }
        }
    }

    /// Takes a draw. A draw that does not answer what was asked for is a bad
    /// response; a draw for a casting that is complete makes no reading.
    pub fn accept(self, draw: u8) -> (r: Result<Casting, Error>)
        ensures
            self@.valid(),
            match r {
                Ok(casting) => self@.accepts(draw) && casting@ == self@.after(draw)
                    && casting@.valid(),
                Err(e) => !self@.accepts(draw) && e == if self@.complete() {
                    Error::InvalidReading
                } else {
                    Error::BadResponse
                },
            },
    {
        proof {
            use_type_invariant(&self);
        }
        if self.throws.len() == 6 {
            return Err(Error::InvalidReading);
        }
        let Casting { method, throws, held, draws } = self;
        let mut throws = throws;
        match method {
            ReadingMethod::Coin => {
                if draw < 2 || draw > 3 {
                    return Err(Error::BadResponse);
                }
                if draws < 2 {
                    Ok(Casting { method, throws, held: held + draw, draws: draws + 1 })
                } else {
                    throws.push(held + draw);
                    Ok(Casting { method, throws, held: 0, draws: 0 })
                }
            },
            ReadingMethod::YarrowStalks => {
                let (rest, groups) = match yarrow_stalk_split(held, draw) {
                    Ok(counted) => counted,
                    Err(e) => {
                        return Err(e);
                    },
                };
                if draws < 2 {
                    Ok(Casting { method, throws, held: rest, draws: draws + 1 })
                } else {
                    throws.push(groups);
                    Ok(Casting { method, throws, held: 49, draws: 0 })
                }
            },
        }
    }

    /// The throws cast so far, the bottom line first.
    pub fn into_throws(self) -> (throws: Vec<u8>)
        ensures
            throws@ == self@.throws,
            self@.valid(),
    {
        proof {
            use_type_invariant(&self);
        }
        self.throws
    }
}

/// A draw that is accepted leaves the casting in a valid state, with one
/// draw less to make.
pub proof fn lemma_accepted_draw(state: CastingView, draw: u8)
    requires
        state.valid(),
        state.accepts(draw),
    ensures
        state.after(draw).valid(),
        state.after(draw).draws_left() == state.draws_left() - 1,
        state.after(draw).method == state.method,
{
}

/// Generates a pseudo-random coin throw using the system's random number generator.
///
/// `rand::Rng::gen_range` on `rand::thread_rng()` with the range `2..4`,
/// which is not empty; the result lies in the range.
#[verifier::external_body]
fn pseudo_random_coin_throw() -> (throw: u8)
    ensures
        2 <= throw <= 3,
{
    let mut rng = rand::thread_rng();
    rng.gen_range(2..4)
}

/// Generates a random number using the system's random number generator for use in the yarrow
/// stalks method. The number represents the number of stalks on the right pile after the split.
///
/// `rand::Rng::gen_range` on `rand::thread_rng()` with the range
/// `1..num_stalks - 1`; the result lies in the range. An empty range makes
/// `gen_range` panic, so at least three stalks are asked for.
#[verifier::external_body]
fn pseudo_random_yarrow_stalks_split(num_stalks: u8) -> (right: u8)
    requires
        num_stalks >= 3,
    ensures
        1 <= right <= num_stalks - 2,
{
    // The max number to draw should be the number of stalks minus 2 so that the left pile always
    // has at least two stalks, since one will be removed from it.
    let mut rng = rand::thread_rng();
    rng.gen_range(1..num_stalks - 1)
}

/// Casts the six throws of a reading with draws from the system's random
/// number generator.
pub fn cast(method: ReadingMethod) -> (r: Result<Vec<u8>, Error>)
    ensures
        r is Ok,
        r->Ok_0@.len() == 6,
        forall|i: int| 0 <= i < 6 ==> 6 <= #[trigger] r->Ok_0@[i] <= 9,
{
    let mut casting = Casting::new(method);
    loop
        invariant
            casting@.valid(),
            casting@.method == method,
        decreases casting@.draws_left(),
    {
        let draw = match casting.next_draw() {
            None => {
                let throws = casting.into_throws();
                return Ok(throws);
            },
            Some(Draw::Coin) => pseudo_random_coin_throw(),
            Some(Draw::Split(num_stalks)) => pseudo_random_yarrow_stalks_split(num_stalks),
        };
        proof {
            lemma_accepted_draw(casting@, draw);
        }
        casting = match casting.accept(draw) {
            Ok(next) => next,
            Err(e) => {
                return Err(e);
            },
        };
    }
}

/// Generates the throws of a reading with the coin method.
pub fn coin_reading() -> (r: Result<Vec<u8>, Error>)
    ensures
        r is Ok,
        r->Ok_0@.len() == 6,
        forall|i: int| 0 <= i < 6 ==> 6 <= #[trigger] r->Ok_0@[i] <= 9,
{
    cast(ReadingMethod::Coin)
}

/// Generates the throws of a reading with the yarrow stalks method.
pub fn yarrow_stalk_reading() -> (r: Result<Vec<u8>, Error>)
    ensures
        r is Ok,
        r->Ok_0@.len() == 6,
        forall|i: int| 0 <= i < 6 ==> 6 <= #[trigger] r->Ok_0@[i] <= 9,
{
    cast(ReadingMethod::YarrowStalks)
}

} // verus!
