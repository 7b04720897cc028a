use iching::casting::{
    cast, coin_reading, pile_reminder, yarrow_stalk_reading, yarrow_stalk_split, Casting, Draw,
    ReadingMethod,
};
use iching::error::Error;
use iching::hexagram::Hexagram;
use iching::reading::{generate_reading, reading_from_throws};
use rand::Rng;
use std::collections::HashSet;

/// Verifies that the reading has six throws, each of them from 6 to 9.
fn verify_reading(reading: &[u8]) {
    assert_eq!(reading.len(), 6, "reading has wrong number of lines: {}", reading.len());
    assert!(
        !reading.iter().any(|&x| x < 6 || x > 9),
        "reading has invalid throw: {:?}",
        reading
    );
}

/// Casts a reading with draws that the caller makes itself, as a caller does
/// that has its own source of random numbers.
fn cast_with_own_draws(method: ReadingMethod) -> Result<Vec<u8>, Error> {
    let mut rng = rand::thread_rng();
    let mut casting = Casting::new(method);
    loop {
        let draw = match casting.next_draw() {
            None => return Ok(casting.into_throws()),
            Some(Draw::Coin) => rng.gen_range(2..=3),
            Some(Draw::Split(num_stalks)) => rng.gen_range(1..=num_stalks - 2),
        };
        casting = casting.accept(draw)?;
    }
}

/// Verifies the coin method with draws from the caller's own source.
#[test]
fn test_coin_random() -> Result<(), Error> {
    for _ in 0..1 {
        let reading = cast_with_own_draws(ReadingMethod::Coin)?;
        verify_reading(&reading);
    }
    Ok(())
}

/// Verifies the coin method with pseudorandomness.
#[test]
fn test_coin_pseudorandom() -> Result<(), Error> {
    for _ in 0..100 {
        let reading = coin_reading()?;
        verify_reading(&reading);
    }
    Ok(())
}

/// Verifies the yarrow stalks method with draws from the caller's own source.
#[test]
fn test_yarrow_stalks_random() -> Result<(), Error> {
    for _ in 0..1 {
        let reading = cast_with_own_draws(ReadingMethod::YarrowStalks)?;
        verify_reading(&reading);
    }
    Ok(())
}

/// Verifies the yarrow stalks method with pseudorandomness.
#[test]
fn test_yarrow_stalks_pseudorandom() -> Result<(), Error> {
    for _ in 0..100 {
        let reading = yarrow_stalk_reading()?;
        verify_reading(&reading);
    }
    Ok(())
}

#[test]
fn cast_by_either_method() {
    verify_reading(&cast(ReadingMethod::Coin).unwrap());
    verify_reading(&cast(ReadingMethod::YarrowStalks).unwrap());
}

#[test]
fn remainder_of_a_pile() {
    assert_eq!(pile_reminder(1), 1);
    assert_eq!(pile_reminder(2), 2);
    assert_eq!(pile_reminder(3), 3);
    assert_eq!(pile_reminder(4), 4);
    assert_eq!(pile_reminder(5), 1);
    assert_eq!(pile_reminder(48), 4);
    assert_eq!(pile_reminder(0), 4);
}

#[test]
fn split_of_the_stalks() {
    // 49 stalks, 20 to the right: 28 stay left after one is set aside. Both piles leave a
    // remainder of 4, so 40 stalks stay, in 4 + 6 groups of four.
    assert_eq!(yarrow_stalk_split(49, 20), Ok((40, 10)));
    // 49 stalks, 10 to the right: 38 stay left. The remainders are 2 and 2.
    assert_eq!(yarrow_stalk_split(49, 10), Ok((44, 11)));
    assert_eq!(yarrow_stalk_split(40, 1), Ok((36, 9)));
    assert_eq!(yarrow_stalk_split(32, 30), Ok((28, 7)));
    assert_eq!(yarrow_stalk_split(32, 4), Ok((24, 6)));
    assert_eq!(yarrow_stalk_split(3, 1), Ok((0, 0)));
    assert_eq!(yarrow_stalk_split(49, 0), Err(Error::BadResponse));
    assert_eq!(yarrow_stalk_split(49, 48), Err(Error::BadResponse));
    assert_eq!(yarrow_stalk_split(2, 1), Err(Error::BadResponse));
    assert_eq!(yarrow_stalk_split(0, 0), Err(Error::BadResponse));
}

#[test]
fn a_casting_with_coins_adds_three_throws() {
    let mut casting = Casting::new(ReadingMethod::Coin);
    let draws: [u8; 18] = [2, 2, 2, 3, 3, 3, 2, 3, 2, 3, 2, 3, 2, 2, 3, 3, 3, 2];
    for draw in draws {
        assert_eq!(casting.next_draw(), Some(Draw::Coin));
        casting = casting.accept(draw).unwrap();
    }
    assert_eq!(casting.next_draw(), None);
    assert_eq!(casting.into_throws(), vec![6, 9, 7, 8, 7, 8]);
}

#[test]
fn a_casting_with_stalks_counts_the_groups_of_the_third_split() {
    let mut casting = Casting::new(ReadingMethod::YarrowStalks);
    assert_eq!(casting.next_draw(), Some(Draw::Split(49)));
    casting = casting.accept(20).unwrap();
    assert_eq!(casting.next_draw(), Some(Draw::Split(40)));
    casting = casting.accept(1).unwrap();
    assert_eq!(casting.next_draw(), Some(Draw::Split(36)));
    casting = casting.accept(4).unwrap();
    assert_eq!(casting.next_draw(), Some(Draw::Split(49)));
    for _ in 0..5 {
        casting = casting.accept(10).unwrap();
        casting = casting.accept(10).unwrap();
        casting = casting.accept(10).unwrap();
    }
    assert_eq!(casting.next_draw(), None);
    let throws = casting.into_throws();
    assert_eq!(throws[0], 7);
    verify_reading(&throws);
}

#[test]
fn a_casting_turns_bad_draws_down() {
    assert_eq!(Casting::new(ReadingMethod::Coin).accept(1).err(), Some(Error::BadResponse));
    assert_eq!(Casting::new(ReadingMethod::Coin).accept(4).err(), Some(Error::BadResponse));
    assert_eq!(
        Casting::new(ReadingMethod::YarrowStalks).accept(0).err(),
        Some(Error::BadResponse)
    );
    assert_eq!(
        Casting::new(ReadingMethod::YarrowStalks).accept(48).err(),
        Some(Error::BadResponse)
    );
    let mut casting = Casting::new(ReadingMethod::Coin);
    for _ in 0..18 {
        casting = casting.accept(3).unwrap();
    }
    assert_eq!(casting.accept(3).err(), Some(Error::InvalidReading));
}

#[test]
fn a_reading_without_changing_lines_has_no_future() {
    let reading = reading_from_throws(&vec![7, 7, 7, 7, 7, 7], "What now?").unwrap();
    assert_eq!(reading.question, "What now?");
    assert_eq!(reading.present, Hexagram::numbered(1));
    assert_eq!(reading.future, None);
    assert!(reading.changing_lines.is_empty());
    let reading = reading_from_throws(&vec![8, 8, 8, 8, 8, 8], "").unwrap();
    assert_eq!(reading.present, Hexagram::numbered(2));
    assert_eq!(reading.future, None);
}

#[test]
fn a_reading_with_changing_lines() {
    // 9 is a closed line that opens, 6 an open line that closes.
    let reading = reading_from_throws(&vec![9, 8, 8, 6, 7, 8], "q").unwrap();
    // Present lines 1 0 0 0 1 0 make hexagram 3, future lines 0 0 0 1 1 0 hexagram 45.
    assert_eq!(reading.present, Hexagram::numbered(3));
    assert_eq!(reading.future, Some(Hexagram::numbered(45)));
    let expected: HashSet<usize> = [0usize, 3].into_iter().collect();
    assert_eq!(reading.changing_lines, expected);
    let reading = reading_from_throws(&vec![9, 9, 9, 9, 9, 9], "q").unwrap();
    assert_eq!(reading.present, Hexagram::numbered(1));
    assert_eq!(reading.future, Some(Hexagram::numbered(2)));
    assert_eq!(reading.changing_lines.len(), 6);
}

#[test]
fn throws_that_make_no_reading() {
    assert_eq!(reading_from_throws(&vec![7, 7, 7, 7, 7, 5], "").err(), Some(Error::InvalidReading));
    assert_eq!(reading_from_throws(&vec![10, 7, 7, 7, 7, 7], "").err(), Some(Error::InvalidReading));
    assert_eq!(reading_from_throws(&vec![7, 7, 7, 7, 7], "").err(), Some(Error::InvalidReading));
    assert_eq!(
        reading_from_throws(&vec![7, 7, 7, 7, 7, 7, 7], "").err(),
        Some(Error::InvalidReading)
    );
    assert_eq!(reading_from_throws(&Vec::new(), "").err(), Some(Error::InvalidReading));
}

#[test]
fn a_generated_reading_is_one_of_its_throws() {
    for method in [ReadingMethod::Coin, ReadingMethod::YarrowStalks] {
        let reading = generate_reading(method, "Shall I?").unwrap();
        assert_eq!(reading.question, "Shall I?");
        assert_eq!(Hexagram::lookup(reading.present.lines), reading.present);
        match reading.future {
            None => assert!(reading.changing_lines.is_empty()),
            Some(future) => {
                assert!(!reading.changing_lines.is_empty());
                for i in 0..6 {
                    assert_eq!(
                        future.lines[i] != reading.present.lines[i],
                        reading.changing_lines.contains(&i)
                    );
                }
            }
        }
    }
}
