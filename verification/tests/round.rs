use number_games::error::GameError;
use number_games::round::{Phase, Range, Round, RoundResult, Signal};

fn range(low: u32, high: u32) -> Range {
    Range::new(low, high).unwrap()
}

fn lines(text: &[&str]) -> Vec<String> {
    text.iter().map(|line| line.to_string()).collect()
}

#[test]
fn a_range_needs_low_at_most_high() {
    assert!(Range::new(1, 100).is_some());
    assert!(Range::new(7, 7).is_some());
    assert!(Range::new(0, u32::MAX).is_some());
    assert!(Range::new(8, 7).is_none());
    assert!(Range::new(u32::MAX, 0).is_none());
}

#[test]
fn a_range_keeps_its_bounds() {
    let r = range(3, 9);
    assert_eq!(r.low(), 3);
    assert_eq!(r.high(), 9);
    assert!(!r.contains(2));
    assert!(r.contains(3));
    assert!(r.contains(6));
    assert!(r.contains(9));
    assert!(!r.contains(10));
}

#[test]
fn the_secret_drawn_lies_in_the_range() {
    for (low, high) in [(1, 50), (1, 55), (1, 100), (0, 0), (7, 8), (0, u32::MAX), (u32::MAX, u32::MAX)] {
        let r = range(low, high);
        for _ in 0..2000 {
            let round = Round::start(r);
            assert!(low <= round.secret() && round.secret() <= high);
            assert!(r.contains(round.secret()));
            assert_eq!(round.range(), r);
            assert_eq!(round.attempts(), 0);
            assert_eq!(round.phase(), Phase::Awaiting);
        }
    }
}

#[test]
fn the_secret_is_drawn_not_copied_from_a_bound() {
    let r = range(10, 19);
    let mut seen = [false; 10];
    for _ in 0..5000 {
        let secret = Round::start(r).secret();
        seen[(secret - 10) as usize] = true;
    }
    assert!(seen.iter().all(|hit| *hit));
}

#[test]
fn a_range_of_one_number_leaves_no_choice() {
    for _ in 0..100 {
        assert_eq!(Round::start(range(1, 1)).secret(), 1);
    }
}

#[test]
fn a_given_secret_must_lie_in_the_range() {
    assert!(Round::with_secret(range(1, 100), 0).is_none());
    assert!(Round::with_secret(range(1, 100), 101).is_none());
    let round = Round::with_secret(range(1, 100), 42).unwrap();
    assert_eq!(round.secret(), 42);
    assert_eq!(round.attempts(), 0);
    assert_eq!(round.phase(), Phase::Awaiting);
    assert_eq!(round.result(), None);
    assert!(round.is_awaiting());
}

#[test]
fn the_prompt_names_the_bounds() {
    let round = Round::with_secret(range(1, 55), 5).unwrap();
    assert_eq!(round.prompt(), Signal::Prompt { low: 1, high: 55 });
}

#[test]
fn too_small_too_big_win() {
    let mut round = Round::with_secret(range(1, 100), 42).unwrap();
    assert_eq!(round.offer("10"), Some(Signal::TooSmall { guess: 10 }));
    assert_eq!(round.attempts(), 1);
    assert_eq!(round.phase(), Phase::Awaiting);
    assert_eq!(round.offer("99"), Some(Signal::TooBig { guess: 99 }));
    assert_eq!(round.attempts(), 2);
    assert_eq!(round.phase(), Phase::Awaiting);
    assert_eq!(round.offer("42"), Some(Signal::Win { guess: 42, attempts: 3 }));
    assert_eq!(round.attempts(), 3);
    assert_eq!(round.phase(), Phase::Done);
    assert_eq!(round.result(), Some(RoundResult { attempts: 3 }));
}

#[test]
fn too_small_too_big_win_played_from_a_script() {
    let round = Round::with_secret(range(1, 100), 42).unwrap();
    let (signals, outcome) = round.run(&lines(&["10", "99", "42"]));
    assert_eq!(
        signals,
        vec![
            Signal::TooSmall { guess: 10 },
            Signal::TooBig { guess: 99 },
            Signal::Win { guess: 42, attempts: 3 },
        ]
    );
    assert_eq!(outcome, Ok(RoundResult { attempts: 3 }));
}

#[test]
fn malformed_lines_are_not_attempts() {
    let round = Round::with_secret(range(1, 100), 42).unwrap();
    let script = lines(&["", "abc", "-3", "4 2", "\n", "42\n"]);
    let (signals, outcome) = round.run(&script);
    assert_eq!(signals, vec![Signal::Win { guess: 42, attempts: 1 }]);
    assert_eq!(outcome, Ok(RoundResult { attempts: 1 }));
}

#[test]
fn attempts_are_the_well_formed_lines() {
    let round = Round::with_secret(range(1, 100), 42).unwrap();
    let script = lines(&["one", "1\n", "", " 200 ", "x", "+41", "43", "?", "42"]);
    let well_formed = script.iter().filter(|line| line.trim().parse::<u32>().is_ok()).count();
    let (signals, outcome) = round.run(&script);
    assert_eq!(well_formed, 5);
    assert_eq!(outcome, Ok(RoundResult { attempts: 5 }));
    assert_eq!(
        signals,
        vec![
            Signal::TooSmall { guess: 1 },
            Signal::TooBig { guess: 200 },
            Signal::TooSmall { guess: 41 },
            Signal::TooBig { guess: 43 },
            Signal::Win { guess: 42, attempts: 5 },
        ]
    );
}

#[test]
fn a_malformed_line_changes_nothing() {
    let mut round = Round::with_secret(range(1, 100), 42).unwrap();
    assert_eq!(round.offer("7"), Some(Signal::TooSmall { guess: 7 }));
    for line in ["", "  ", "seven", "-7", "7.0", "4294967296"] {
        assert_eq!(round.offer(line), None);
        assert_eq!(round.attempts(), 1);
        assert_eq!(round.phase(), Phase::Awaiting);
        assert_eq!(round.secret(), 42);
    }
}

#[test]
fn range_of_one_is_won_by_the_first_valid_guess() {
    let round = Round::start(range(1, 1));
    let (signals, outcome) = round.run(&lines(&["", "what?", "-1", "1"]));
    assert_eq!(signals, vec![Signal::Win { guess: 1, attempts: 1 }]);
    assert_eq!(outcome, Ok(RoundResult { attempts: 1 }));

    let mut round = Round::start(range(1, 1));
    assert_eq!(round.offer("x"), None);
    assert_eq!(round.offer("1"), Some(Signal::Win { guess: 1, attempts: 1 }));
    assert_eq!(round.result(), Some(RoundResult { attempts: 1 }));
}

#[test]
fn a_guess_outside_the_range_is_still_an_attempt() {
    let mut round = Round::with_secret(range(10, 20), 15).unwrap();
    assert_eq!(round.offer("0"), Some(Signal::TooSmall { guess: 0 }));
    assert_eq!(round.offer("4294967295"), Some(Signal::TooBig { guess: u32::MAX }));
    assert_eq!(round.attempts(), 2);
}

#[test]
fn the_end_of_input_fails_a_round_that_waits() {
    let round = Round::with_secret(range(1, 100), 42).unwrap();
    let (signals, outcome) = round.run(&lines(&["10", "nothing", "99"]));
    assert_eq!(signals, vec![Signal::TooSmall { guess: 10 }, Signal::TooBig { guess: 99 }]);
    assert_eq!(outcome, Err(GameError::EndOfInput));

    let round = Round::with_secret(range(1, 100), 42).unwrap();
    let (signals, outcome) = round.run(&[]);
    assert_eq!(signals, vec![]);
    assert_eq!(outcome, Err(GameError::EndOfInput));

    let mut round = Round::with_secret(range(1, 100), 42).unwrap();
    assert_eq!(round.offer("41"), Some(Signal::TooSmall { guess: 41 }));
    assert_eq!(round.end_of_input(), Err(GameError::EndOfInput));
    assert_eq!(round.phase(), Phase::Failed);
    assert_eq!(round.result(), None);
    assert!(!round.is_awaiting());
}

#[test]
fn the_end_of_input_after_a_win_keeps_the_result() {
    let mut round = Round::with_secret(range(1, 100), 42).unwrap();
    assert_eq!(round.offer("42"), Some(Signal::Win { guess: 42, attempts: 1 }));
    assert_eq!(round.end_of_input(), Ok(RoundResult { attempts: 1 }));
    assert_eq!(round.phase(), Phase::Done);
}

#[test]
fn nothing_is_read_after_the_round_is_over() {
    let mut round = Round::with_secret(range(1, 100), 42).unwrap();
    assert_eq!(round.offer("42"), Some(Signal::Win { guess: 42, attempts: 1 }));
    assert_eq!(round.offer("42"), None);
    assert_eq!(round.offer("7"), None);
    assert_eq!(round.attempts(), 1);
    assert_eq!(round.phase(), Phase::Done);

    let mut round = Round::with_secret(range(1, 100), 42).unwrap();
    assert_eq!(round.end_of_input(), Err(GameError::EndOfInput));
    assert_eq!(round.offer("42"), None);
    assert_eq!(round.attempts(), 0);
    assert_eq!(round.phase(), Phase::Failed);

    let round = Round::with_secret(range(1, 100), 42).unwrap();
    let (signals, outcome) = round.run(&lines(&["42", "1", "2", "42"]));
    assert_eq!(signals, vec![Signal::Win { guess: 42, attempts: 1 }]);
    assert_eq!(outcome, Ok(RoundResult { attempts: 1 }));
}

#[test]
fn a_drawn_secret_is_found_by_halving() {
    for _ in 0..200 {
        let mut round = Round::start(range(1, 100));
        let (mut low, mut high) = (1u32, 100u32);
        let mut guesses = 0u64;
        loop {
            let guess = low + (high - low) / 2;
            guesses += 1;
            match round.offer(&format!("{}\n", guess)) {
                Some(Signal::TooSmall { guess: echoed }) => {
                    assert_eq!(echoed, guess);
                    low = guess + 1;
                }
                Some(Signal::TooBig { guess: echoed }) => {
                    assert_eq!(echoed, guess);
                    high = guess - 1;
                }
                Some(Signal::Win { guess: echoed, attempts }) => {
                    assert_eq!(echoed, guess);
                    assert_eq!(echoed, round.secret());
                    assert_eq!(attempts, guesses);
                    break;
                }
                other => panic!("no answer to a guess: {:?}", other),
            }
            assert!(low <= high);
        }
        assert!(guesses <= 7);
        assert_eq!(round.result(), Some(RoundResult { attempts: guesses }));
    }
}
