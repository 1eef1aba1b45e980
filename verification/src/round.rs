//! A guessing round.
//!
//! A round holds a secret number from a closed range and counts attempts.
//! [`Round::start`] draws the secret and leaves the round waiting, with no
//! attempt made; [`Round::prompt`] is the invitation to be shown then. From
//! there the round is driven from outside, one event at a time: a line of
//! input is handed to [`Round::offer`], the end of the input to
//! [`Round::end_of_input`]. Each call moves the round to its next state and
//! says what is to be shown to the player. A line that holds no number is
//! passed over in silence: it changes nothing and shows nothing. The round
//! is over when a guess names the secret, or when the input ends first.
//!
//! [`Round::run`] runs a whole round over lines that are known beforehand,
//! and [`Round::with_secret`] begins one with a secret that the caller has
//! chosen.

use vstd::prelude::*;
use crate::error::GameError;
use crate::number::{parse_number, parsed_number};
use crate::random::draw_between;

verus! {

/// A closed range of numbers, from `low` to `high` with both included. It is
/// never empty.
#[derive(Debug, Clone, Copy, PartialEq, Eq, Structural)]
pub struct Range {
    low: u32,
    high: u32,
}

impl Range {
    #[verifier::type_invariant]
    spec fn in_order(self) -> bool {
        self.low <= self.high
    }

    /// The smallest number of the range.
    pub closed spec fn spec_low(&self) -> u32 {
        self.low
    }

    /// The largest number of the range.
    pub closed spec fn spec_high(&self) -> u32 {
        self.high
    }

    /// Whether `number` lies in the range.
    pub open spec fn holds(&self, number: u32) -> bool {
        self.spec_low() <= number <= self.spec_high()
    }

    /// The range from `low` to `high`, unless that range is empty.
    pub fn new(low: u32, high: u32) -> (range: Option<Range>)
        ensures
            range is Some <==> low <= high,
            range matches Some(r) ==> r.spec_low() == low && r.spec_high() == high,
    {
        if low <= high {
            Some(Range { low, high })
        } else {
            None
        }
    }

    /// The smallest number of the range.
    #[verifier::when_used_as_spec(spec_low)]
    pub fn low(&self) -> (low: u32)
        ensures
            low == self.spec_low(),
            low <= self.spec_high(),
    {
        proof {
            use_type_invariant(self);
        }
        self.low
    }

    /// The largest number of the range.
    #[verifier::when_used_as_spec(spec_high)]
    pub fn high(&self) -> (high: u32)
        ensures
            high == self.spec_high(),
            self.spec_low() <= high,
    {
        proof {
            use_type_invariant(self);
        }
        self.high
    }

    /// Tells whether `number` lies in the range.
    pub fn contains(&self, number: u32) -> (inside: bool)
        ensures
            inside == self.holds(number),
    {
        self.low <= number && number <= self.high
    }
}

/// Where a round stands.
#[derive(Debug, Clone, Copy, PartialEq, Eq, Structural)]
pub enum Phase {
    /// The round waits for the next line.
    Awaiting,
    /// The secret was named. Nothing changes the round any more.
    Done,
    /// The input ended before the secret was named. Nothing changes the
    /// round any more.
    Failed,
}

/// What is to be shown to the player.
#[derive(Debug, Clone, Copy, PartialEq, Eq, Structural)]
pub enum Signal {
    /// The invitation to guess, with the bounds of the range.
    Prompt { low: u32, high: u32 },
    /// The guess is below the secret.
    TooSmall { guess: u32 },
    /// The guess is above the secret.
    TooBig { guess: u32 },
    /// The guess is the secret; `attempts` counts the guesses made, this one
    /// included.
    Win { guess: u32, attempts: u64 },
}

/// What a round that was won amounts to.
#[derive(Debug, Clone, Copy, PartialEq, Eq, Structural)]
pub struct RoundResult {
    /// The number of guesses made, the winning one included.
    pub attempts: u64,
}

/// A round as contracts see it.
pub struct RoundState {
    /// The range that the secret was drawn from.
    pub range: Range,
    /// The number to be guessed.
    pub secret: u32,
    /// The guesses made so far.
    pub attempts: nat,
    /// Where the round stands.
    pub phase: Phase,
}

/// The state in which a round on `range` with the secret `secret` begins:
/// no attempt is made yet, and the round waits for its first line.
pub open spec fn fresh_state(range: Range, secret: u32) -> RoundState {
    RoundState { range, secret, attempts: 0, phase: Phase::Awaiting }
}

/// The state that follows `state` when `line` is read, and what is to be
/// shown for it.
///
/// Only a round that waits reads a line, and only a line that holds a number
/// counts: that number is a guess, the attempts grow by one, and the guess is
/// compared with the secret.
pub open spec fn answer(state: RoundState, line: Seq<char>) -> (RoundState, Option<Signal>) {
    if state.phase != Phase::Awaiting {
        (state, None)
    } else {
        match parsed_number(line) {
            None => (state, None),
            Some(guess) => {
                let attempts = state.attempts + 1;
                if guess < state.secret {
                    (RoundState { attempts, ..state }, Some(Signal::TooSmall { guess }))
                } else if guess > state.secret {
                    (RoundState { attempts, ..state }, Some(Signal::TooBig { guess }))
                } else {
                    (
                        RoundState { attempts, phase: Phase::Done, ..state },
                        Some(Signal::Win { guess, attempts: attempts as u64 }),
                    )
                }
            },
        }
    }
}

/// The state that follows `state` when the input ends: a round that still
/// waits has failed.
pub open spec fn input_closed(state: RoundState) -> RoundState {
    if state.phase == Phase::Awaiting {
        RoundState { phase: Phase::Failed, ..state }
    } else {
        state
    }
}

/// What a round in `state` amounts to once the input has ended.
pub open spec fn outcome_of(state: RoundState) -> Result<RoundResult, GameError> {
    if state.phase == Phase::Done {
        Ok(RoundResult { attempts: state.attempts as u64 })
    } else {
        Err(GameError::EndOfInput)
    }
}

/// The state that follows `state` when `lines` are read one after another.
pub open spec fn after_lines(state: RoundState, lines: Seq<Seq<char>>) -> RoundState
    decreases lines.len(),
{
    if lines.len() == 0 {
        state
    } else {
        after_lines(answer(state, lines.first()).0, lines.drop_first())
    }
}

/// What is to be shown, in order, when `lines` are read one after another
/// from `state` on.
pub open spec fn signals_of(state: RoundState, lines: Seq<Seq<char>>) -> Seq<Signal>
    decreases lines.len(),
{
    if lines.len() == 0 {
        Seq::empty()
    } else {
        let (next, signal) = answer(state, lines.first());
        let later = signals_of(next, lines.drop_first());
        match signal {
            Some(shown) => seq![shown] + later,
            None => later,
        }
    }
}

/// A guessing round.
pub struct Round {
    range: Range,
    secret: u32,
    attempts: u64,
    phase: Phase,
}

impl View for Round {
    type V = RoundState;

    closed spec fn view(&self) -> RoundState {
        RoundState {
            range: self.range,
            secret: self.secret,
            attempts: self.attempts as nat,
            phase: self.phase,
        }
    }
}

impl Round {
    #[verifier::type_invariant]
    spec fn secret_in_range(self) -> bool {
        self.range.holds(self.secret)
    }

    /// A fresh round on `range` whose secret is `secret`, unless `secret`
    /// lies outside `range`.
    pub fn with_secret(range: Range, secret: u32) -> (round: Option<Round>)
        ensures
            round is Some <==> range.holds(secret),
            round matches Some(fresh) ==> fresh@ == fresh_state(range, secret),
    {
        if range.contains(secret) {
            Some(Round { range, secret, attempts: 0, phase: Phase::Awaiting })
        } else {
            None
        }
    }

    /// A fresh round on `range` with a secret drawn from it by chance.
    ///
    /// Which secret is drawn is not for a contract to say. Whichever it is,
    /// it lies in `range`, and the round begins as [`Round::with_secret`]
    /// would begin it with that secret.
    ///
    /// The secret comes from the random number generator of the running
    /// thread. On a machine whose operating system cannot seed that
    /// generator, the call panics.
    pub fn start(range: Range) -> (round: Round)
        ensures
            range.holds(round@.secret),
            round@ == fresh_state(range, round@.secret),
    {
        let mut generator = rand::thread_rng();
        let secret: u32 = draw_between(&mut generator, range.low(), range.high());
        Round { range, secret, attempts: 0, phase: Phase::Awaiting }
    }

    /// The invitation to guess that opens the round: it names the bounds of
    /// the range.
    pub fn prompt(&self) -> (signal: Signal)
        ensures
            signal == (Signal::Prompt {
                low: self@.range.spec_low(),
                high: self@.range.spec_high(),
            }),
    {
        Signal::Prompt { low: self.range.low(), high: self.range.high() }
    }

    /// The range that the secret was drawn from.
    pub fn range(&self) -> (range: Range)
        ensures
            range == self@.range,
    {
        self.range
    }

    /// The number to be guessed. It lies in the range of the round.
    pub fn secret(&self) -> (secret: u32)
        ensures
            secret == self@.secret,
            self@.range.holds(secret),
    {
        proof {
            use_type_invariant(self);
        }
        self.secret
    }

    /// The guesses made so far.
    pub fn attempts(&self) -> (attempts: u64)
        ensures
            attempts == self@.attempts,
    {
        self.attempts
    }

    /// Where the round stands.
    pub fn phase(&self) -> (phase: Phase)
        ensures
            phase == self@.phase,
    {
        self.phase
    }

    /// Tells whether the round waits for a line.
    pub fn is_awaiting(&self) -> (waiting: bool)
        ensures
            waiting == (self@.phase == Phase::Awaiting),
    {
        match self.phase {
            Phase::Awaiting => true,
            _ => false,
        }
    }

    /// The result of the round, once it is won.
    pub fn result(&self) -> (result: Option<RoundResult>)
        ensures
            self@.phase == Phase::Done ==> result == Some(
                (RoundResult { attempts: self@.attempts as u64 }),
            ),
            self@.phase != Phase::Done ==> result is None,
    {
        match self.phase {
            Phase::Done => Some(RoundResult { attempts: self.attempts }),
            _ => None,
        }
    }

    /// Reads one line of input and says what is to be shown for it, if
    /// anything.
    ///
    /// The attempts are counted in 64 bits; a round that has used them all up
    /// cannot read another line.
    pub fn offer(&mut self, line: &str) -> (signal: Option<Signal>)
        requires
            old(self)@.attempts < u64::MAX,
        ensures
            final(self)@ == answer(old(self)@, line@).0,
            signal == answer(old(self)@, line@).1,
    {
        proof {
            use_type_invariant(&*self);
        }
        match self.phase {
            Phase::Awaiting => {},
            _ => {
                return None;
            },
        }
        let guess: u32 = match parse_number(line) {
            Ok(number) => number,
            Err(_) => {
                return None;
            },
        };
        self.attempts = self.attempts + 1;
        if guess < self.secret {
            Some(Signal::TooSmall { guess })
        } else if guess > self.secret {
            Some(Signal::TooBig { guess })
        } else {
            self.phase = Phase::Done;
            Some(Signal::Win { guess, attempts: self.attempts })
        }
    }

    /// Takes note that the input has ended, and says what the round amounts
    /// to: its result if it was won, [`GameError::EndOfInput`] if not.
    pub fn end_of_input(&mut self) -> (outcome: Result<RoundResult, GameError>)
        ensures
            final(self)@ == input_closed(old(self)@),
            outcome == outcome_of(final(self)@),
    {
        proof {
            use_type_invariant(&*self);
        }
        match self.phase {
            Phase::Done => Ok(RoundResult { attempts: self.attempts }),
            Phase::Awaiting => {
                self.phase = Phase::Failed;
                Err(GameError::EndOfInput)
            },
            Phase::Failed => Err(GameError::EndOfInput),
        }
    }

    /// Runs the round over `lines`, which then end: returns what is to be
    /// shown, in order, and what the round amounts to.
    ///
    /// Lines that follow the winning one are not read.
    pub fn run(self, lines: &[String]) -> (report: (Vec<Signal>, Result<RoundResult, GameError>))
        requires
            self@.attempts + lines.len() <= u64::MAX,
        ensures
            report.0@ == signals_of(self@, lines.deep_view()),
            report.1 == outcome_of(input_closed(after_lines(self@, lines.deep_view()))),
    {
        let ghost script = lines.deep_view();
        let mut round = self;
        let mut signals: Vec<Signal> = Vec::new();
        let mut read: usize = 0;
        assert(script.skip(0) =~= script);
        while read < lines.len() && round.is_awaiting()
            invariant
                read <= lines.len(),
                script == lines.deep_view(),
                round@.attempts <= self@.attempts + read,
                self@.attempts + lines.len() <= u64::MAX,
                after_lines(round@, script.skip(read as int)) == after_lines(self@, script),
                signals@ + signals_of(round@, script.skip(read as int)) == signals_of(
                    self@,
                    script,
                ),
            decreases lines.len() - read,
        {
            assert(script.skip(read as int).drop_first() =~= script.skip(read + 1));
            if let Some(signal) = round.offer(lines[read].as_str()) {
                signals.push(signal);
            }
            read = read + 1;
        }
        proof {
            lemma_rest_is_not_read(round@, script.skip(read as int));
        }
        let outcome = round.end_of_input();
        (signals, outcome)
    }
}

/// The number of `lines` that hold a number.
pub open spec fn guesses_in(lines: Seq<Seq<char>>) -> nat
    decreases lines.len(),
{
    if lines.len() == 0 {
        0
    } else if parsed_number(lines.first()) is Some {
        1 + guesses_in(lines.drop_first())
    } else {
        guesses_in(lines.drop_first())
    }
}

/// A line that holds no number is passed over: the round stays as it is and
/// nothing is shown.
pub proof fn lemma_malformed_line_is_passed_over(state: RoundState, line: Seq<char>)
    requires
        parsed_number(line) is None,
    ensures
        answer(state, line) == (state, None::<Signal>),
{
}

/// A line that holds a number, read by a round that waits, is one attempt,
/// whatever the number.
pub proof fn lemma_guess_is_one_attempt(state: RoundState, line: Seq<char>)
    requires
        state.phase == Phase::Awaiting,
        parsed_number(line) is Some,
    ensures
        answer(state, line).0.attempts == state.attempts + 1,
        answer(state, line).1 is Some,
        answer(state, line).0.phase == Phase::Done <==> parsed_number(line) == Some(state.secret),
{
}

/// Whatever is read, the secret and its range stay what they were, and the
/// attempts never exceed the lines that hold a number.
pub proof fn lemma_secret_stays(state: RoundState, lines: Seq<Seq<char>>)
    ensures
        after_lines(state, lines).secret == state.secret,
        after_lines(state, lines).range == state.range,
        state.attempts <= after_lines(state, lines).attempts <= state.attempts + guesses_in(lines),
    decreases lines.len(),
{
    if lines.len() > 0 {
        lemma_secret_stays(answer(state, lines.first()).0, lines.drop_first());
    }
}

/// As long as no line before the last names the secret, the attempts grow by
/// the number of lines that hold a number, and by nothing else. The round is
/// done exactly if the last line names the secret: then it has taken as many
/// attempts as there were well-formed lines, and that is its result when the
/// input ends. Otherwise it still waits, and fails when the input ends.
pub proof fn lemma_attempts_count_the_guesses(state: RoundState, lines: Seq<Seq<char>>)
    requires
        state.phase == Phase::Awaiting,
        forall|i: int|
            0 <= i < lines.len() - 1 ==> parsed_number(#[trigger] lines[i]) != Some(state.secret),
    ensures
        after_lines(state, lines).attempts == state.attempts + guesses_in(lines),
        after_lines(state, lines).phase == Phase::Done <==> lines.len() > 0 && parsed_number(
            lines.last(),
        ) == Some(state.secret),
        after_lines(state, lines).phase != Phase::Done ==> after_lines(state, lines).phase
            == Phase::Awaiting,
        after_lines(state, lines).phase == Phase::Done ==> outcome_of(
            input_closed(after_lines(state, lines)),
        ) == Ok::<RoundResult, GameError>(
            (RoundResult { attempts: (state.attempts + guesses_in(lines)) as u64 }),
        ),
        after_lines(state, lines).phase != Phase::Done ==> outcome_of(
            input_closed(after_lines(state, lines)),
        ) == Err::<RoundResult, GameError>(GameError::EndOfInput),
    decreases lines.len(),
{
    if lines.len() > 1 {
        lemma_attempts_count_the_guesses(answer(state, lines.first()).0, lines.drop_first());
    } else if lines.len() == 1 {
        assert(after_lines(answer(state, lines.first()).0, lines.drop_first()) == answer(
            state,
            lines.first(),
        ).0);
        assert(guesses_in(lines.drop_first()) == 0);
    }
}

/// Something is shown for every attempt and for nothing else. A round that
/// is won over `lines` shows the win last, with the secret as the guess and
/// with the attempts that its result holds.
pub proof fn lemma_one_signal_per_attempt(state: RoundState, lines: Seq<Seq<char>>)
    requires
        state.attempts + lines.len() <= u64::MAX,
    ensures
        signals_of(state, lines).len() == after_lines(state, lines).attempts - state.attempts,
        state.phase == Phase::Awaiting && after_lines(state, lines).phase == Phase::Done
            ==> signals_of(state, lines).len() > 0,
        state.phase == Phase::Awaiting && after_lines(state, lines).phase == Phase::Done
            ==> signals_of(state, lines).last() == (Signal::Win {
            guess: state.secret,
            attempts: after_lines(state, lines).attempts as u64,
        }),
    decreases lines.len(),
{
    if lines.len() > 0 {
        let next = answer(state, lines.first()).0;
        lemma_one_signal_per_attempt(next, lines.drop_first());
        if next.phase != Phase::Awaiting {
            lemma_rest_is_not_read(next, lines.drop_first());
        }
    }
}

/// A round that does not wait, and one that is given no line, stays as it is
/// and shows nothing.
pub proof fn lemma_rest_is_not_read(state: RoundState, lines: Seq<Seq<char>>)
    requires
        state.phase != Phase::Awaiting || lines.len() == 0,
    ensures
        after_lines(state, lines) == state,
        signals_of(state, lines) == Seq::<Signal>::empty(),
    decreases lines.len(),
{
    if lines.len() > 0 {
        lemma_rest_is_not_read(state, lines.drop_first());
    }
}

} // verus!
