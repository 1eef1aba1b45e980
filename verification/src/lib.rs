//! Two small number games, verified with Verus.
//!
//! * [`sequence`] computes terms of the additive recurrence 1, 1, 2, 3, 5, 8, ...
//! * [`round`] is a guessing round: a secret number is drawn from a closed
//!   range and every line of input is answered until the secret is named.
//! * [`number`] reads an unsigned number from a line of text, for both.
//!
//! The library never reads or prints anything. A caller hands it lines of text
//! and receives plain values to render.

pub mod error;
pub mod number;
mod random;
pub mod round;
pub mod sequence;
