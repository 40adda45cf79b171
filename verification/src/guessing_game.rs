//! A number-guessing session: a secret between 1 and 100, lines of text that
//! are read as guesses, and a reply to each line until one of them hits.

pub mod parse;
pub mod secret;
pub mod session;

pub use parse::parse_guess;
pub use session::{compare, respond, Outcome, Phase, Reply, Session, SECRET_MAX, SECRET_MIN};
