//! The session itself: a state, and one step for each line of input.

use vstd::prelude::*;
use crate::guessing_game::parse::{guess_of, parse_guess};
use crate::guessing_game::secret::draw_uniform;

verus! {

/// The smallest secret a session can hold.
pub const SECRET_MIN: u32 = 1;

/// The largest secret a session can hold.
pub const SECRET_MAX: u32 = 100;

/// How a guess stands to the secret.
#[derive(Clone, Copy, Debug, PartialEq, Eq, Structural)]
pub enum Outcome {
    /// The guess is below the secret: too low.
    Less,
    /// The guess is above the secret: too high.
    Greater,
    /// The guess is the secret.
    Equal,
}

/// What a session answers to one line of input.
#[derive(Clone, Copy, Debug, PartialEq, Eq, Structural)]
pub enum Reply {
    /// The line holds no number; the player is asked for one.
    NotANumber,
    /// The line holds `guess`, which is echoed, and `outcome` tells how it
    /// stands to the secret.
    Guessed { guess: u32, outcome: Outcome },
}

/// Where a session stands.
#[derive(Clone, Copy, Debug, PartialEq, Eq, Structural)]
pub enum Phase {
    /// The secret has not been guessed yet.
    AwaitingGuess,
    /// The secret has been guessed; nothing follows.
    Finished,
}

/// How `guess` stands to `secret`.
pub open spec fn outcome_of(guess: u32, secret: u32) -> Outcome {
    if guess < secret {
        Outcome::Less
    } else if guess > secret {
        Outcome::Greater
    } else {
        Outcome::Equal
    }
}

/// The reply that a line gets while `secret` is still to be guessed. Any
/// number is a guess, also one outside the range of the secrets.
pub open spec fn reply_to(secret: u32, line: Seq<char>) -> Reply {
    match guess_of(line) {
        None => Reply::NotANumber,
        Some(guess) => Reply::Guessed { guess, outcome: outcome_of(guess, secret) },
    }
}

/// Whether `line` holds exactly the secret.
pub open spec fn hits(secret: u32, line: Seq<char>) -> bool {
    guess_of(line) == Some(secret)
}

/// A session as contracts see it.
pub struct SessionState {
    pub secret: u32,
    pub phase: Phase,
}

impl SessionState {
    /// Whether the secret lies in the range it is drawn from.
    pub open spec fn valid(self) -> bool {
        SECRET_MIN <= self.secret <= SECRET_MAX
    }

    /// A session that has just begun.
    pub open spec fn begin(secret: u32) -> SessionState {
        SessionState { secret, phase: Phase::AwaitingGuess }
    }

    /// The reply to `line`; a finished session gives none.
    pub open spec fn reply(self, line: Seq<char>) -> Option<Reply> {
        match self.phase {
            Phase::AwaitingGuess => Some(reply_to(self.secret, line)),
            Phase::Finished => None,
        }
    }

    /// The session after `line`: finished once the line hits the secret,
    /// unchanged by every other line.
    pub open spec fn next(self, line: Seq<char>) -> SessionState {
        if self.phase is AwaitingGuess && hits(self.secret, line) {
            SessionState { secret: self.secret, phase: Phase::Finished }
        } else {
            self
        }
    }

    /// The session after all of `lines`, taken in order.
    pub open spec fn run(self, lines: Seq<Seq<char>>) -> SessionState
        decreases lines.len(),
    {
        if lines.len() == 0 {
            self
        } else {
            self.run(lines.drop_last()).next(lines.last())
        }
    }

    /// The replies to `lines`, one for each line, in order.
    pub open spec fn replies(self, lines: Seq<Seq<char>>) -> Seq<Option<Reply>> {
        Seq::new(lines.len(), |i: int| self.run(lines.take(i)).reply(lines[i]))
    }
}

/// Compares a guess with the secret.
pub fn compare(guess: u32, secret: u32) -> (outcome: Outcome)
    ensures
        outcome == outcome_of(guess, secret),
{
    if guess < secret {
        Outcome::Less
    } else if guess > secret {
        Outcome::Greater
    } else {
        Outcome::Equal
    }
}

/// Answers one line of input against `secret`.
pub fn respond(secret: u32, line: &str) -> (reply: Reply)
    ensures
        reply == reply_to(secret, line@),
{
    match parse_guess(line) {
        None => Reply::NotANumber,
        Some(guess) => Reply::Guessed { guess, outcome: compare(guess, secret) },
    }
}

/// One game: a secret that never changes, and whether it has been guessed.
#[derive(Debug)]
pub struct Session {
    secret: u32,
    phase: Phase,
}

impl View for Session {
    type V = SessionState;

    closed spec fn view(&self) -> SessionState {
        SessionState { secret: self.secret, phase: self.phase }
    }
}

impl Session {
    #[verifier::type_invariant]
    spec fn secret_in_range(&self) -> bool {
        SECRET_MIN <= self.secret <= SECRET_MAX
    }

    /// Begins a session on a given secret, if it is one a session can hold.
    pub fn with_secret(secret: u32) -> (session: Option<Session>)
        ensures
            session is Some <==> SECRET_MIN <= secret <= SECRET_MAX,
            session matches Some(s) ==> s@ == SessionState::begin(secret),
    {
        if SECRET_MIN <= secret && secret <= SECRET_MAX {
            Some(Session { secret, phase: Phase::AwaitingGuess })
        } else {
            None
        }
    }

    /// Begins a session on a secret drawn at random between [`SECRET_MIN`]
    /// and [`SECRET_MAX`].
    pub fn start() -> (session: Session)
        ensures
            session@.valid(),
            session@.phase is AwaitingGuess,
    {
        let secret = draw_uniform(SECRET_MIN, SECRET_MAX);
        Session { secret, phase: Phase::AwaitingGuess }
    }

    /// The secret.
    pub fn secret(&self) -> (secret: u32)
        ensures
            secret == self@.secret,
            self@.valid(),
    {
        proof {
            use_type_invariant(self);
        }
        self.secret
    }

    /// Where the session stands.
    pub fn phase(&self) -> (phase: Phase)
        ensures
            phase == self@.phase,
    {
        self.phase
    }

    /// Whether the secret has been guessed.
    pub fn is_finished(&self) -> (finished: bool)
        ensures
            finished == (self@.phase is Finished),
    {
        match self.phase {
            Phase::Finished => true,
            Phase::AwaitingGuess => false,
        }
    }

    /// Takes one line of input and answers it.
    ///
    /// While the secret is to be guessed, every line gets a reply: a line
    /// without a number is told so, a number is echoed and compared. Only a
    /// number equal to the secret ends the session; after any other line the
    /// session is what it was. A finished session gives no reply and stays
    /// finished.
    pub fn submit(&mut self, line: &str) -> (reply: Option<Reply>)
        ensures
            reply == old(self)@.reply(line@),
            final(self)@ == old(self)@.next(line@),
            final(self)@.secret == old(self)@.secret,
            old(self)@.phase is Finished ==> reply is None && final(self)@ == old(self)@,
            old(self)@.phase is AwaitingGuess ==> match guess_of(line@) {
                None => reply == Some(Reply::NotANumber) && final(self)@ == old(self)@,
                Some(guess) => if guess < old(self)@.secret {
                    reply == Some(Reply::Guessed { guess, outcome: Outcome::Less })
                        && final(self)@ == old(self)@
                } else if guess > old(self)@.secret {
                    reply == Some(Reply::Guessed { guess, outcome: Outcome::Greater })
                        && final(self)@ == old(self)@
                } else {
                    reply == Some(Reply::Guessed { guess, outcome: Outcome::Equal })
                        && final(self)@.phase is Finished
                },
            },
    {
        proof {
            use_type_invariant(&*self);
        }
        match self.phase {
            Phase::Finished => None,
            Phase::AwaitingGuess => {
                let reply = respond(self.secret, line);
                match reply {
                    Reply::Guessed { guess: _, outcome: Outcome::Equal } => {
                        self.phase = Phase::Finished;
                    },
                    _ => {},
                }
                Some(reply)
            },
        }
    }

    /// Takes `lines` one after the other, as [`Session::submit`] does, and
    /// returns the reply to each: `None` for every line that comes after
    /// the one that hit the secret.
    pub fn submit_all(&mut self, lines: &Vec<String>) -> (replies: Vec<Option<Reply>>)
        ensures
            replies@ == old(self)@.replies(lines.deep_view()),
            final(self)@ == old(self)@.run(lines.deep_view()),
            final(self)@.secret == old(self)@.secret,
    {
        let ghost begun = self@;
        let ghost texts = lines.deep_view();
        proof {
            lemma_run_keeps_secret(begun, texts);
        }
        let mut replies: Vec<Option<Reply>> = Vec::new();
        let mut i: usize = 0;
        assert(texts.take(0) == Seq::<Seq<char>>::empty());
        while i < lines.len()
            invariant
                i <= lines.len(),
                texts == lines.deep_view(),
                self@ == begun.run(texts.take(i as int)),
                replies@ == begun.replies(texts).take(i as int),
            decreases lines.len() - i,
        {
            assert(texts[i as int] == lines[i as int]@);
            assert(texts.take(i + 1).drop_last() == texts.take(i as int));
            let reply = self.submit(lines[i].as_str());
            replies.push(reply);
            i += 1;
        }
        assert(texts.take(i as int) == texts);
        replies
    }
}

/// No line changes the secret, and none changes a finished session at all.
pub proof fn lemma_run_keeps_secret(state: SessionState, lines: Seq<Seq<char>>)
    ensures
        state.run(lines).secret == state.secret,
        state.phase is Finished ==> state.run(lines) == state,
    decreases lines.len(),
{
    if lines.len() > 0 {
        lemma_run_keeps_secret(state, lines.drop_last());
    }
}

/// A session that awaits a guess has ended after `lines` exactly if one of
/// them hit the secret; so it has ended after lines that end in the secret.
pub proof fn lemma_finished_iff_hit(state: SessionState, lines: Seq<Seq<char>>)
    requires
        state.phase is AwaitingGuess,
    ensures
        state.run(lines).phase is Finished <==> exists|i: int|
            0 <= i < lines.len() && hits(state.secret, #[trigger] lines[i]),
        lines.len() > 0 && hits(state.secret, lines.last()) ==> state.run(lines).phase is Finished,
    decreases lines.len(),
{
    if lines.len() > 0 {
        let before = lines.drop_last();
        lemma_finished_iff_hit(state, before);
        lemma_run_keeps_secret(state, before);
        if state.run(before).phase is Finished {
            let i = choose|i: int| 0 <= i < before.len() && hits(state.secret, #[trigger] before[i]);
            assert(hits(state.secret, lines[i]));
        } else if hits(state.secret, lines.last()) {
            assert(hits(state.secret, lines[lines.len() - 1]));
        } else {
            assert forall|i: int| 0 <= i < lines.len() implies !hits(
                state.secret,
                #[trigger] lines[i],
            ) by {
                if i < before.len() {
                    assert(lines[i] == before[i]);
                }
            }
        }
    }
}

/// A session ends with the first line that hits the secret and not before:
/// it still awaits a guess when that line comes, answers it with the secret
/// and `Equal`, is finished from then on and gives no further reply.
pub proof fn lemma_ends_at_first_hit(secret: u32, lines: Seq<Seq<char>>, first: int)
    requires
        0 <= first < lines.len(),
        hits(secret, lines[first]),
        forall|i: int| 0 <= i < first ==> !hits(secret, #[trigger] lines[i]),
    ensures
        forall|k: int|
            0 <= k <= first ==> (#[trigger] SessionState::begin(secret).run(
                lines.take(k),
            )).phase is AwaitingGuess,
        forall|k: int|
            first < k <= lines.len() ==> (#[trigger] SessionState::begin(secret).run(
                lines.take(k),
            )).phase is Finished,
        SessionState::begin(secret).replies(lines)[first] == Some(
            Reply::Guessed { guess: secret, outcome: Outcome::Equal },
        ),
        forall|k: int|
            first < k < lines.len() ==> (#[trigger] SessionState::begin(secret).replies(
                lines,
            )[k]) is None,
{
    let state = SessionState::begin(secret);
    assert forall|k: int| 0 <= k <= lines.len() implies {
        &&& (#[trigger] state.run(lines.take(k))).secret == secret
        &&& state.run(lines.take(k)).phase is Finished <==> first < k
    } by {
        lemma_run_keeps_secret(state, lines.take(k));
        lemma_finished_iff_hit(state, lines.take(k));
        if first < k {
            assert(hits(secret, lines.take(k)[first]));
        }
    }
    assert(state.run(lines.take(first)).reply(lines[first]) == Some(
        Reply::Guessed { guess: secret, outcome: Outcome::Equal },
    ));
}

/// A line that does not hit the secret, a wrong number or no number at all,
/// leaves the session as it was: given again, it gets the same reply again.
pub proof fn lemma_miss_repeats(state: SessionState, line: Seq<char>)
    requires
        !hits(state.secret, line),
    ensures
        state.next(line) == state,
        state.next(line).reply(line) == state.reply(line),
        state.run(seq![line, line]) == state,
        state.replies(seq![line, line]) == seq![state.reply(line), state.reply(line)],
{
    let twice = seq![line, line];
    assert(twice.drop_last() == seq![line]);
    assert(seq![line].drop_last() == Seq::<Seq<char>>::empty());
    assert(twice.take(1) == seq![line]);
    assert(twice.take(0) == Seq::<Seq<char>>::empty());
    assert(state.run(Seq::<Seq<char>>::empty()) == state);
    assert(state.run(seq![line]) == state);
    assert(state.run(twice) == state);
}

} // verus!
