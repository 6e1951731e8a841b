//! Bringing the sensor up: a reset, then the seven calibration words, then the
//! integrity check.
//!
//! [`Startup`] decides; the caller performs each transaction it names and
//! reports how it ended. A startup that meets no failure takes eight
//! transactions.

use vstd::prelude::*;
use crate::bus::{be_word, prom_read, prom_read_command, word_value, Reply, Request, Step, RESET};
use crate::checksum::intact;
use crate::compensation::CalibrationSet;
use crate::sensor::{coefficients_of, Ms5837_02ba};

verus! {

/// Why a startup failed.
#[derive(Debug, PartialEq, Eq)]
pub enum InitError<E> {
    /// The bus reported a failure. The number is the position of the failed
    /// transaction in the startup sequence: 0 for the reset, `n + 1` for the
    /// read of calibration word `n`.
    Bus(E, usize),
    /// Every transaction went through, but the calibration block does not
    /// carry the checksum of its contents.
    ChecksumMismatch,
}

/// How far a startup has come.
pub struct StartupState {
    /// Number of transactions that ended well so far.
    pub completed: nat,
    /// The calibration block as far as it has been read; the rest is zero.
    pub words: Seq<u16>,
}

/// What a startup ends with, over the calibration set in place of the sensor
/// that holds it.
pub type StartupOutcome<E> = Result<CalibrationSet, InitError<E>>;

/// What the integrity check makes of a complete block.
pub open spec fn verdict<E>(block: Seq<u16>) -> StartupOutcome<E> {
    if intact(block) {
        Ok(coefficients_of(block))
    } else {
        Err(InitError::ChecksumMismatch)
    }
}

/// The calibration block that a full script of replies delivers: word `n`
/// from reply `n + 1`, and zero for word 7, which the device does not have.
pub open spec fn block_from<E>(replies: Seq<Reply<E>>) -> Seq<u16> {
    Seq::new(
        8,
        |i: int|
            if 0 <= i < 7 {
                word_value(replies[i + 1]->Ok_0@)
            } else {
                0u16
            },
    )
}

impl StartupState {
    /// States that a startup can reach.
    pub open spec fn wf(self) -> bool {
        self.completed <= 7 && self.words.len() == 8
    }

    /// The state before the first transaction.
    pub open spec fn initial() -> StartupState {
        StartupState { completed: 0, words: Seq::new(8, |i: int| 0u16) }
    }

    /// The transaction to perform next.
    pub open spec fn request(self) -> Request {
        if self.completed == 0 {
            Request::Write(RESET)
        } else {
            Request::WriteRead(prom_read_command(self.completed - 1))
        }
    }

    /// The step taken when the pending transaction ends with `reply`.
    pub open spec fn next<E>(self, reply: Reply<E>) -> Step<StartupState, StartupOutcome<E>> {
        match reply {
            Err(error) => Step::Done(Err(InitError::Bus(error, self.completed as usize))),
            Ok(bytes) => {
                if self.completed == 0 {
                    Step::Next(StartupState { completed: 1, words: self.words })
                } else {
                    let words = self.words.update(self.completed - 1, word_value(bytes@));
                    if self.completed < 7 {
                        Step::Next(StartupState { completed: self.completed + 1, words })
                    } else {
                        Step::Done(verdict(words))
                    }
                }
            },
        }
    }

    /// Where the startup stands after a script of replies, each answering the
    /// transaction that was pending when it came. Replies past the end of the
    /// startup are not looked at.
    pub open spec fn run<E>(self, replies: Seq<Reply<E>>) -> Step<StartupState, StartupOutcome<E>>
        decreases replies.len(),
    {
        if replies.len() == 0 {
            Step::Next(self)
        } else {
            match self.next(replies[0]) {
                Step::Next(state) => state.run(replies.skip(1)),
                Step::Done(outcome) => Step::Done(outcome),
            }
        }
    }
}

/// A startup in progress.
#[derive(Debug)]
pub struct Startup {
    completed: u8,
    prom: [u16; 8],
}

impl View for Startup {
    type V = StartupState;

    closed spec fn view(&self) -> StartupState {
        StartupState { completed: self.completed as nat, words: self.prom@ }
    }
}

impl Startup {
    #[verifier::type_invariant]
    spec fn in_sequence(self) -> bool {
        self.completed <= 7
    }

    /// A fresh startup. Its first request is the reset.
    pub fn begin() -> (startup: Startup)
        ensures
            startup@ == StartupState::initial(),
    {
        let startup = Startup { completed: 0, prom: [0u16; 8] };
        assert(startup.prom@ =~= StartupState::initial().words);
        startup
    }

    /// The transaction to perform next.
    pub fn request(&self) -> (request: Request)
        ensures
            self@.wf(),
            request == self@.request(),
    {
        proof {
            use_type_invariant(self);
        }
        if self.completed == 0 {
            Request::Write(RESET)
        } else {
            Request::WriteRead(prom_read(self.completed - 1))
        }
    }

    /// Takes in how the pending transaction ended.
    ///
    /// A failure of the bus ends the startup with the transport's error and
    /// the position of the failed transaction. Otherwise the startup goes on
    /// to the next transaction, until calibration word 6 has arrived: then
    /// the block is checked, and the startup ends with the sensor or with
    /// [`InitError::ChecksumMismatch`].
    pub fn advance<E>(self, reply: Reply<E>) -> (step: Step<
        Startup,
        Result<Ms5837_02ba, InitError<E>>,
    >)
        ensures
            self@.wf(),
            match self@.next(reply) {
                Step::Next(state) => step matches Step::Next(next) && next@ == state && state.wf(),
                Step::Done(Ok(calibration)) => step matches Step::Done(Ok(sensor)) && sensor@
                    == calibration,
                Step::Done(Err(error)) => step matches Step::Done(Err(e)) && e == error,
            },
    {
        proof {
            use_type_invariant(&self);
        }
        match reply {
            Err(error) => Step::Done(Err(InitError::Bus(error, self.completed as usize))),
            Ok(bytes) => {
                if self.completed == 0 {
                    Step::Next(Startup { completed: 1, prom: self.prom })
                } else {
                    let mut prom: [u16; 8] = self.prom;
                    prom[(self.completed - 1) as usize] = be_word(&bytes);
                    if self.completed < 7 {
                        Step::Next(Startup { completed: self.completed + 1, prom })
                    } else {
                        match Ms5837_02ba::new(prom) {
                            Ok(sensor) => Step::Done(Ok(sensor)),
                            Err(_) => Step::Done(Err(InitError::ChecksumMismatch)),
                        }
                    }
                }
            },
        }
    }
}

proof fn lemma_run_reads_block<E>(state: StartupState, script: Seq<Reply<E>>, done: nat)
    requires
        script.len() == 8,
        forall|i: int| 0 <= i < 8 ==> script[i] is Ok,
        done <= 7,
        state.completed == done,
        state.words.len() == 8,
        forall|i: int| 0 <= i < done - 1 ==> state.words[i] == block_from(script)[i],
        forall|i: int| 0 <= i < 8 && done - 1 <= i ==> state.words[i] == 0,
    ensures
        state.run(script.skip(done as int)) == Step::<StartupState, StartupOutcome<E>>::Done(
            verdict(block_from(script)),
        ),
    decreases 8 - done,
{
    let rest = script.skip(done as int);
    assert(rest.len() == 8 - done);
    assert(rest[0] == script[done as int]);
    let bytes = script[done as int]->Ok_0;
    if done == 0 {
        let after = StartupState { completed: 1, words: state.words };
        assert(state.next(rest[0]) == Step::<StartupState, StartupOutcome<E>>::Next(after));
        assert(rest.skip(1) =~= script.skip(1));
        lemma_run_reads_block(after, script, 1);
    } else {
        let words = state.words.update(done - 1, word_value(bytes@));
        if done < 7 {
            let after = StartupState { completed: done + 1, words };
            assert(state.next(rest[0]) == Step::<StartupState, StartupOutcome<E>>::Next(after));
            assert(rest.skip(1) =~= script.skip(done as int + 1));
            lemma_run_reads_block(after, script, done + 1);
        } else {
            assert(words =~= block_from(script));
        }
    }
}

proof fn lemma_run_stops_at_failure<E>(
    state: StartupState,
    script: Seq<Reply<E>>,
    done: nat,
    failed: nat,
)
    requires
        failed <= 7,
        failed < script.len(),
        forall|i: int| 0 <= i < failed ==> script[i] is Ok,
        script[failed as int] is Err,
        done <= failed,
        state.completed == done,
    ensures
        state.run(script.skip(done as int)) == Step::<StartupState, StartupOutcome<E>>::Done(
            Err(InitError::Bus(script[failed as int]->Err_0, failed as usize)),
        ),
    decreases failed - done,
{
    let rest = script.skip(done as int);
    assert(rest[0] == script[done as int]);
    if done < failed {
        let after = state.next(rest[0])->Next_0;
        assert(after.completed == done + 1);
        assert(rest.skip(1) =~= script.skip(done as int + 1));
        lemma_run_stops_at_failure(after, script, done + 1, failed);
    }
}

proof fn lemma_run_goes_on<E>(state: StartupState, script: Seq<Reply<E>>, done: nat)
    requires
        script.len() <= 7,
        forall|i: int| 0 <= i < script.len() ==> script[i] is Ok,
        done <= script.len(),
        state.completed == done,
        state.words.len() == 8,
    ensures
        state.run(script.skip(done as int)) matches Step::Next(after) && after.completed
            == script.len() && after.wf(),
    decreases script.len() - done,
{
    let rest = script.skip(done as int);
    if done < script.len() {
        assert(rest[0] == script[done as int]);
        let after = state.next(rest[0])->Next_0;
        assert(after.completed == done + 1);
        assert(rest.skip(1) =~= script.skip(done as int + 1));
        lemma_run_goes_on(after, script, done + 1);
    }
}

/// While nothing fails, the startup asks for the reset first and then for
/// the calibration words in order, word `n` with the command `0xA0 + 2 * n`:
/// after `k` good transactions, `k` at most 7, it is not over, and its next
/// request is the one with position `k`.
pub proof fn lemma_startup_requests<E>(script: Seq<Reply<E>>)
    requires
        script.len() <= 7,
        forall|i: int| 0 <= i < script.len() ==> script[i] is Ok,
    ensures
        StartupState::initial().run(script) matches Step::Next(state) && state.wf()
            && state.completed == script.len() && state.request() == (if script.len() == 0 {
            Request::Write(0x1E)
        } else {
            Request::WriteRead((0xA0 + 2 * (script.len() - 1)) as u8)
        }),
{
    assert(script.skip(0) =~= script);
    lemma_run_goes_on(StartupState::initial(), script, 0);
}

/// A startup that meets no bus failure is over with the eighth transaction,
/// and its outcome is the verdict of the integrity check on the block that
/// the replies delivered: the calibration set of an intact block, and
/// `ChecksumMismatch` for any other, never success and never a bus error.
pub proof fn lemma_startup_outcome<E>(script: Seq<Reply<E>>)
    requires
        script.len() == 8,
        forall|i: int| 0 <= i < 8 ==> script[i] is Ok,
    ensures
        StartupState::initial().run(script) == Step::<StartupState, StartupOutcome<E>>::Done(
            verdict(block_from(script)),
        ),
        intact(block_from(script)) ==> StartupState::initial().run(script) == Step::<
            StartupState,
            StartupOutcome<E>,
        >::Done(Ok(coefficients_of(block_from(script)))),
        !intact(block_from(script)) ==> StartupState::initial().run(script) == Step::<
            StartupState,
            StartupOutcome<E>,
        >::Done(Err(InitError::ChecksumMismatch)),
{
    assert(script.skip(0) =~= script);
    lemma_run_reads_block(StartupState::initial(), script, 0);
}

/// The first bus failure ends the startup at once, with the transport's
/// error and the position of the transaction that failed; nothing is tried
/// again.
pub proof fn lemma_startup_stops_at_first_failure<E>(script: Seq<Reply<E>>, failed: nat)
    requires
        failed <= 7,
        failed < script.len(),
        forall|i: int| 0 <= i < failed ==> script[i] is Ok,
        script[failed as int] is Err,
    ensures
        StartupState::initial().run(script) == Step::<StartupState, StartupOutcome<E>>::Done(
            Err(InitError::Bus(script[failed as int]->Err_0, failed as usize)),
        ),
{
    assert(script.skip(0) =~= script);
    lemma_run_stops_at_failure(StartupState::initial(), script, 0, failed);
}

} // verus!
