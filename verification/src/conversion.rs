//! Taking one reading: a pressure conversion and a temperature conversion,
//! each started, waited for and read, then the compensation.
//!
//! [`Conversion`] decides; the caller performs each transaction it names and
//! reports how it ended. While a conversion runs, the device refuses the
//! command that selects its result register. The driver repeats that command
//! until it is accepted, and gives the reading up, without an error, when it
//! has been refused [`READ_TIMEOUT_ITER`] times.

use vstd::prelude::*;
use crate::bus::{Reply, Request, Step, ADC_READ, D1_OSR2048, D2_OSR2048, READ_TIMEOUT_ITER};
use crate::compensation::{CalibrationSet, SensorData};
use crate::sensor::{reading, Ms5837_02ba};

verus! {

/// The transaction that a reading waits for.
#[derive(Clone, Copy, Debug, PartialEq, Eq)]
pub enum Phase {
    /// The command that starts the pressure conversion.
    StartPressure,
    /// The command that selects the result register, while the pressure
    /// conversion may still run.
    PollPressure,
    /// The read of the pressure count.
    ReadPressure,
    /// The command that starts the temperature conversion.
    StartTemperature,
    /// The command that selects the result register, while the temperature
    /// conversion may still run.
    PollTemperature,
    /// The read of the temperature count.
    ReadTemperature,
}

/// How far a reading has come.
pub struct ConversionState {
    /// The transaction that is pending.
    pub phase: Phase,
    /// How often the device has refused the pending poll so far.
    pub failed_polls: nat,
    /// The bytes of the pressure count, once they have been read.
    pub pressure: Seq<u8>,
}

/// What a reading ends with: the compensated values, `None` when the device
/// did not get ready in time, or the transport's error with the position of
/// the failed transaction (0 and 3 for the start and the read of the
/// pressure conversion, 4 and 6 for those of the temperature conversion).
pub type ReadOutcome<E> = Result<Option<SensorData>, (E, usize)>;

impl ConversionState {
    /// States that a reading can reach.
    pub open spec fn wf(self) -> bool {
        self.failed_polls < READ_TIMEOUT_ITER
    }

    /// The state before the first transaction.
    pub open spec fn initial() -> ConversionState {
        ConversionState { phase: Phase::StartPressure, failed_polls: 0, pressure: seq![0u8, 0u8, 0u8] }
    }

    /// Whether the pending transaction is a poll.
    pub open spec fn polling(self) -> bool {
        self.phase == Phase::PollPressure || self.phase == Phase::PollTemperature
    }

    /// The state with a new pending transaction and no refused poll.
    pub open spec fn at(self, phase: Phase) -> ConversionState {
        ConversionState { phase, failed_polls: 0, pressure: self.pressure }
    }

    /// The state after `count` more refused polls.
    pub open spec fn refused(self, count: nat) -> ConversionState {
        ConversionState {
            phase: self.phase,
            failed_polls: self.failed_polls + count,
            pressure: self.pressure,
        }
    }

    /// The transaction to perform next.
    pub open spec fn request(self) -> Request {
        match self.phase {
            Phase::StartPressure => Request::Write(D1_OSR2048),
            Phase::PollPressure => Request::Write(ADC_READ),
            Phase::ReadPressure => Request::Read,
            Phase::StartTemperature => Request::Write(D2_OSR2048),
            Phase::PollTemperature => Request::Write(ADC_READ),
            Phase::ReadTemperature => Request::Read,
        }
    }

    /// The step taken when a command that must not fail ends with `reply`:
    /// on to `then`, or out with the error and the position `step`.
    pub open spec fn commanded<E>(self, reply: Reply<E>, then: Phase, step: usize) -> Step<
        ConversionState,
        ReadOutcome<E>,
    > {
        match reply {
            Ok(_) => Step::Next(self.at(then)),
            Err(error) => Step::Done(Err((error, step))),
        }
    }

    /// The step taken when a poll ends with `reply`: on to `then` when the
    /// device accepted it; one more refusal otherwise, which ends the reading
    /// without a result when it is the last one allowed.
    pub open spec fn polled<E>(self, reply: Reply<E>, then: Phase) -> Step<
        ConversionState,
        ReadOutcome<E>,
    > {
        match reply {
            Ok(_) => Step::Next(self.at(then)),
            Err(_) => if self.failed_polls + 1 >= READ_TIMEOUT_ITER {
                Step::Done(Ok(None))
            } else {
                Step::Next(self.refused(1))
            },
        }
    }

    /// The step taken when the pending transaction ends with `reply`.
    pub open spec fn next<E>(self, cal: CalibrationSet, reply: Reply<E>) -> Step<
        ConversionState,
        ReadOutcome<E>,
    > {
        match self.phase {
            Phase::StartPressure => self.commanded(reply, Phase::PollPressure, 0),
            Phase::PollPressure => self.polled(reply, Phase::ReadPressure),
            Phase::ReadPressure => match reply {
                Ok(bytes) => Step::Next(
                    ConversionState {
                        phase: Phase::StartTemperature,
                        failed_polls: 0,
                        pressure: bytes@,
                    },
                ),
                Err(error) => Step::Done(Err((error, 3usize))),
            },
            Phase::StartTemperature => self.commanded(reply, Phase::PollTemperature, 4),
            Phase::PollTemperature => self.polled(reply, Phase::ReadTemperature),
            Phase::ReadTemperature => match reply {
                Ok(bytes) => Step::Done(Ok(Some(reading(cal, self.pressure, bytes@)))),
                Err(error) => Step::Done(Err((error, 6usize))),
            },
        }
    }

    /// Where the reading stands after a script of replies, each answering the
    /// transaction that was pending when it came. Replies past the end of the
    /// reading are not looked at.
    pub open spec fn run<E>(self, cal: CalibrationSet, replies: Seq<Reply<E>>) -> Step<
        ConversionState,
        ReadOutcome<E>,
    >
        decreases replies.len(),
    {
        if replies.len() == 0 {
            Step::Next(self)
        } else {
            match self.next(cal, replies[0]) {
                Step::Next(state) => state.run(cal, replies.skip(1)),
                Step::Done(outcome) => Step::Done(outcome),
            }
        }
    }

    /// The largest number of transactions that the reading can still take.
    pub open spec fn transactions_left(self) -> int {
        match self.phase {
            Phase::StartPressure => 404,
            Phase::PollPressure => 403 - self.failed_polls,
            Phase::ReadPressure => 203,
            Phase::StartTemperature => 202,
            Phase::PollTemperature => 201 - self.failed_polls,
            Phase::ReadTemperature => 1,
        }
    }
}

/// A reading in progress.
#[derive(Debug)]
pub struct Conversion {
    phase: Phase,
    failed_polls: u8,
    pressure: [u8; 3],
}

impl View for Conversion {
    type V = ConversionState;

    closed spec fn view(&self) -> ConversionState {
        ConversionState {
            phase: self.phase,
            failed_polls: self.failed_polls as nat,
            pressure: self.pressure@,
        }
    }
}

impl Conversion {
    #[verifier::type_invariant]
    spec fn within_limit(self) -> bool {
        self.failed_polls < READ_TIMEOUT_ITER
    }

    /// A fresh reading. Its first request starts the pressure conversion.
    pub fn begin() -> (conversion: Conversion)
        ensures
            conversion@ == ConversionState::initial(),
    {
        let conversion = Conversion {
            phase: Phase::StartPressure,
            failed_polls: 0,
            pressure: [0u8, 0u8, 0u8],
        };
        assert(conversion.pressure@ =~= ConversionState::initial().pressure);
        conversion
    }

    /// The transaction to perform next.
    pub fn request(&self) -> (request: Request)
        ensures
            self@.wf(),
            request == self@.request(),
    {
        proof {
            use_type_invariant(self);
        }
        match self.phase {
            Phase::StartPressure => Request::Write(D1_OSR2048),
            Phase::PollPressure | Phase::PollTemperature => Request::Write(ADC_READ),
            Phase::ReadPressure | Phase::ReadTemperature => Request::Read,
            Phase::StartTemperature => Request::Write(D2_OSR2048),
        }
    }

    fn at(self, phase: Phase) -> (conversion: Conversion)
        ensures
            conversion@ == self@.at(phase),
    {
        Conversion { phase, failed_polls: 0, pressure: self.pressure }
    }

    fn commanded<E>(self, reply: Reply<E>, then: Phase, step: usize) -> (taken: Step<
        Conversion,
        ReadOutcome<E>,
    >)
        ensures
            match self@.commanded(reply, then, step) {
                Step::Next(state) => taken matches Step::Next(next) && next@ == state,
                Step::Done(outcome) => taken matches Step::Done(o) && o == outcome,
            },
    {
        match reply {
            Ok(_) => Step::Next(self.at(then)),
            Err(error) => Step::Done(Err((error, step))),
        }
    }

    fn polled<E>(self, reply: Reply<E>, then: Phase) -> (taken: Step<Conversion, ReadOutcome<E>>)
        ensures
            match self@.polled(reply, then) {
                Step::Next(state) => taken matches Step::Next(next) && next@ == state,
                Step::Done(outcome) => taken matches Step::Done(o) && o == outcome,
            },
    {
        proof {
            use_type_invariant(&self);
        }
        match reply {
            Ok(_) => Step::Next(self.at(then)),
            Err(_) => {
                let iteration_count: u8 = self.failed_polls + 1;
                if iteration_count >= READ_TIMEOUT_ITER {
                    Step::Done(Ok(None))
                } else {
                    Step::Next(
                        Conversion {
                            phase: self.phase,
                            failed_polls: iteration_count,
                            pressure: self.pressure,
                        },
                    )
                }
            },
        }
    }

    /// Takes in how the pending transaction ended.
    ///
    /// A failure to start a conversion or to read its result ends the reading
    /// with the transport's error and the position of the failed transaction.
    /// A refused poll is no failure: the poll is repeated, and the reading
    /// ends with `Ok(None)` once it has been refused [`READ_TIMEOUT_ITER`]
    /// times in a row. When the temperature count has arrived, the reading
    /// ends with the values that `sensor` computes from the two counts.
    pub fn advance<E>(self, sensor: &Ms5837_02ba, reply: Reply<E>) -> (step: Step<
        Conversion,
        ReadOutcome<E>,
    >)
        ensures
            self@.wf(),
            match self@.next(sensor@, reply) {
                Step::Next(state) => step matches Step::Next(next) && next@ == state && state.wf(),
                Step::Done(outcome) => step matches Step::Done(o) && o == outcome,
            },
    {
        proof {
            use_type_invariant(&self);
        }
        match self.phase {
            Phase::StartPressure => self.commanded(reply, Phase::PollPressure, 0),
            Phase::PollPressure => self.polled(reply, Phase::ReadPressure),
            Phase::ReadPressure => match reply {
                Ok(bytes) => Step::Next(
                    Conversion { phase: Phase::StartTemperature, failed_polls: 0, pressure: bytes },
                ),
                Err(error) => Step::Done(Err((error, 3))),
            },
            Phase::StartTemperature => self.commanded(reply, Phase::PollTemperature, 4),
            Phase::PollTemperature => self.polled(reply, Phase::ReadTemperature),
            Phase::ReadTemperature => match reply {
                Ok(bytes) => Step::Done(Ok(Some(sensor.read(self.pressure, bytes)))),
                Err(error) => Step::Done(Err((error, 6))),
            },
        }
    }
}

proof fn lemma_run_through_refusals<E>(
    state: ConversionState,
    cal: CalibrationSet,
    script: Seq<Reply<E>>,
    from: int,
    count: nat,
)
    requires
        state.polling(),
        state.failed_polls + count < READ_TIMEOUT_ITER,
        0 <= from,
        from + count <= script.len(),
        forall|i: int| from <= i < from + count ==> script[i] is Err,
    ensures
        state.run(cal, script.skip(from)) == state.refused(count).run(
            cal,
            script.skip(from + count),
        ),
    decreases count,
{
    if count == 0 {
        assert(state.refused(0) == state);
    } else {
        let rest = script.skip(from);
        assert(rest[0] == script[from]);
        assert(state.next(cal, rest[0]) == Step::<ConversionState, ReadOutcome<E>>::Next(
            state.refused(1),
        ));
        assert(rest.skip(1) =~= script.skip(from + 1));
        lemma_run_through_refusals(state.refused(1), cal, script, from + 1, (count - 1) as nat);
        assert(state.refused(1).refused((count - 1) as nat) == state.refused(count));
    }
}

proof fn lemma_run_takes_one<E>(
    state: ConversionState,
    cal: CalibrationSet,
    script: Seq<Reply<E>>,
    from: int,
)
    requires
        0 <= from < script.len(),
    ensures
        state.run(cal, script.skip(from)) == match state.next(cal, script[from]) {
            Step::Next(after) => after.run(cal, script.skip(from + 1)),
            Step::Done(outcome) => Step::Done(outcome),
        },
{
    let rest = script.skip(from);
    assert(rest[0] == script[from]);
    assert(rest.skip(1) =~= script.skip(from + 1));
}

/// A poll that the device refuses every time is repeated until it has been
/// refused 200 times, no fewer and no more: after 199 refusals in a row the
/// reading still waits, at the 200th it ends, and it ends with `Ok(None)`,
/// not with an error.
pub proof fn lemma_poll_gives_up_at_200<E>(
    state: ConversionState,
    cal: CalibrationSet,
    script: Seq<Reply<E>>,
)
    requires
        state.polling(),
        state.failed_polls == 0,
        script.len() <= 200,
        forall|i: int| 0 <= i < script.len() ==> script[i] is Err,
    ensures
        script.len() < 200 ==> state.run(cal, script) == Step::<
            ConversionState,
            ReadOutcome<E>,
        >::Next(state.refused(script.len())),
        script.len() == 200 ==> state.run(cal, script) == Step::<
            ConversionState,
            ReadOutcome<E>,
        >::Done(Ok(None)),
{
    assert(script.skip(0) =~= script);
    if script.len() < 200 {
        lemma_run_through_refusals(state, cal, script, 0, script.len());
        assert(script.skip(script.len() as int).len() == 0);
    } else {
        lemma_run_through_refusals(state, cal, script, 0, 199);
        lemma_run_takes_one(state.refused(199), cal, script, 199);
    }
}

/// A refused poll never turns into a bus error, however often it happens.
pub proof fn lemma_refused_poll_is_no_error<E>(
    state: ConversionState,
    cal: CalibrationSet,
    reply: Reply<E>,
)
    requires
        state.polling(),
    ensures
        !(state.next(cal, reply) matches Step::Done(Err(_))),
{
}

/// A bus failure outside a poll is never swallowed: it ends the reading at
/// once, with the transport's error.
pub proof fn lemma_failure_ends_reading<E>(state: ConversionState, cal: CalibrationSet, error: E)
    requires
        !state.polling(),
    ensures
        state.next(cal, Err::<[u8; 3], E>(error)) matches Step::Done(Err(failure)) && failure.0
            == error && failure.1 == (match state.phase {
            Phase::StartPressure => 0usize,
            Phase::ReadPressure => 3usize,
            Phase::StartTemperature => 4usize,
            _ => 6usize,
        }),
{
}

/// The reading that meets no bus failure and whose polls are accepted in
/// time: the pressure poll after `waited_pressure` refusals, the temperature
/// poll after `waited_temperature` refusals, both under 200. It ends with the
/// last transaction of the script, and with the values that the compensation
/// formulas give for the two counts that were read.
pub proof fn lemma_read_outcome<E>(
    cal: CalibrationSet,
    script: Seq<Reply<E>>,
    waited_pressure: int,
    waited_temperature: int,
)
    requires
        0 <= waited_pressure < 200,
        0 <= waited_temperature < 200,
        script.len() == waited_pressure + waited_temperature + 6,
        script[0] is Ok,
        forall|i: int| 1 <= i <= waited_pressure ==> script[i] is Err,
        script[waited_pressure + 1] is Ok,
        script[waited_pressure + 2] is Ok,
        script[waited_pressure + 3] is Ok,
        forall|i: int|
            waited_pressure + 4 <= i < waited_pressure + 4 + waited_temperature
                ==> script[i] is Err,
        script[waited_pressure + waited_temperature + 4] is Ok,
        script[waited_pressure + waited_temperature + 5] is Ok,
    ensures
        ConversionState::initial().run(cal, script) == Step::<
            ConversionState,
            ReadOutcome<E>,
        >::Done(
            Ok(
                Some(
                    reading(
                        cal,
                        script[waited_pressure + 2]->Ok_0@,
                        script[waited_pressure + waited_temperature + 5]->Ok_0@,
                    ),
                ),
            ),
        ),
{
    let a = waited_pressure;
    let b = waited_temperature;
    let waited_pressure = a as nat;
    let waited_temperature = b as nat;
    let start = ConversionState::initial();
    assert(script.skip(0) =~= script);
    lemma_run_takes_one(start, cal, script, 0);
    let poll_pressure = start.at(Phase::PollPressure);
    lemma_run_through_refusals(poll_pressure, cal, script, 1, waited_pressure);
    lemma_run_takes_one(poll_pressure.refused(waited_pressure), cal, script, a + 1);
    let read_pressure = poll_pressure.refused(waited_pressure).at(Phase::ReadPressure);
    lemma_run_takes_one(read_pressure, cal, script, a + 2);
    let start_temperature = ConversionState {
        phase: Phase::StartTemperature,
        failed_polls: 0,
        pressure: script[a + 2]->Ok_0@,
    };
    lemma_run_takes_one(start_temperature, cal, script, a + 3);
    let poll_temperature = start_temperature.at(Phase::PollTemperature);
    lemma_run_through_refusals(poll_temperature, cal, script, a + 4, waited_temperature);
    lemma_run_takes_one(poll_temperature.refused(waited_temperature), cal, script, a + b + 4);
    let read_temperature = poll_temperature.refused(waited_temperature).at(Phase::ReadTemperature);
    lemma_run_takes_one(read_temperature, cal, script, a + b + 5);
}

/// Every transaction brings the end of the reading closer.
pub proof fn lemma_step_makes_progress<E>(
    state: ConversionState,
    cal: CalibrationSet,
    reply: Reply<E>,
)
    requires
        state.wf(),
    ensures
        state.transactions_left() >= 1,
        state.next(cal, reply) matches Step::Next(after) ==> after.wf() && after.transactions_left()
            < state.transactions_left(),
{
}

proof fn lemma_run_is_bounded<E>(state: ConversionState, cal: CalibrationSet, script: Seq<Reply<E>>)
    requires
        state.wf(),
        script.len() >= state.transactions_left(),
    ensures
        state.run(cal, script) is Done,
    decreases script.len(),
{
    lemma_step_makes_progress(state, cal, script[0]);
    match state.next(cal, script[0]) {
        Step::Next(after) => {
            lemma_run_is_bounded(after, cal, script.skip(1));
        },
        Step::Done(_) => {},
    }
}

/// No reading takes more than 404 transactions, whatever the bus does.
pub proof fn lemma_read_is_bounded<E>(cal: CalibrationSet, script: Seq<Reply<E>>)
    requires
        script.len() >= 404,
    ensures
        ConversionState::initial().run(cal, script) is Done,
{
    lemma_run_is_bounded(ConversionState::initial(), cal, script);
}

} // verus!
