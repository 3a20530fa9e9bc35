//! Supervision of one module's process: the state it reports, and the
//! decisions of its supervision loop (acquire the binary, spawn, watch,
//! terminate on cancel, back off and retry). The loop itself waits on the
//! process and the clock; each time something happens it hands the event to
//! `Controller::on_event` and performs the action it gets back.

use vstd::prelude::*;
use vstd::string::StringExecFns;

verus! {

/// State of a module's process.
pub enum State {
    Init,
    InitCrashLoopBackOff,
    Running,
    Error(String),
    Exit(String),
}

/// The status text of a state; an exit carries the exit status as the
/// platform words it.
pub open spec fn state_message(s: State) -> Seq<char> {
    match s {
        State::Init => "Init"@,
        State::InitCrashLoopBackOff => "InitCrashLoopBackoff"@,
        State::Running => "Running"@,
        State::Exit(status) => "Exit: "@ + status@,
        State::Error(msg) => msg@,
    }
}

impl State {
    /// The status text of this state.
    pub fn to_string(&self) -> (r: String)
        ensures
            r@ == state_message(*self),
    {
        match self {
            State::Init => String::from_str("Init"),
            State::InitCrashLoopBackOff => String::from_str("InitCrashLoopBackoff"),
            State::Running => String::from_str("Running"),
            State::Exit(status) => {
                let mut s = String::from_str("Exit: ");
                s.append(status.as_str());
                s
            },
            State::Error(msg) => msg.clone(),
        }
    }
}

/// The state of a module's process, as read by status requests.
pub struct ProcessState {
    state: State,
}

impl ProcessState {
    /// The current state.
    pub closed spec fn current(&self) -> State {
        self.state
    }

    /// Starts in `Init`.
    pub fn new() -> (r: ProcessState)
        ensures
            r.current() == State::Init,
    {
        ProcessState { state: State::Init }
    }

    /// Records a new state.
    pub fn set(&mut self, state: State)
        ensures
            final(self).current() == state,
    {
        self.state = state;
    }

    /// The current state.
    pub fn get(&self) -> (r: &State)
        ensures
            *r == self.current(),
    {
        &self.state
    }

    /// Status text of the current state.
    pub fn to_string(&self) -> (r: String)
        ensures
            r@ == state_message(self.current()),
    {
        self.state.to_string()
    }
}

/// Where the supervision loop stands.
#[derive(PartialEq, Eq, Structural, Clone, Copy, Debug)]
pub enum Phase {
    /// Resolving and fetching the binary.
    Acquiring,
    /// Starting the process.
    Spawning,
    /// The process runs; waiting for it to exit or for a cancel.
    Watching,
    /// Cancelled; waiting for the signalled process to exit.
    Terminating,
    /// Sleeping before the next attempt.
    BackingOff,
    /// Done for good.
    Stopped,
}

/// What happened, as seen by the supervision loop.
pub enum Event {
    /// The binary was acquired at this path, or why it could not be.
    Acquired(Result<String, String>),
    /// Whether the process could be started.
    Spawned(bool),
    /// The process exited with this status, or waiting on it failed.
    Exited(Result<String, String>),
    /// A stop was requested while the process ran.
    Cancelled,
    /// The signalled process exited with this status, or stopping it failed.
    Terminated(Result<String, String>),
    /// The backoff sleep is over.
    Slept,
}

/// What the supervision loop does next.
pub enum Action {
    /// Resolve and acquire the binary.
    Acquire,
    /// Start the process from this binary.
    Spawn(String),
    /// Wire the process to the bus, then wait for its exit or a cancel.
    Watch,
    /// Signal the process to stop and wait for it.
    Terminate,
    /// Drop the module's input subscriptions if a process ran, then sleep
    /// this many seconds.
    Backoff { cleanup: bool, seconds: u64 },
    /// Drop the module's input subscriptions and leave the loop.
    Finish,
    /// The event does not belong to this phase: nothing to do.
    Nothing,
}

/// Twice `t`, or the largest `u64` where that does not fit.
pub open spec fn doubled(t: u64) -> u64 {
    if t <= u64::MAX / 2 {
        (2 * t) as u64
    } else {
        u64::MAX
    }
}

/// Seconds of the `n`-th backoff sleep, counting from zero.
pub open spec fn backoff_delay(n: nat) -> u64
    decreases n,
{
    if n == 0 {
        1
    } else {
        doubled(backoff_delay((n - 1) as nat))
    }
}

/// `2^n`.
pub open spec fn two_pow(n: nat) -> nat
    decreases n,
{
    if n == 0 {
        1
    } else {
        2 * two_pow((n - 1) as nat)
    }
}

/// The states that a phase can be in.
pub open spec fn consistent(state: State, phase: Phase) -> bool {
    match phase {
        Phase::Acquiring | Phase::Spawning => state is Init,
        Phase::Watching | Phase::Terminating => state is Running,
        Phase::BackingOff => state is Exit || state is Error || state is InitCrashLoopBackOff,
        Phase::Stopped => state is Exit || state is Error,
    }
}

/// One decision of the supervision loop: the next state, phase and backoff,
/// and what to do.
pub open spec fn transition(state: State, phase: Phase, timeout: u64, e: Event) -> (
    State,
    Phase,
    u64,
    Action,
) {
    let backoff = |cleanup: bool| Action::Backoff { cleanup, seconds: timeout };
    match (phase, e) {
        (Phase::Acquiring, Event::Acquired(Ok(path))) => (
            state,
            Phase::Spawning,
            timeout,
            Action::Spawn(path),
        ),
        (Phase::Acquiring, Event::Acquired(Err(msg))) => (
            State::Error(msg),
            Phase::BackingOff,
            doubled(timeout),
            backoff(false),
        ),
        (Phase::Spawning, Event::Spawned(started)) => if started {
            (State::Running, Phase::Watching, timeout, Action::Watch)
        } else {
            (State::InitCrashLoopBackOff, Phase::BackingOff, doubled(timeout), backoff(false))
        },
        (Phase::Watching, Event::Exited(Ok(status))) => (
            State::Exit(status),
            Phase::BackingOff,
            doubled(timeout),
            backoff(true),
        ),
        (Phase::Watching, Event::Exited(Err(msg))) => (
            State::Error(msg),
            Phase::BackingOff,
            doubled(timeout),
            backoff(true),
        ),
        (Phase::Watching, Event::Cancelled) => (state, Phase::Terminating, timeout, Action::Terminate),
        (Phase::Terminating, Event::Terminated(Ok(status))) => (
            State::Exit(status),
            Phase::Stopped,
            timeout,
            Action::Finish,
        ),
        (Phase::Terminating, Event::Terminated(Err(msg))) => (
            State::Error(msg),
            Phase::Stopped,
            timeout,
            Action::Finish,
        ),
        (Phase::BackingOff, Event::Slept) => (State::Init, Phase::Acquiring, timeout, Action::Acquire),
        _ => (state, phase, timeout, Action::Nothing),
    }
}

/// The decisions of one module's supervision loop. It starts acquiring the
/// binary: the loop's first action is `Action::Acquire`.
pub struct Controller {
    state: State,
    phase: Phase,
    timeout: u64,
    backoffs: Ghost<nat>,
}

impl Controller {
    #[verifier::type_invariant]
    spec fn well_formed(self) -> bool {
        &&& consistent(self.state, self.phase)
        &&& self.timeout == backoff_delay(self.backoffs@)
    }

    /// Current state.
    pub closed spec fn state(&self) -> State {
        self.state
    }

    /// Current phase.
    pub closed spec fn phase(&self) -> Phase {
        self.phase
    }

    /// Seconds of the next backoff sleep.
    pub closed spec fn timeout(&self) -> u64 {
        self.timeout
    }

    /// Backoff sleeps so far.
    pub closed spec fn backoffs(&self) -> nat {
        self.backoffs@
    }

    /// In `Init`, about to acquire the binary; the first backoff is one
    /// second.
    pub fn new() -> (r: Controller)
        ensures
            r.state() == State::Init,
            r.phase() == Phase::Acquiring,
            r.timeout() == 1,
            r.backoffs() == 0,
    {
        Controller { state: State::Init, phase: Phase::Acquiring, timeout: 1, backoffs: Ghost(0) }
    }

    /// Status text of the current state.
    pub fn get_status(&self) -> (r: String)
        ensures
            r@ == state_message(self.state()),
    {
        self.state.to_string()
    }

    /// Current phase.
    pub fn current_phase(&self) -> (r: Phase)
        ensures
            r == self.phase(),
    {
        self.phase
    }

    /// Seconds of the next backoff sleep.
    pub fn next_backoff(&self) -> (r: u64)
        ensures
            r == self.timeout(),
    {
        self.timeout
    }

    /// Takes what happened and decides what to do next.
    pub fn on_event(&mut self, e: Event) -> (a: Action)
        ensures
            (final(self).state(), final(self).phase(), final(self).timeout(), a) == transition(
                old(self).state(),
                old(self).phase(),
                old(self).timeout(),
                e,
            ),
            consistent(final(self).state(), final(self).phase()),
            final(self).timeout() == backoff_delay(final(self).backoffs()),
            a is Backoff ==> final(self).backoffs() == old(self).backoffs() + 1,
            !(a is Backoff) ==> final(self).backoffs() == old(self).backoffs(),
    {
        proof {
            use_type_invariant(&*self);
        }
        let timeout = self.timeout;
        let n = self.backoffs;
        let later = if timeout <= u64::MAX / 2 {
            timeout * 2
        } else {
            u64::MAX
        };
        let next = Ghost((n@ + 1) as nat);
        assert(later == backoff_delay(next@));
        let mut taken = Controller {
            state: State::Init,
            phase: Phase::Acquiring,
            timeout: 1,
            backoffs: Ghost(0),
        };
        std::mem::swap(self, &mut taken);
        let Controller { state, phase, timeout: _, backoffs: _ } = taken;
        let (s2, p2, t2, b2, a) = match (phase, e) {
            (Phase::Acquiring, Event::Acquired(Ok(path))) => (
                state,
                Phase::Spawning,
                timeout,
                n,
                Action::Spawn(path),
            ),
            (Phase::Acquiring, Event::Acquired(Err(msg))) => (
                State::Error(msg),
                Phase::BackingOff,
                later,
                next,
                Action::Backoff { cleanup: false, seconds: timeout },
            ),
            (Phase::Spawning, Event::Spawned(started)) => if started {
                (State::Running, Phase::Watching, timeout, n, Action::Watch)
            } else {
                (
                    State::InitCrashLoopBackOff,
                    Phase::BackingOff,
                    later,
                    next,
                    Action::Backoff { cleanup: false, seconds: timeout },
                )
            },
            (Phase::Watching, Event::Exited(Ok(status))) => (
                State::Exit(status),
                Phase::BackingOff,
                later,
                next,
                Action::Backoff { cleanup: true, seconds: timeout },
            ),
            (Phase::Watching, Event::Exited(Err(msg))) => (
                State::Error(msg),
                Phase::BackingOff,
                later,
                next,
                Action::Backoff { cleanup: true, seconds: timeout },
            ),
            (Phase::Watching, Event::Cancelled) => (
                state,
                Phase::Terminating,
                timeout,
                n,
                Action::Terminate,
            ),
            (Phase::Terminating, Event::Terminated(Ok(status))) => (
                State::Exit(status),
                Phase::Stopped,
                timeout,
                n,
                Action::Finish,
            ),
            (Phase::Terminating, Event::Terminated(Err(msg))) => (
                State::Error(msg),
                Phase::Stopped,
                timeout,
                n,
                Action::Finish,
            ),
            (Phase::BackingOff, Event::Slept) => (
                State::Init,
                Phase::Acquiring,
                timeout,
                n,
                Action::Acquire,
            ),
            (phase, _) => (state, phase, timeout, n, Action::Nothing),
        };
        *self = Controller { state: s2, phase: p2, timeout: t2, backoffs: b2 };
        a
    }
}

/// Each backoff sleep is at least as long as the one before, and the `n`-th
/// lasts at least `2^n` seconds while that fits in a `u64`.
pub proof fn lemma_backoff_grows(n: nat)
    ensures
        backoff_delay(0) == 1,
        backoff_delay(n + 1) >= backoff_delay(n),
        two_pow(n) <= u64::MAX ==> backoff_delay(n) >= two_pow(n),
    decreases n,
{
    assert(backoff_delay((n + 1) as nat) == doubled(backoff_delay(n)));
    if n > 0 {
        lemma_backoff_grows((n - 1) as nat);
        assert(two_pow(n) == 2 * two_pow((n - 1) as nat));
    }
}

/// One round of supervision: the loop enters its backoff only from a state
/// that says how the attempt ended (exit, error, or a process that could not
/// start), and leaves it only to start over in `Init`; the process is
/// reported `Running` only while it is watched.
pub proof fn lemma_round_shape(state: State, phase: Phase, timeout: u64, e: Event)
    requires
        consistent(state, phase),
    ensures
        ({
            let (s2, p2, t2, a) = transition(state, phase, timeout, e);
            &&& consistent(s2, p2)
            &&& (p2 == Phase::BackingOff && phase != Phase::BackingOff) ==> (s2 is Exit || s2 is Error
                || s2 is InitCrashLoopBackOff)
            &&& (phase == Phase::BackingOff && p2 != Phase::BackingOff) ==> (s2 is Init && p2
                == Phase::Acquiring)
            &&& (s2 is Running) ==> (p2 == Phase::Watching || p2 == Phase::Terminating)
            &&& (a is Backoff) <==> (p2 == Phase::BackingOff && phase != Phase::BackingOff)
        }),
{
}

/// A stop observed while the process runs ends supervision within the round:
/// once the signalled process is gone the loop finishes in a final state,
/// and a finished loop ignores every later event.
pub proof fn lemma_cancel_respected(state: State, timeout: u64, r: Result<String, String>, later: Event)
    requires
        consistent(state, Phase::Watching),
    ensures
        ({
            let (s1, p1, t1, a1) = transition(state, Phase::Watching, timeout, Event::Cancelled);
            let (s2, p2, t2, a2) = transition(s1, p1, t1, Event::Terminated(r));
            let (s3, p3, t3, a3) = transition(s2, p2, t2, later);
            &&& a1 is Terminate
            &&& a2 is Finish
            &&& p2 == Phase::Stopped
            &&& (s2 is Exit || s2 is Error)
            &&& a3 is Nothing && p3 == Phase::Stopped && s3 == s2 && t3 == t2
        }),
{
}

} // verus!
