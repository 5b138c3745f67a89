//! How a client finds its control center, or starts one.

use vstd::prelude::*;

verus! {

/// How often a client asks whether the control center that it started is ready.
pub const READY_POLLS: u32 = 50;

/// How long a client waits between two such questions, in milliseconds.
pub const READY_PAUSE_MILLIS: u64 = 100;

/// How often a client tries to open a busy named pipe.
pub const PIPE_TRIES: u32 = 20;

/// How long a client waits between two such tries, in milliseconds.
pub const PIPE_PAUSE_MILLIS: u64 = 50;

/// The number of the operating system's error that says that a pipe is busy.
pub const PIPE_BUSY: i32 = 231;

/// One argument of the command line that starts a control center: a text, or
/// the path of the configuration as it was given.
#[derive(Debug, PartialEq)]
pub enum HostArgument<P> {
    Text(String),
    Path(P),
}

/// What an argument says.
pub enum ArgumentView<P> {
    Text(Seq<char>),
    Path(P),
}

impl<P> View for HostArgument<P> {
    type V = ArgumentView<P>;

    open spec fn view(&self) -> ArgumentView<P> {
        match self {
            HostArgument::Text(s) => ArgumentView::Text(s@),
            HostArgument::Path(p) => ArgumentView::Path(*p),
        }
    }
}

/// What a list of arguments says.
pub open spec fn arguments_view<P>(arguments: Seq<HostArgument<P>>) -> Seq<ArgumentView<P>> {
    Seq::new(arguments.len(), |i: int| arguments[i]@)
}

/// The arguments that start a control center at an endpoint.
pub open spec fn start_arguments<P>(endpoint: Seq<char>, config: Option<P>) -> Seq<ArgumentView<P>> {
    let fixed = seq![
        ArgumentView::Text("runtime-host"@),
        ArgumentView::Text("--endpoint"@),
        ArgumentView::Text(endpoint),
    ];
    match config {
        Some(path) => fixed + seq![ArgumentView::Text("--config"@), ArgumentView::Path(path)],
        None => fixed,
    }
}

/// The arguments that start a control center at an endpoint, with the same
/// configuration as the client has.
pub fn runtime_host_args<P>(endpoint: &str, config: Option<P>) -> (r: Vec<HostArgument<P>>)
    ensures
        arguments_view(r@) == start_arguments(endpoint@, config),
{
    let mut args: Vec<HostArgument<P>> = Vec::new();
    args.push(HostArgument::Text("runtime-host".to_owned()));
    args.push(HostArgument::Text("--endpoint".to_owned()));
    args.push(HostArgument::Text(endpoint.to_owned()));
    match config {
        Some(path) => {
            args.push(HostArgument::Text("--config".to_owned()));
            args.push(HostArgument::Path(path));
        },
        None => {},
    }
    assert(arguments_view(args@) =~= start_arguments(endpoint@, config));
    args
}

/// How far a client is that looks for its control center.
#[derive(Clone, Copy, Debug, PartialEq, Eq, Structural)]
pub enum StartStage {
    /// It asks for the first time.
    First,
    /// It has started a control center and asks for the n-th time since.
    Polled(u32),
}

/// What follows a question.
#[derive(Clone, Copy, Debug, PartialEq, Eq, Structural)]
pub enum StartNext {
    /// The control center answered.
    Connected,
    /// Start a control center, and ask at this stage.
    Start(StartStage),
    /// Wait, and ask at this stage.
    WaitAndAsk(StartStage),
    /// Wait, and give up.
    WaitAndGiveUp,
}

/// What follows a question that was answered or not: a control center is started
/// only where the first question is not answered.
pub open spec fn start_after(stage: StartStage, answered: bool) -> StartNext {
    if answered {
        StartNext::Connected
    } else {
        match stage {
            StartStage::First => StartNext::Start(StartStage::Polled(1)),
            StartStage::Polled(n) => if n < READY_POLLS {
                StartNext::WaitAndAsk(StartStage::Polled((n + 1) as u32))
            } else {
                StartNext::WaitAndGiveUp
            },
        }
    }
}

/// What follows a question that was answered or not.
pub fn start_next(stage: StartStage, answered: bool) -> (r: StartNext)
    ensures
        r == start_after(stage, answered),
{
    if answered {
        return StartNext::Connected;
    }
    match stage {
        StartStage::First => StartNext::Start(StartStage::Polled(1)),
        StartStage::Polled(n) => if n < READY_POLLS {
            StartNext::WaitAndAsk(StartStage::Polled(n + 1))
        } else {
            StartNext::WaitAndGiveUp
        },
    }
}

/// How many more questions can follow the one of this stage.
pub open spec fn questions_left(stage: StartStage) -> nat {
    match stage {
        StartStage::First => READY_POLLS as nat,
        StartStage::Polled(n) => if n < READY_POLLS {
            (READY_POLLS - n) as nat
        } else {
            0
        },
    }
}

/// What follows each question from this stage on, where `answered` tells of each
/// question whether it is answered.
pub open spec fn start_run(stage: StartStage, answered: spec_fn(StartStage) -> bool) -> Seq<StartNext>
    decreases questions_left(stage),
{
    let next = start_after(stage, answered(stage));
    seq![next] + match next {
        StartNext::Start(later) => if questions_left(later) < questions_left(stage) {
            start_run(later, answered)
        } else {
            Seq::empty()
        },
        StartNext::WaitAndAsk(later) => if questions_left(later) < questions_left(stage) {
            start_run(later, answered)
        } else {
            Seq::empty()
        },
        _ => Seq::empty(),
    }
}

/// Whether one of the questions from the n-th since the start on is answered.
pub open spec fn answered_since(n: u32, answered: spec_fn(StartStage) -> bool) -> bool {
    exists|k: u32| n <= k <= READY_POLLS && #[trigger] answered(StartStage::Polled(k))
}

proof fn lemma_polling(n: u32, answered: spec_fn(StartStage) -> bool)
    requires
        1 <= n <= READY_POLLS,
    ensures
        ({
            let run = start_run(StartStage::Polled(n), answered);
            &&& 1 <= run.len() <= READY_POLLS + 1 - n
            &&& forall|i: int| 0 <= i < run.len() ==> !(#[trigger] run[i] is Start)
            &&& run.last() == if answered_since(n, answered) {
                StartNext::Connected
            } else {
                StartNext::WaitAndGiveUp
            }
            &&& !answered_since(n, answered) ==> run.len() == READY_POLLS + 1 - n
        }),
    decreases READY_POLLS - n,
{
    let stage = StartStage::Polled(n);
    let run = start_run(stage, answered);
    if answered(stage) {
        assert(run =~= seq![StartNext::Connected]);
    } else if n < READY_POLLS {
        let m = (n + 1) as u32;
        lemma_polling(m, answered);
        let rest = start_run(StartStage::Polled(m), answered);
        assert(run =~= seq![StartNext::WaitAndAsk(StartStage::Polled(m))] + rest);
        assert(run.last() == rest.last());
        assert forall|i: int| 0 <= i < run.len() implies !(#[trigger] run[i] is Start) by {
            if i > 0 {
                assert(run[i] == rest[i - 1]);
            }
        }
        if answered_since(n, answered) {
            let k = choose|k: u32| n <= k <= READY_POLLS && #[trigger] answered(StartStage::Polled(k));
            assert(m <= k <= READY_POLLS && answered(StartStage::Polled(k)));
        }
        if answered_since(m, answered) {
            let k = choose|k: u32| m <= k <= READY_POLLS && #[trigger] answered(StartStage::Polled(k));
            assert(n <= k <= READY_POLLS && answered(StartStage::Polled(k)));
        }
    } else {
        assert(run =~= seq![StartNext::WaitAndGiveUp]);
        if answered_since(n, answered) {
            let k = choose|k: u32| n <= k <= READY_POLLS && #[trigger] answered(StartStage::Polled(k));
            assert(k == n);
        }
    }
}

/// A control center is started on demand, and only once: nothing is started where
/// the first question is answered, and otherwise one is started, before anything
/// else. At most 50 questions follow it, exactly 50 where none is answered. The
/// client ends up connected exactly if some question was answered, and gives up
/// otherwise.
pub proof fn law_a_control_center_is_started_on_demand(answered: spec_fn(StartStage) -> bool)
    ensures
        ({
            let run = start_run(StartStage::First, answered);
            &&& answered(StartStage::First) ==> run == seq![StartNext::Connected]
            &&& !answered(StartStage::First) ==> {
                &&& run[0] == StartNext::Start(StartStage::Polled(1))
                &&& forall|i: int| 1 <= i < run.len() ==> !(#[trigger] run[i] is Start)
                &&& 2 <= run.len() <= READY_POLLS + 1
                &&& !answered_since(1, answered) ==> run.len() == READY_POLLS + 1
            }
            &&& run.last() == if answered(StartStage::First) || answered_since(1, answered) {
                StartNext::Connected
            } else {
                StartNext::WaitAndGiveUp
            }
        }),
{
    let run = start_run(StartStage::First, answered);
    if answered(StartStage::First) {
        assert(run =~= seq![StartNext::Connected]);
    } else {
        lemma_polling(1, answered);
        let rest = start_run(StartStage::Polled(1), answered);
        assert(run =~= seq![StartNext::Start(StartStage::Polled(1))] + rest);
        assert(run.last() == rest.last());
        assert forall|i: int| 1 <= i < run.len() implies !(#[trigger] run[i] is Start) by {
            assert(run[i] == rest[i - 1]);
        }
    }
}

/// What follows a failed try to open a named pipe.
#[derive(Clone, Copy, Debug, PartialEq, Eq, Structural)]
pub enum NextTry {
    /// Wait, and try again.
    WaitAndTry,
    /// Wait, and give up.
    WaitAndGiveUp,
    /// Give up at once.
    Fail,
}

/// What follows when a client has tried `tried` times to open a named pipe and
/// failed with an error that has this number, if it has one.
pub fn after_pipe_error(tried: u32, code: Option<i32>) -> (r: NextTry)
    ensures
        r == (if code != Some(PIPE_BUSY) {
            NextTry::Fail
        } else if tried < PIPE_TRIES {
            NextTry::WaitAndTry
        } else {
            NextTry::WaitAndGiveUp
        }),
{
    let busy = match code {
        Some(number) => number == PIPE_BUSY,
        None => false,
    };
    if !busy {
        NextTry::Fail
    } else if tried < PIPE_TRIES {
        NextTry::WaitAndTry
    } else {
        NextTry::WaitAndGiveUp
    }
}

/// Why no control center was found.
#[derive(Clone, Copy, Debug, PartialEq, Eq, Structural)]
pub enum StartupError {
    NotReady,
    PipeBusy,
}

impl StartupError {
    /// The message for a reader.
    pub fn message(&self) -> (r: String)
        ensures
            r@ == match *self {
                StartupError::NotReady => "runtime-host did not become ready"@,
                StartupError::PipeBusy => "runtime named pipe is busy"@,
            },
    {
        match self {
            StartupError::NotReady => "runtime-host did not become ready".to_owned(),
            StartupError::PipeBusy => "runtime named pipe is busy".to_owned(),
        }
    }
}

/// A control center is started with `runtime-host`, its endpoint, and the configuration
/// of the client, if it has one.
pub proof fn law_how_a_control_center_is_started<P>(endpoint: Seq<char>, path: P)
    ensures
        start_arguments(endpoint, None::<P>) == seq![
            ArgumentView::<P>::Text("runtime-host"@),
            ArgumentView::Text("--endpoint"@),
            ArgumentView::Text(endpoint),
        ],
        start_arguments(endpoint, Some(path)) == seq![
            ArgumentView::Text("runtime-host"@),
            ArgumentView::Text("--endpoint"@),
            ArgumentView::Text(endpoint),
            ArgumentView::Text("--config"@),
            ArgumentView::Path(path),
        ],
{
    assert(start_arguments(endpoint, Some(path)) =~= seq![
        ArgumentView::Text("runtime-host"@),
        ArgumentView::Text("--endpoint"@),
        ArgumentView::Text(endpoint),
        ArgumentView::Text("--config"@),
        ArgumentView::Path(path),
    ]);
}

/// What follows each question: an answer connects; the first question without an answer
/// starts a control center; each later one up to the fiftieth is followed by another,
/// and the fiftieth by giving up.
pub proof fn law_what_follows_a_question(stage: StartStage, n: u32)
    ensures
        start_after(stage, true) == StartNext::Connected,
        start_after(StartStage::First, false) == StartNext::Start(StartStage::Polled(1)),
        1 <= n < 50 ==> start_after(StartStage::Polled(n), false) == StartNext::WaitAndAsk(
            StartStage::Polled((n + 1) as u32),
        ),
        n >= 50 ==> start_after(StartStage::Polled(n), false) == StartNext::WaitAndGiveUp,
{
}

} // verus!
