//! The configured hosts, and how a request to one of them is carried out.

use vstd::prelude::*;
use crate::config::{Config, HostConfig};
use crate::ids::{fresh_id, random_id};
use crate::json::Json;
use crate::order::text_less;
use crate::pending::{waiting_after_all, PendingEvent};
use crate::protocol::{Frame, Request, RequestView, Response};
use crate::string_map::{keys_of, StringMap};
use crate::text::{quote, quoted_text, same_text, views};

verus! {

/// How long a request may take before it is given up: a day.
pub const REQUEST_SECONDS: u64 = 86_400;

/// One configured host.
#[derive(Debug, PartialEq)]
pub struct HostHandle {
    pub alias: String,
    pub config: HostConfig,
}

/// All configured hosts, by their aliases.
#[derive(Debug, PartialEq)]
pub struct ConnectionPool {
    pub hosts: StringMap<HostHandle>,
}

impl Clone for HostHandle {
    fn clone(&self) -> (r: Self)
        ensures
            r.alias@ == self.alias@,
            r.config@ == self.config@,
    {
        HostHandle { alias: self.alias.clone(), config: self.config.clone() }
    }
}

impl Clone for ConnectionPool {
    fn clone(&self) -> (r: Self)
        ensures
            r.hosts.keys() == self.hosts.keys(),
            forall|i: int|
                0 <= i < self.hosts.entries().len() ==> (#[trigger] r.hosts.values()[i]).alias@
                    == self.hosts.values()[i].alias@ && r.hosts.values()[i].config@ == self.hosts.values()[i].config@,
    {
        let r = ConnectionPool { hosts: self.hosts.clone() };
        assert forall|i: int| 0 <= i < self.hosts.entries().len() implies (#[trigger] r.hosts.values()[i]).alias@
            == self.hosts.values()[i].alias@ && r.hosts.values()[i].config@ == self.hosts.values()[i].config@ by {
            assert(cloned::<HostHandle>(self.hosts.values()[i], r.hosts.values()[i]));
        }
        r
    }
}

/// Why no host was found.
#[derive(Debug, PartialEq)]
pub enum PoolError {
    UnknownAlias(String),
}

impl PoolError {
    /// The alias that no host has.
    pub open spec fn alias(self) -> Seq<char> {
        match self {
            PoolError::UnknownAlias(s) => s@,
        }
    }

    /// The message for a reader.
    pub fn message(&self) -> (r: String)
        ensures
            r@ == "unknown host alias "@ + quoted_text(self.alias()),
    {
        match self {
            PoolError::UnknownAlias(s) => {
                let mut out = "unknown host alias ".to_owned();
                out.append(quote(s.as_str()).as_str());
                out
            },
        }
    }
}

/// A request with everything in it given.
pub fn build_request(id: String, method: &str, params: Json, readonly: bool) -> (r: Request)
    ensures
        r@ == (RequestView { id: id@, method: method@, params: params@, readonly }),
        r.params == params,
{
    Request { id, method: method.to_owned(), params, readonly }
}

/// A request with a fresh identifier.
pub fn new_request(method: &str, params: Json, readonly: bool) -> (r: Request)
    ensures
        random_id(r.id@),
        r@ == (RequestView { id: r.id@, method: method@, params: params@, readonly }),
        r.params == params,
{
    build_request(fresh_id(), method, params, readonly)
}

impl ConnectionPool {
    /// A handle for each host of `config`, under the same alias.
    pub fn new(config: Config) -> (r: Self)
        ensures
            r.hosts.keys() == config.hosts.keys(),
            forall|i: int|
                0 <= i < config.hosts.entries().len() ==> (#[trigger] r.hosts.values()[i]).alias@
                    == config.hosts.keys()[i] && r.hosts.values()[i].config == config.hosts.values()[i],
    {
        let ghost all = config.hosts.entries();
        let entries = config.hosts.into_entries();
        let mut hosts: StringMap<HostHandle> = StringMap::new();
        for entry in it: entries
            invariant
                it.seq() == all,
                crate::string_map::ascending(keys_of(all)),
                hosts.entries().len() == it.index(),
                forall|k: int|
                    0 <= k < it.index() ==> (#[trigger] hosts.entries()[k]).0 == all[k].0
                        && hosts.entries()[k].1.alias@ == all[k].0@ && hosts.entries()[k].1.config == all[k].1,
        {
            let ghost k = it.index() as int;
            let (alias, host) = entry;
            let handle = HostHandle { alias: alias.clone(), config: host };
            proof {
                assert forall|m: int| 0 <= m < hosts.keys().len() implies text_less(
                    #[trigger] hosts.keys()[m],
                    alias@,
                ) by {
                    assert(hosts.keys()[m] == keys_of(all)[m]);
                    assert(alias@ == keys_of(all)[k]);
                }
            }
            hosts.insert(alias, handle);
        }
        proof {
            assert(hosts.keys() =~= keys_of(all));
            assert forall|i: int| 0 <= i < all.len() implies (#[trigger] hosts.values()[i]).alias@ == keys_of(all)[i]
                && hosts.values()[i].config == all[i].1 by {
                assert(hosts.entries()[i].0 == all[i].0);
            }
        }
        ConnectionPool { hosts }
    }

    /// The aliases, in ascending order.
    pub fn aliases(&self) -> (r: Vec<String>)
        ensures
            views(r@) == self.hosts.keys(),
    {
        let mut out: Vec<String> = Vec::new();
        let count: usize = self.hosts.len();
        let mut i: usize = 0;
        while i < count
            invariant
                i <= count == self.hosts.entries().len(),
                out@.len() == i,
                forall|k: int| 0 <= k < i ==> (#[trigger] out@[k])@ == self.hosts.keys()[k],
            decreases count - i,
        {
            out.push(self.hosts.key_at(i).clone());
            i = i + 1;
        }
        assert(views(out@) =~= self.hosts.keys());
        out
    }

    /// The handle of the host with this alias.
    pub fn host(&self, alias: &str) -> (r: Result<&HostHandle, PoolError>)
        ensures
            match r {
                Ok(handle) => self.hosts.at(alias@) == Some(*handle),
                Err(e) => self.hosts.at(alias@) is None && e.alias() == alias@,
            },
    {
        match self.hosts.get(alias) {
            Some(handle) => Ok(handle),
            None => Err(PoolError::UnknownAlias(alias.to_owned())),
        }
    }

    /// The configuration of the host with this alias.
    pub fn host_config(&self, alias: &str) -> (r: Result<HostConfig, PoolError>)
        ensures
            match r {
                Ok(config) => self.hosts.at(alias@) matches Some(handle) && config@ == handle.config@,
                Err(e) => self.hosts.at(alias@) is None && e.alias() == alias@,
            },
    {
        match self.host(alias) {
            Ok(handle) => Ok(handle.config.clone()),
            Err(e) => Err(e),
        }
    }

    /// The host to drop the connection of, so that the next request opens a
    /// new one.
    pub fn reconnect(&self, alias: &str) -> (r: Result<&HostHandle, PoolError>)
        ensures
            match r {
                Ok(handle) => self.hosts.at(alias@) == Some(*handle),
                Err(e) => self.hosts.at(alias@) is None && e.alias() == alias@,
            },
    {
        self.host(alias)
    }

    /// The host to send a request to, and the request with a fresh identifier.
    /// A host that is not configured is sent nothing.
    pub fn call(&self, alias: &str, method: &str, params: Json, readonly: bool) -> (r: Result<
        (&HostHandle, Request),
        PoolError,
    >)
        ensures
            match r {
                Ok((handle, request)) => self.hosts.at(alias@) == Some(*handle) && random_id(request.id@) && request@
                    == (RequestView { id: request.id@, method: method@, params: params@, readonly }) && request.params
                    == params,
                Err(e) => self.hosts.at(alias@) is None && e.alias() == alias@,
            },
    {
        match self.host(alias) {
            Ok(handle) => Ok((handle, new_request(method, params, readonly))),
            Err(e) => Err(e),
        }
    }
}

/// Every host of a configuration is found in the pool made of it, under its
/// alias and with its configuration, and no other alias is found there.
pub proof fn law_pool_holds_the_configuration(config: Config, pool: ConnectionPool, alias: Seq<char>)
    requires
        crate::string_map::ascending(config.hosts.keys()),
        pool.hosts.keys() == config.hosts.keys(),
        forall|i: int|
            0 <= i < config.hosts.entries().len() ==> (#[trigger] pool.hosts.values()[i]).alias@
                == config.hosts.keys()[i] && pool.hosts.values()[i].config == config.hosts.values()[i],
    ensures
        match config.hosts.at(alias) {
            Some(host) => pool.hosts.at(alias) matches Some(handle) && handle.config == host && handle.alias@ == alias,
            None => pool.hosts.at(alias) is None,
        },
{
    let keys = config.hosts.keys();
    if exists|i: int| 0 <= i < keys.len() && keys[i] == alias {
        let i = choose|i: int| 0 <= i < keys.len() && keys[i] == alias;
        crate::string_map::lemma_lookup_at(keys, config.hosts.values(), i);
        crate::string_map::lemma_lookup_at(keys, pool.hosts.values(), i);
        assert(pool.hosts.values()[i].alias@ == keys[i]);
    }
}

/// Whether a connection has to be opened before a request is sent: there is
/// none, or the one there is has died. `slot` says of the connection that is
/// there whether it is dead.
pub fn must_connect(slot: Option<bool>) -> (r: bool)
    ensures
        r == (slot != Some(false)),
{
    match slot {
        Some(dead) => dead,
        None => true,
    }
}

/// The stages of one attempt at a request.
#[derive(Clone, Copy, Debug, PartialEq, Eq, Structural)]
pub enum CallStage {
    /// See to it that there is a connection.
    Connect,
    /// Let the request wait for its answer.
    Register,
    /// Send it.
    Send,
    /// Let it wait no longer, since it could not be sent.
    Withdraw,
    /// Wait for the answer.
    Wait,
}

/// What follows a stage of an attempt.
#[derive(Clone, Copy, Debug, PartialEq, Eq, Structural)]
pub enum CallNext {
    Enter(CallStage),
    Answered,
    Failed,
}

/// What follows a stage that succeeded or failed.
pub open spec fn call_after(stage: CallStage, success: bool) -> CallNext {
    match (stage, success) {
        (CallStage::Connect, true) => CallNext::Enter(CallStage::Register),
        (CallStage::Connect, false) => CallNext::Failed,
        (CallStage::Register, _) => CallNext::Enter(CallStage::Send),
        (CallStage::Send, true) => CallNext::Enter(CallStage::Wait),
        (CallStage::Send, false) => CallNext::Enter(CallStage::Withdraw),
        (CallStage::Withdraw, _) => CallNext::Failed,
        (CallStage::Wait, true) => CallNext::Answered,
        (CallStage::Wait, false) => CallNext::Failed,
    }
}

/// What follows a stage that succeeded or failed.
pub fn call_next(stage: CallStage, success: bool) -> (r: CallNext)
    ensures
        r == call_after(stage, success),
{
    match stage {
        CallStage::Connect => if success {
            CallNext::Enter(CallStage::Register)
        } else {
            CallNext::Failed
        },
        CallStage::Register => CallNext::Enter(CallStage::Send),
        CallStage::Send => if success {
            CallNext::Enter(CallStage::Wait)
        } else {
            CallNext::Enter(CallStage::Withdraw)
        },
        CallStage::Withdraw => CallNext::Failed,
        CallStage::Wait => if success {
            CallNext::Answered
        } else {
            CallNext::Failed
        },
    }
}

/// The place of a stage in the order of stages, counted from the end.
pub open spec fn call_rank(stage: CallStage) -> nat {
    match stage {
        CallStage::Connect => 3,
        CallStage::Register => 2,
        CallStage::Send => 1,
        CallStage::Withdraw => 0,
        CallStage::Wait => 0,
    }
}

/// The stages that an attempt goes through from this one on, where `succeeds`
/// tells of each stage whether it succeeds.
pub open spec fn call_stages(stage: CallStage, succeeds: spec_fn(CallStage) -> bool) -> Seq<CallStage>
    decreases call_rank(stage),
{
    match call_after(stage, succeeds(stage)) {
        CallNext::Enter(next) => if call_rank(next) < call_rank(stage) {
            seq![stage] + call_stages(next, succeeds)
        } else {
            seq![stage]
        },
        _ => seq![stage],
    }
}

/// What an attempt does to the requests that wait on the connection before it
/// waits for its answer itself.
pub open spec fn attempt_events(stages: Seq<CallStage>, id: Seq<char>) -> Seq<PendingEvent> {
    stages.filter(|s: CallStage| s == CallStage::Register || s == CallStage::Withdraw).map_values(
        |s: CallStage|
            if s == CallStage::Register {
                PendingEvent::Registered(id)
            } else {
                PendingEvent::Taken(id)
            },
    )
}

/// A request is sent only once it waits for its answer, so that no answer comes
/// too early. One that was sent waits, and one that could not be sent does not.
pub proof fn law_a_request_waits_exactly_if_it_was_sent(
    succeeds: spec_fn(CallStage) -> bool,
    waiting: Set<Seq<char>>,
    id: Seq<char>,
)
    requires
        succeeds(CallStage::Connect),
        !waiting.contains(id),
    ensures
        ({
            let stages = call_stages(CallStage::Connect, succeeds);
            let events = attempt_events(stages, id);
            &&& stages[1] == CallStage::Register && stages[2] == CallStage::Send
            &&& waiting_after_all(waiting, events) == if succeeds(CallStage::Send) {
                waiting.insert(id)
            } else {
                waiting
            }
        }),
{
    reveal_with_fuel(call_stages, 5);
    reveal(Seq::filter);
    let stages = call_stages(CallStage::Connect, succeeds);
    let events = attempt_events(stages, id);
    let kept = |s: CallStage| s == CallStage::Register || s == CallStage::Withdraw;
    reveal_with_fuel(waiting_after_all, 3);
    if succeeds(CallStage::Send) {
        assert(stages =~= seq![CallStage::Connect, CallStage::Register, CallStage::Send, CallStage::Wait]);
        assert(stages.drop_last() =~= seq![CallStage::Connect, CallStage::Register, CallStage::Send]);
        assert(stages.drop_last().drop_last() =~= seq![CallStage::Connect, CallStage::Register]);
        assert(stages.drop_last().drop_last().drop_last() =~= seq![CallStage::Connect]);
        assert(stages.drop_last().drop_last().drop_last().drop_last() =~= Seq::<CallStage>::empty());
        assert(stages.filter(kept) =~= seq![CallStage::Register]) by {
            reveal_with_fuel(Seq::filter, 6);
        }
        assert(events =~= seq![PendingEvent::Registered(id)]);
        assert(events.drop_first() =~= Seq::<PendingEvent>::empty());
    } else {
        assert(stages =~= seq![CallStage::Connect, CallStage::Register, CallStage::Send, CallStage::Withdraw]);
        assert(stages.drop_last() =~= seq![CallStage::Connect, CallStage::Register, CallStage::Send]);
        assert(stages.drop_last().drop_last() =~= seq![CallStage::Connect, CallStage::Register]);
        assert(stages.drop_last().drop_last().drop_last() =~= seq![CallStage::Connect]);
        assert(stages.drop_last().drop_last().drop_last().drop_last() =~= Seq::<CallStage>::empty());
        assert(stages.filter(kept) =~= seq![CallStage::Register, CallStage::Withdraw]) by {
            reveal_with_fuel(Seq::filter, 6);
        }
        assert(events =~= seq![PendingEvent::Registered(id), PendingEvent::Taken(id)]);
        assert(events.drop_first() =~= seq![PendingEvent::Taken(id)]);
        assert(events.drop_first().drop_first() =~= Seq::<PendingEvent>::empty());
        assert(waiting.insert(id).remove(id) =~= waiting);
    }
}

/// Which attempt at a request is being made.
#[derive(Debug, PartialEq)]
pub enum Attempt {
    First,
    Second { first_error: String },
}

/// What follows an attempt.
#[derive(Debug, PartialEq)]
pub enum AfterAttempt {
    /// Hand the answer back.
    Return,
    /// Drop the connection and make the second attempt.
    DisconnectAndRetry(Attempt),
    /// Drop the connection and report this failure.
    DisconnectAndFail(String),
    /// Report this failure with what was found out before it.
    Fail { context: String, error: String },
}

/// What follows an attempt, without its texts.
pub enum NextMove {
    Return,
    Retry,
    Fail,
}

/// What follows an attempt: only the first attempt at a request that changes
/// nothing is followed by another.
pub open spec fn next_move(second: bool, readonly: bool, failed: bool) -> NextMove {
    if !failed {
        NextMove::Return
    } else if !second && readonly {
        NextMove::Retry
    } else {
        NextMove::Fail
    }
}

/// Decides what follows an attempt that failed with `failure` or was answered.
pub fn after_attempt(attempt: Attempt, readonly: bool, failure: Option<String>) -> (r: AfterAttempt)
    ensures
        match (attempt, failure) {
            (_, None) => r is Return,
            (Attempt::First, Some(error)) => if readonly {
                r == AfterAttempt::DisconnectAndRetry(Attempt::Second { first_error: error })
            } else {
                r == AfterAttempt::DisconnectAndFail(error)
            },
            (Attempt::Second { first_error }, Some(error)) => r matches AfterAttempt::Fail { context, error: e }
                && context@ == "retry after connection failure; first error: "@ + first_error@ && e == error,
        },
        match next_move(attempt is Second, readonly, failure is Some) {
            NextMove::Return => r is Return,
            NextMove::Retry => r is DisconnectAndRetry,
            NextMove::Fail => r is DisconnectAndFail || r is Fail,
        },
{
    match failure {
        None => AfterAttempt::Return,
        Some(error) => match attempt {
            Attempt::First => if readonly {
                AfterAttempt::DisconnectAndRetry(Attempt::Second { first_error: error })
            } else {
                AfterAttempt::DisconnectAndFail(error)
            },
            Attempt::Second { first_error } => {
                let mut context = "retry after connection failure; first error: ".to_owned();
                context.append(first_error.as_str());
                AfterAttempt::Fail { context, error }
            },
        },
    }
}

/// How many attempts are made from this one on, where `fails` tells of each
/// attempt whether it fails.
pub open spec fn attempts_made(second: bool, readonly: bool, fails: spec_fn(bool) -> bool) -> nat
    decreases (if second { 0nat } else { 1nat }),
{
    match next_move(second, readonly, fails(second)) {
        NextMove::Retry => if second {
            1
        } else {
            1 + attempts_made(true, readonly, fails)
        },
        _ => 1,
    }
}

/// A request that changes something is sent once and never again, and one that
/// changes nothing is sent twice at most, the second time only after the first
/// failed.
pub proof fn law_only_reads_are_retried_and_once(readonly: bool, fails: spec_fn(bool) -> bool)
    ensures
        !readonly ==> attempts_made(false, readonly, fails) == 1,
        attempts_made(false, readonly, fails) <= 2,
        attempts_made(false, readonly, fails) == 2 <==> readonly && fails(false),
{
    reveal_with_fuel(attempts_made, 3);
}

/// How the wait for an answer ended.
#[derive(Debug, PartialEq)]
pub enum Waited {
    TimedOut,
    DispatcherStopped,
    Failed(String),
    Answered(Frame<Response>),
}

/// Why a request has no answer.
#[derive(Debug, PartialEq)]
pub enum CallError {
    TimedOut,
    DispatcherStopped,
    Connection(String),
    IdMismatch,
}

/// What a call error says.
pub enum CallProblem {
    TimedOut,
    DispatcherStopped,
    Connection(Seq<char>),
    IdMismatch,
}

impl View for CallError {
    type V = CallProblem;

    open spec fn view(&self) -> CallProblem {
        match self {
            CallError::TimedOut => CallProblem::TimedOut,
            CallError::DispatcherStopped => CallProblem::DispatcherStopped,
            CallError::Connection(s) => CallProblem::Connection(s@),
            CallError::IdMismatch => CallProblem::IdMismatch,
        }
    }
}

impl CallError {
    /// The message for a reader.
    pub fn message(&self) -> (r: String)
        ensures
            r@ == match self@ {
                CallProblem::TimedOut => "remote request timed out"@,
                CallProblem::DispatcherStopped => "remote response dispatcher stopped"@,
                CallProblem::Connection(s) => s,
                CallProblem::IdMismatch => "response id mismatch"@,
            },
    {
        match self {
            CallError::TimedOut => "remote request timed out".to_owned(),
            CallError::DispatcherStopped => "remote response dispatcher stopped".to_owned(),
            CallError::Connection(s) => s.clone(),
            CallError::IdMismatch => "response id mismatch".to_owned(),
        }
    }
}

/// The answer to the request with this identifier, or why there is none. An
/// answer to another request is not taken for one.
pub fn settle(id: &str, waited: Waited) -> (r: Result<Frame<Response>, CallError>)
    ensures
        match waited {
            Waited::TimedOut => r matches Err(e) && e@ == CallProblem::TimedOut,
            Waited::DispatcherStopped => r matches Err(e) && e@ == CallProblem::DispatcherStopped,
            Waited::Failed(s) => r matches Err(e) && e@ == CallProblem::Connection(s@),
            Waited::Answered(frame) => if frame.header.id@ == id@ {
                r == Ok::<Frame<Response>, CallError>(frame)
            } else {
                r matches Err(e) && e@ == CallProblem::IdMismatch
            },
        },
{
    match waited {
        Waited::TimedOut => Err(CallError::TimedOut),
        Waited::DispatcherStopped => Err(CallError::DispatcherStopped),
        Waited::Failed(s) => Err(CallError::Connection(s)),
        Waited::Answered(frame) => if same_text(frame.header.id.as_str(), id) {
            Ok(frame)
        } else {
            Err(CallError::IdMismatch)
        },
    }
}

/// An attempt connects, lets the request wait, sends it and waits for the answer, in
/// this order, and is answered if all of this succeeds. Without a connection nothing is
/// sent, and a request that could not be sent is withdrawn.
pub proof fn law_the_course_of_an_attempt(succeeds: spec_fn(CallStage) -> bool)
    ensures
        !succeeds(CallStage::Connect) ==> call_stages(CallStage::Connect, succeeds) == seq![CallStage::Connect],
        succeeds(CallStage::Connect) && succeeds(CallStage::Send) ==> call_stages(CallStage::Connect, succeeds)
            == seq![CallStage::Connect, CallStage::Register, CallStage::Send, CallStage::Wait],
        succeeds(CallStage::Connect) && !succeeds(CallStage::Send) ==> call_stages(CallStage::Connect, succeeds)
            == seq![CallStage::Connect, CallStage::Register, CallStage::Send, CallStage::Withdraw],
        call_after(CallStage::Wait, true) == CallNext::Answered,
        call_after(CallStage::Wait, false) == CallNext::Failed,
        call_after(CallStage::Connect, false) == CallNext::Failed,
        call_after(CallStage::Withdraw, succeeds(CallStage::Withdraw)) == CallNext::Failed,
{
    reveal_with_fuel(call_stages, 5);
    let stages = call_stages(CallStage::Connect, succeeds);
    if !succeeds(CallStage::Connect) {
        assert(stages =~= seq![CallStage::Connect]);
    } else if succeeds(CallStage::Send) {
        assert(stages =~= seq![CallStage::Connect, CallStage::Register, CallStage::Send, CallStage::Wait]);
    } else {
        assert(stages =~= seq![CallStage::Connect, CallStage::Register, CallStage::Send, CallStage::Withdraw]);
    }
}

/// What follows an attempt: an answer is handed back, a first attempt that failed is
/// repeated only if the request changes nothing, and everything else has failed.
pub proof fn law_what_follows_an_attempt(readonly: bool)
    ensures
        next_move(false, readonly, false) is Return,
        next_move(true, readonly, false) is Return,
        next_move(false, true, true) is Retry,
        next_move(false, false, true) is Fail,
        next_move(true, readonly, true) is Fail,
{
}

} // verus!
