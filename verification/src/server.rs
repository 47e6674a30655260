//! What the server does with a request, and what a connection does with each thing that happens
//! to it.

use vstd::prelude::*;

use crate::protocol::{
    parse_request_spec, protocol_error_text, Request, RequestView, Response,
    ResponseView,
};
use crate::store::{bucket_contents, lookup, store_insert, store_remove, Store, StoreView};
use crate::text::{byte_len, push_str};

verus! {

/// What applying `r` to a store holding `s` leaves in it, and what it answers.
pub open spec fn apply_spec(r: RequestView, s: StoreView) -> (StoreView, ResponseView) {
    match r {
        RequestView::Get { bucket, key } => (
            s,
            match lookup(s, bucket, key) {
                Some(v) => ResponseView::Value(v),
                None => ResponseView::Nil,
            },
        ),
        RequestView::Put { bucket, key, value } => (
            store_insert(s, bucket, key, value),
            ResponseView::Okay,
        ),
        RequestView::Del { bucket, key } => (
            store_remove(s, bucket, key),
            if lookup(s, bucket, key) is Some {
                ResponseView::Okay
            } else {
                ResponseView::Nil
            },
        ),
    }
}

/// What applying `rs`, one after the other, leaves in a store holding `s`, and the answers, in
/// order.
pub open spec fn apply_all_spec(rs: Seq<RequestView>, s: StoreView) -> (StoreView, Seq<ResponseView>)
    decreases rs.len(),
{
    if rs.len() == 0 {
        (s, Seq::empty())
    } else {
        let (next, answer) = apply_spec(rs[0], s);
        let (last, answers) = apply_all_spec(rs.drop_first(), next);
        (last, seq![answer] + answers)
    }
}

/// Applies a request to the store.
pub fn apply(request: Request, store: &mut Store) -> (response: Response)
    ensures
        (final(store)@, response@) == apply_spec(request@, old(store)@),
{
    match request {
        Request::Get { bucket, key } => match store.get(&bucket, &key) {
            Some(value) => Response::Value(value.clone()),
            None => Response::Nil,
        },
        Request::Put { bucket, key, value } => {
            store.insert(bucket, key, value);
            Response::Okay
        },
        Request::Del { bucket, key } => match store.remove(&bucket, &key) {
            Some(_) => Response::Okay,
            None => Response::Nil,
        },
    }
}

/// A value written can be read back: a `GET` after a `SET` of the same key answers that value.
pub proof fn law_get_after_set(s: StoreView, bucket: Seq<char>, key: Seq<char>, value: Seq<char>)
    ensures
        apply_spec(
            RequestView::Get { bucket, key },
            apply_spec(RequestView::Put { bucket, key, value }, s).0,
        ).1 == ResponseView::Value(value),
{
}

/// A value deleted is gone: a `GET` after a `DEL` of the same key answers `NIL`.
pub proof fn law_get_after_del(s: StoreView, bucket: Seq<char>, key: Seq<char>)
    ensures
        apply_spec(RequestView::Get { bucket, key }, apply_spec(RequestView::Del { bucket, key }, s).0).1
            == ResponseView::Nil,
{
}

/// Reading changes nothing.
pub proof fn law_get_changes_nothing(s: StoreView, bucket: Seq<char>, key: Seq<char>)
    ensures
        apply_spec(RequestView::Get { bucket, key }, s).0 == s,
{
}

/// A `DEL` answers `OK` exactly when there was something to delete, and `NIL` otherwise.
pub proof fn law_del_answers_whether_it_found_something(
    s: StoreView,
    bucket: Seq<char>,
    key: Seq<char>,
)
    ensures
        apply_spec(RequestView::Del { bucket, key }, s).1 == if lookup(s, bucket, key) is Some {
            ResponseView::Okay
        } else {
            ResponseView::Nil
        },
{
}

/// A `SET` always answers `OK`.
pub proof fn law_set_answers_ok(s: StoreView, bucket: Seq<char>, key: Seq<char>, value: Seq<char>)
    ensures
        apply_spec(RequestView::Put { bucket, key, value }, s).1 == ResponseView::Okay,
{
}

/// A write to one key is invisible to every other key, in the same bucket or another.
pub proof fn law_writes_are_confined_to_their_key(
    s: StoreView,
    request: RequestView,
    bucket: Seq<char>,
    key: Seq<char>,
)
    requires
        !(request is Get),
        match request {
            RequestView::Put { bucket: b, key: k, .. } => b != bucket || k != key,
            RequestView::Del { bucket: b, key: k } => b != bucket || k != key,
            RequestView::Get { .. } => true,
        },
    ensures
        apply_spec(RequestView::Get { bucket, key }, apply_spec(request, s).0).1 == apply_spec(
            RequestView::Get { bucket, key },
            s,
        ).1,
{
    match request {
        RequestView::Put { bucket: b, key: k, value: v } => {
            if b == bucket {
                assert(bucket_contents(s, b).insert(k, v).contains_key(key) == bucket_contents(
                    s,
                    b,
                ).contains_key(key));
            }
        },
        _ => {},
    }
}

/// A bucket that has been emptied is still listed: deleting its last key keeps the bucket.
pub proof fn law_emptied_bucket_is_kept(s: StoreView, bucket: Seq<char>, key: Seq<char>)
    requires
        s.contains_key(bucket),
    ensures
        apply_spec(RequestView::Del { bucket, key }, s).0.contains_key(bucket),
{
}

/// What the store answers when it is too busy to take a request in time.
pub fn busy() -> (r: Response)
    ensures
        r@ == ResponseView::Error("busy"@),
{
    let mut m = String::new();
    push_str(&mut m, "busy");
    Response::Error(m)
}

/// What a connection is told when the task that owns the store is gone.
pub fn store_gone() -> (r: Response)
    ensures
        r@ == ResponseView::Error("the store is gone"@),
{
    let mut m = String::new();
    push_str(&mut m, "the store is gone");
    Response::Error(m)
}

/// The answer to a request that was handed to the store: its answer, if it came in time, and
/// `ERR busy` if it did not.
pub fn answer_in_time(answer: Option<Response>) -> (r: Response)
    ensures
        r@ == match answer {
            Some(a) => a@,
            None => ResponseView::Error("busy"@),
        },
{
    match answer {
        Some(a) => a,
        None => busy(),
    }
}

/// The answer to a request the store task accepted: its reply, or, when the reply never came
/// because the task fell over, that the store is gone.
pub fn answer_or_gone(reply: Option<Response>) -> (r: Response)
    ensures
        r@ == match reply {
            Some(a) => a@,
            None => ResponseView::Error("the store is gone"@),
        },
{
    match reply {
        Some(a) => a,
        None => store_gone(),
    }
}

/// Why a request could not be handed to the store task without waiting.
pub enum Refusal {
    /// The mailbox is full.
    Full,
    /// The store task is gone.
    Closed,
}

/// What a client is told when its request was refused rather than queued.
pub fn refused(why: Refusal) -> (r: Response)
    ensures
        r@ == match why {
            Refusal::Full => ResponseView::Error("busy"@),
            Refusal::Closed => ResponseView::Error("the store is gone"@),
        },
{
    match why {
        Refusal::Full => busy(),
        Refusal::Closed => store_gone(),
    }
}

/// Something that happens to a connection while it waits for the client's next line.
pub enum ConnectionEvent {
    /// The client sent a line.
    Line(String),
    /// The client hung up.
    Closed,
    /// The housekeeping timer went off.
    Tick,
    /// The client said nothing for as long as it may.
    Idle,
    /// The server was asked to stop.
    Shutdown,
}

/// What a connection does next.
pub enum ConnectionStep {
    /// Hand this request to the store and send back what it answers.
    Forward(Request),
    /// Send back this response without troubling the store.
    Reply(Response),
    /// Go back to waiting, with the idle deadline left as it was.
    Continue,
    /// Close the connection.
    HangUp,
}

/// Where the idle deadline falls after an event that happened at `now`: a line from the client,
/// whatever it says, starts the limit over; nothing else moves it.
pub open spec fn step_deadline(now: nat, is_line: bool, idle: nat, deadline: nat) -> nat {
    if is_line {
        now + idle
    } else {
        deadline
    }
}

/// Where the idle deadline falls after a run of events, each given as the time it happened and
/// whether it was a line, starting from `deadline`.
pub open spec fn run_deadline(events: Seq<(nat, bool)>, idle: nat, deadline: nat) -> nat
    decreases events.len(),
{
    if events.len() == 0 {
        deadline
    } else {
        step_deadline(
            events.last().0,
            events.last().1,
            idle,
            run_deadline(events.drop_last(), idle, deadline),
        )
    }
}

/// Moves the idle deadline for an event that happened at `now`, on the connection's own clock.
pub fn deadline_after(event: &ConnectionEvent, now: u128, idle: u128, deadline: u128) -> (r: u128)
    requires
        event is Line ==> now + idle <= u128::MAX,
    ensures
        r == step_deadline(now as nat, event is Line, idle as nat, deadline as nat),
{
    match event {
        ConnectionEvent::Line(_) => now + idle,
        _ => deadline,
    }
}

/// The idle limit is measured from the last request: after any run of events, the deadline is
/// the time of the latest line plus the limit, however many ticks came after it.
pub proof fn law_idle_limit_counts_from_the_last_line(
    events: Seq<(nat, bool)>,
    idle: nat,
    deadline: nat,
    i: int,
)
    requires
        0 <= i < events.len(),
        events[i].1,
        forall|j: int| i < j < events.len() ==> !(#[trigger] events[j]).1,
    ensures
        run_deadline(events, idle, deadline) == events[i].0 + idle,
    decreases events.len(),
{
    if i < events.len() - 1 {
        let init = events.drop_last();
        assert(init[i] == events[i]);
        assert forall|j: int| i < j < init.len() implies !(#[trigger] init[j]).1 by {
            assert(init[j] == events[j]);
        }
        assert(!events[events.len() - 1].1);
        law_idle_limit_counts_from_the_last_line(init, idle, deadline, i);
    }
}

/// Without a line, the deadline stays where it started: ticks never push it back.
pub proof fn law_ticks_leave_the_deadline(events: Seq<(nat, bool)>, idle: nat, deadline: nat)
    requires
        forall|j: int| 0 <= j < events.len() ==> !(#[trigger] events[j]).1,
    ensures
        run_deadline(events, idle, deadline) == deadline,
    decreases events.len(),
{
    if events.len() > 0 {
        let init = events.drop_last();
        assert forall|j: int| 0 <= j < init.len() implies !(#[trigger] init[j]).1 by {
            assert(init[j] == events[j]);
        }
        assert(!events[events.len() - 1].1);
        law_ticks_leave_the_deadline(init, idle, deadline);
    }
}

/// Decides what a connection does about one event.
pub fn on_event(event: ConnectionEvent) -> (step: ConnectionStep)
    requires
        event matches ConnectionEvent::Line(line) ==> byte_len(line@) <= usize::MAX,
    ensures
        match event {
            ConnectionEvent::Line(line) => match parse_request_spec(line@) {
                Ok(r) => step matches ConnectionStep::Forward(request) && request@ == r,
                Err(e) => step matches ConnectionStep::Reply(response) && response@
                    == ResponseView::Error(protocol_error_text(e)),
            },
            ConnectionEvent::Tick => step is Continue,
            _ => step is HangUp,
        },
{
    match event {
        ConnectionEvent::Line(line) => match Request::parse(line.as_str()) {
            Ok(request) => ConnectionStep::Forward(request),
            Err(error) => ConnectionStep::Reply(Response::Error(error.to_string())),
        },
        ConnectionEvent::Tick => ConnectionStep::Continue,
        ConnectionEvent::Closed => ConnectionStep::HangUp,
        ConnectionEvent::Idle => ConnectionStep::HangUp,
        ConnectionEvent::Shutdown => ConnectionStep::HangUp,
    }
}

/// Something that happens to the server while it accepts connections.
pub enum ServerEvent {
    /// A client connected, and a connection slot was free for it.
    Accepted,
    /// Accepting failed.
    AcceptFailed,
    /// The server was asked to stop.
    Shutdown,
    /// The task that owns the store is gone.
    StoreGone,
}

/// What the server does next.
pub enum ServerStep {
    /// Serve the new client on a task of its own, and go back to accepting.
    Serve,
    /// Stop accepting, give the connections in flight their grace period, and report success.
    Drain,
    /// Stop, and report what went wrong.
    Fail,
}

/// Decides what the server does about one event: a dead store takes the server with it, and a
/// shutdown stops it cleanly.
pub fn on_server_event(event: ServerEvent) -> (step: ServerStep)
    ensures
        step == match event {
            ServerEvent::Accepted => ServerStep::Serve,
            ServerEvent::Shutdown => ServerStep::Drain,
            ServerEvent::AcceptFailed => ServerStep::Fail,
            ServerEvent::StoreGone => ServerStep::Fail,
        },
{
    match event {
        ServerEvent::Accepted => ServerStep::Serve,
        ServerEvent::Shutdown => ServerStep::Drain,
        ServerEvent::AcceptFailed => ServerStep::Fail,
        ServerEvent::StoreGone => ServerStep::Fail,
    }
}

} // verus!
