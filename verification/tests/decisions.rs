//! What connections, the server, the retry loop and a hand-written future decide.

use minidb::protocol::{Request, Response};
use minidb::retry::{backoff_delay, Backoff, ATTEMPTS, BASE_DELAY_MILLIS};
use minidb::runtime::PollCounter;
use minidb::text::is_blank;
use minidb::server::{
    answer_in_time, answer_or_gone, busy, deadline_after, on_event, on_server_event, refused, store_gone, ConnectionEvent,
    ConnectionStep, Refusal, ServerEvent, ServerStep,
};

const BASE: u128 = BASE_DELAY_MILLIS as u128 * 1_000_000;

#[test]
fn a_counter_is_pending_until_its_poll_count() {
    let mut counter = PollCounter::new(3);
    assert!(counter.poll_once() == None);
    assert!(counter.poll_once() == None);
    assert!(counter.poll_once() == Some(3));
}

#[test]
fn a_counter_made_ready_after_nothing_is_ready_at_once() {
    let mut counter = PollCounter::new(0);
    assert!(counter.poll_once() == Some(1));
}

#[test]
fn each_wait_is_double_the_last() {
    assert!(backoff_delay(ATTEMPTS, 1, BASE) == Some(BASE));
    assert!(backoff_delay(ATTEMPTS, 2, BASE) == Some(2 * BASE));
    assert!(backoff_delay(ATTEMPTS, 4, BASE) == Some(8 * BASE));
    assert!(backoff_delay(ATTEMPTS, 5, BASE) == None);
}

#[test]
fn the_waits_before_giving_up_add_up() {
    let mut backoff = Backoff::new(ATTEMPTS, BASE);
    let mut waited = 0;
    while let Some(delay) = backoff.on_failure() {
        waited += delay;
    }
    assert!(waited == BASE * 15, "100 + 200 + 400 + 800");
}

#[test]
fn a_single_attempt_never_waits() {
    let mut backoff = Backoff::new(1, BASE);
    assert!(backoff.on_failure() == None);
}

#[test]
fn a_line_is_forwarded_or_answered() {
    match on_event(ConnectionEvent::Line("SET users alice hello".to_owned())) {
        ConnectionStep::Forward(request) => {
            assert!(request == Request::parse("SET users alice hello").unwrap())
        }
        _ => panic!("a valid request goes to the store"),
    }
    match on_event(ConnectionEvent::Line("PING".to_owned())) {
        ConnectionStep::Reply(response) => {
            assert!(response.to_string() == "ERR unknown verb PING")
        }
        _ => panic!("a bad request is answered, not punished"),
    }
}

#[test]
fn only_a_tick_keeps_waiting() {
    assert!(matches!(on_event(ConnectionEvent::Tick), ConnectionStep::Continue));
    assert!(matches!(on_event(ConnectionEvent::Closed), ConnectionStep::HangUp));
    assert!(matches!(on_event(ConnectionEvent::Idle), ConnectionStep::HangUp));
    assert!(matches!(on_event(ConnectionEvent::Shutdown), ConnectionStep::HangUp));
}

#[test]
fn a_late_answer_is_busy() {
    assert!(answer_in_time(Some(Response::Okay)) == Response::Okay);
    assert!(answer_in_time(None).to_string() == "ERR busy");
    assert!(busy() == Response::Error("busy".to_owned()));
    assert!(store_gone() == Response::Error("the store is gone".to_owned()));
}

#[test]
fn a_refusal_says_why() {
    assert!(refused(Refusal::Full).to_string() == "ERR busy");
    assert!(refused(Refusal::Closed).to_string() == "ERR the store is gone");
}

#[test]
fn a_dead_store_stops_the_server() {
    assert!(matches!(on_server_event(ServerEvent::StoreGone), ServerStep::Fail));
    assert!(matches!(on_server_event(ServerEvent::AcceptFailed), ServerStep::Fail));
    assert!(matches!(on_server_event(ServerEvent::Shutdown), ServerStep::Drain));
    assert!(matches!(on_server_event(ServerEvent::Accepted), ServerStep::Serve));
}

#[test]
fn a_reply_that_never_comes_means_the_store_is_gone() {
    assert!(answer_or_gone(Some(Response::Nil)) == Response::Nil);
    assert!(answer_or_gone(None).to_string() == "ERR the store is gone");
}

#[test]
fn a_line_of_white_space_is_blank() {
    assert!(is_blank(""));
    assert!(is_blank(" \t\r\u{a0}\u{3000}"));
    assert!(!is_blank("  GET users alice "));
    assert!(!is_blank("\u{200b}"));
}

#[test]
fn only_a_line_restarts_the_idle_limit() {
    let idle = 30;
    let mut deadline = idle;
    deadline = deadline_after(&ConnectionEvent::Line("SET users alice hello".to_owned()), 10, idle, deadline);
    assert!(deadline == 40);
    deadline = deadline_after(&ConnectionEvent::Tick, 15, idle, deadline);
    assert!(deadline == 40, "a tick leaves the deadline where it was");
    deadline = deadline_after(&ConnectionEvent::Line("nonsense".to_owned()), 39, idle, deadline);
    assert!(deadline == 69, "even a line that is not a request counts");
}

#[test]
fn a_counter_reports_its_polls() {
    let mut counter = PollCounter::new(2);
    assert!(counter.poll_count() == 0);
    counter.poll_once();
    assert!(counter.poll_count() == 1);
}

/// Drives `Backoff` the way a retry loop does: one call per outcome until one succeeds or
/// the backoff gives up; returns the number of calls, the total wait and the last outcome.
fn run(outcomes: &[Result<u32, u32>], attempts: u32) -> (usize, u128, Result<u32, u32>) {
    let mut backoff = Backoff::new(attempts, BASE);
    let mut waited = 0;
    let mut calls = 0;
    loop {
        let outcome = outcomes[calls];
        calls += 1;
        if outcome.is_ok() {
            return (calls, waited, outcome);
        }
        match backoff.on_failure() {
            Some(delay) => waited += delay,
            None => return (calls, waited, outcome),
        }
    }
}

#[test]
fn a_retry_loop_stops_at_the_first_success() {
    let outcomes = [Err(1), Err(2), Ok(3), Ok(4)];
    assert!(run(&outcomes, ATTEMPTS) == (3, BASE + 2 * BASE, Ok(3)));
}

#[test]
fn a_retry_loop_that_never_succeeds_returns_the_last_error() {
    let outcomes = [Err(1), Err(2), Err(3), Err(4), Err(5), Err(6)];
    assert!(run(&outcomes, ATTEMPTS) == (5, BASE * 15, Err(5)));
}

#[test]
fn one_attempt_or_an_early_success_means_one_call_and_no_wait() {
    assert!(run(&[Err(1), Ok(2)], 1) == (1, 0, Err(1)));
    assert!(run(&[Ok(7)], ATTEMPTS) == (1, 0, Ok(7)));
}
