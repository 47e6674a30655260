//! The write-ahead log's records and their replay.

use minidb::actor::settle;
use minidb::names::{Bucket, Key, Value};
use minidb::protocol::{ProtocolError, Request, Response};
use minidb::server::apply;
use minidb::store::Store;
use minidb::wal::{batch_records, plan_commit, record, record_for, replay_records};

fn lines(text: &str) -> Vec<String> {
    text.lines().map(str::to_owned).collect()
}

fn users_key(name: &str) -> (Bucket, Key) {
    (Bucket::parse("users").unwrap(), Key::parse(name).unwrap())
}

#[test]
fn records_are_request_lines() {
    let set = Request::parse("SET users alice hello").unwrap();
    let del = Request::parse("DEL users alice").unwrap();
    assert!(record(&set) + &record(&del) == "SET users alice hello\nDEL users alice\n");
}

#[test]
fn only_changes_get_a_record() {
    assert!(record_for(&Request::parse("SET users alice hello").unwrap()) == Some("SET users alice hello\n".to_owned()));
    assert!(record_for(&Request::parse("DEL users alice").unwrap()) == Some("DEL users alice\n".to_owned()));
    assert!(record_for(&Request::parse("GET users alice").unwrap()) == None);
}

#[test]
fn a_log_with_nothing_in_it_is_an_empty_store() {
    let store = replay_records(&Vec::new()).ok().unwrap();
    assert!(store.buckets().len() == 0);
}

#[test]
fn replay_applies_records_in_order() {
    let store = replay_records(&lines(
        "SET users alice hello\nSET users bob hi\nSET users alice goodbye\nDEL users bob\n",
    ))
    .ok()
    .unwrap();
    let (users, alice) = users_key("alice");
    let (_, bob) = users_key("bob");
    assert!(store.get(&users, &alice) == Some(&Value::parse("goodbye").unwrap()));
    assert!(store.get(&users, &bob) == None);
}

#[test]
fn an_unparsable_record_stops_the_replay() {
    let error = replay_records(&lines("SET users alice hello\nHELLO?\n"))
        .err()
        .unwrap();
    assert!(error.record == "HELLO?");
    assert!(error.error == ProtocolError::UnknownVerb("HELLO?".to_owned()));
    assert!(error.to_string() == "HELLO?: unknown verb HELLO?");
}

#[test]
fn replaying_a_log_rebuilds_the_live_store() {
    let requests = [
        "SET users alice hello",
        "GET users alice",
        "SET users bob hi",
        "DEL users bob",
        "DEL users carol",
    ];
    let mut live = Store::new();
    let mut log = String::new();
    for line in requests {
        let request = Request::parse(line).unwrap();
        if let Some(text) = record_for(&request) {
            log.push_str(&text);
        }
        apply(request, &mut live);
    }
    let replayed = replay_records(&lines(&log)).ok().unwrap();
    let (users, alice) = users_key("alice");
    let (_, bob) = users_key("bob");
    assert!(replayed.get(&users, &alice) == live.get(&users, &alice));
    assert!(replayed.get(&users, &bob) == None);
    assert!(replayed.get(&users, &alice) == Some(&Value::parse("hello").unwrap()));
}

#[test]
fn an_unlogged_change_is_refused_and_undone() {
    let mut store = Store::new();
    let refused = settle(
        &mut store,
        Request::parse("SET users alice hello").unwrap(),
        &Err("Bad file descriptor (os error 9)".to_owned()),
    );
    assert!(refused == Response::Error("not logged: Bad file descriptor (os error 9)".to_owned()));
    assert!(settle(&mut store, Request::parse("GET users alice").unwrap(), &Ok(())) == Response::Nil);
}

#[test]
fn a_change_that_was_written_down_is_applied() {
    let mut store = Store::new();
    assert!(settle(&mut store, Request::parse("SET users alice hello").unwrap(), &Ok(())) == Response::Okay);
    assert!(settle(&mut store, Request::parse("GET users alice").unwrap(), &Ok(())) == Response::Value(Value::parse("hello").unwrap()));
}

#[test]
fn a_batch_writes_down_its_changes_in_order() {
    let requests: Vec<Request> = [
        "SET users alice hello",
        "GET users alice",
        "DEL users bob",
        "GET users bob",
    ]
    .iter()
    .map(|line| Request::parse(line).unwrap())
    .collect();
    let batch: Vec<&Request> = requests.iter().collect();
    assert!(batch_records(&batch) == vec!["SET users alice hello\n".to_owned(), "DEL users bob\n".to_owned()]);
    let reads: Vec<&Request> = requests.iter().skip(3).collect();
    assert!(batch_records(&reads).is_empty(), "a batch of reads needs no sync");
}

#[test]
fn a_batch_that_changed_something_is_synced_once() {
    let requests: Vec<Request> = ["GET users alice", "SET users alice hi", "DEL users bob"]
        .iter()
        .map(|line| Request::parse(line).unwrap())
        .collect();
    let batch: Vec<&Request> = requests.iter().collect();
    let plan = plan_commit(&batch);
    assert!(plan.sync);
    assert!(plan.records == vec!["SET users alice hi\n".to_owned(), "DEL users bob\n".to_owned()]);

    let reads: Vec<&Request> = requests.iter().take(1).collect();
    let plan = plan_commit(&reads);
    assert!(!plan.sync);
    assert!(plan.records.is_empty());
}
