//! The store, and what requests do to it.

use minidb::checksum::checksum;
use minidb::names::{Bucket, Key, Value};
use minidb::protocol::{Request, Response};
use minidb::server::apply;
use minidb::store::{get_cloned, Store};

fn bucket(name: &str) -> Bucket {
    Bucket::parse(name).unwrap()
}

fn key(name: &str) -> Key {
    Key::parse(name).unwrap()
}

fn value(text: &str) -> Value {
    Value::parse(text).unwrap()
}

fn store_with_two_users() -> Store {
    let mut store = Store::new();
    store.insert(bucket("users"), key("alice"), value("Alice"));
    store.insert(bucket("users"), key("bob"), value("Bob"));
    store
}

#[test]
fn an_insert_returns_what_it_replaced() {
    let mut store = Store::new();
    assert!(store.insert(bucket("users"), key("alice"), value("one")) == None);
    assert!(store.insert(bucket("users"), key("alice"), value("two")) == Some(value("one")));
    assert!(store.get(&bucket("users"), &key("alice")) == Some(&value("two")));
}

#[test]
fn buckets_keep_their_keys_apart() {
    let mut store = store_with_two_users();
    store.insert(bucket("admins"), key("alice"), value("root"));
    assert!(store.get(&bucket("users"), &key("alice")) == Some(&value("Alice")));
    assert!(store.get(&bucket("admins"), &key("alice")) == Some(&value("root")));
    assert!(store.get(&bucket("admins"), &key("bob")) == None);
    assert!(store.get(&bucket("nobody"), &key("bob")) == None);
}

#[test]
fn a_remove_returns_what_it_removed() {
    let mut store = store_with_two_users();
    assert!(store.remove(&bucket("users"), &key("bob")) == Some(value("Bob")));
    assert!(store.remove(&bucket("users"), &key("bob")) == None);
    assert!(store.remove(&bucket("nobody"), &key("bob")) == None);
    assert!(store.get(&bucket("users"), &key("alice")) == Some(&value("Alice")));
}

#[test]
fn an_emptied_bucket_is_still_listed() {
    let mut store = Store::new();
    assert!(store.buckets().len() == 0);
    store.insert(bucket("users"), key("alice"), value("Alice"));
    store.insert(bucket("sessions"), key("s1"), value("x"));
    store.insert(bucket("users"), key("bob"), value("Bob"));
    store.remove(&bucket("sessions"), &key("s1"));
    let names: Vec<&str> = store.buckets().iter().map(|b| b.as_str()).collect();
    assert!(names == vec!["users", "sessions"]);
}

#[test]
fn a_default_store_is_empty() {
    let store = Store::default();
    assert!(store.buckets().len() == 0);
}

#[test]
fn a_cloned_lookup_is_the_stored_value() {
    let store = store_with_two_users();
    assert!(get_cloned(&store, &bucket("users"), &key("bob")) == Some(value("Bob")));
    assert!(get_cloned(&store, &bucket("users"), &key("carol")) == None);
}

#[test]
fn a_value_written_is_read_back_and_deleted() {
    let mut store = Store::new();
    let set = Request::parse("SET users alice hello").unwrap();
    let get = Request::parse("GET users alice").unwrap();
    let del = Request::parse("DEL users alice").unwrap();
    assert!(apply(set, &mut store) == Response::Okay);
    assert!(apply(get.clone(), &mut store) == Response::Value(value("hello")));
    assert!(apply(del.clone(), &mut store) == Response::Okay);
    assert!(apply(get, &mut store) == Response::Nil);
    assert!(apply(del, &mut store) == Response::Nil);
}

#[test]
fn a_write_to_one_key_leaves_the_others_alone() {
    let mut store = store_with_two_users();
    apply(Request::parse("SET users alice changed").unwrap(), &mut store);
    apply(Request::parse("DEL other bob").unwrap(), &mut store);
    assert!(apply(Request::parse("GET users bob").unwrap(), &mut store) == Response::Value(value("Bob")));
}

#[test]
fn the_checksum_mixes_every_bucket_name() {
    let mut store = Store::new();
    assert!(checksum(&store) == 0);
    store.insert(bucket("a"), key("k"), value("v"));
    // With one bucket of weight 97, each round is sum * 31 + 97, wrapping.
    let mut expected = 0u64;
    for _ in 0..200_000 {
        expected = expected.wrapping_mul(31).wrapping_add(97);
    }
    assert!(checksum(&store) == expected);
}

#[test]
fn it_is_the_same_checksum_every_time() {
    let mut store = Store::new();
    for name in ["users", "sessions", "audit-log"] {
        store.insert(bucket(name), key("seed"), value(name));
    }
    assert!(checksum(&store) == checksum(&store));
}
