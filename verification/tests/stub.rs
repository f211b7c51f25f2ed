use suborbital::host::{Host, MAX_LEN};
use suborbital::stub::{Record, Reply, StubHost};

fn stub() -> StubHost {
    StubHost::new(-6, Reply::Bytes(b"rows".to_vec()), Reply::Sentinel(-8)).unwrap()
}

#[test]
fn a_new_stub_has_made_no_call() {
    assert!(stub().log().is_empty());
}

#[test]
fn a_stub_needs_negative_sentinels() {
    assert!(StubHost::new(0, Reply::Sentinel(-1), Reply::Sentinel(-1)).is_none());
    assert!(StubHost::new(5, Reply::Sentinel(-1), Reply::Sentinel(-1)).is_none());
    assert!(StubHost::new(-1, Reply::Sentinel(0), Reply::Sentinel(-1)).is_none());
    assert!(StubHost::new(-1, Reply::Sentinel(-1), Reply::Sentinel(3)).is_none());
    assert!(StubHost::new(-1, Reply::Sentinel(i32::MIN), Reply::Bytes(Vec::new())).is_some());
}

#[test]
fn a_stub_needs_answers_that_can_cross_the_boundary() {
    let long = vec![0u8; MAX_LEN + 1];
    assert!(StubHost::new(-1, Reply::Bytes(long), Reply::Sentinel(-1)).is_none());
}

#[test]
fn the_cache_answers_with_the_length_or_the_miss() {
    let mut host = stub();
    assert_eq!(host.cache_get(b"k"), -6);
    host.cache_set(b"k", b"12345", 60);
    assert_eq!(host.cache_get(b"k"), 5);
    assert_eq!(host.cache_get(b"K"), -6);
    assert_eq!(host.cache_get(b""), -6);
}

#[test]
fn scripted_calls_answer_as_told() {
    let mut host = stub();
    assert_eq!(host.db_exec(0, b"q"), 4);
    assert_eq!(host.db_exec(1, b"other"), 4);
    assert_eq!(host.graphql_query(b"e", b"q"), -8);
}

#[test]
fn a_fetch_copies_the_staged_result() {
    let mut host = stub();
    assert_eq!(host.db_exec(0, b"q"), 4);
    let mut buffer = vec![0u8; 4];
    host.fetch_result(&mut buffer);
    assert_eq!(buffer, b"rows".to_vec());
}

#[test]
fn a_fetch_takes_the_staged_result_away() {
    let mut host = stub();
    assert_eq!(host.db_exec(0, b"q"), 4);
    let mut first = vec![0u8; 4];
    host.fetch_result(&mut first);
    let mut second = vec![7u8; 4];
    host.fetch_result(&mut second);
    assert_eq!(second, vec![7u8; 4]);
}

#[test]
fn a_fetch_never_changes_the_length_of_the_buffer() {
    let mut host = stub();
    assert_eq!(host.db_exec(0, b"q"), 4);
    let mut short = vec![0u8; 2];
    host.fetch_result(&mut short);
    assert_eq!(short, b"ro".to_vec());
    assert_eq!(host.db_exec(0, b"q"), 4);
    let mut long = vec![9u8; 6];
    host.fetch_result(&mut long);
    assert_eq!(long, vec![b'r', b'o', b'w', b's', 9, 9]);
}

#[test]
fn a_failed_call_stages_nothing() {
    let mut host = stub();
    assert_eq!(host.db_exec(0, b"q"), 4);
    assert_eq!(host.graphql_query(b"e", b"q"), -8);
    let mut buffer = vec![1u8; 4];
    host.fetch_result(&mut buffer);
    assert_eq!(buffer, vec![1u8; 4]);
}

#[test]
fn registering_keeps_what_is_staged() {
    let mut host = stub();
    assert_eq!(host.db_exec(0, b"q"), 4);
    host.add_var(b"n", b"v");
    host.cache_set(b"k", b"v", 0);
    let mut buffer = vec![0u8; 4];
    host.fetch_result(&mut buffer);
    assert_eq!(buffer, b"rows".to_vec());
}

#[test]
fn every_call_is_recorded_in_order() {
    let mut host = stub();
    host.add_var(b"n", b"v");
    assert_eq!(host.db_exec(1, b"q"), 4);
    let mut buffer = vec![0u8; 4];
    host.fetch_result(&mut buffer);
    host.cache_set(b"k", b"", -1);
    assert_eq!(host.cache_get(b"k"), 0);
    assert_eq!(host.graphql_query(b"e", b"d"), -8);
    assert_eq!(
        host.log(),
        &vec![
            Record::AddVar { name: b"n".to_vec(), value: b"v".to_vec() },
            Record::DbExec { kind: 1, name: b"q".to_vec(), handle: 4 },
            Record::FetchResult { bytes: b"rows".to_vec() },
            Record::CacheSet { key: b"k".to_vec(), value: Vec::new(), ttl: -1 },
            Record::CacheGet { key: b"k".to_vec(), handle: 0 },
            Record::GraphqlQuery { endpoint: b"e".to_vec(), query: b"d".to_vec(), handle: -8 },
        ]
    );
}
