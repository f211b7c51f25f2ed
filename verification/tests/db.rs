use suborbital::db;
use suborbital::db::query::{QueryArg, QueryType};
use suborbital::errors::{ErrorKind, ErrorMap, HostErr};
use suborbital::host::{Guest, MAX_LEN};
use suborbital::stub::{Record, Reply, StubHost};

fn guest_answering(database: Reply) -> Guest<StubHost> {
    let host = StubHost::new(-1, database, Reply::Sentinel(-1)).unwrap();
    Guest::new(host, ErrorMap::new())
}

fn added(name: &str, value: &str) -> Record {
    Record::AddVar { name: name.as_bytes().to_vec(), value: value.as_bytes().to_vec() }
}

#[test]
fn select_with_a_sentinel_assigned_to_not_found_is_not_found() {
    let mut guest = guest_answering(Reply::Sentinel(-2));
    assert!(guest.assign(-2, ErrorKind::NotFound));
    assert_eq!(db::select(&mut guest, "getUser", Vec::new()), Err(HostErr::NotFound));
    assert_eq!(
        guest.host().log(),
        &vec![Record::DbExec { kind: 1, name: b"getUser".to_vec(), handle: -2 }]
    );
}

#[test]
fn select_with_an_unassigned_sentinel_keeps_the_sentinel() {
    let mut guest = guest_answering(Reply::Sentinel(-2));
    assert_eq!(db::select(&mut guest, "getUser", Vec::new()), Err(HostErr::Invocation(-2)));
}

#[test]
fn insert_returns_the_hosts_bytes_as_they_are() {
    let answer = b"{\"lastInsertID\":7}".to_vec();
    let mut guest = guest_answering(Reply::Bytes(answer.clone()));
    let args = vec![QueryArg::new("name", "a")];
    assert_eq!(db::insert(&mut guest, "addUser", args), Ok(answer));
}

#[test]
fn select_returns_the_hosts_bytes_as_they_are() {
    let answer = b"{\"id\":1,\"name\":\"a\"}".to_vec();
    let mut guest = guest_answering(Reply::Bytes(answer.clone()));
    let args = vec![QueryArg::new("id", "1")];
    assert_eq!(db::select(&mut guest, "getUser", args), Ok(answer));
}

#[test]
fn insert_registers_every_argument_in_order_before_the_query() {
    let answer = b"{}".to_vec();
    let mut guest = guest_answering(Reply::Bytes(answer.clone()));
    let args = vec![
        QueryArg::new("first", "1"),
        QueryArg::new("second", "two"),
        QueryArg::new("third", ""),
    ];
    assert_eq!(db::insert(&mut guest, "addRow", args), Ok(answer.clone()));
    assert_eq!(
        guest.host().log(),
        &vec![
            added("first", "1"),
            added("second", "two"),
            added("third", ""),
            Record::DbExec { kind: 0, name: b"addRow".to_vec(), handle: 2 },
            Record::FetchResult { bytes: answer },
        ]
    );
}

#[test]
fn select_registers_every_argument_in_order_before_the_query() {
    let mut guest = guest_answering(Reply::Sentinel(-9));
    let args = vec![QueryArg::new("b", "2"), QueryArg::new("a", "1")];
    assert_eq!(db::select(&mut guest, "pick", args), Err(HostErr::Invocation(-9)));
    assert_eq!(
        guest.host().log(),
        &vec![
            added("b", "2"),
            added("a", "1"),
            Record::DbExec { kind: 1, name: b"pick".to_vec(), handle: -9 },
        ]
    );
}

#[test]
fn a_query_without_arguments_registers_nothing() {
    let mut guest = guest_answering(Reply::Bytes(Vec::new()));
    assert_eq!(db::insert(&mut guest, "touch", Vec::new()), Ok(Vec::new()));
    assert_eq!(
        guest.host().log(),
        &vec![
            Record::DbExec { kind: 0, name: b"touch".to_vec(), handle: 0 },
            Record::FetchResult { bytes: Vec::new() },
        ]
    );
}

#[test]
fn two_queries_in_a_row_do_not_share_registrations() {
    let mut guest = guest_answering(Reply::Sentinel(-3));
    let first = vec![QueryArg::new("x", "1")];
    let second = vec![QueryArg::new("y", "2")];
    assert_eq!(db::insert(&mut guest, "one", first), Err(HostErr::Invocation(-3)));
    assert_eq!(db::select(&mut guest, "two", second), Err(HostErr::Invocation(-3)));
    assert_eq!(
        guest.host().log(),
        &vec![
            added("x", "1"),
            Record::DbExec { kind: 0, name: b"one".to_vec(), handle: -3 },
            added("y", "2"),
            Record::DbExec { kind: 1, name: b"two".to_vec(), handle: -3 },
        ]
    );
}

#[test]
fn query_kinds_have_their_numbers() {
    assert_eq!(QueryType::Insert.code(), 0);
    assert_eq!(QueryType::Select.code(), 1);
}

#[test]
fn a_query_argument_keeps_name_and_value() {
    let arg = QueryArg::new("name", "value");
    assert_eq!(arg.name, "name");
    assert_eq!(arg.value, "value");
}

#[test]
fn an_argument_too_long_for_the_boundary_fails_before_anything_is_registered() {
    let mut guest = guest_answering(Reply::Bytes(Vec::new()));
    let long = String::from_utf8(vec![b'v'; MAX_LEN + 1]).unwrap();
    let second = QueryArg { name: String::from("second"), value: long };
    let args = vec![QueryArg::new("first", "1"), second];
    assert_eq!(db::insert(&mut guest, "addRow", args), Err(HostErr::Encoding));
    assert!(guest.host().log().is_empty());
}

#[test]
fn a_query_name_too_long_for_the_boundary_is_an_encoding_failure() {
    let mut guest = guest_answering(Reply::Bytes(Vec::new()));
    let long = String::from_utf8(vec![b'n'; MAX_LEN + 1]).unwrap();
    let args = vec![QueryArg::new("first", "1")];
    assert_eq!(db::select(&mut guest, &long, args), Err(HostErr::Encoding));
    assert!(guest.host().log().is_empty());
}
