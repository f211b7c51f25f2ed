use suborbital::errors::{ErrorKind, ErrorMap, HostErr};
use suborbital::host::{Guest, Host};
use suborbital::retriever::{advance, result, Event, Phase};
use suborbital::stub::{Record, Reply, StubHost};

/// A host that answers everything with one handle and fills every
/// buffer with one byte, counting its fetches.
struct Filling {
    handle: i32,
    byte: u8,
    fetches: usize,
    largest: usize,
}

impl Host for Filling {
    type Setup = ();

    fn cache_set(&mut self, _key: &[u8], _value: &[u8], _ttl: i32) {}

    fn cache_get(&mut self, _key: &[u8]) -> i32 {
        self.handle
    }

    fn add_var(&mut self, _name: &[u8], _value: &[u8]) {}

    fn db_exec(&mut self, _kind: i32, _name: &[u8]) -> i32 {
        self.handle
    }

    fn graphql_query(&mut self, _endpoint: &[u8], _query: &[u8]) -> i32 {
        self.handle
    }

    fn fetch_result(&mut self, dest: &mut [u8]) {
        self.fetches += 1;
        self.largest = self.largest.max(dest.len());
        for slot in dest.iter_mut() {
            *slot = self.byte;
        }
    }
}

fn filling(handle: i32) -> Guest<Filling> {
    Guest::new(Filling { handle, byte: 0xab, fetches: 0, largest: 0 }, ErrorMap::new())
}

#[test]
fn a_negative_handle_fetches_nothing() {
    for handle in [-1, -2, -77, i32::MIN] {
        let mut guest = filling(handle);
        assert_eq!(result(&mut guest, handle), Err(HostErr::Invocation(handle)));
        assert_eq!(guest.host().fetches, 0);
    }
}

#[test]
fn a_size_is_fetched_once_into_a_buffer_of_that_size() {
    for size in [0usize, 1, 2, 17, 4096] {
        let mut guest = filling(size as i32);
        assert_eq!(result(&mut guest, size as i32), Ok(vec![0xab; size]));
        assert_eq!(guest.host().fetches, 1);
        assert_eq!(guest.host().largest, size);
    }
}

#[test]
fn size_zero_is_a_success_and_not_a_failure() {
    let mut guest = filling(0);
    assert_eq!(result(&mut guest, 0), Ok(Vec::new()));
    assert_eq!(guest.host().fetches, 1);
}

#[test]
fn a_failure_is_read_by_the_error_map() {
    let mut guest = filling(-2);
    assert!(guest.assign(-2, ErrorKind::NotFound));
    assert!(guest.assign(-3, ErrorKind::Encoding));
    assert!(guest.assign(-4, ErrorKind::HostInvocation));
    assert_eq!(result(&mut guest, -2), Err(HostErr::NotFound));
    assert_eq!(result(&mut guest, -3), Err(HostErr::Encoding));
    assert_eq!(result(&mut guest, -4), Err(HostErr::Invocation(-4)));
    assert_eq!(result(&mut guest, -5), Err(HostErr::Invocation(-5)));
    assert_eq!(guest.host().fetches, 0);
}

#[test]
fn the_stub_records_the_one_fetch() {
    let mut host = StubHost::new(-1, Reply::Sentinel(-1), Reply::Sentinel(-1)).unwrap();
    host.cache_set(b"k", b"abc", 0);
    let handle = host.cache_get(b"k");
    assert_eq!(handle, 3);
    let mut guest = Guest::new(host, ErrorMap::new());
    assert_eq!(result(&mut guest, handle), Ok(b"abc".to_vec()));
    let host = guest.into_host();
    assert_eq!(host.log().len(), 3);
    assert_eq!(host.log()[2], Record::FetchResult { bytes: b"abc".to_vec() });
}

#[test]
fn an_answer_moves_a_waiting_call_to_its_size_or_to_failure() {
    let mut errors = ErrorMap::new();
    assert!(errors.assign(-2, ErrorKind::NotFound));
    assert_eq!(advance(&errors, Phase::Requested, Event::Answered(0)), Phase::Sized(0));
    assert_eq!(advance(&errors, Phase::Requested, Event::Answered(12)), Phase::Sized(12));
    assert_eq!(
        advance(&errors, Phase::Requested, Event::Answered(i32::MAX)),
        Phase::Sized(i32::MAX as usize)
    );
    assert_eq!(
        advance(&errors, Phase::Requested, Event::Answered(-2)),
        Phase::Failed(HostErr::NotFound)
    );
    assert_eq!(
        advance(&errors, Phase::Requested, Event::Answered(-1)),
        Phase::Failed(HostErr::Invocation(-1))
    );
}

#[test]
fn a_copy_moves_a_sized_call_to_its_result() {
    let errors = ErrorMap::new();
    assert_eq!(advance(&errors, Phase::Sized(5), Event::Copied), Phase::Fetched(5));
    assert_eq!(advance(&errors, Phase::Sized(0), Event::Copied), Phase::Fetched(0));
}

#[test]
fn a_call_has_no_result_before_it_has_a_size() {
    let errors = ErrorMap::new();
    assert_eq!(advance(&errors, Phase::Requested, Event::Copied), Phase::Requested);
}

#[test]
fn other_events_leave_a_call_where_it_is() {
    let errors = ErrorMap::new();
    let failed = Phase::Failed(HostErr::NotFound);
    assert_eq!(advance(&errors, Phase::Sized(5), Event::Answered(7)), Phase::Sized(5));
    assert_eq!(advance(&errors, Phase::Fetched(5), Event::Answered(-1)), Phase::Fetched(5));
    assert_eq!(advance(&errors, Phase::Fetched(5), Event::Copied), Phase::Fetched(5));
    assert_eq!(advance(&errors, failed, Event::Answered(3)), failed);
    assert_eq!(advance(&errors, failed, Event::Copied), failed);
}
