use suborbital::errors::{ErrorKind, ErrorMap, HostErr};

#[test]
fn an_empty_map_reads_every_sentinel_as_a_host_failure() {
    let errors = ErrorMap::new();
    for sentinel in [-1, -2, -100, i32::MIN] {
        assert_eq!(errors.classify(sentinel), HostErr::Invocation(sentinel));
    }
}

#[test]
fn an_assigned_sentinel_has_its_kind() {
    let mut errors = ErrorMap::new();
    assert!(errors.assign(-2, ErrorKind::NotFound));
    assert!(errors.assign(-3, ErrorKind::Encoding));
    assert!(errors.assign(-4, ErrorKind::HostInvocation));
    assert_eq!(errors.classify(-2), HostErr::NotFound);
    assert_eq!(errors.classify(-3), HostErr::Encoding);
    assert_eq!(errors.classify(-4), HostErr::Invocation(-4));
    assert_eq!(errors.classify(-1), HostErr::Invocation(-1));
}

#[test]
fn a_later_assignment_replaces_an_earlier_one() {
    let mut errors = ErrorMap::new();
    assert!(errors.assign(-2, ErrorKind::NotFound));
    assert!(errors.assign(-7, ErrorKind::Encoding));
    assert!(errors.assign(-2, ErrorKind::Encoding));
    assert_eq!(errors.classify(-2), HostErr::Encoding);
    assert!(errors.assign(-2, ErrorKind::HostInvocation));
    assert_eq!(errors.classify(-2), HostErr::Invocation(-2));
    assert_eq!(errors.classify(-7), HostErr::Encoding);
}

#[test]
fn a_size_is_no_sentinel() {
    let mut errors = ErrorMap::new();
    assert!(!errors.assign(0, ErrorKind::NotFound));
    assert!(!errors.assign(1, ErrorKind::NotFound));
    assert!(!errors.assign(i32::MAX, ErrorKind::Encoding));
    assert_eq!(errors.classify(0), HostErr::Invocation(0));
    assert_eq!(errors.classify(1), HostErr::Invocation(1));
}

#[test]
fn every_failure_has_its_kind() {
    assert_eq!(HostErr::Encoding.kind(), ErrorKind::Encoding);
    assert_eq!(HostErr::NotFound.kind(), ErrorKind::NotFound);
    assert_eq!(HostErr::Invocation(-9).kind(), ErrorKind::HostInvocation);
}
