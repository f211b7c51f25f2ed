//! Typed failures, and the table that turns a host's negative handles
//! into them.

use vstd::prelude::*;

verus! {

/// What a failed call can mean.
#[derive(Clone, Copy, Debug, PartialEq, Eq, Structural)]
pub enum ErrorKind {
    /// A name, key or argument cannot be handed over as a byte sequence.
    Encoding,
    /// The host failed in a way that has no more specific kind.
    HostInvocation,
    /// What was asked for is absent.
    NotFound,
}

/// The failure of one call.
#[derive(Clone, Copy, Debug, PartialEq, Eq, Structural)]
pub enum HostErr {
    /// A name, key or argument cannot be handed over as a byte sequence.
    Encoding,
    /// The host failed; the handle it returned is kept as it came.
    Invocation(i32),
    /// What was asked for is absent.
    NotFound,
}

/// The outcome of one call: a value, or exactly one failure.
pub type HostResult<T> = Result<T, HostErr>;

impl HostErr {
    /// The kind of this failure.
    pub open spec fn spec_kind(self) -> ErrorKind {
        match self {
            HostErr::Encoding => ErrorKind::Encoding,
            HostErr::Invocation(_) => ErrorKind::HostInvocation,
            HostErr::NotFound => ErrorKind::NotFound,
        }
    }

    /// The kind of this failure.
    #[verifier::when_used_as_spec(spec_kind)]
    pub fn kind(self) -> (kind: ErrorKind)
        ensures
            kind == self.spec_kind(),
    {
        match self {
            HostErr::Encoding => ErrorKind::Encoding,
            HostErr::Invocation(_) => ErrorKind::HostInvocation,
            HostErr::NotFound => ErrorKind::NotFound,
        }
    }
}

/// The kind that a table gives to `sentinel`: the one assigned to it, or
/// a plain host failure where none was.
pub open spec fn kind_for(table: Map<i32, ErrorKind>, sentinel: i32) -> ErrorKind {
    if table.contains_key(sentinel) {
        table[sentinel]
    } else {
        ErrorKind::HostInvocation
    }
}

/// The failure that a table gives for `sentinel`. A plain host failure
/// carries the sentinel itself.
pub open spec fn error_for(table: Map<i32, ErrorKind>, sentinel: i32) -> HostErr {
    match kind_for(table, sentinel) {
        ErrorKind::Encoding => HostErr::Encoding,
        ErrorKind::HostInvocation => HostErr::Invocation(sentinel),
        ErrorKind::NotFound => HostErr::NotFound,
    }
}

/// The table that a list of assignments amounts to: a later assignment
/// to a sentinel replaces an earlier one.
pub open spec fn table_of(entries: Seq<(i32, ErrorKind)>) -> Map<i32, ErrorKind>
    decreases entries.len(),
{
    if entries.len() == 0 {
        Map::empty()
    } else {
        table_of(entries.drop_last()).insert(entries.last().0, entries.last().1)
    }
}

/// The newest assignment to a sentinel decides its kind.
proof fn lemma_newest_assignment_decides(entries: Seq<(i32, ErrorKind)>, at: int, sentinel: i32)
    requires
        0 <= at < entries.len(),
        entries[at].0 == sentinel,
        forall|j: int| at < j < entries.len() ==> entries[j].0 != sentinel,
    ensures
        table_of(entries).contains_key(sentinel),
        table_of(entries)[sentinel] == entries[at].1,
    decreases entries.len(),
{
    if at < entries.len() - 1 {
        lemma_newest_assignment_decides(entries.drop_last(), at, sentinel);
    }
}

/// A sentinel that was never assigned is not in the table.
proof fn lemma_unassigned_is_absent(entries: Seq<(i32, ErrorKind)>, sentinel: i32)
    requires
        forall|j: int| 0 <= j < entries.len() ==> entries[j].0 != sentinel,
    ensures
        !table_of(entries).contains_key(sentinel),
    decreases entries.len(),
{
    if entries.len() > 0 {
        lemma_unassigned_is_absent(entries.drop_last(), sentinel);
    }
}

/// The host's agreement on what its negative handles mean. It is
/// supplied by whoever knows the host; nothing is assumed of a sentinel
/// that was not assigned but that it is a failure of the host.
#[derive(Debug)]
pub struct ErrorMap {
    entries: Vec<(i32, ErrorKind)>,
}

impl View for ErrorMap {
    type V = Map<i32, ErrorKind>;

    closed spec fn view(&self) -> Map<i32, ErrorKind> {
        table_of(self.entries@)
    }
}

impl ErrorMap {
    #[verifier::type_invariant]
    spec fn negative_keys(&self) -> bool {
        forall|j: int| 0 <= j < self.entries@.len() ==> self.entries@[j].0 < 0
    }

    /// A table in which every sentinel is a plain host failure.
    pub fn new() -> (map: ErrorMap)
        ensures
            map@ == Map::<i32, ErrorKind>::empty(),
    {
        ErrorMap { entries: Vec::new() }
    }

    /// Gives `sentinel` the kind `kind`, in place of any it had. Only a
    /// negative value is a sentinel: another is refused and the table
    /// stays as it was.
    pub fn assign(&mut self, sentinel: i32, kind: ErrorKind) -> (accepted: bool)
        ensures
            accepted == (sentinel < 0),
            accepted ==> final(self)@ == old(self)@.insert(sentinel, kind),
            !accepted ==> final(self)@ == old(self)@,
    {
        if sentinel < 0 {
            proof {
                use_type_invariant(&*self);
            }
            let mut entries: Vec<(i32, ErrorKind)> = Vec::new();
            core::mem::swap(&mut self.entries, &mut entries);
            entries.push((sentinel, kind));
            proof {
                assert(entries@.drop_last() == old(self).entries@);
            }
            core::mem::swap(&mut self.entries, &mut entries);
            true
        } else {
            false
        }
    }

    /// The failure that `sentinel` stands for. Every value gets exactly
    /// one, and a value that is no sentinel, having no assignment, gets
    /// a plain host failure.
    pub fn classify(&self, sentinel: i32) -> (error: HostErr)
        ensures
            error == error_for(self@, sentinel),
            sentinel >= 0 ==> error == HostErr::Invocation(sentinel),
    {
        proof {
            use_type_invariant(self);
        }
        let mut i: usize = self.entries.len();
        while i > 0
            invariant
                i <= self.entries@.len(),
                forall|j: int| 0 <= j < self.entries@.len() ==> self.entries@[j].0 < 0,
                forall|j: int| i <= j < self.entries@.len() ==> self.entries@[j].0 != sentinel,
            decreases i,
        {
            i = i - 1;
            if self.entries[i].0 == sentinel {
                proof {
                    lemma_newest_assignment_decides(self.entries@, i as int, sentinel);
                }
                return match self.entries[i].1 {
                    ErrorKind::Encoding => HostErr::Encoding,
                    ErrorKind::HostInvocation => HostErr::Invocation(sentinel),
                    ErrorKind::NotFound => HostErr::NotFound,
                };
            }
        }
        proof {
            lemma_unassigned_is_absent(self.entries@, sentinel);
        }
        HostErr::Invocation(sentinel)
    }
}

} // verus!
