//! What a database call is made of: the kind of query, and its named
//! arguments.

use vstd::prelude::*;

verus! {

/// The kind of a prepared query.
#[derive(Clone, Copy, Debug, PartialEq, Eq, Structural)]
pub enum QueryType {
    Insert,
    Select,
}

impl QueryType {
    /// The number by which the host knows this kind.
    pub open spec fn spec_code(self) -> i32 {
        match self {
            QueryType::Insert => 0,
            QueryType::Select => 1,
        }
    }

    /// The number by which the host knows this kind.
    #[verifier::when_used_as_spec(spec_code)]
    pub fn code(self) -> (code: i32)
        ensures
            code == self.spec_code(),
    {
        match self {
            QueryType::Insert => 0,
            QueryType::Select => 1,
        }
    }
}

/// One named argument of a query.
#[derive(Debug)]
pub struct QueryArg {
    pub name: String,
    pub value: String,
}

impl QueryArg {
    /// The argument `name` with the value `value`.
    pub fn new(name: &str, value: &str) -> (arg: QueryArg)
        ensures
            arg.name@ == name@,
            arg.value@ == value@,
    {
        QueryArg { name: name.to_owned(), value: value.to_owned() }
    }
}

} // verus!
