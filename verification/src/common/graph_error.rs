//! The errors of the store, and the text they are reported with.

use vstd::prelude::*;
use vstd::string::StringExecFns;

use crate::common::{GraphValue, Uid};

verus! {

#[derive(Debug, Clone, Copy, PartialEq, Eq, Hash, Structural)]
pub enum TraversalError {
    NotFound,
    InternalError,
    TotalRollback,
}

impl TraversalError {
    /// The text this error is reported with.
    pub open spec fn spec_text(self) -> Seq<char> {
        match self {
            TraversalError::NotFound => "Traversal Error: Not Found"@,
            TraversalError::InternalError => "Traversal Error: Internal Error"@,
            TraversalError::TotalRollback => "Traversal Error: Total Rollback"@,
        }
    }

    /// The text this error is reported with.
    pub fn to_text(&self) -> (s: String)
        ensures
            s@ == self.spec_text(),
    {
        match self {
            TraversalError::NotFound => String::from_str("Traversal Error: Not Found"),
            TraversalError::InternalError => String::from_str("Traversal Error: Internal Error"),
            TraversalError::TotalRollback => String::from_str("Traversal Error: Total Rollback"),
        }
    }
}

#[derive(Debug, Clone, PartialEq, Eq, Hash)]
pub enum GraphError {
    Blueprint(String),
    Traversal(TraversalError),
}

/// What a [`GraphError`] holds.
pub enum GraphErrorView {
    Blueprint(Seq<char>),
    Traversal(TraversalError),
}

impl View for GraphError {
    type V = GraphErrorView;

    open spec fn view(&self) -> GraphErrorView {
        match self {
            GraphError::Blueprint(m) => GraphErrorView::Blueprint(m@),
            GraphError::Traversal(e) => GraphErrorView::Traversal(*e),
        }
    }
}

impl GraphErrorView {
    /// The text this error is reported with.
    pub open spec fn spec_text(self) -> Seq<char> {
        match self {
            GraphErrorView::Blueprint(m) => "Blueprint Error: "@ + m,
            GraphErrorView::Traversal(e) => "Traversal Error: "@ + e.spec_text(),
        }
    }
}

impl GraphError {
    /// The text this error is reported with.
    pub fn to_text(&self) -> (s: String)
        ensures
            s@ == self@.spec_text(),
    {
        match self {
            GraphError::Blueprint(m) => String::from_str("Blueprint Error: ").concat(m.as_str()),
            GraphError::Traversal(e) => {
                let inner = e.to_text();
                String::from_str("Traversal Error: ").concat(inner.as_str())
            },
        }
    }

    /// A blueprint error whose message is `prefix` followed by `id` in
    /// decimal.
    pub fn blueprint_about(prefix: &str, id: Uid) -> (e: GraphError)
        ensures
            e@ == GraphErrorView::Blueprint(prefix@ + decimal_text(id as nat)),
    {
        let digits = uid_text(id);
        GraphError::Blueprint(String::from_str(prefix).concat(digits.as_str()))
    }
}

impl GraphValue for GraphError {
    fn same(&self, other: &Self) -> (b: bool) {
        match (self, other) {
            (GraphError::Blueprint(a), GraphError::Blueprint(b)) => a.same(b),
            (GraphError::Traversal(a), GraphError::Traversal(b)) => *a == *b,
            _ => false,
        }
    }

    fn duplicate(&self) -> (r: Self) {
        match self {
            GraphError::Blueprint(m) => GraphError::Blueprint(m.duplicate()),
            GraphError::Traversal(e) => GraphError::Traversal(*e),
        }
    }
}

/// The text of one decimal digit.
pub open spec fn digit_text(d: nat) -> Seq<char> {
    if d == 0 {
        "0"@
    } else if d == 1 {
        "1"@
    } else if d == 2 {
        "2"@
    } else if d == 3 {
        "3"@
    } else if d == 4 {
        "4"@
    } else if d == 5 {
        "5"@
    } else if d == 6 {
        "6"@
    } else if d == 7 {
        "7"@
    } else if d == 8 {
        "8"@
    } else {
        "9"@
    }
}

/// A number in decimal, most significant digit first.
pub open spec fn decimal_text(n: nat) -> Seq<char>
    decreases n,
{
    if n < 10 {
        digit_text(n)
    } else {
        decimal_text(n / 10) + digit_text(n % 10)
    }
}

fn digit_str(d: u128) -> (s: &'static str)
    requires
        d < 10,
    ensures
        s@ == digit_text(d as nat),
{
    if d == 0 {
        "0"
    } else if d == 1 {
        "1"
    } else if d == 2 {
        "2"
    } else if d == 3 {
        "3"
    } else if d == 4 {
        "4"
    } else if d == 5 {
        "5"
    } else if d == 6 {
        "6"
    } else if d == 7 {
        "7"
    } else if d == 8 {
        "8"
    } else {
        "9"
    }
}

/// An identifier in decimal.
pub fn uid_text(id: Uid) -> (s: String)
    ensures
        s@ == decimal_text(id as nat),
    decreases id,
{
    let last = digit_str(id % 10);
    if id < 10 {
        String::from_str(last)
    } else {
        uid_text(id / 10).concat(last)
    }
}

} // verus!
