//! The Rotki balance source: the backend's endpoint address and the balance
//! snapshot model its response parses into.
//!
//! The outbound request itself is boundary work; the library fixes the
//! endpoint URL and the snapshot's shape, and the boundary hands the parsed
//! snapshot back as plain values.

use vstd::prelude::*;
use vstd::string::StringExecFns;
use crate::decimal::Decimal;

verus! {

/// The balance of one location, in the snapshot's fixed currency.
#[derive(Clone, Copy, Debug, PartialEq, Eq, Structural)]
pub struct BalanceLocationValue {
    pub usd_value: Decimal,
}

/// The snapshot proper: each named location with its balance. Names are
/// unique within a snapshot.
#[derive(Clone, Debug)]
pub struct BalanceResult {
    pub location: Vec<(String, BalanceLocationValue)>,
}

/// The backend's balance response.
#[derive(Clone, Debug)]
pub struct RotkiBalanceResponse {
    pub result: BalanceResult,
}

/// The snapshot invariant: no location name occurs twice.
pub open spec fn names_unique(location: Seq<(String, BalanceLocationValue)>) -> bool {
    forall|i: int, j: int|
        0 <= i < j < location.len() ==> location[i].0@ != location[j].0@
}

impl RotkiBalanceResponse {
    /// Check the snapshot invariant: every location name is unique, so each
    /// translated account gets a distinct id.
    pub fn has_unique_names(&self) -> (r: bool)
        ensures
            r == names_unique(self.result.location@),
    {
        let loc = &self.result.location;
        let n = loc.len();
        let mut i: usize = 0;
        while i < n
            invariant
                i <= n,
                n == loc@.len(),
                loc@ == self.result.location@,
                forall|p: int, q: int| 0 <= p < q < i ==> loc@[p].0@ != loc@[q].0@,
                forall|p: int, q: int| 0 <= p < i && p < q < n ==> loc@[p].0@ != loc@[q].0@,
            decreases n - i,
        {
            let mut j: usize = i + 1;
            while j < n
                invariant
                    i < j <= n,
                    i < n,
                    n == loc@.len(),
                    loc@ == self.result.location@,
                    forall|q: int| i < q < j ==> loc@[i as int].0@ != loc@[q].0@,
                decreases n - j,
            {
                let a = &loc[i];
                let b = &loc[j];
                if a.0.eq(&b.0) {
                    proof {
                        assert(self.result.location@[i as int].0@ == self.result.location@[
                            j as int].0@);
                    }
                    return false;
                }
                j = j + 1;
            }
            i = i + 1;
        }
        true
    }
}

/// A handle on one Rotki backend instance.
pub struct RotkiAPI {
    url: String,
}

impl RotkiAPI {
    /// The backend's base URL.
    pub closed spec fn url_spec(&self) -> Seq<char> {
        self.url@
    }

    pub fn new(url: String) -> (r: Self)
        ensures
            r.url_spec() == url@,
    {
        Self { url }
    }

    /// The address of the backend's balance endpoint: the base URL followed
    /// by the fixed, well-known sub-path.
    pub fn balance_url(&self) -> (r: String)
        ensures
            r@ == self.url_spec() + "/api/1/balances"@,
    {
        let mut u = self.url.clone();
        u.append("/api/1/balances");
        u
    }
}

} // verus!
