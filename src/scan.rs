//! The record filter of a state-store prefix scan.
use vstd::prelude::*;
use vstd::string::*;

use crate::error::StateStoreError;
use crate::options::ScanOp;

verus! {

/// Byte-wise lexicographic order: `a` sorts strictly before `b`.
pub open spec fn bytes_lt(a: Seq<u8>, b: Seq<u8>) -> bool
    decreases a.len(),
{
    if a.len() == 0 {
        b.len() > 0
    } else if b.len() == 0 {
        false
    } else if a[0] != b[0] {
        a[0] < b[0]
    } else {
        bytes_lt(a.drop_first(), b.drop_first())
    }
}

/// Keeps the records whose `field` compares to `value` by `op`; stops once
/// `max_results` records are kept.
#[derive(Debug, Clone)]
pub struct ScanFilter {
    pub field: String,
    pub op: ScanOp,
    pub value: Vec<u8>,
    pub max_results: Option<u32>,
}

/// Whether a record whose filter field holds `v` (`None`: the record lacks
/// the field) passes the filter.
pub open spec fn passes(op: ScanOp, v: Option<Seq<u8>>, target: Seq<u8>) -> bool {
    match v {
        None => false,
        Some(x) => match op {
            ScanOp::Eq => x == target,
            ScanOp::Lt => bytes_lt(x, target),
            ScanOp::Gt => bytes_lt(target, x),
        },
    }
}

pub fn bytes_less(a: &Vec<u8>, b: &Vec<u8>) -> (r: bool)
    ensures
        r == bytes_lt(a@, b@),
{
    let mut i: usize = 0;
    assert(a@.skip(0) =~= a@);
    assert(b@.skip(0) =~= b@);
    while i < a.len() && i < b.len() && a[i] == b[i]
        invariant
            0 <= i <= a@.len(),
            i <= b@.len(),
            bytes_lt(a@, b@) == bytes_lt(a@.skip(i as int), b@.skip(i as int)),
        decreases a@.len() - i,
    {
        assert(a@.skip(i as int).drop_first() =~= a@.skip(i + 1));
        assert(b@.skip(i as int).drop_first() =~= b@.skip(i + 1));
        i += 1;
    }
    if i == a.len() {
        i < b.len()
    } else if i == b.len() {
        false
    } else {
        a[i] < b[i]
    }
}

pub fn bytes_equal(a: &Vec<u8>, b: &Vec<u8>) -> (r: bool)
    ensures
        r == (a@ == b@),
{
    if a.len() != b.len() {
        return false;
    }
    let mut i: usize = 0;
    while i < a.len()
        invariant
            a@.len() == b@.len(),
            0 <= i <= a@.len(),
            forall|j: int| 0 <= j < i ==> a@[j] == b@[j],
        decreases a@.len() - i,
    {
        if a[i] != b[i] {
            return false;
        }
        i += 1;
    }
    assert(a@ =~= b@);
    true
}

impl ScanFilter {
    /// Whether a record whose filter field holds `value` passes.
    pub fn matches(&self, value: Option<&Vec<u8>>) -> (r: bool)
        ensures
            r == passes(
                self.op,
                match value {
                    Some(v) => Some(v@),
                    None => None,
                },
                self.value@,
            ),
    {
        match value {
            None => false,
            Some(v) => match self.op {
                ScanOp::Eq => bytes_equal(v, &self.value),
                ScanOp::Lt => bytes_less(v, &self.value),
                ScanOp::Gt => bytes_less(&self.value, v),
            },
        }
    }

    /// Whether `kept` records already fill the result limit.
    pub fn limit_reached(&self, kept: usize) -> (r: bool)
        ensures
            r == (self.max_results matches Some(m) && kept >= m),
    {
        match self.max_results {
            Some(m) => kept >= m as usize,
            None => false,
        }
    }
}

/// Fails with `Other("store is closed")` once the store is closed.
pub fn check_store_open(closed: bool) -> (r: Result<(), StateStoreError>)
    ensures
        r is Ok <==> !closed,
        r matches Err(e) ==> (e matches StateStoreError::Other(m) && m@ == "store is closed"@),
{
    if closed {
        Err(StateStoreError::Other(String::from_str("store is closed")))
    } else {
        Ok(())
    }
}

} // verus!
