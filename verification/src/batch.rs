//! Reading the replies to a batch of controller requests.

use vstd::prelude::*;

verus! {

/// Why the server did not carry out a controller request.
#[derive(Clone, Copy, Debug, PartialEq, Eq, Structural)]
pub enum Failure {
    InvalidConfigTime,
    InvalidTime,
    Failed,
}

/// What a reply's status code says: 1 is a stale configuration time stamp,
/// 2 a stale time stamp, 3 a failure; every other code is no failure.
pub open spec fn failure_of(status: u8) -> Option<Failure> {
    if status == 1 {
        Some(Failure::InvalidConfigTime)
    } else if status == 2 {
        Some(Failure::InvalidTime)
    } else if status == 3 {
        Some(Failure::Failed)
    } else {
        None
    }
}

/// The failures among the first `n` replies, each with the index of its
/// request, in order.
pub open spec fn failures_among(statuses: Seq<u8>, n: int) -> Seq<(usize, Failure)>
    decreases n,
{
    if n <= 0 || n > statuses.len() {
        Seq::empty()
    } else {
        let head = failures_among(statuses, n - 1);
        match failure_of(statuses[n - 1]) {
            Some(f) => head.push(((n - 1) as usize, f)),
            None => head,
        }
    }
}

/// Reads one reply's status code.
pub fn status_failure(status: u8) -> (r: Option<Failure>)
    ensures
        r == failure_of(status),
{
    if status == 1 {
        Some(Failure::InvalidConfigTime)
    } else if status == 2 {
        Some(Failure::InvalidTime)
    } else if status == 3 {
        Some(Failure::Failed)
    } else {
        None
    }
}

/// Reads the status codes of a batch's replies. Each reply is looked at on
/// its own: a failure is reported under the index of its request and does
/// not keep the replies after it from being read.
pub fn batch_failures(statuses: &Vec<u8>) -> (r: Vec<(usize, Failure)>)
    ensures
        r@ == failures_among(statuses@, statuses@.len() as int),
{
    let mut out: Vec<(usize, Failure)> = Vec::new();
    let mut i: usize = 0;
    while i < statuses.len()
        invariant
            0 <= i <= statuses@.len(),
            out@ == failures_among(statuses@, i as int),
        decreases statuses@.len() - i,
    {
        match status_failure(statuses[i]) {
            Some(f) => {
                out.push((i, f));
            },
            None => {},
        }
        i += 1;
    }
    out
}

} // verus!
