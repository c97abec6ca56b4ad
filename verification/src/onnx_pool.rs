//! Decisions of the ONNX engine's session pool: how many sessions a text
//! model gets, how many threads each, and which session serves a request.
use vstd::prelude::*;
use crate::text::{chars_of, string_of};

verus! {

/// The parallelism assumed when the machine does not report it.
pub open spec fn assumed_threads(available: Option<usize>) -> nat {
    match available {
        Some(n) => n as nat,
        None => 4,
    }
}

/// At most four sessions, at least one.
pub open spec fn pool_size(total: nat) -> nat {
    if total < 1 {
        1
    } else if total > 4 {
        4
    } else {
        total
    }
}

/// The threads of a session: an equal share, at least one.
pub open spec fn threads_per_session(total: nat) -> nat {
    if total / pool_size(total) < 1 {
        1
    } else {
        total / pool_size(total)
    }
}

/// The number of text sessions and the threads of each, given the
/// parallelism the machine reports.
pub fn session_layout(available_threads: Option<usize>) -> (r: (usize, usize))
    ensures
        r.0 as nat == pool_size(assumed_threads(available_threads)),
        r.1 as nat == threads_per_session(assumed_threads(available_threads)),
{
    let total: usize = match available_threads {
        Some(n) => n,
        None => 4,
    };
    let pool: usize = if total < 1 {
        1
    } else if total > 4 {
        4
    } else {
        total
    };
    let share = total / pool;
    let per: usize = if share < 1 {
        1
    } else {
        share
    };
    (pool, per)
}

/// The session that serves a request: the first one that is not busy, else
/// the first one (to wait for); an error when no model is loaded.
pub fn pick_session(busy: &Vec<bool>) -> (r: Result<usize, String>)
    ensures
        busy@.len() == 0 ==> (r matches Err(e) && e@
            == "No ONNX sessions are active; load a model first"@),
        busy@.len() > 0 ==> (r matches Ok(i) && i < busy@.len() && ((!busy@[i as int] && forall|k: int|
            0 <= k < i ==> busy@[k]) || (i == 0 && forall|k: int| 0 <= k < busy@.len() ==> busy@[k]))),
{
    if busy.len() == 0 {
        return Err(string_of(chars_of("No ONNX sessions are active; load a model first").as_slice()));
    }
    let mut i: usize = 0;
    while i < busy.len()
        invariant
            i <= busy@.len(),
            forall|k: int| 0 <= k < i ==> busy@[k],
        decreases busy@.len() - i,
    {
        if !busy[i] {
            return Ok(i);
        }
        i = i + 1;
    }
    Ok(0)
}

} // verus!
