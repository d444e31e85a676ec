//! The rules a client applies before a request goes on the wire.

use vstd::prelude::*;
use crate::error::Error;
use crate::text::{chars_of, string_from_chars};

verus! {

/// The time a request may take: the client's request timeout, or what is
/// left of the context's deadline when that is sooner.
pub open spec fn budget(request_timeout_ms: u64, ctx_remaining_ms: Option<u64>) -> u64 {
    match ctx_remaining_ms {
        Some(r) => if r < request_timeout_ms {
            r
        } else {
            request_timeout_ms
        },
        None => request_timeout_ms,
    }
}

/// Checks a request before it is sent: a closed client, then a cancelled
/// context, then a budget already spent. Returns the budget in
/// milliseconds.
pub fn request_budget(closed: bool, cancelled: bool, request_timeout_ms: u64, ctx_remaining_ms: Option<u64>) -> (r: Result<u64, Error>)
    ensures
        closed ==> (r matches Err(Error::ClientClosed)),
        !closed && cancelled ==> (r matches Err(Error::Cancelled)),
        !closed && !cancelled && budget(request_timeout_ms, ctx_remaining_ms) == 0 ==> (r matches Err(Error::Timeout)),
        !closed && !cancelled && budget(request_timeout_ms, ctx_remaining_ms) > 0 ==> r == Ok::<u64, Error>(
            budget(request_timeout_ms, ctx_remaining_ms),
        ),
{
    if closed {
        return Err(Error::ClientClosed);
    }
    if cancelled {
        return Err(Error::Cancelled);
    }
    let b = match ctx_remaining_ms {
        Some(r) => if r < request_timeout_ms { r } else { request_timeout_ms },
        None => request_timeout_ms,
    };
    if b == 0 {
        return Err(Error::Timeout);
    }
    Ok(b)
}

/// The id of the next request after `last`: ids count up from 1 and wrap.
pub fn next_request_id(last: u64) -> (r: u64)
    ensures
        r == if last == u64::MAX { 0 } else { (last + 1) as u64 },
{
    if last == u64::MAX {
        0
    } else {
        last + 1
    }
}

/// The ids a client gives its requests, one connection's worth.
pub struct RequestCounter {
    last: u64,
}

impl RequestCounter {
    /// The id given last; 0 before the first request.
    pub closed spec fn last(&self) -> u64 {
        self.last
    }

    pub fn new() -> (r: RequestCounter)
        ensures
            r.last() == 0,
    {
        RequestCounter { last: 0 }
    }

    /// The id of the next request: one more than the last, so the first
    /// is 1.
    pub fn next(&mut self) -> (r: u64)
        ensures
            r == if old(self).last() == u64::MAX { 0 } else { (old(self).last() + 1) as u64 },
            final(self).last() == r,
    {
        self.last = next_request_id(self.last);
        self.last
    }
}

/// The characters of `a` before the first `c`, or all of them.
pub open spec fn take_until(a: Seq<char>, c: char) -> Seq<char>
    decreases a.len(),
{
    if a.len() == 0 {
        a
    } else if a[0] == c {
        Seq::empty()
    } else {
        seq![a[0]] + take_until(a.drop_first(), c)
    }
}

/// `a` without its leading `c`s.
pub open spec fn trim_leading(a: Seq<char>, c: char) -> Seq<char>
    decreases a.len(),
{
    if a.len() > 0 && a[0] == c {
        trim_leading(a.drop_first(), c)
    } else {
        a
    }
}

/// The characters of `a` before its last `c`, if it has one.
pub open spec fn before_last(a: Seq<char>, c: char) -> Option<Seq<char>>
    decreases a.len(),
{
    if a.len() == 0 {
        None
    } else if a.last() == c {
        Some(a.drop_last())
    } else {
        before_last(a.drop_last(), c)
    }
}

/// The host part of a server address: inside the brackets of `[v6]:port`,
/// else what comes before the last `:`, else the whole address.
pub open spec fn host_of(a: Seq<char>) -> Seq<char> {
    if a.len() > 0 && a[0] == '[' {
        trim_leading(take_until(a, ']'), '[')
    } else {
        match before_last(a, ':') {
            Some(h) => h,
            None => a,
        }
    }
}

/// The host name to present for TLS, taken from the address dialled.
pub fn server_host(addr: &str) -> (r: String)
    ensures
        r@ == host_of(addr@),
{
    let a = chars_of(addr);
    let n = a.len();
    if n > 0 && a[0] == '[' {
        let mut end: usize = 0;
        assert(a@.skip(0) =~= a@);
        assert(a@.subrange(0, 0) + take_until(a@, ']') =~= take_until(a@, ']'));
        while end < n && a[end] != ']'
            invariant
                n == a@.len(),
                end <= n,
                take_until(a@, ']') == a@.subrange(0, end as int) + take_until(a@.skip(end as int), ']'),
            decreases n - end,
        {
            assert(a@.skip(end as int).drop_first() =~= a@.skip(end + 1));
            assert(a@.subrange(0, end + 1) =~= a@.subrange(0, end as int) + seq![a@[end as int]]);
            end = end + 1;
        }
        let mut start: usize = 0;
        while start < end && a[start] == '['
            invariant
                end <= n,
                n == a@.len(),
                start <= end,
                trim_leading(a@.subrange(0, end as int), '[') == trim_leading(a@.subrange(start as int, end as int), '['),
            decreases end - start,
        {
            assert(a@.subrange(start as int, end as int).drop_first() =~= a@.subrange(start + 1, end as int));
            start = start + 1;
        }
        if end < n {
            assert(take_until(a@.skip(end as int), ']') =~= Seq::<char>::empty());
        } else {
            assert(a@.skip(end as int).len() == 0);
        }
        assert(take_until(a@, ']') =~= a@.subrange(0, end as int));
        let s = vstd::slice::slice_subrange(a.as_slice(), start, end);
        return string_from_chars(s);
    }
    let mut k: usize = n;
    assert(a@.subrange(0, n as int) =~= a@);
    while k > 0 && a[k - 1] != ':'
        invariant
            n == a@.len(),
            k <= n,
            before_last(a@, ':') == before_last(a@.subrange(0, k as int), ':'),
        decreases k,
    {
        assert(a@.subrange(0, k as int).drop_last() =~= a@.subrange(0, k - 1));
        k = k - 1;
    }
    if k == 0 {
        assert(a@.subrange(0, 0).len() == 0);
        return addr.to_string();
    }
    assert(a@.subrange(0, k as int).drop_last() =~= a@.subrange(0, k - 1));
    let s = vstd::slice::slice_subrange(a.as_slice(), 0, k - 1);
    string_from_chars(s)
}

} // verus!
