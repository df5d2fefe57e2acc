//! Tasks provisioned on the fly: a report carries the encoded task
//! configuration, and the task id is the SHA-256 digest of that encoding.
//!
//! The encoding, all integers big-endian:
//! - task info: a one-byte length (at least one), then that many bytes;
//! - aggregator endpoints: a two-byte length, then that many bytes holding
//!   URLs, each a two-byte length followed by that many bytes;
//! - time precision (8 bytes), maximum batch query count (2 bytes), minimum
//!   batch size (4 bytes), query type (1 byte: 1 for time interval, 2 for
//!   fixed size, followed then by the maximum batch size in 4 bytes);
//! - task expiration (8 bytes);
//! - the VDAF configuration, which this module does not read.

use vstd::prelude::*;
use crate::messages::{QueryType, TaskConfig, TaskId};

verus! {

/// The SHA-256 digest of a byte string.
pub uninterp spec fn sha256_of(data: Seq<u8>) -> Seq<u8>;

/// Relies on sha2::Sha256::digest: the 32-byte SHA-256 digest of the input,
/// which depends on the input alone.
#[verifier::external_body]
fn sha256(data: &[u8]) -> (r: [u8; 32])
    ensures
        r@ == sha256_of(data@),
{
    <sha2::Sha256 as sha2::Digest>::digest(data).into()
}

/// The task id that a taskprov payload stands for: the digest of its bytes.
pub fn compute_task_id(payload: &[u8]) -> (r: TaskId)
    ensures
        r.0@ == sha256_of(payload@),
{
    TaskId(sha256(payload))
}

/// The unsigned integer that the bytes encode, most significant first.
pub open spec fn be(s: Seq<u8>) -> nat
    decreases s.len(),
{
    if s.len() == 0 {
        0
    } else {
        be(s.drop_last()) * 256 + s.last() as nat
    }
}

/// 256 to the power `n`.
pub open spec fn pow256(n: nat) -> nat
    decreases n,
{
    if n == 0 {
        1
    } else {
        256 * pow256((n - 1) as nat)
    }
}

/// How many length-prefixed URLs fill the block exactly, if they do.
pub open spec fn url_count(b: Seq<u8>) -> Option<nat>
    decreases b.len(),
{
    if b.len() == 0 {
        Some(0)
    } else if b.len() < 2 {
        None
    } else {
        let l = be(b.subrange(0, 2));
        if 2 + l > b.len() {
            None
        } else {
            match url_count(b.subrange(2 + l as int, b.len() as int)) {
                Some(c) => Some(c + 1),
                None => None,
            }
        }
    }
}

/// What this Aggregator reads of a taskprov configuration.
#[derive(Clone, Copy, Debug, PartialEq, Eq, Structural)]
pub struct TaskprovFields {
    pub endpoint_count: u64,
    pub query_type: QueryType,
    pub time_precision: u64,
    pub max_batch_query_count: u64,
    pub min_batch_size: u64,
    /// Zero for time-interval tasks.
    pub max_batch_size: u64,
    pub expiration: u64,
}

/// The integer in `s[at .. at + k]`.
pub open spec fn field(s: Seq<u8>, at: int, k: int) -> u64 {
    be(s.subrange(at, at + k)) as u64
}

/// The fields of an encoded taskprov configuration, or `None` when the
/// bytes do not follow the encoding.
pub open spec fn parse_fields(s: Seq<u8>) -> Option<TaskprovFields> {
    if s.len() < 1 || s[0] == 0 || 1 + s[0] + 2 > s.len() {
        None
    } else {
        let p1 = 1 + s[0];
        let m = be(s.subrange(p1, p1 + 2));
        let p2 = p1 + 2 + m;
        if p2 + 15 > s.len() {
            None
        } else {
            match url_count(s.subrange(p1 + 2, p2)) {
                None => None,
                Some(count) => {
                    let qt = s[p2 + 14];
                    if qt != 1 && qt != 2 {
                        None
                    } else {
                        let p3 = if qt == 1 { p2 + 15 } else { p2 + 19 };
                        if p3 + 8 > s.len() {
                            None
                        } else {
                            Some(TaskprovFields {
                                endpoint_count: count as u64,
                                query_type: if qt == 1 { QueryType::TimeInterval } else { QueryType::FixedSize },
                                time_precision: field(s, p2, 8),
                                max_batch_query_count: field(s, p2 + 8, 2),
                                min_batch_size: field(s, p2 + 10, 4),
                                max_batch_size: if qt == 1 { 0 } else { field(s, p2 + 15, 4) },
                                expiration: field(s, p3, 8),
                            })
                        }
                    }
                },
            }
        }
    }
}

/// The task a taskprov configuration describes, when it is a valid one: two
/// aggregator endpoints and a positive time precision. Batch intervals may
/// be as long as `max_batch_duration`.
pub open spec fn task_of(s: Seq<u8>, max_batch_duration: u64) -> Option<TaskConfig> {
    match parse_fields(s) {
        Some(f) => if f.endpoint_count == 2 && f.time_precision > 0 {
            Some(TaskConfig {
                query_type: f.query_type,
                time_precision: f.time_precision,
                min_batch_size: f.min_batch_size,
                max_batch_query_count: f.max_batch_query_count,
                max_batch_duration,
                expiration: f.expiration,
            })
        } else {
            None
        },
        None => None,
    }
}

proof fn lemma_be_bound(s: Seq<u8>)
    ensures
        be(s) < pow256(s.len()),
    decreases s.len(),
{
    if s.len() > 0 {
        lemma_be_bound(s.drop_last());
        let a = be(s.drop_last());
        let p = pow256((s.len() - 1) as nat);
        let l = s.last() as nat;
        assert(a * 256 + l < 256 * p) by (nonlinear_arith)
            requires
                a < p,
                l < 256,
        ;
    }
}

proof fn lemma_pow256_le(n: nat)
    requires
        n <= 8,
    ensures
        pow256(n) <= pow256(8),
    decreases 8 - n,
{
    if n < 8 {
        lemma_pow256_le(n + 1);
    }
}

/// The integer in `s[at .. at + k]`, or `None` when the bytes run short.
fn read_be(s: &[u8], at: usize, k: usize) -> (r: Option<u64>)
    requires
        k <= 8,
    ensures
        match r {
            Some(v) => at + k <= s@.len() && v as nat == be(s@.subrange(at as int, at + k)),
            None => at + k > s@.len(),
        },
{
    if k > s.len() || at > s.len() - k {
        return None;
    }
    proof {
        reveal_with_fuel(pow256, 9);
        lemma_pow256_le(k as nat);
    }
    let mut acc: u64 = 0;
    let mut i: usize = 0;
    while i < k
        invariant
            0 <= i <= k <= 8,
            at + k <= s@.len() <= usize::MAX,
            pow256(k as nat) <= pow256(8),
            pow256(8) == 0x1_0000_0000_0000_0000,
            acc as nat == be(s@.subrange(at as int, at + i)),
        decreases k - i,
    {
        proof {
            let t = s@.subrange(at as int, at + i + 1);
            assert(t.drop_last() =~= s@.subrange(at as int, at + i));
            lemma_be_bound(t);
            lemma_pow256_le((i + 1) as nat);
            assert(t.last() == s@[at + i]);
            assert(be(t) == acc * 256 + s@[at + i]);
            assert(t.len() == i + 1);
            assert(be(t) < pow256(8));
            assert(acc * 256 + s@[at + i] < 0x1_0000_0000_0000_0000);
        }
        let byte = s[at + i];
        assert(byte == s@[at + i]);
        assert(acc * 256 <= 0xffff_ffff_ffff_ffff);
        let hi = acc * 256;
        acc = hi + byte as u64;
        i = i + 1;
    }
    Some(acc)
}

/// How many length-prefixed URLs fill `s[start .. end]` exactly, if they do.
fn count_urls(s: &[u8], start: usize, end: usize) -> (r: Option<u64>)
    requires
        start <= end <= s@.len(),
    ensures
        match r {
            Some(c) => url_count(s@.subrange(start as int, end as int)) == Some(c as nat),
            None => url_count(s@.subrange(start as int, end as int)) is None,
        },
{
    let mut pos = start;
    let mut count: u64 = 0;
    while pos < end
        invariant
            start <= pos <= end <= s@.len(),
            count <= pos - start,
            url_count(s@.subrange(start as int, end as int)) == match url_count(s@.subrange(pos as int, end as int)) {
                Some(c) => Some((c + count) as nat),
                None => None::<nat>,
            },
        decreases end - pos,
    {
        let ghost b = s@.subrange(pos as int, end as int);
        if end - pos < 2 {
            return None;
        }
        let l = match read_be(s, pos, 2) {
            Some(l) => l,
            None => return None,
        };
        assert(b.subrange(0, 2) =~= s@.subrange(pos as int, pos + 2));
        if l > (end - pos - 2) as u64 {
            return None;
        }
        assert(b.subrange(2 + l, b.len() as int) =~= s@.subrange(pos + 2 + l, end as int));
        pos = pos + 2 + l as usize;
        count = count + 1;
    }
    assert(s@.subrange(pos as int, end as int).len() == 0);
    Some(count)
}

/// Reads the fields of an encoded taskprov configuration.
pub fn parse_taskprov(s: &[u8]) -> (r: Option<TaskprovFields>)
    ensures
        r == parse_fields(s@),
{
    if s.len() < 1 || s[0] == 0 || 1 + s[0] as usize + 2 > s.len() {
        return None;
    }
    let p1 = 1 + s[0] as usize;
    let m = match read_be(s, p1, 2) {
        Some(m) => m,
        None => return None,
    };
    if m >= s.len() as u64 {
        return None;
    }
    let m = m as usize;
    if p1 + 2 > s.len() - m || 15 > s.len() - (p1 + 2 + m) {
        return None;
    }
    let p2 = p1 + 2 + m;
    let count = match count_urls(s, p1 + 2, p2) {
        Some(c) => c,
        None => return None,
    };
    let qt = s[p2 + 14];
    if qt != 1 && qt != 2 {
        return None;
    }
    let need: usize = if qt == 1 { 23 } else { 27 };
    if need > s.len() - p2 {
        return None;
    }
    let p3 = p2 + need - 8;
    let time_precision = match read_be(s, p2, 8) { Some(v) => v, None => return None };
    let max_batch_query_count = match read_be(s, p2 + 8, 2) { Some(v) => v, None => return None };
    let min_batch_size = match read_be(s, p2 + 10, 4) { Some(v) => v, None => return None };
    let max_batch_size = if qt == 1 {
        0
    } else {
        match read_be(s, p2 + 15, 4) { Some(v) => v, None => return None }
    };
    let expiration = match read_be(s, p3, 8) { Some(v) => v, None => return None };
    Some(TaskprovFields {
        endpoint_count: count,
        query_type: if qt == 1 { QueryType::TimeInterval } else { QueryType::FixedSize },
        time_precision,
        max_batch_query_count,
        min_batch_size,
        max_batch_size,
        expiration,
    })
}

/// The task a taskprov configuration describes, or `None` when it is not a
/// valid task.
pub fn taskprov_task(payload: &[u8], max_batch_duration: u64) -> (r: Option<TaskConfig>)
    ensures
        r == task_of(payload@, max_batch_duration),
        r matches Some(c) ==> c.time_precision > 0,
{
    match parse_taskprov(payload) {
        Some(f) => if f.endpoint_count == 2 && f.time_precision > 0 {
            Some(TaskConfig {
                query_type: f.query_type,
                time_precision: f.time_precision,
                min_batch_size: f.min_batch_size,
                max_batch_query_count: f.max_batch_query_count,
                max_batch_duration,
                expiration: f.expiration,
            })
        } else {
            None
        },
        None => None,
    }
}

} // verus!
