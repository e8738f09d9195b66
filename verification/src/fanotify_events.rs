//! Decoding the permission events a fanotify descriptor hands back: a run
//! of `fanotify_event_metadata` records (Linux ABI, little-endian targets):
//! `event_len: u32`, `vers: u8`, `reserved: u8`, `metadata_len: u16`,
//! `mask: u64`, `fd: i32`, `pid: i32`, 24 bytes in all, each record
//! `event_len` bytes long.

use vstd::prelude::*;
use crate::text::{decimal, push_decimal};

verus! {

/// Version of the record layout this decoder reads.
pub const FANOTIFY_METADATA_VERSION: u8 = 3;

/// The descriptor of an event that carries no open file.
pub const FAN_NOFD: i32 = -1;

/// Size of a record's fixed part.
pub const METADATA_SIZE: usize = 24;

/// What a permission event asks about.
#[derive(Clone, Copy, Debug, PartialEq, Eq, Structural)]
pub struct PermissionMetadata {
    pub fd: i32,
    pub pid: i32,
    pub mask: u64,
}

pub open spec fn pow256(n: nat) -> int
    decreases n,
{
    if n == 0 {
        1
    } else {
        256 * pow256((n - 1) as nat)
    }
}

/// The little-endian value of the `n` bytes of `s` from `off`.
pub open spec fn le_value(s: Seq<u8>, off: int, n: nat) -> int
    decreases n,
{
    if n == 0 {
        0
    } else {
        s[off] + 256 * le_value(s, off + 1, (n - 1) as nat)
    }
}

pub proof fn lemma_le_value_bounds(s: Seq<u8>, off: int, n: nat)
    requires
        0 <= off,
        off + n <= s.len(),
    ensures
        0 <= le_value(s, off, n) < pow256(n),
    decreases n,
{
    if n > 0 {
        lemma_le_value_bounds(s, off + 1, (n - 1) as nat);
        let rest = le_value(s, off + 1, (n - 1) as nat);
        let p = pow256((n - 1) as nat);
        let b = s[off] as int;
        assert(b + 256 * rest < 256 * p) by (nonlinear_arith)
            requires
                0 <= b < 256,
                0 <= rest < p,
        ;
        assert(0 <= b + 256 * rest) by (nonlinear_arith)
            requires
                0 <= b,
                0 <= rest,
        ;
    }
}

/// The `n`-byte little-endian value at `off`, for `n` up to 8.
pub fn read_le(s: &[u8], off: usize, n: usize) -> (v: u64)
    requires
        n <= 8,
        off + n <= s@.len(),
    ensures
        v == le_value(s@, off as int, n as nat),
{
    proof {
        lemma_le_value_bounds(s@, off as int, n as nat);
        reveal_with_fuel(pow256, 9);
    }
    let mut acc: u128 = 0;
    let mut k: usize = n;
    let len = s.len();
    while k > 0
        invariant
            len == s@.len(),
            k <= n <= 8,
            off + n <= s@.len(),
            acc == le_value(s@, off + k, (n - k) as nat),
            acc < pow256((n - k) as nat),
            pow256(8) == 0x1_0000_0000_0000_0000,
        decreases k,
    {
        k -= 1;
        proof {
            lemma_le_value_bounds(s@, off + k, (n - k) as nat);
            assert(pow256((n - k) as nat) <= pow256(8)) by {
                lemma_pow256_monotonic((n - k) as nat, 8);
            }
        }
        acc = acc * 256 + s[off + k] as u128;
    }
    proof {
        assert(pow256(n as nat) <= pow256(8)) by {
            lemma_pow256_monotonic(n as nat, 8);
        }
    }
    acc as u64
}

pub proof fn lemma_pow256_monotonic(a: nat, b: nat)
    requires
        a <= b,
    ensures
        1 <= pow256(a) <= pow256(b),
    decreases b,
{
    lemma_pow256_positive(a);
    if a < b {
        lemma_pow256_monotonic(a, (b - 1) as nat);
        lemma_pow256_positive((b - 1) as nat);
    }
}

pub proof fn lemma_pow256_positive(a: nat)
    ensures
        1 <= pow256(a),
    decreases a,
{
    if a > 0 {
        lemma_pow256_positive((a - 1) as nat);
    }
}

/// The signed 32-bit value of four little-endian bytes.
pub open spec fn le_i32(s: Seq<u8>, off: int) -> i32 {
    let v = le_value(s, off, 4);
    if v >= 0x8000_0000 {
        (v - 0x1_0000_0000) as i32
    } else {
        v as i32
    }
}

fn read_le_i32(s: &[u8], off: usize) -> (v: i32)
    requires
        off + 4 <= s@.len(),
    ensures
        v == le_i32(s@, off as int),
{
    let u = read_le(s, off, 4);
    proof {
        lemma_le_value_bounds(s@, off as int, 4);
        reveal_with_fuel(pow256, 5);
    }
    if u >= 0x8000_0000 {
        ((u as i64) - 0x1_0000_0000) as i32
    } else {
        u as i32
    }
}

pub open spec fn version_message(vers: u8) -> Seq<char> {
    "fanotify metadata version "@ + decimal(vers as nat) + " does not match expected "@ + decimal(
        FANOTIFY_METADATA_VERSION as nat,
    )
}

pub open spec fn length_message(event_len: u32) -> Seq<char> {
    "fanotify invalid event length "@ + decimal(event_len as nat)
}

/// The events of the records of `buf` from `offset` on, and the error of
/// the first bad record: records stop when less than a record's fixed part
/// is left; a record of another version, or whose length is below the
/// fixed part or runs past the buffer, is an error; records without a file
/// descriptor are skipped.
pub open spec fn events_from(buf: Seq<u8>, offset: int) -> (Seq<PermissionMetadata>, Result<(), Seq<char>>)
    decreases buf.len() - offset,
{
    if offset < 0 || buf.len() - offset < METADATA_SIZE {
        (Seq::empty(), Ok(()))
    } else {
        let vers = buf[offset + 4];
        let event_len = le_value(buf, offset, 4);
        if vers != FANOTIFY_METADATA_VERSION {
            (Seq::empty(), Err(version_message(vers)))
        } else if event_len < METADATA_SIZE || offset + event_len > buf.len() {
            (Seq::empty(), Err(length_message(event_len as u32)))
        } else {
            let fd = le_i32(buf, offset + 16);
            let (rest, r) = events_from(buf, offset + event_len);
            if fd != FAN_NOFD {
                (
                    seq![PermissionMetadata { fd, pid: le_i32(buf, offset + 20), mask: le_value(buf, offset + 8, 8) as u64 }]
                        + rest,
                    r,
                )
            } else {
                (rest, r)
            }
        }
    }
}

/// Decodes the records of `buffer`: the events in order, and the error of
/// the first bad record (the events before it are handled first).
pub fn parse_buffer(buffer: &[u8]) -> (r: (Vec<PermissionMetadata>, Result<(), String>))
    ensures
        r.0@ == events_from(buffer@, 0).0,
        match r.1 {
            Ok(_) => events_from(buffer@, 0).1 is Ok,
            Err(e) => events_from(buffer@, 0).1 == Err::<(), Seq<char>>(e@),
        },
{
    let mut out: Vec<PermissionMetadata> = Vec::new();
    let mut offset: usize = 0;
    assert(out@ =~= Seq::<PermissionMetadata>::empty());
    while buffer.len() - offset >= METADATA_SIZE
        invariant
            offset <= buffer@.len(),
            ({
                let (rest, res) = events_from(buffer@, offset as int);
                &&& out@ + rest == events_from(buffer@, 0).0
                &&& res == events_from(buffer@, 0).1
            }),
        decreases buffer@.len() - offset,
    {
        let ghost before = out@;
        let vers = buffer[offset + 4];
        let event_len = read_le(buffer, offset, 4);
        proof {
            lemma_le_value_bounds(buffer@, offset as int, 4);
            reveal_with_fuel(pow256, 5);
        }
        if vers != FANOTIFY_METADATA_VERSION {
            let mut m = String::from_str("fanotify metadata version ");
            push_decimal(&mut m, vers as u64);
            m.append(" does not match expected ");
            push_decimal(&mut m, FANOTIFY_METADATA_VERSION as u64);
            assert(out@ + Seq::<PermissionMetadata>::empty() =~= out@);
            return (out, Err(m));
        }
        if event_len < METADATA_SIZE as u64 || event_len > (buffer.len() - offset) as u64 {
            let mut m = String::from_str("fanotify invalid event length ");
            push_decimal(&mut m, event_len);
            assert(out@ + Seq::<PermissionMetadata>::empty() =~= out@);
            assert((event_len as u32) as nat == event_len as nat);
            return (out, Err(m));
        }
        let fd = read_le_i32(buffer, offset + 16);
        if fd != FAN_NOFD {
            let pid = read_le_i32(buffer, offset + 20);
            let mask = read_le(buffer, offset + 8, 8);
            out.push(PermissionMetadata { fd, pid, mask });
            proof {
                let (rest, _) = events_from(buffer@, offset + event_len);
                assert(out@ + rest =~= before + (seq![PermissionMetadata { fd, pid, mask }] + rest));
            }
        }
        offset = offset + event_len as usize;
    }
    assert(out@ + Seq::<PermissionMetadata>::empty() =~= out@);
    (out, Ok(()))
}

} // verus!
