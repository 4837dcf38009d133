//! Little-endian serialization of the values syscalls hand back to user
//! space: a value is laid out in a kernel-owned byte buffer, which the
//! translator then copies across the address-space boundary.

use vstd::prelude::*;

use crate::task::TaskStatus;

verus! {

/// The `n` little-endian bytes of `x`, low byte first.
pub open spec fn le_bytes(x: int, n: nat) -> Seq<u8>
    decreases n,
{
    if n == 0 {
        Seq::empty()
    } else {
        seq![(x % 256) as u8] + le_bytes(x / 256, (n - 1) as nat)
    }
}

pub proof fn lemma_le_bytes_len(x: int, n: nat)
    ensures
        le_bytes(x, n).len() == n,
    decreases n,
{
    if n > 0 {
        lemma_le_bytes_len(x / 256, (n - 1) as nat);
    }
}

/// Append the `n` low little-endian bytes of `x` to `out`.
pub fn push_le_bytes(out: &mut Vec<u8>, x: u64, n: usize)
    ensures
        final(out)@ == old(out)@ + le_bytes(x as int, n as nat),
{
    let mut cur = x;
    let mut i: usize = 0;
    proof {
        assert(out@ + le_bytes(cur as int, n as nat) == old(out)@ + le_bytes(x as int, n as nat));
    }
    while i < n
        invariant
            i <= n,
            out@ + le_bytes(cur as int, (n - i) as nat) == old(out)@ + le_bytes(
                x as int,
                n as nat,
            ),
        decreases n - i,
    {
        let ghost pre = out@;
        let ghost precur = cur as int;
        out.push((cur % 256) as u8);
        cur = cur / 256;
        i += 1;
        proof {
            assert(le_bytes(precur, (n - i + 1) as nat) == seq![(precur % 256) as u8] + le_bytes(
                precur / 256,
                (n - i) as nat,
            ));
            assert(out@ + le_bytes(cur as int, (n - i) as nat) =~= pre + le_bytes(
                precur,
                (n - i + 1) as nat,
            ));
        }
    }
    proof {
        lemma_le_bytes_len(cur as int, 0);
        assert(out@ =~= out@ + le_bytes(cur as int, 0));
    }
}

/// The one-byte encoding of a task status.
pub open spec fn status_byte(st: TaskStatus) -> u8 {
    match st {
        TaskStatus::UnInit => 0,
        TaskStatus::Ready => 1,
        TaskStatus::Running => 2,
        TaskStatus::Exited => 3,
    }
}

/// Encode a task status as its one byte.
pub fn status_to_byte(st: TaskStatus) -> (r: u8)
    ensures
        r == status_byte(st),
{
    match st {
        TaskStatus::UnInit => 0,
        TaskStatus::Ready => 1,
        TaskStatus::Running => 2,
        TaskStatus::Exited => 3,
    }
}

/// The concatenated four-byte little-endian encodings of a row of counters.
pub open spec fn u32s_le(s: Seq<u32>) -> Seq<u8>
    decreases s.len(),
{
    if s.len() == 0 {
        Seq::empty()
    } else {
        u32s_le(s.drop_last()) + le_bytes(s.last() as int, 4)
    }
}

pub proof fn lemma_u32s_le_len(s: Seq<u32>)
    ensures
        u32s_le(s).len() == 4 * s.len(),
    decreases s.len(),
{
    if s.len() > 0 {
        lemma_u32s_le_len(s.drop_last());
        lemma_le_bytes_len(s.last() as int, 4);
    }
}

/// Append the encodings of all counters of `s` to `out`.
pub fn push_u32s_le(out: &mut Vec<u8>, s: &[u32; crate::config::MAX_SYSCALL_NUM])
    ensures
        final(out)@ == old(out)@ + u32s_le(s@),
{
    let mut i: usize = 0;
    proof {
        assert(out@ =~= old(out)@ + u32s_le(s@.take(0)));
    }
    while i < crate::config::MAX_SYSCALL_NUM
        invariant
            i <= crate::config::MAX_SYSCALL_NUM,
            s@.len() == crate::config::MAX_SYSCALL_NUM,
            out@ == old(out)@ + u32s_le(s@.take(i as int)),
        decreases crate::config::MAX_SYSCALL_NUM - i,
    {
        let v = s[i];
        push_le_bytes(out, v as u64, 4);
        i += 1;
        proof {
            assert(s@.take(i as int).drop_last() =~= s@.take(i as int - 1));
            assert(s@.take(i as int).last() == s@[i as int - 1]);
            assert(u32s_le(s@.take(i as int)) == u32s_le(s@.take(i as int - 1)) + le_bytes(
                v as int,
                4,
            ));
            assert(out@ =~= old(out)@ + u32s_le(s@.take(i as int)));
        }
    }
    proof {
        assert(s@.take(crate::config::MAX_SYSCALL_NUM as int) =~= s@);
    }
}

} // verus!
