//! The address translator: turns a task's virtual byte span into the
//! physical byte ranges that back it, split at page boundaries, and copies
//! kernel data across the user/kernel boundary through those ranges.

use vstd::prelude::*;
use vstd::pervasive::VecAdditionalExecFns;

use crate::config::PAGE_SIZE;
use crate::mm::{AddressSpace, KernelError, PERM_R, PERM_U, PERM_W};

verus! {

/// Physical memory as one flat byte array holding a whole number of frames;
/// frame `ppn` occupies bytes `[ppn * PAGE_SIZE, (ppn + 1) * PAGE_SIZE)`.
pub struct PhysMem {
    pub bytes: Vec<u8>,
}

impl PhysMem {
    pub open spec fn wf(self) -> bool {
        self.bytes@.len() as int % PAGE_SIZE as int == 0
    }

    /// Zeroed physical memory of `num_pages` frames.
    pub fn new(num_pages: usize) -> (r: PhysMem)
        requires
            num_pages <= crate::config::MAX_VPN,
        ensures
            r.wf(),
            r.bytes@.len() == num_pages * PAGE_SIZE,
            forall|j: int| 0 <= j < r.bytes@.len() ==> r.bytes@[j] == 0,
    {
        proof {
            vstd::arithmetic::div_mod::lemma_mod_multiples_basic(
                num_pages as int,
                PAGE_SIZE as int,
            );
        }
        PhysMem { bytes: vec![0u8; num_pages * PAGE_SIZE] }
    }
}

/// The flat physical index backing the virtual byte at `va`.
pub open spec fn phys_index(s: AddressSpace, va: int) -> int {
    s.mapping()[va / (PAGE_SIZE as int)].ppn * (PAGE_SIZE as int) + va % (PAGE_SIZE as int)
}

/// The byte the task sees at virtual address `va`.
pub open spec fn phys_byte(s: AddressSpace, mem: PhysMem, va: int) -> u8 {
    mem.bytes@[phys_index(s, va)]
}

/// The `n` bytes the task sees starting at virtual address `va`.
pub open spec fn user_bytes(s: AddressSpace, mem: PhysMem, va: int, n: int) -> Seq<u8> {
    Seq::new(n as nat, |i: int| phys_byte(s, mem, va + i))
}

/// The page just above address `a`, or its own page when aligned.
pub open spec fn page_ceil(a: int) -> int {
    a / (PAGE_SIZE as int) + if a % (PAGE_SIZE as int) == 0 {
        0int
    } else {
        1int
    }
}

/// How many ranges the translator returns for the span `[va, va + len)`.
pub open spec fn span_pages(va: int, len: int) -> int {
    if len == 0 {
        0int
    } else {
        page_ceil(va + len) - va / (PAGE_SIZE as int)
    }
}

/// Every page of `[lo, hi)` is mapped with at least the bits of `mask`.
pub open spec fn pages_checked(s: AddressSpace, mask: u8, lo: int, hi: int) -> bool {
    forall|vpn: int|
        lo <= vpn < hi ==> (#[trigger] s.mapping().contains_key(vpn)) && s.mapping()[vpn].perm
            & mask == mask
}

/// One more checked page extends a checked run.
pub proof fn lemma_pages_checked_push(s: AddressSpace, mask: u8, lo: int, hi: int)
    requires
        pages_checked(s, mask, lo, hi),
        s.mapping().contains_key(hi),
        s.mapping()[hi].perm & mask == mask,
    ensures
        pages_checked(s, mask, lo, hi + 1),
{
    assert forall|vpn: int| lo <= vpn < hi + 1 implies (#[trigger] s.mapping().contains_key(vpn))
        && s.mapping()[vpn].perm & mask == mask by {
        if vpn != hi {
            assert(lo <= vpn < hi);
        }
    }
}

/// Every page of the span is mapped with at least the bits of `mask`.
pub open spec fn span_mapped(s: AddressSpace, va: int, len: int, mask: u8) -> bool {
    pages_checked(
        s,
        mask,
        va / (PAGE_SIZE as int),
        va / (PAGE_SIZE as int) + span_pages(va, len),
    )
}

/// Every frame backing the span lies inside the physical memory `mem`.
pub open spec fn span_fits(s: AddressSpace, mem: PhysMem, va: int, len: int) -> bool {
    forall|vpn: int|
        va / (PAGE_SIZE as int) <= vpn < va / (PAGE_SIZE as int) + span_pages(va, len) ==> ((
        #[trigger] s.mapping()[vpn]).ppn + 1) * PAGE_SIZE as int <= mem.bytes@.len()
}

/// The physical indices the span `[va, va + len)` occupies.
pub open spec fn span_image(s: AddressSpace, va: int, len: int) -> Set<int> {
    Set::new(|j: int| exists|i: int| 0 <= i < len && j == #[trigger] phys_index(s, va + i))
}

/// One translated range: `len` bytes starting at `offset` inside frame
/// `ppn`; never crosses a page boundary.
#[derive(Clone, Copy, PartialEq, Eq, Structural, Debug)]
pub struct ByteRange {
    pub ppn: usize,
    pub offset: usize,
    pub len: usize,
}

/// The virtual address where range `i` of the span starts.
pub open spec fn range_start(va: int, i: int) -> int {
    if i == 0 {
        va
    } else {
        (va / (PAGE_SIZE as int) + i) * (PAGE_SIZE as int)
    }
}

/// The virtual address just past range `i` of the span.
pub open spec fn range_end(va: int, len: int, i: int) -> int {
    let pe = (va / (PAGE_SIZE as int) + i + 1) * (PAGE_SIZE as int);
    if va + len < pe {
        va + len
    } else {
        pe
    }
}

/// Range `i` of the span `[va, va + len)` translates exactly to `r`.
pub open spec fn range_matches(
    s: AddressSpace,
    va: int,
    len: int,
    i: int,
    r: ByteRange,
) -> bool {
    let vpn = va / (PAGE_SIZE as int) + i;
    &&& r.ppn == s.mapping()[vpn].ppn
    &&& r.offset == range_start(va, i) - vpn * (PAGE_SIZE as int)
    &&& r.len == range_end(va, len, i) - range_start(va, i)
}

/// A mapped page's frame number is never negative.
pub proof fn lemma_mapped_ppn_nonneg(s: AddressSpace, vpn: int)
    requires
        s.wf(),
        s.mapping().contains_key(vpn),
    ensures
        s.mapping()[vpn].ppn >= 0,
{
    crate::mm::lemma_areas_map_dom(s.areas@, vpn);
    let i = choose|i: int| 0 <= i < s.areas@.len() && (#[trigger] s.areas@[i]).contains_vpn(vpn);
    crate::mm::lemma_areas_map_at(s.areas@, i, vpn);
}

/// Distinct mapped pages are backed by distinct frames: frames are handed
/// out once and never shared.
pub proof fn lemma_ppn_injective(s: AddressSpace, v1: int, v2: int)
    requires
        s.wf(),
        s.mapping().contains_key(v1),
        s.mapping().contains_key(v2),
        v1 != v2,
    ensures
        s.mapping()[v1].ppn != s.mapping()[v2].ppn,
{
    crate::mm::lemma_areas_map_dom(s.areas@, v1);
    crate::mm::lemma_areas_map_dom(s.areas@, v2);
    let i1 = choose|i: int| 0 <= i < s.areas@.len() && (#[trigger] s.areas@[i]).contains_vpn(v1);
    let i2 = choose|i: int| 0 <= i < s.areas@.len() && (#[trigger] s.areas@[i]).contains_vpn(v2);
    crate::mm::lemma_areas_map_at(s.areas@, i1, v1);
    crate::mm::lemma_areas_map_at(s.areas@, i2, v2);
    if i1 != i2 {
        if i1 < i2 {
            assert(s.areas@[i1].ppn_disjoint(s.areas@[i2]));
        } else {
            assert(s.areas@[i2].ppn_disjoint(s.areas@[i1]));
        }
    }
}

/// Distinct virtual bytes of mapped pages live at distinct physical
/// indices.
pub proof fn lemma_phys_index_injective(s: AddressSpace, va1: int, va2: int)
    requires
        s.wf(),
        0 <= va1,
        0 <= va2,
        va1 != va2,
        s.mapping().contains_key(va1 / (PAGE_SIZE as int)),
        s.mapping().contains_key(va2 / (PAGE_SIZE as int)),
    ensures
        phys_index(s, va1) != phys_index(s, va2),
{
    let p = PAGE_SIZE as int;
    vstd::arithmetic::div_mod::lemma_fundamental_div_mod(va1, p);
    vstd::arithmetic::div_mod::lemma_fundamental_div_mod(va2, p);
    vstd::arithmetic::div_mod::lemma_mod_bound(va1, p);
    vstd::arithmetic::div_mod::lemma_mod_bound(va2, p);
    if va1 / p == va2 / p {
        assert(va1 % p != va2 % p);
    } else {
        lemma_ppn_injective(s, va1 / p, va2 / p);
        let n1 = s.mapping()[va1 / p].ppn;
        let n2 = s.mapping()[va2 / p].ppn;
        assert(n1 * p + va1 % p != n2 * p + va2 % p) by (nonlinear_arith)
            requires
                n1 != n2,
                0 <= va1 % p < p,
                0 <= va2 % p < p,
                p == 4096,
        ;
    }
}

/// An address above the first `q` pages lies above their last byte.
pub proof fn lemma_page_ceil_above(x: int, q: int)
    requires
        0 <= x,
        0 <= q,
        page_ceil(x) > q,
    ensures
        x > q * (PAGE_SIZE as int),
{
    let p = PAGE_SIZE as int;
    vstd::arithmetic::div_mod::lemma_fundamental_div_mod(x, p);
    vstd::arithmetic::div_mod::lemma_mod_bound(x, p);
    if x % p == 0 {
        vstd::arithmetic::mul::lemma_mul_inequality(q + 1, x / p, p);
    } else {
        vstd::arithmetic::mul::lemma_mul_inequality(q, x / p, p);
    }
}

/// An address within the first `q` pages lies at or below their last byte.
pub proof fn lemma_page_ceil_within(x: int, q: int)
    requires
        0 <= x,
        0 <= q,
        page_ceil(x) <= q,
    ensures
        x <= q * (PAGE_SIZE as int),
{
    let p = PAGE_SIZE as int;
    vstd::arithmetic::div_mod::lemma_fundamental_div_mod(x, p);
    vstd::arithmetic::div_mod::lemma_mod_bound(x, p);
    if x % p == 0 {
        vstd::arithmetic::mul::lemma_mul_inequality(x / p, q, p);
    } else {
        vstd::arithmetic::mul::lemma_mul_inequality(x / p + 1, q, p);
    }
}

/// Translate the virtual span `[va, va + len)` of an address space into the
/// physical byte ranges backing it, split at page boundaries: a pure read
/// of the page table. Fails with `AddressFault` exactly when some page of
/// the span is unmapped or lacks a bit of `mask`.
#[verifier::loop_isolation(false)]
#[verifier::rlimit(60)]
pub fn translate(s: &AddressSpace, va: usize, len: usize, mask: u8) -> (r: Result<
    Vec<ByteRange>,
    KernelError,
>)
    requires
        s.wf(),
        va + len <= usize::MAX,
    ensures
        r is Ok <==> span_mapped(*s, va as int, len as int, mask),
        r is Ok ==> r->Ok_0@.len() == span_pages(va as int, len as int),
        r is Ok ==> forall|i: int|
            0 <= i < r->Ok_0@.len() ==> range_matches(
                *s,
                va as int,
                len as int,
                i,
                #[trigger] r->Ok_0@[i],
            ),
        r is Err ==> r->Err_0 == KernelError::AddressFault,
{
    let p = PAGE_SIZE;
    if len == 0 {
        return Ok(Vec::new());
    }
    let end = va + len;
    let start_vpn = va / p;
    let end_vpn = end / p + if end % p == 0 {
        0
    } else {
        1
    };
    let mut out: Vec<ByteRange> = Vec::new();
    let mut vpn = start_vpn;
    let mut cur = va;
    proof {
        vstd::arithmetic::div_mod::lemma_fundamental_div_mod(va as int, p as int);
        vstd::arithmetic::div_mod::lemma_fundamental_div_mod(end as int, p as int);
        vstd::arithmetic::div_mod::lemma_mod_bound(va as int, p as int);
        vstd::arithmetic::div_mod::lemma_mod_bound(end as int, p as int);
    }
    proof {
        assert(end_vpn == start_vpn + span_pages(va as int, len as int));
    }
    while vpn < end_vpn
        invariant
            start_vpn <= vpn <= end_vpn,
            out@.len() == vpn - start_vpn,
            forall|i: int|
                0 <= i < out@.len() ==> range_matches(
                    *s,
                    va as int,
                    len as int,
                    i,
                    #[trigger] out@[i],
                ),
            pages_checked(*s, mask, start_vpn as int, vpn as int),
            vpn < end_vpn ==> cur as int == range_start(va as int, vpn - start_vpn),
            vpn < end_vpn ==> cur < end,
            vpn < end_vpn ==> (vpn as int) * (p as int) <= cur as int,
            vpn < end_vpn ==> (cur as int) < ((vpn as int) + 1) * (p as int),
        decreases end_vpn - vpn,
    {
        let looked = s.find_page(vpn);
        if looked.is_none() {
            proof {
                assert(start_vpn <= vpn < start_vpn + span_pages(va as int, len as int));
                assert(!s.mapping().contains_key(vpn as int));
            }
            return Err(KernelError::AddressFault);
        }
        let (ppn, perm) = looked.unwrap();
        if perm.bits & mask != mask {
            proof {
                assert(start_vpn <= vpn < start_vpn + span_pages(va as int, len as int));
                assert(s.mapping()[vpn as int].perm & mask != mask);
            }
            return Err(KernelError::AddressFault);
        }
        proof {
            assert(s.mapping().contains_key(vpn as int));
            assert(s.mapping()[vpn as int].perm & mask == mask);
        }
        let offset = cur % p;
        let room = p - offset;
        let rem = end - cur;
        let take = if room < rem {
            room
        } else {
            rem
        };
        proof {
            let pi = p as int;
            let k = vpn - start_vpn;
            vstd::arithmetic::div_mod::lemma_fundamental_div_mod_converse(
                cur as int,
                pi,
                vpn as int,
                cur as int - vpn as int * pi,
            );
            assert(offset as int == range_start(va as int, k) - vpn as int * pi);
            assert(range_end(va as int, len as int, k) == if (end as int) < ((vpn as int) + 1)
                * pi {
                end as int
            } else {
                ((vpn as int) + 1) * pi
            });
            assert(take as int == range_end(va as int, len as int, k) - range_start(
                va as int,
                k,
            ));
        }
        out.push(ByteRange { ppn, offset, len: take });
        proof {
            assert(range_matches(
                *s,
                va as int,
                len as int,
                vpn - start_vpn,
                out@[out@.len() - 1],
            ));
        }
        proof {
            lemma_pages_checked_push(*s, mask, start_vpn as int, vpn as int);
        }
        cur = cur + take;
        vpn = vpn + 1;
        proof {
            if vpn < end_vpn {
                assert(cur as int == (va as int / p as int + (vpn - start_vpn)) * p as int);
            }
        }
    }
    Ok(out)
}

/// The page of any byte of a span lies in the span's page range.
pub proof fn lemma_byte_page_in_span(va: int, len: int, j: int)
    requires
        0 <= va,
        0 <= j < len,
    ensures
        va / (PAGE_SIZE as int) <= (va + j) / (PAGE_SIZE as int) < va / (PAGE_SIZE as int)
            + span_pages(va, len),
{
    let p = PAGE_SIZE as int;
    let ceilv = page_ceil(va + len);
    vstd::arithmetic::div_mod::lemma_div_is_ordered(va, va + j, p);
    vstd::arithmetic::div_mod::lemma_fundamental_div_mod(va + j, p);
    vstd::arithmetic::div_mod::lemma_mod_bound(va + j, p);
    lemma_page_ceil_within(va + len, ceilv);
    if (va + j) / p >= ceilv {
        vstd::arithmetic::mul::lemma_mul_inequality(ceilv, (va + j) / p, p);
    }
}

/// Serialize `data` into the task's memory at `va`: translate the span,
/// then copy range by range. Fails with `AddressFault`, writing nothing,
/// exactly when a page of the span is unmapped, not user-writable, or
/// backed by a frame outside `mem`; on success the task sees exactly
/// `data` at `va` and no other byte of physical memory moves.
#[verifier::loop_isolation(false)]
#[verifier::rlimit(100)]
pub fn write_user(s: &AddressSpace, mem: &mut PhysMem, va: usize, data: &Vec<u8>) -> (r: Result<
    (),
    KernelError,
>)
    requires
        s.wf(),
        old(mem).wf(),
        va + data@.len() <= usize::MAX,
    ensures
        final(mem).wf(),
        final(mem).bytes@.len() == old(mem).bytes@.len(),
        r is Ok <==> span_mapped(*s, va as int, data@.len() as int, PERM_W | PERM_U) && span_fits(
            *s,
            *old(mem),
            va as int,
            data@.len() as int,
        ),
        r is Ok ==> user_bytes(*s, *final(mem), va as int, data@.len() as int) == data@,
        r is Ok ==> forall|j: int|
            0 <= j < final(mem).bytes@.len() && !span_image(
                *s,
                va as int,
                data@.len() as int,
            ).contains(j) ==> final(mem).bytes@[j] == old(mem).bytes@[j],
        r is Err ==> *final(mem) == *old(mem) && r->Err_0 == KernelError::AddressFault,
{
    let len = data.len();
    let ghost p = PAGE_SIZE as int;
    let ghost sv = va as int / p;
    let ghost np = span_pages(va as int, len as int);
    let ranges = match translate(s, va, len, PERM_W | PERM_U) {
        Ok(v) => v,
        Err(_) => { return Err(KernelError::AddressFault) },
    };
    let frames = mem.bytes.len() / PAGE_SIZE;
    proof {
        vstd::arithmetic::div_mod::lemma_fundamental_div_mod(mem.bytes@.len() as int, p);
    }
    let mut k: usize = 0;
    while k < ranges.len()
        invariant
            k <= ranges@.len(),
            forall|t: int|
                0 <= t < k ==> ((#[trigger] ranges@[t]).ppn + 1) * (PAGE_SIZE as int)
                    <= mem.bytes@.len(),
        decreases ranges@.len() - k,
    {
        if ranges[k].ppn >= frames {
            proof {
                assert(range_matches(*s, va as int, len as int, k as int, ranges@[k as int]));
                assert(s.mapping()[sv + k].ppn >= frames);
                assert((s.mapping()[sv + k].ppn + 1) * p > mem.bytes@.len()) by {
                    vstd::arithmetic::mul::lemma_mul_inequality(
                        frames as int + 1,
                        s.mapping()[sv + k].ppn + 1,
                        p,
                    );
                }
                assert(!span_fits(*s, *mem, va as int, len as int));
            }
            return Err(KernelError::AddressFault);
        }
        proof {
            assert(range_matches(*s, va as int, len as int, k as int, ranges@[k as int]));
            vstd::arithmetic::mul::lemma_mul_inequality(
                ranges@[k as int].ppn + 1,
                frames as int,
                p,
            );
        }
        k += 1;
    }
    proof {
        assert(span_fits(*s, *mem, va as int, len as int)) by {
            assert forall|vpn: int| sv <= vpn < sv + np implies ((#[trigger] s.mapping()[vpn]).ppn
                + 1) * (PAGE_SIZE as int) <= mem.bytes@.len() by {
                let t = vpn - sv;
                assert(range_matches(*s, va as int, len as int, t, ranges@[t]));
                assert(((ranges@[t]).ppn + 1) * (PAGE_SIZE as int) <= mem.bytes@.len());
            }
        }
    }
    let mut pos: usize = 0;
    let mut k2: usize = 0;
    while k2 < ranges.len()
        invariant
            mem.wf(),
            mem.bytes@.len() == old(mem).bytes@.len(),
            k2 <= ranges@.len(),
            pos <= len,
            k2 < ranges@.len() ==> pos as int == range_start(va as int, k2 as int) - va as int,
            k2 == ranges@.len() ==> pos == len,
            forall|j: int|
                0 <= j < pos ==> mem.bytes@[#[trigger] phys_index(*s, va as int + j)] == data@[j],
            forall|j: int|
                0 <= j < mem.bytes@.len() && !span_image(*s, va as int, pos as int).contains(j)
                    ==> mem.bytes@[j] == old(mem).bytes@[j],
        decreases ranges@.len() - k2,
    {
        let rg = ranges[k2];
        proof {
            assert(range_matches(*s, va as int, len as int, k2 as int, ranges@[k2 as int]));
            assert((rg.ppn + 1) * p <= mem.bytes@.len());
            if k2 > 0 {
                lemma_page_ceil_above(va as int + len as int, sv + k2);
            }
        }
        let base = rg.ppn * PAGE_SIZE;
        let mut b: usize = 0;
        while b < rg.len
            invariant
                mem.wf(),
                mem.bytes@.len() == old(mem).bytes@.len(),
                b <= rg.len,
                forall|j: int|
                    0 <= j < pos + b ==> mem.bytes@[#[trigger] phys_index(*s, va as int + j)]
                        == data@[j],
                forall|j: int|
                    0 <= j < mem.bytes@.len() && !span_image(
                        *s,
                        va as int,
                        pos + b as int,
                    ).contains(j) ==> mem.bytes@[j] == old(mem).bytes@[j],
            decreases rg.len - b,
        {
            let ghost vb = va as int + (pos as int + b as int);
            proof {
                assert(pos + rg.len <= len) by {
                    lemma_page_ceil_within(va as int + len as int, sv + np);
                }
                assert(vb == (sv + k2) * p + (rg.offset + b));
                vstd::arithmetic::div_mod::lemma_fundamental_div_mod_converse(
                    vb,
                    p,
                    sv + k2,
                    rg.offset + b,
                );
                assert(phys_index(*s, vb) == rg.ppn * p + rg.offset + b);
            }
            let idx = base + rg.offset + b;
            let ghost before = mem.bytes@;
            mem.bytes.set(idx, data[pos + b]);
            proof {
                assert(idx as int == phys_index(*s, va as int + (pos as int + b as int)));
                assert(span_image(*s, va as int, pos + b + 1 as int).contains(idx as int));
                assert forall|j: int| 0 <= j < pos + b + 1 implies mem.bytes@[#[trigger] phys_index(
                    *s,
                    va as int + j,
                )] == data@[j] by {
                    if j < pos + b {
                        lemma_byte_page_in_span(va as int, len as int, j);
                        lemma_byte_page_in_span(va as int, len as int, pos as int + b as int);
                        lemma_phys_index_injective(*s, va as int + j, vb);
                        let vpnj = (va as int + j) / p;
                        assert(s.mapping().contains_key(vpnj));
                        lemma_mapped_ppn_nonneg(*s, vpnj);
                        assert((s.mapping()[vpnj].ppn + 1) * p <= mem.bytes@.len());
                        assert(0 <= phys_index(*s, va as int + j) < mem.bytes@.len());
                        assert(mem.bytes@[phys_index(*s, va as int + j)] == before[phys_index(
                            *s,
                            va as int + j,
                        )]);
                    } else {
                        assert(j == pos as int + b as int);
                        assert(va as int + j == vb);
                    }
                }
                assert forall|j: int|
                    0 <= j < mem.bytes@.len() && !span_image(
                        *s,
                        va as int,
                        pos + b + 1 as int,
                    ).contains(j) implies mem.bytes@[j] == old(mem).bytes@[j] by {
                    if span_image(*s, va as int, pos + b as int).contains(j) {
                        let i = choose|i: int|
                            0 <= i < pos + b && j == #[trigger] phys_index(*s, va as int + i);
                        assert(span_image(*s, va as int, pos + b + 1 as int).contains(j));
                    } else {
                        assert(j != idx);
                        assert(mem.bytes@[j] == before[j]);
                    }
                }
            }
            b += 1;
        }
        pos = pos + rg.len;
        k2 += 1;
        proof {
            if k2 < ranges@.len() {
                lemma_page_ceil_above(va as int + len as int, sv + k2);
                assert(pos as int == range_start(va as int, k2 as int) - va as int);
            } else {
                lemma_page_ceil_within(va as int + len as int, sv + np);
                assert(pos == len);
            }
        }
    }
    proof {
        assert forall|i: int| 0 <= i < len implies phys_byte(*s, *mem, va as int + i)
            == data@[i] by {
            assert(mem.bytes@[phys_index(*s, va as int + i)] == data@[i]);
        }
        assert(user_bytes(*s, *mem, va as int, len as int) =~= data@);
    }
    Ok(())
}

/// Read `len` bytes of the task's memory at `va` through the translator.
/// Fails with `AddressFault` exactly when a page of the span is unmapped,
/// not user-readable, or backed by a frame outside `mem`; on success the
/// result is exactly what the task sees at `va`.
#[verifier::loop_isolation(false)]
#[verifier::rlimit(100)]
pub fn read_user(s: &AddressSpace, mem: &PhysMem, va: usize, len: usize) -> (r: Result<
    Vec<u8>,
    KernelError,
>)
    requires
        s.wf(),
        mem.wf(),
        va + len <= usize::MAX,
    ensures
        r is Ok <==> span_mapped(*s, va as int, len as int, PERM_R | PERM_U) && span_fits(
            *s,
            *mem,
            va as int,
            len as int,
        ),
        r is Ok ==> r->Ok_0@ == user_bytes(*s, *mem, va as int, len as int),
        r is Err ==> r->Err_0 == KernelError::AddressFault,
{
    let ghost p = PAGE_SIZE as int;
    let ghost sv = va as int / p;
    let ghost np = span_pages(va as int, len as int);
    let ranges = match translate(s, va, len, PERM_R | PERM_U) {
        Ok(v) => v,
        Err(_) => { return Err(KernelError::AddressFault) },
    };
    let frames = mem.bytes.len() / PAGE_SIZE;
    proof {
        vstd::arithmetic::div_mod::lemma_fundamental_div_mod(mem.bytes@.len() as int, p);
    }
    let mut k: usize = 0;
    while k < ranges.len()
        invariant
            k <= ranges@.len(),
            forall|t: int|
                0 <= t < k ==> ((#[trigger] ranges@[t]).ppn + 1) * (PAGE_SIZE as int)
                    <= mem.bytes@.len(),
        decreases ranges@.len() - k,
    {
        if ranges[k].ppn >= frames {
            proof {
                assert(range_matches(*s, va as int, len as int, k as int, ranges@[k as int]));
                assert((s.mapping()[sv + k].ppn + 1) * p > mem.bytes@.len()) by {
                    vstd::arithmetic::mul::lemma_mul_inequality(
                        frames as int + 1,
                        s.mapping()[sv + k].ppn + 1,
                        p,
                    );
                }
                assert(!span_fits(*s, *mem, va as int, len as int));
            }
            return Err(KernelError::AddressFault);
        }
        proof {
            assert(range_matches(*s, va as int, len as int, k as int, ranges@[k as int]));
            vstd::arithmetic::mul::lemma_mul_inequality(
                ranges@[k as int].ppn + 1,
                frames as int,
                p,
            );
        }
        k += 1;
    }
    proof {
        assert(span_fits(*s, *mem, va as int, len as int)) by {
            assert forall|vpn: int| sv <= vpn < sv + np implies ((#[trigger] s.mapping()[vpn]).ppn
                + 1) * (PAGE_SIZE as int) <= mem.bytes@.len() by {
                let t = vpn - sv;
                assert(range_matches(*s, va as int, len as int, t, ranges@[t]));
                assert(((ranges@[t]).ppn + 1) * (PAGE_SIZE as int) <= mem.bytes@.len());
            }
        }
    }
    let mut out: Vec<u8> = Vec::new();
    let mut pos: usize = 0;
    let mut k2: usize = 0;
    while k2 < ranges.len()
        invariant
            k2 <= ranges@.len(),
            pos <= len,
            out@.len() == pos,
            k2 < ranges@.len() ==> pos as int == range_start(va as int, k2 as int) - va as int,
            k2 == ranges@.len() ==> pos == len,
            forall|j: int| 0 <= j < pos ==> out@[j] == phys_byte(*s, *mem, va as int + j),
        decreases ranges@.len() - k2,
    {
        let rg = ranges[k2];
        proof {
            assert(range_matches(*s, va as int, len as int, k2 as int, ranges@[k2 as int]));
            assert((rg.ppn + 1) * p <= mem.bytes@.len());
            if k2 > 0 {
                lemma_page_ceil_above(va as int + len as int, sv + k2);
            }
        }
        let base = rg.ppn * PAGE_SIZE;
        let mut b: usize = 0;
        while b < rg.len
            invariant
                b <= rg.len,
                out@.len() == pos + b,
                forall|j: int| 0 <= j < pos + b ==> out@[j] == phys_byte(*s, *mem, va as int + j),
            decreases rg.len - b,
        {
            proof {
                assert(pos + rg.len <= len) by {
                    lemma_page_ceil_within(va as int + len as int, sv + np);
                }
                let vb = va as int + pos + b;
                assert(vb == (sv + k2) * p + (rg.offset + b));
                vstd::arithmetic::div_mod::lemma_fundamental_div_mod_converse(
                    vb,
                    p,
                    sv + k2,
                    rg.offset + b,
                );
                assert(phys_index(*s, vb) == rg.ppn * p + rg.offset + b);
            }
            let idx = base + rg.offset + b;
            let byte = mem.bytes[idx];
            out.push(byte);
            b += 1;
        }
        pos = pos + rg.len;
        k2 += 1;
        proof {
            if k2 < ranges@.len() {
                lemma_page_ceil_above(va as int + len as int, sv + k2);
            } else {
                lemma_page_ceil_within(va as int + len as int, sv + np);
            }
        }
    }
    proof {
        assert(out@ =~= user_bytes(*s, *mem, va as int, len as int));
    }
    Ok(out)
}

} // verus!
