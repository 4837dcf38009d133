//! The map-area manager: the set of virtual-memory regions mapped into one
//! task's address space, with page-granular insert and remove.
//!
//! The abstract view of an [`AddressSpace`] is a map from virtual page number
//! to [`PageInfo`]: which physical frame backs the page and with what
//! permission bits. All contracts in this crate speak of that view.

use vstd::prelude::*;
use vstd::assert_maps_equal;
use vstd::map::*;

use crate::config::MAX_VPN;

verus! {

/// Why an operation of the core was refused.
#[derive(Clone, Copy, PartialEq, Eq, Structural, Debug)]
pub enum KernelError {
    /// A syscall argument was malformed: misaligned address, empty or
    /// out-of-range page span, bad permission bits.
    ArgumentInvalid,
    /// `mmap` would overwrite a page that is already mapped.
    MappingConflict,
    /// `munmap` names a page that is not mapped.
    MappingAbsent,
    /// A user pointer crosses a page that is unmapped, lacks the needed
    /// permission, or has no backing frame in physical memory.
    AddressFault,
    /// The frame allocator has no frames left for the request.
    FrameExhausted,
}

/// Permission bits of one mapping, in page-table encoding:
/// readable, writable, executable, user-accessible.
#[derive(Clone, Copy, PartialEq, Eq, Structural, Debug)]
pub struct MapPermission {
    pub bits: u8,
}

/// Page-table flag: page is readable.
pub const PERM_R: u8 = 2;

/// Page-table flag: page is writable.
pub const PERM_W: u8 = 4;

/// Page-table flag: page is executable.
pub const PERM_X: u8 = 8;

/// Page-table flag: page is accessible from user mode.
pub const PERM_U: u8 = 16;

impl MapPermission {
    /// A syscall `port` is well formed when it has no bits outside R|W|X
    /// and at least one of them: a mapping must be accessible somehow.
    pub open spec fn spec_port_valid(port: usize) -> bool {
        0 < port <= 7
    }

    /// The page-table encoding of a valid `port`: the three low bits shifted
    /// into the R/W/X positions, with the User bit always set.
    pub open spec fn spec_from_port(port: usize) -> MapPermission {
        MapPermission { bits: (port * 2 + 16) as u8 }
    }

    /// Decode an untrusted 3-bit `port` from the syscall ABI (R=1, W=2, X=4)
    /// into page-table permission bits, refusing unknown bits and the empty
    /// permission set.
    pub fn from_port(port: usize) -> (r: Option<MapPermission>)
        ensures
            r is Some <==> Self::spec_port_valid(port),
            r is Some ==> r->Some_0 == Self::spec_from_port(port),
    {
        if 0 < port && port <= 7 {
            Some(MapPermission { bits: (port * 2 + 16) as u8 })
        } else {
            None
        }
    }

    /// Whether every bit of `mask` is set in these permission bits.
    pub fn contains(self, mask: u8) -> (r: bool)
        ensures
            r == (self.bits & mask == mask),
    {
        self.bits & mask == mask
    }
}

/// What the page table records for one mapped virtual page.
pub ghost struct PageInfo {
    /// The physical page number of the backing frame.
    pub ppn: int,
    /// The permission bits of the mapping.
    pub perm: u8,
}

/// A contiguous, permission-homogeneous run of mapped pages
/// `[start_vpn, end_vpn)`, backed by the equally contiguous physical frames
/// `[first_ppn, first_ppn + (end_vpn - start_vpn))`.
#[derive(Clone, Copy, PartialEq, Eq, Structural, Debug)]
pub struct MapArea {
    pub start_vpn: usize,
    pub end_vpn: usize,
    pub perm: MapPermission,
    pub first_ppn: usize,
}

impl MapArea {
    pub open spec fn wf(self) -> bool {
        self.start_vpn < self.end_vpn && self.end_vpn <= MAX_VPN
    }

    pub open spec fn npages(self) -> int {
        self.end_vpn - self.start_vpn
    }

    pub open spec fn contains_vpn(self, vpn: int) -> bool {
        self.start_vpn <= vpn < self.end_vpn
    }

    /// One past the last physical page number this area uses.
    pub open spec fn ppn_end(self) -> int {
        self.first_ppn + self.npages()
    }

    /// The pages of this area alone, as a fragment of the address-space view.
    pub open spec fn pages(self) -> Map<int, PageInfo> {
        Map::new(
            |vpn: int| self.contains_vpn(vpn),
            |vpn: int|
                PageInfo {
                    ppn: self.first_ppn + (vpn - self.start_vpn),
                    perm: self.perm.bits,
                },
        )
    }

    /// No virtual page lies in both areas.
    pub open spec fn vpn_disjoint(self, other: MapArea) -> bool {
        self.end_vpn <= other.start_vpn || other.end_vpn <= self.start_vpn
    }

    /// No physical frame backs both areas.
    pub open spec fn ppn_disjoint(self, other: MapArea) -> bool {
        self.ppn_end() <= other.first_ppn || other.ppn_end() <= self.first_ppn
    }
}

/// The virtual page numbers of the half-open range `[start, end)`.
pub open spec fn range_set(start: int, end: int) -> Set<int> {
    Set::new(|vpn: int| start <= vpn < end)
}

/// Every page of `[start, end)` is absent from the view `m`.
pub open spec fn range_unmapped(m: Map<int, PageInfo>, start: int, end: int) -> bool {
    forall|vpn: int| start <= vpn < end ==> !(#[trigger] m.contains_key(vpn))
}

/// Every page of `[start, end)` is present in the view `m`.
pub open spec fn range_mapped(m: Map<int, PageInfo>, start: int, end: int) -> bool {
    forall|vpn: int| start <= vpn < end ==> #[trigger] m.contains_key(vpn)
}

/// The view of a whole sequence of areas: the union of their page maps.
pub open spec fn areas_map(s: Seq<MapArea>) -> Map<int, PageInfo>
    decreases s.len(),
{
    if s.len() == 0 {
        Map::empty()
    } else {
        areas_map(s.drop_last()).union_prefer_right(s.last().pages())
    }
}

/// Some area of `s` contains the page `vpn`.
pub open spec fn covered_by(s: Seq<MapArea>, vpn: int) -> bool {
    exists|i: int| 0 <= i < s.len() && (#[trigger] s[i]).contains_vpn(vpn)
}

/// The areas of `s` are pairwise disjoint, in pages and in frames.
pub open spec fn areas_disjoint(s: Seq<MapArea>) -> bool {
    forall|i: int, j: int|
        0 <= i < j < s.len() ==> (#[trigger] s[i]).vpn_disjoint(#[trigger] s[j]) && s[i].ppn_disjoint(
            s[j],
        )
}

/// A page is in the view of `s` exactly when some area of `s` contains it.
pub proof fn lemma_areas_map_dom(s: Seq<MapArea>, vpn: int)
    ensures
        areas_map(s).contains_key(vpn) <==> covered_by(s, vpn),
    decreases s.len(),
{
    if s.len() > 0 {
        lemma_areas_map_dom(s.drop_last(), vpn);
        if covered_by(s.drop_last(), vpn) {
            let i = choose|i: int|
                0 <= i < s.drop_last().len() && (#[trigger] s.drop_last()[i]).contains_vpn(vpn);
            assert(s[i].contains_vpn(vpn));
        }
        if s.last().contains_vpn(vpn) {
            assert(s[s.len() - 1].contains_vpn(vpn));
        }
        if covered_by(s, vpn) && !s.last().contains_vpn(vpn) {
            let i = choose|i: int| 0 <= i < s.len() && (#[trigger] s[i]).contains_vpn(vpn);
            assert(s.drop_last()[i].contains_vpn(vpn));
        }
    }
}

/// With pairwise-disjoint areas the view agrees, on every page of area `i`,
/// with that area's own page map.
pub proof fn lemma_areas_map_at(s: Seq<MapArea>, i: int, vpn: int)
    requires
        areas_disjoint(s),
        0 <= i < s.len(),
        s[i].contains_vpn(vpn),
    ensures
        areas_map(s).contains_key(vpn),
        areas_map(s)[vpn] == s[i].pages()[vpn],
    decreases s.len(),
{
    lemma_areas_map_dom(s, vpn);
    if i == s.len() - 1 {
        assert(s.last().pages().contains_key(vpn));
    } else {
        assert(s[i].vpn_disjoint(s[s.len() - 1]));
        assert(!s.last().pages().contains_key(vpn));
        assert(areas_disjoint(s.drop_last())) by {
            assert forall|a: int, b: int| 0 <= a < b < s.drop_last().len() implies (
            #[trigger] s.drop_last()[a]).vpn_disjoint(#[trigger] s.drop_last()[b])
                && s.drop_last()[a].ppn_disjoint(s.drop_last()[b]) by {
                assert(s[a].vpn_disjoint(s[b]) && s[a].ppn_disjoint(s[b]));
            }
        }
        assert(s.drop_last()[i] == s[i]);
        lemma_areas_map_at(s.drop_last(), i, vpn);
    }
}

/// Removing keys distributes over a map union.
pub proof fn lemma_union_remove_keys(
    m1: Map<int, PageInfo>,
    m2: Map<int, PageInfo>,
    ks: Set<int>,
)
    ensures
        m1.union_prefer_right(m2).remove_keys(ks) == m1.remove_keys(ks).union_prefer_right(
            m2.remove_keys(ks),
        ),
{
    assert_maps_equal!(
        m1.union_prefer_right(m2).remove_keys(ks),
        m1.remove_keys(ks).union_prefer_right(m2.remove_keys(ks)),
    );
}

/// Piece `p` is a sub-run of area `a`: same permission offsetting, pages and
/// frames inside `a`'s.
pub open spec fn sub_area(p: MapArea, a: MapArea) -> bool {
    &&& a.start_vpn <= p.start_vpn
    &&& p.end_vpn <= a.end_vpn
    &&& p.first_ppn - p.start_vpn == a.first_ppn - a.start_vpn
    &&& p.perm == a.perm
}

/// The page-map fragment a fresh area would add: pages `[start, end)`,
/// backed by frames `[first_ppn, ...)`, all with permission `perm`.
pub open spec fn fresh_pages(start: int, end: int, first_ppn: int, perm: u8) -> Map<int, PageInfo> {
    Map::new(
        |vpn: int| start <= vpn < end,
        |vpn: int| PageInfo { ppn: first_ppn + (vpn - start), perm },
    )
}

/// Round trip: mapping a fresh page range and then unmapping exactly that
/// range restores the address space's mapping to what it was before. The
/// hypotheses are the success condition of the map step: on an already
/// intersecting range the map step fails and changes nothing instead.
pub proof fn lemma_map_unmap_round_trip(
    m: Map<int, PageInfo>,
    start: int,
    end: int,
    first_ppn: int,
    perm: u8,
)
    requires
        range_unmapped(m, start, end),
    ensures
        m.union_prefer_right(fresh_pages(start, end, first_ppn, perm)).remove_keys(
            range_set(start, end),
        ) == m,
{
    assert_maps_equal!(
        m.union_prefer_right(fresh_pages(start, end, first_ppn, perm))
            .remove_keys(range_set(start, end)),
        m,
        k => {
            if start <= k < end {
                assert(!m.contains_key(k));
            }
        }
    );
}

/// One task's address space: its map areas plus a bump frame allocator.
/// Frames are never reused once handed out, so distinct pages are always
/// backed by distinct frames.
pub struct AddressSpace {
    pub areas: Vec<MapArea>,
    /// The next physical page number the frame allocator will hand out.
    pub next_ppn: usize,
    /// Bottom of the task's heap; pages from here up to `ceil(brk)` belong
    /// to the heap when the heap is non-empty.
    pub heap_bottom: usize,
    /// The task's current program break.
    pub brk: usize,
}

impl AddressSpace {
    pub open spec fn wf(self) -> bool {
        &&& forall|i: int| 0 <= i < self.areas@.len() ==> (#[trigger] self.areas@[i]).wf()
        &&& forall|i: int|
            0 <= i < self.areas@.len() ==> (#[trigger] self.areas@[i]).ppn_end()
                <= self.next_ppn
        &&& areas_disjoint(self.areas@)
        &&& self.next_ppn <= MAX_VPN
        &&& self.heap_bottom as int % crate::config::PAGE_SIZE as int == 0
        &&& self.heap_bottom <= self.brk
    }

    /// The abstract content of the address space: virtual page number to
    /// backing frame and permission.
    pub open spec fn mapping(self) -> Map<int, PageInfo> {
        areas_map(self.areas@)
    }

    /// Whether `insert_area(start, end, _)` must succeed on this state.
    pub open spec fn spec_can_insert(self, start: int, end: int) -> bool {
        &&& start < end <= MAX_VPN
        &&& range_unmapped(self.mapping(), start, end)
        &&& self.next_ppn + (end - start) <= MAX_VPN
    }

    /// The error `insert_area(start, end, _)` reports when it cannot succeed.
    pub open spec fn spec_insert_err(self, start: int, end: int) -> KernelError {
        if !(start < end <= MAX_VPN) {
            KernelError::ArgumentInvalid
        } else if !range_unmapped(self.mapping(), start, end) {
            KernelError::MappingConflict
        } else {
            KernelError::FrameExhausted
        }
    }

    /// An empty address space whose heap starts (empty) at `heap_bottom`.
    pub fn new(heap_bottom: usize) -> (r: AddressSpace)
        requires
            heap_bottom as int % crate::config::PAGE_SIZE as int == 0,
        ensures
            r.wf(),
            r.mapping() == Map::<int, PageInfo>::empty(),
            r.next_ppn == 0,
            r.heap_bottom == heap_bottom,
            r.brk == heap_bottom,
    {
        AddressSpace { areas: Vec::new(), next_ppn: 0, heap_bottom, brk: heap_bottom }
    }

    /// Whether the page `vpn` is mapped, and under what; a pure lookup.
    pub fn find_page(&self, vpn: usize) -> (r: Option<(usize, MapPermission)>)
        requires
            self.wf(),
        ensures
            r is Some <==> self.mapping().contains_key(vpn as int),
            r is Some ==> {
                let info = self.mapping()[vpn as int];
                r->Some_0.0 == info.ppn && r->Some_0.1.bits == info.perm
            },
    {
        let n = self.areas.len();
        let mut i: usize = 0;
        while i < n
            invariant
                self.wf(),
                n == self.areas@.len(),
                i <= n,
                forall|j: int| 0 <= j < i ==> !(#[trigger] self.areas@[j]).contains_vpn(vpn as int),
            decreases n - i,
        {
            let a = self.areas[i];
            if a.start_vpn <= vpn && vpn < a.end_vpn {
                proof {
                    lemma_areas_map_at(self.areas@, i as int, vpn as int);
                }
                return Some((a.first_ppn + (vpn - a.start_vpn), a.perm));
            }
            i += 1;
        }
        proof {
            lemma_areas_map_dom(self.areas@, vpn as int);
        }
        None
    }

    /// Map the fresh pages `[start_vpn, end_vpn)` with permission `perm`,
    /// allocating one backing frame per page.
    ///
    /// Fails — leaving the address space exactly as it was — when the range
    /// is empty or out of bounds, when any page of it is already mapped, or
    /// when the frame allocator cannot back it; succeeds otherwise. All
    /// validation happens before any state changes, so a failed call is
    /// atomic.
    pub fn insert_area(&mut self, start_vpn: usize, end_vpn: usize, perm: MapPermission) -> (r:
        Result<(), KernelError>)
        requires
            old(self).wf(),
        ensures
            final(self).wf(),
            final(self).heap_bottom == old(self).heap_bottom,
            final(self).brk == old(self).brk,
            r is Ok <==> old(self).spec_can_insert(start_vpn as int, end_vpn as int),
            r is Ok ==> final(self).mapping() == old(self).mapping().union_prefer_right(
                fresh_pages(
                    start_vpn as int,
                    end_vpn as int,
                    old(self).next_ppn as int,
                    perm.bits,
                ),
            ),
            r is Ok ==> final(self).next_ppn == old(self).next_ppn + (end_vpn - start_vpn),
            r is Err ==> *final(self) == *old(self) && r->Err_0 == old(self).spec_insert_err(
                start_vpn as int,
                end_vpn as int,
            ),
    {
        if start_vpn >= end_vpn || end_vpn > MAX_VPN {
            return Err(KernelError::ArgumentInvalid);
        }
        let n = self.areas.len();
        let mut i: usize = 0;
        while i < n
            invariant
                *self == *old(self),
                self.wf(),
                n == self.areas@.len(),
                i <= n,
                start_vpn < end_vpn <= MAX_VPN,
                forall|j: int|
                    0 <= j < i ==> (#[trigger] self.areas@[j]).end_vpn <= start_vpn || end_vpn <= self.areas@[j].start_vpn,
            decreases n - i,
        {
            let a = self.areas[i];
            if !(a.end_vpn <= start_vpn || end_vpn <= a.start_vpn) {
                proof {
                    let w = if a.start_vpn >= start_vpn {
                        a.start_vpn as int
                    } else {
                        start_vpn as int
                    };
                    assert(a.contains_vpn(w));
                    lemma_areas_map_at(self.areas@, i as int, w);
                    assert(start_vpn <= w < end_vpn && self.mapping().contains_key(w));
                    assert(!range_unmapped(self.mapping(), start_vpn as int, end_vpn as int));
                }
                return Err(KernelError::MappingConflict);
            }
            i += 1;
        }
        proof {
            assert forall|vpn: int| start_vpn <= vpn < end_vpn implies !(
            #[trigger] self.mapping().contains_key(vpn)) by {
                lemma_areas_map_dom(self.areas@, vpn);
            }
        }
        if end_vpn - start_vpn > MAX_VPN - self.next_ppn {
            return Err(KernelError::FrameExhausted);
        }
        let area = MapArea { start_vpn, end_vpn, perm, first_ppn: self.next_ppn };
        let ghost olds = self.areas@;
        self.next_ppn = self.next_ppn + (end_vpn - start_vpn);
        self.areas.push(area);
        proof {
            assert(self.areas@.drop_last() =~= olds);
            assert(self.areas@.last() == area);
            assert(area.pages() =~= fresh_pages(
                start_vpn as int,
                end_vpn as int,
                old(self).next_ppn as int,
                perm.bits,
            ));
            assert(areas_disjoint(self.areas@)) by {
                assert forall|a0: int, b0: int| 0 <= a0 < b0 < self.areas@.len() implies (
                #[trigger] self.areas@[a0]).vpn_disjoint(#[trigger] self.areas@[b0])
                    && self.areas@[a0].ppn_disjoint(self.areas@[b0]) by {
                    if b0 == self.areas@.len() - 1 {
                        assert(self.areas@[a0] == olds[a0]);
                        assert(olds[a0].ppn_end() <= old(self).next_ppn);
                    } else {
                        assert(self.areas@[a0] == olds[a0] && self.areas@[b0] == olds[b0]);
                    }
                }
            }
        }
        Ok(())
    }

    /// Unmap every page of `[start_vpn, end_vpn)`, releasing the backing
    /// frames and shrinking or splitting the owning areas.
    ///
    /// Fails — leaving the address space exactly as it was — when any page
    /// of the range is not currently mapped; an empty range is a no-op
    /// success. All validation happens before any state changes.
    pub fn remove_area(&mut self, start_vpn: usize, end_vpn: usize) -> (r: Result<
        (),
        KernelError,
    >)
        requires
            old(self).wf(),
        ensures
            final(self).wf(),
            final(self).heap_bottom == old(self).heap_bottom,
            final(self).brk == old(self).brk,
            final(self).next_ppn == old(self).next_ppn,
            r is Ok <==> range_mapped(old(self).mapping(), start_vpn as int, end_vpn as int),
            r is Ok ==> final(self).mapping() == old(self).mapping().remove_keys(
                range_set(start_vpn as int, end_vpn as int),
            ),
            r is Err ==> *final(self) == *old(self) && r->Err_0 == KernelError::MappingAbsent,
    {
        let ghost rset = range_set(start_vpn as int, end_vpn as int);
        if start_vpn >= end_vpn {
            proof {
                assert(self.mapping().remove_keys(rset) =~= self.mapping());
            }
            return Ok(());
        }
        let mut vpn = start_vpn;
        while vpn < end_vpn
            invariant
                *self == *old(self),
                self.wf(),
                start_vpn <= vpn <= end_vpn,
                forall|v: int|
                    start_vpn <= v < vpn ==> #[trigger] self.mapping().contains_key(v),
            decreases end_vpn - vpn,
        {
            if self.find_page(vpn).is_none() {
                return Err(KernelError::MappingAbsent);
            }
            vpn += 1;
        }
        let ghost olds = self.areas@;
        let mut new_areas: Vec<MapArea> = Vec::new();
        let n = self.areas.len();
        let mut i: usize = 0;
        while i < n
            invariant
                *self == *old(self),
                self.wf(),
                olds == self.areas@,
                n == olds.len(),
                i <= n,
                start_vpn < end_vpn,
                rset == range_set(start_vpn as int, end_vpn as int),
                areas_map(new_areas@) == areas_map(olds.take(i as int)).remove_keys(rset),
                forall|k: int| 0 <= k < new_areas@.len() ==> (#[trigger] new_areas@[k]).wf(),
                forall|k: int|
                    0 <= k < new_areas@.len() ==> (#[trigger] new_areas@[k]).ppn_end()
                        <= self.next_ppn,
                areas_disjoint(new_areas@),
                forall|k: int|
                    0 <= k < new_areas@.len() ==> exists|j: int|
                        0 <= j < i && sub_area(#[trigger] new_areas@[k], olds[j]),
            decreases n - i,
        {
            let a = self.areas[i];
            let ghost prev = new_areas@;
            let left_end = if start_vpn < a.end_vpn {
                start_vpn
            } else {
                a.end_vpn
            };
            let right_start = if end_vpn > a.start_vpn {
                end_vpn
            } else {
                a.start_vpn
            };
            let ghost lp = MapArea {
                start_vpn: a.start_vpn,
                end_vpn: left_end,
                perm: a.perm,
                first_ppn: a.first_ppn,
            };
            let ghost rp = MapArea {
                start_vpn: right_start,
                end_vpn: a.end_vpn,
                perm: a.perm,
                first_ppn: (a.first_ppn + (right_start - a.start_vpn)) as usize,
            };
            proof {
                assert(a == self.areas@[i as int]);
                assert(a.wf() && a.ppn_end() <= self.next_ppn);
                assert(sub_area(lp, a));
                if right_start < a.end_vpn {
                    assert(a.first_ppn + (right_start - a.start_vpn) < a.ppn_end());
                    assert(sub_area(rp, a));
                }
                assert forall|k: int| 0 <= k < prev.len() implies (#[trigger] prev[k]).vpn_disjoint(
                    a,
                ) && prev[k].ppn_disjoint(a) by {
                    let j = choose|j: int| 0 <= j < i && sub_area(prev[k], olds[j]);
                    assert(olds[j].vpn_disjoint(olds[i as int]) && olds[j].ppn_disjoint(
                        olds[i as int],
                    ));
                }
            }
            if a.start_vpn < left_end {
                new_areas.push(
                    MapArea {
                        start_vpn: a.start_vpn,
                        end_vpn: left_end,
                        perm: a.perm,
                        first_ppn: a.first_ppn,
                    },
                );
                proof {
                    assert(new_areas@.drop_last() =~= prev);
                    assert(new_areas@.last() == lp);
                    assert(areas_map(new_areas@) == areas_map(prev).union_prefer_right(
                        lp.pages(),
                    ));
                }
            }
            if right_start < a.end_vpn {
                let ghost mid = new_areas@;
                new_areas.push(
                    MapArea {
                        start_vpn: right_start,
                        end_vpn: a.end_vpn,
                        perm: a.perm,
                        first_ppn: a.first_ppn + (right_start - a.start_vpn),
                    },
                );
                proof {
                    assert(new_areas@.drop_last() =~= mid);
                    assert(new_areas@.last() == rp);
                    assert(areas_map(new_areas@) == areas_map(mid).union_prefer_right(
                        rp.pages(),
                    ));
                }
            }
            proof {
                assert(olds.take(i + 1).drop_last() =~= olds.take(i as int));
                assert(olds.take(i + 1).last() == a);
                let x = areas_map(olds.take(i as int)).remove_keys(rset);
                assert(areas_map(olds.take(i + 1)) == areas_map(olds.take(i as int))
                    .union_prefer_right(a.pages()));
                lemma_union_remove_keys(areas_map(olds.take(i as int)), a.pages(), rset);
                assert(areas_map(olds.take(i + 1)).remove_keys(rset) == x.union_prefer_right(
                    a.pages().remove_keys(rset),
                ));
                if a.start_vpn < left_end && right_start < a.end_vpn {
                    assert(lp.pages().union_prefer_right(rp.pages()) =~= a.pages().remove_keys(
                        rset,
                    ));
                    assert(areas_map(new_areas@) == x.union_prefer_right(lp.pages())
                        .union_prefer_right(rp.pages()));
                    assert_maps_equal!(
                        x.union_prefer_right(lp.pages()).union_prefer_right(rp.pages()),
                        x.union_prefer_right(lp.pages().union_prefer_right(rp.pages())),
                    );
                } else if a.start_vpn < left_end {
                    assert(lp.pages() =~= a.pages().remove_keys(rset));
                    assert(areas_map(new_areas@) == x.union_prefer_right(lp.pages()));
                } else if right_start < a.end_vpn {
                    assert(rp.pages() =~= a.pages().remove_keys(rset));
                    assert(areas_map(new_areas@) == x.union_prefer_right(rp.pages()));
                } else {
                    assert(Map::<int, PageInfo>::empty() =~= a.pages().remove_keys(rset));
                    assert(areas_map(new_areas@) == x);
                    assert_maps_equal!(
                        x,
                        x.union_prefer_right(Map::<int, PageInfo>::empty()),
                    );
                }
                assert(areas_map(new_areas@) =~= areas_map(olds.take(i + 1)).remove_keys(rset));
                assert forall|k: int| 0 <= k < new_areas@.len() implies exists|j: int|
                    0 <= j < i + 1 && sub_area(#[trigger] new_areas@[k], olds[j]) by {
                    if k < prev.len() {
                        let j = choose|j: int| 0 <= j < i && sub_area(prev[k], olds[j]);
                        assert(sub_area(new_areas@[k], olds[j]));
                    } else {
                        assert(sub_area(new_areas@[k], olds[i as int]));
                    }
                }
            }
            i += 1;
        }
        proof {
            assert(olds.take(n as int) =~= olds);
        }
        self.areas = new_areas;
        Ok(())
    }
}

} // verus!
