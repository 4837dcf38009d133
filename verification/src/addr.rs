//! Virtual addresses and their page-granular rounding.

use vstd::prelude::*;

use crate::config::PAGE_SIZE;

verus! {

/// A virtual address: a machine word split conceptually into a virtual page
/// number and an in-page offset.
#[derive(Clone, Copy, PartialEq, Eq, Structural, Debug)]
pub struct VirtAddr {
    pub addr: usize,
}

impl VirtAddr {
    /// The page containing this address.
    pub open spec fn spec_floor(self) -> int {
        self.addr as int / PAGE_SIZE as int
    }

    /// The first page boundary at or above this address, as a page number.
    pub open spec fn spec_ceil(self) -> int {
        if self.addr as int % PAGE_SIZE as int == 0 {
            self.spec_floor()
        } else {
            self.spec_floor() + 1
        }
    }

    pub open spec fn spec_aligned(self) -> bool {
        self.addr as int % PAGE_SIZE as int == 0
    }

    pub fn new(addr: usize) -> (r: VirtAddr)
        ensures
            r.addr == addr,
    {
        VirtAddr { addr }
    }

    /// Round down to a page number.
    pub fn floor(self) -> (r: usize)
        ensures
            r == self.spec_floor(),
    {
        self.addr / PAGE_SIZE
    }

    /// Round up to a page number; never overflows, whatever the address.
    pub fn ceil(self) -> (r: usize)
        ensures
            r == self.spec_ceil(),
    {
        let q = self.addr / PAGE_SIZE;
        if self.addr % PAGE_SIZE == 0 {
            q
        } else {
            q + 1
        }
    }

    /// Whether the address sits exactly on a page boundary.
    pub fn aligned(self) -> (r: bool)
        ensures
            r == self.spec_aligned(),
    {
        self.addr % PAGE_SIZE == 0
    }

    /// The offset of this address inside its page.
    pub fn page_offset(self) -> (r: usize)
        ensures
            r == self.addr as int % PAGE_SIZE as int,
    {
        self.addr % PAGE_SIZE
    }
}

} // verus!
