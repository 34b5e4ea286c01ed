//! Two-level page tables.
//!
//! A page table is a radix structure: a root table of 1024 slots, each
//! either empty or naming a second-level table of 1024 leaf entries, with
//! each leaf mapping one virtual page to one physical page and a set of
//! permission flags. Second-level tables are allocated from the physical
//! page allocator on first use of a root slot. The structure is modelled
//! with explicit vectors; its meaning is the finite map from virtual page
//! numbers to leaf entries, and every operation is specified against that
//! map.

use vstd::prelude::*;

use crate::KernelError;
use crate::common::{PAddr, VAddr};
use crate::memory::{PAGE_SIZE, PageAllocator};

verus! {

use vstd::pervasive::VecAdditionalExecFns;

/// Permission flag: the page may be read.
pub const PAGE_R: u32 = 2;

/// Permission flag: the page may be written.
pub const PAGE_W: u32 = 4;

/// Permission flag: the page may be executed.
pub const PAGE_X: u32 = 8;

/// Number of entries in the root table and in each second-level table.
pub const ENTRIES_PER_TABLE: usize = 1024;

/// Number of distinct virtual page numbers (1024 * 1024).
pub const VPN_LIMIT: u64 = 0x100000;

/// A leaf page-table entry: the physical page number the virtual page maps
/// to, and its permission flags.
#[derive(Clone, Copy, Debug, PartialEq, Eq, Structural)]
pub struct Pte {
    pub ppn: u32,
    pub flags: u32,
}

/// A second-level table: the physical page that backs it and its 1024
/// leaf entries.
pub struct SecondLevelTable {
    /// Physical address of the page backing this table.
    pub paddr: PAddr,
    /// The leaf entries; `None` is an unmapped slot.
    pub entries: Vec<Option<Pte>>,
}

/// A two-level page table.
pub struct PageTable {
    /// Physical address of the page backing the root table.
    pub root_paddr: PAddr,
    /// The 1024 root slots; `Some(k)` points at `tables[k]`.
    pub root: Vec<Option<usize>>,
    /// The second-level tables, in order of allocation.
    pub tables: Vec<SecondLevelTable>,
}

/// The virtual page number of `va`.
pub open spec fn vpn(va: VAddr) -> int {
    va as int / PAGE_SIZE as int
}

/// The root-table index of `va` (the high half of its page number).
pub open spec fn vpn1(va: VAddr) -> int {
    vpn(va) / ENTRIES_PER_TABLE as int
}

impl PageTable {
    /// The leaf entry the structure holds for virtual page number `vp`,
    /// read through the two levels.
    pub open spec fn entry_at(self, vp: int) -> Option<Pte> {
        if 0 <= vp < VPN_LIMIT as int {
            match self.root@[vp / ENTRIES_PER_TABLE as int] {
                Some(k) => {
                    if k < self.tables@.len() {
                        self.tables@[k as int].entries@[vp % ENTRIES_PER_TABLE as int]
                    } else {
                        None
                    }
                },
                None => None,
            }
        } else {
            None
        }
    }

    /// Structural validity: both levels have their fixed sizes, root slots
    /// point at distinct existing second-level tables, and physical page
    /// numbers fit in 20 bits.
    pub open spec fn wf(self) -> bool {
        &&& self.root@.len() == ENTRIES_PER_TABLE
        &&& forall|i: int|
            0 <= i < self.root@.len() && self.root@[i] is Some
                ==> (#[trigger] self.root@[i])->0 < self.tables@.len()
        &&& forall|i: int, j: int|
            0 <= i < self.root@.len() && 0 <= j < self.root@.len() && i != j
                && #[trigger] self.root@[i] is Some && #[trigger] self.root@[j] is Some
                ==> self.root@[i]->0 != self.root@[j]->0
        &&& forall|k: int|
            0 <= k < self.tables@.len()
                ==> (#[trigger] self.tables@[k]).entries@.len() == ENTRIES_PER_TABLE
        &&& forall|k: int, e: int|
            0 <= k < self.tables@.len() && 0 <= e < ENTRIES_PER_TABLE
                && (#[trigger] self.tables@[k].entries@[e]) is Some
                ==> self.tables@[k].entries@[e]->0.ppn < (VPN_LIMIT as u32)
    }

    /// Creates an empty page table whose root is backed by a freshly
    /// allocated page. Fails exactly when the allocator cannot provide
    /// that page.
    pub fn new(alloc: &mut PageAllocator) -> (r: Result<PageTable, KernelError>)
        requires
            old(alloc).wf(),
        ensures
            final(alloc).wf(),
            final(alloc).ram_end == old(alloc).ram_end,
            r is Ok <==> old(alloc).next_paddr + PAGE_SIZE <= old(alloc).ram_end,
            match r {
                Ok(pt) => {
                    &&& pt.wf()
                    &&& pt@ == Map::<int, Pte>::empty()
                    &&& pt.root_paddr == old(alloc).next_paddr
                    &&& forall|i: int| 0 <= i < ENTRIES_PER_TABLE ==> pt.root@[i] is None
                    &&& final(alloc).next_paddr == old(alloc).next_paddr + PAGE_SIZE
                },
                Err(e) => {
                    &&& e == KernelError::OutOfMemory
                    &&& *final(alloc) == *old(alloc)
                },
            },
    {
        let region = match alloc.alloc_pages(1) {
            Ok(region) => region,
            Err(e) => {
                return Err(e);
            },
        };
        let root = empty_slots(ENTRIES_PER_TABLE);
        let pt = PageTable { root_paddr: region.paddr, root, tables: Vec::new() };
        proof {
            assert(pt@ =~= Map::<int, Pte>::empty());
        }
        Ok(pt)
    }

    /// Installs the leaf mapping `vaddr -> paddr` with the given flags,
    /// allocating a second-level table on first use of the root slot.
    /// Against the table's map meaning this is exactly an insert at
    /// `vaddr`'s page number; every other mapping is untouched. Fails
    /// exactly when a second-level table is needed and the allocator is
    /// exhausted, in which case nothing changes.
    pub fn create_mapping(
        &mut self,
        alloc: &mut PageAllocator,
        vaddr: VAddr,
        paddr: PAddr,
        flags: u32,
    ) -> (r: Result<(), KernelError>)
        requires
            old(self).wf(),
            old(alloc).wf(),
            vaddr % PAGE_SIZE == 0,
            paddr % PAGE_SIZE == 0,
        ensures
            final(self).wf(),
            final(alloc).wf(),
            final(alloc).ram_end == old(alloc).ram_end,
            final(self).root_paddr == old(self).root_paddr,
            r is Ok <==> (old(self).root@[vpn1(vaddr)] is Some || old(alloc).next_paddr
                + PAGE_SIZE <= old(alloc).ram_end),
            r is Ok ==> final(self)@ == old(self)@.insert(
                vpn(vaddr),
                Pte { ppn: paddr / PAGE_SIZE, flags },
            ),
            r is Ok ==> forall|i: int|
                0 <= i < ENTRIES_PER_TABLE ==> ((#[trigger] final(self).root@[i]) is Some <==> (
                old(self).root@[i] is Some || i == vpn1(vaddr))),
            r is Ok ==> final(alloc).next_paddr == old(alloc).next_paddr + (if old(
                self,
            ).root@[vpn1(vaddr)] is Some {
                0
            } else {
                PAGE_SIZE as int
            }),
            r is Err ==> {
                &&& r == Err::<(), KernelError>(KernelError::OutOfMemory)
                &&& *final(self) == *old(self)
                &&& *final(alloc) == *old(alloc)
            },
    {
        let i1 = (vaddr / PAGE_SIZE / (ENTRIES_PER_TABLE as u32)) as usize;
        let i0 = ((vaddr / PAGE_SIZE) % (ENTRIES_PER_TABLE as u32)) as usize;
        let pte = Pte { ppn: paddr / PAGE_SIZE, flags };
        let k: usize = match self.root[i1] {
            Some(k) => k,
            None => {
                let region = match alloc.alloc_pages(1) {
                    Ok(region) => region,
                    Err(e) => {
                        return Err(e);
                    },
                };
                let entries = empty_entries(ENTRIES_PER_TABLE);
                let k = self.tables.len();
                self.tables.push(SecondLevelTable { paddr: region.paddr, entries });
                self.root.set(i1, Some(k));
                k
            },
        };
        let table = &mut self.tables[k];
        table.entries.set(i0, Some(pte));
        proof {
            assert(vpn(vaddr) == i1 * ENTRIES_PER_TABLE as int + i0) by {
                vstd::arithmetic::div_mod::lemma_fundamental_div_mod(
                    vpn(vaddr),
                    ENTRIES_PER_TABLE as int,
                );
            }
            assert(self@ =~= old(self)@.insert(vpn(vaddr), pte));
        }
        Ok(())
    }

    /// Translates `vaddr` through the table: the physical address is the
    /// mapped page's base plus the offset within the page, returned with
    /// the mapping's flags; unmapped addresses translate to nothing.
    pub fn translate(&self, vaddr: VAddr) -> (r: Option<(PAddr, u32)>)
        requires
            self.wf(),
        ensures
            r == spec_translate(self@, vaddr),
    {
        let i1 = (vaddr / PAGE_SIZE / (ENTRIES_PER_TABLE as u32)) as usize;
        let i0 = ((vaddr / PAGE_SIZE) % (ENTRIES_PER_TABLE as u32)) as usize;
        if let Some(k) = self.root[i1] {
            if let Some(pte) = self.tables[k].entries[i0] {
                proof {
                    assert(vpn(vaddr) == i1 * ENTRIES_PER_TABLE as int + i0) by {
                        vstd::arithmetic::div_mod::lemma_fundamental_div_mod(
                            vpn(vaddr),
                            ENTRIES_PER_TABLE as int,
                        );
                    }
                    assert(self@.dom().contains(vpn(vaddr)));
                    assert(self@[vpn(vaddr)] == pte);
                }
                Some((pte.ppn * PAGE_SIZE + vaddr % PAGE_SIZE, pte.flags))
            } else {
                None
            }
        } else {
            None
        }
    }
}

impl View for PageTable {
    type V = Map<int, Pte>;

    /// The meaning of the structure: the finite map from virtual page
    /// numbers to the leaf entries installed for them.
    open spec fn view(&self) -> Map<int, Pte> {
        Map::new(|vp: int| self.entry_at(vp) is Some, |vp: int| self.entry_at(vp)->0)
    }
}

/// What translation yields under a page-table map: the mapped page's base
/// plus the in-page offset, with the mapping's flags.
pub open spec fn spec_translate(m: Map<int, Pte>, va: VAddr) -> Option<(PAddr, u32)> {
    if m.dom().contains(vpn(va)) {
        Some(((m[vpn(va)].ppn * PAGE_SIZE + va % PAGE_SIZE) as PAddr, m[vpn(va)].flags))
    } else {
        None
    }
}

/// After installing a mapping for `vaddr`, translating `vaddr` yields
/// exactly the mapped physical address with exactly the given flags.
pub proof fn lemma_mapping_translates(m: Map<int, Pte>, vaddr: VAddr, paddr: PAddr, flags: u32)
    requires
        vaddr % PAGE_SIZE == 0,
        paddr % PAGE_SIZE == 0,
    ensures
        spec_translate(m.insert(vpn(vaddr), Pte { ppn: paddr / PAGE_SIZE, flags }), vaddr)
            == Some((paddr, flags)),
{
    vstd::arithmetic::div_mod::lemma_fundamental_div_mod(paddr as int, PAGE_SIZE as int);
}

/// Installing a mapping for `vaddr` leaves the translation of every
/// address on a different virtual page unchanged — in particular one
/// whose mapping lives in the same second-level table.
pub proof fn lemma_mapping_preserves_others(
    m: Map<int, Pte>,
    vaddr: VAddr,
    pte: Pte,
    other: VAddr,
)
    requires
        vpn(other) != vpn(vaddr),
    ensures
        spec_translate(m.insert(vpn(vaddr), pte), other) == spec_translate(m, other),
{
}

/// Builds a vector of `n` empty root slots.
fn empty_slots(n: usize) -> (r: Vec<Option<usize>>)
    ensures
        r@.len() == n,
        forall|i: int| 0 <= i < n ==> r@[i] is None,
{
    let mut v: Vec<Option<usize>> = Vec::new();
    let mut i: usize = 0;
    while i < n
        invariant
            i <= n,
            v@.len() == i,
            forall|j: int| 0 <= j < i ==> v@[j] is None,
        decreases n - i,
    {
        v.push(None);
        i += 1;
    }
    v
}

/// Builds a vector of `n` unmapped leaf entries.
fn empty_entries(n: usize) -> (r: Vec<Option<Pte>>)
    ensures
        r@.len() == n,
        forall|i: int| 0 <= i < n ==> r@[i] is None,
{
    let mut v: Vec<Option<Pte>> = Vec::new();
    let mut i: usize = 0;
    while i < n
        invariant
            i <= n,
            v@.len() == i,
            forall|j: int| 0 <= j < i ==> v@[j] is None,
        decreases n - i,
    {
        v.push(None);
        i += 1;
    }
    v
}

} // verus!
