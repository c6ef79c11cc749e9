//! Model of a task's address space: the set of mapped virtual pages with
//! their permission bits, and the page-level operations the mapping
//! validator relies on.
//!
//! The page-table and frame-allocator layer proper is an external
//! collaborator; this core only records which pages a task has mapped and
//! with which permissions, which is exactly what the validation rules read.
use vstd::prelude::*;

verus! {

/// One mapped page: its virtual page number and its permission bits
/// (low three bits: readable, writable, executable).
#[derive(Clone, Copy, Debug, PartialEq, Eq, Structural)]
pub struct PageEntry {
    /// Virtual page number.
    pub vpn: usize,
    /// Permission bits; always between 1 and 7.
    pub perm: u8,
}

/// A task's address space: the pages it has mapped. Each page appears at
/// most once.
pub struct AddressSpace {
    /// The mapped pages, in no particular order, pairwise distinct by `vpn`.
    pub pages: Vec<PageEntry>,
}

impl AddressSpace {
    /// Whether the page with number `vpn` is mapped.
    pub open spec fn is_mapped(self, vpn: int) -> bool {
        exists|k: int| 0 <= k < self.pages@.len() && self.pages@[k].vpn == vpn
    }

    /// Whether the page with number `vpn` is mapped with permission `perm`.
    pub open spec fn maps_to(self, vpn: int, perm: u8) -> bool {
        exists|k: int|
            0 <= k < self.pages@.len() && self.pages@[k].vpn == vpn && self.pages@[k].perm == perm
    }

    /// Every page in `[svpn, svpn + n)` is mapped.
    pub open spec fn range_is_mapped(self, svpn: int, n: int) -> bool {
        forall|v: int| svpn <= v < svpn + n ==> self.is_mapped(v)
    }

    /// No page in `[svpn, svpn + n)` is mapped.
    pub open spec fn range_is_free(self, svpn: int, n: int) -> bool {
        forall|v: int| svpn <= v < svpn + n ==> !self.is_mapped(v)
    }

    /// Well-formedness: page numbers pairwise distinct, permissions in 1..=7.
    pub open spec fn wf(self) -> bool {
        &&& forall|k1: int, k2: int|
            0 <= k1 < k2 < self.pages@.len() ==> self.pages@[k1].vpn != self.pages@[k2].vpn
        &&& forall|k: int| 0 <= k < self.pages@.len() ==> 1 <= #[trigger] self.pages@[k].perm <= 7
    }

    /// An address space with nothing mapped.
    pub fn new() -> (r: AddressSpace)
        ensures
            r.wf(),
            forall|v: int| !r.is_mapped(v),
    {
        AddressSpace { pages: Vec::new() }
    }

    /// Whether page `vpn` is currently mapped.
    pub fn mapped(&self, vpn: usize) -> (r: bool)
        ensures
            r == self.is_mapped(vpn as int),
    {
        let mut k: usize = 0;
        while k < self.pages.len()
            invariant
                k <= self.pages@.len(),
                forall|j: int| 0 <= j < k ==> self.pages@[j].vpn != vpn,
            decreases self.pages@.len() - k,
        {
            if self.pages[k].vpn == vpn {
                return true;
            }
            k = k + 1;
        }
        false
    }

    /// Whether every page in `[svpn, svpn + n)` is mapped.
    pub fn all_mapped(&self, svpn: usize, n: usize) -> (r: bool)
        requires
            svpn + n <= usize::MAX,
        ensures
            r == self.range_is_mapped(svpn as int, n as int),
    {
        let mut j: usize = 0;
        while j < n
            invariant
                j <= n,
                svpn + n <= usize::MAX,
                forall|v: int| svpn <= v < svpn + j ==> self.is_mapped(v),
            decreases n - j,
        {
            if !self.mapped(svpn + j) {
                return false;
            }
            j = j + 1;
        }
        true
    }

    /// Whether no page in `[svpn, svpn + n)` is mapped.
    pub fn all_free(&self, svpn: usize, n: usize) -> (r: bool)
        requires
            svpn + n <= usize::MAX,
        ensures
            r == self.range_is_free(svpn as int, n as int),
    {
        let mut j: usize = 0;
        while j < n
            invariant
                j <= n,
                svpn + n <= usize::MAX,
                forall|v: int| svpn <= v < svpn + j ==> !self.is_mapped(v),
            decreases n - j,
        {
            if self.mapped(svpn + j) {
                return false;
            }
            j = j + 1;
        }
        true
    }

    /// Map every page in `[svpn, svpn + n)` with permission `perm`.
    pub fn insert_pages(&mut self, svpn: usize, n: usize, perm: u8)
        requires
            old(self).wf(),
            old(self).range_is_free(svpn as int, n as int),
            svpn + n <= usize::MAX,
            1 <= perm <= 7,
        ensures
            final(self).wf(),
            forall|v: int| svpn <= v < svpn + n ==> #[trigger] final(self).is_mapped(v),
            forall|v: int| svpn <= v < svpn + n ==> #[trigger] final(self).maps_to(v, perm),
            forall|v: int|
                !(svpn <= v < svpn + n) ==> (final(self).is_mapped(v) == old(self).is_mapped(v)),
            forall|v: int, p: u8|
                !(svpn <= v < svpn + n) ==> (final(self).maps_to(v, p) == old(self).maps_to(v, p)),
    {
        let ghost base = self.pages@.len();
        let mut j: usize = 0;
        while j < n
            invariant
                j <= n,
                svpn + n <= usize::MAX,
                1 <= perm <= 7,
                self.pages@.len() == base + j,
                forall|k: int| 0 <= k < base ==> self.pages@[k] == old(self).pages@[k],
                forall|k: int|
                    base <= k < base + j ==> self.pages@[k] == (PageEntry {
                        vpn: (svpn + k - base) as usize,
                        perm,
                    }),
                old(self).wf(),
                old(self).range_is_free(svpn as int, n as int),
            decreases n - j,
        {
            self.pages.push(PageEntry { vpn: svpn + j, perm });
            j = j + 1;
        }
        proof {
            assert forall|k1: int, k2: int| 0 <= k1 < k2 < self.pages@.len() implies self.pages@[k1].vpn
                != self.pages@[k2].vpn by {
                if k2 >= base {
                    assert(self.pages@[k2].vpn == svpn + k2 - base);
                    if k1 >= base {
                        assert(self.pages@[k1].vpn == svpn + k1 - base);
                    } else {
                        assert(self.pages@[k1] == old(self).pages@[k1]);
                        if self.pages@[k1].vpn == self.pages@[k2].vpn {
                            assert(old(self).is_mapped(svpn + k2 - base));
                        }
                    }
                }
            }
            assert forall|v: int| svpn <= v < svpn + n implies #[trigger] self.is_mapped(v) by {
                assert(self.pages@[base + (v - svpn)].vpn == v);
            }
            assert forall|v: int| svpn <= v < svpn + n implies #[trigger] self.maps_to(v, perm) by {
                assert(self.pages@[base + (v - svpn)].vpn == v);
                assert(self.pages@[base + (v - svpn)].perm == perm);
            }
            assert forall|v: int| !(svpn <= v < svpn + n) && old(self).is_mapped(v) implies self.is_mapped(
                v,
            ) by {
                let k = choose|k: int|
                    0 <= k < old(self).pages@.len() && old(self).pages@[k].vpn == v;
                assert(self.pages@[k].vpn == v);
            }
            assert forall|v: int, p: u8| !(svpn <= v < svpn + n) && old(self).maps_to(v, p) implies self.maps_to(
                v,
                p,
            ) by {
                let k = choose|k: int|
                    0 <= k < old(self).pages@.len() && old(self).pages@[k].vpn == v
                        && old(self).pages@[k].perm == p;
                assert(self.pages@[k].vpn == v && self.pages@[k].perm == p);
            }
        }
    }

    /// Unmap every page in `[svpn, svpn + n)`; pages outside the range keep
    /// their mapping and permission.
    pub fn remove_pages(&mut self, svpn: usize, n: usize)
        requires
            old(self).wf(),
            svpn + n <= usize::MAX,
        ensures
            final(self).wf(),
            forall|v: int| svpn <= v < svpn + n ==> !final(self).is_mapped(v),
            forall|v: int|
                !(svpn <= v < svpn + n) ==> (final(self).is_mapped(v) == old(self).is_mapped(v)),
            forall|v: int, p: u8|
                !(svpn <= v < svpn + n) ==> (final(self).maps_to(v, p) == old(self).maps_to(v, p)),
    {
        let mut kept: Vec<PageEntry> = Vec::new();
        let mut i: usize = 0;
        while i < self.pages.len()
            invariant
                i <= self.pages@.len(),
                self.pages@ == old(self).pages@,
                old(self).wf(),
                svpn + n <= usize::MAX,
                forall|k: int, j: int|
                    0 <= k < kept@.len() && i <= j < self.pages@.len() ==> (
                    #[trigger] kept@[k]).vpn != (#[trigger] self.pages@[j]).vpn,
                forall|k1: int, k2: int| 0 <= k1 < k2 < kept@.len() ==> kept@[k1].vpn != kept@[k2].vpn,
                forall|k: int| 0 <= k < kept@.len() ==> 1 <= (#[trigger] kept@[k]).perm <= 7,
                forall|k: int|
                    0 <= k < kept@.len() ==> !(svpn <= (#[trigger] kept@[k]).vpn < svpn + n),
                forall|k: int|
                    0 <= k < kept@.len() ==> old(self).maps_to(
                        (#[trigger] kept@[k]).vpn as int,
                        kept@[k].perm,
                    ),
                forall|j: int|
                    0 <= j < i && !(svpn <= (#[trigger] self.pages@[j]).vpn < svpn + n) ==> exists|
                        k: int,
                    |
                        0 <= k < kept@.len() && kept@[k].vpn == self.pages@[j].vpn && kept@[k].perm
                            == self.pages@[j].perm,
            decreases self.pages@.len() - i,
        {
            let e = self.pages[i];
            let ghost prev = kept@;
            let ghost at = i as int;
            if !(svpn <= e.vpn && e.vpn < svpn + n) {
                proof {
                    assert(self.pages@[at].vpn == e.vpn && self.pages@[at].perm == e.perm);
                    assert(old(self).maps_to(e.vpn as int, e.perm));
                }
                kept.push(e);
            }
            i = i + 1;
            proof {
                assert forall|j: int|
                    0 <= j < i && !(svpn <= (#[trigger] self.pages@[j]).vpn < svpn + n) implies exists|
                    k: int,
                |
                    0 <= k < kept@.len() && kept@[k].vpn == self.pages@[j].vpn && kept@[k].perm
                        == self.pages@[j].perm by {
                    if j < at {
                        let k = choose|k: int|
                            0 <= k < prev.len() && prev[k].vpn == self.pages@[j].vpn && prev[k].perm
                                == self.pages@[j].perm;
                        assert(kept@[k].vpn == self.pages@[j].vpn && kept@[k].perm
                            == self.pages@[j].perm);
                    } else {
                        assert(kept@[kept@.len() - 1].vpn == self.pages@[j].vpn && kept@[kept@.len()
                            - 1].perm == self.pages@[j].perm);
                    }
                }
            }
        }
        self.pages = kept;
        proof {
            assert forall|v: int| !(svpn <= v < svpn + n) implies (self.is_mapped(v) == old(
                self,
            ).is_mapped(v)) by {
                if old(self).is_mapped(v) {
                    let j = choose|j: int|
                        0 <= j < old(self).pages@.len() && old(self).pages@[j].vpn == v;
                    assert(!(svpn <= old(self).pages@[j].vpn < svpn + n));
                    let k = choose|k: int|
                        0 <= k < self.pages@.len() && self.pages@[k].vpn == old(self).pages@[j].vpn
                            && self.pages@[k].perm == old(self).pages@[j].perm;
                    assert(self.pages@[k].vpn == v);
                }
                if self.is_mapped(v) {
                    let k = choose|k: int| 0 <= k < self.pages@.len() && self.pages@[k].vpn == v;
                    assert(old(self).maps_to(self.pages@[k].vpn as int, self.pages@[k].perm));
                    let j = choose|j: int|
                        0 <= j < old(self).pages@.len() && old(self).pages@[j].vpn
                            == self.pages@[k].vpn && old(self).pages@[j].perm
                            == self.pages@[k].perm;
                    assert(old(self).pages@[j].vpn == v);
                }
            }
            assert forall|v: int, p: u8| !(svpn <= v < svpn + n) implies (self.maps_to(v, p) == old(
                self,
            ).maps_to(v, p)) by {
                if old(self).maps_to(v, p) {
                    let j = choose|j: int|
                        0 <= j < old(self).pages@.len() && old(self).pages@[j].vpn == v && old(
                            self,
                        ).pages@[j].perm == p;
                    assert(!(svpn <= old(self).pages@[j].vpn < svpn + n));
                    let k = choose|k: int|
                        0 <= k < self.pages@.len() && self.pages@[k].vpn == old(self).pages@[j].vpn
                            && self.pages@[k].perm == old(self).pages@[j].perm;
                    assert(self.pages@[k].vpn == v && self.pages@[k].perm == p);
                }
                if self.maps_to(v, p) {
                    let k = choose|k: int|
                        0 <= k < self.pages@.len() && self.pages@[k].vpn == v && self.pages@[k].perm
                            == p;
                    assert(old(self).maps_to(self.pages@[k].vpn as int, self.pages@[k].perm));
                }
            }
        }
    }

    /// Unmap everything: the one-shot release of all frames a task owns,
    /// performed at its transition to `Zombie`.
    pub fn clear_all(&mut self)
        ensures
            final(self).wf(),
            forall|v: int| !final(self).is_mapped(v),
    {
        self.pages = Vec::new();
    }
}

} // verus!
