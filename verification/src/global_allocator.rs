//! The page-granular process allocator and the mapping table it drives.
//!
//! The allocator keeps no free list and reuses nothing: every request is
//! rounded up to a page multiple and satisfied by a fresh anonymous
//! mapping; every release unmaps exactly that mapping. The kernel's view
//! of this process's anonymous mappings is modelled explicitly by
//! [`MemoryMap`]: a table of disjoint regions at page-aligned, ever-growing
//! addresses, viewed as a map from address to contents.

use vstd::prelude::*;
use vstd::arithmetic::power2::is_pow2;
use crate::utils::{
    aligned, check_power_of_two, lemma_aligned_coarser, lemma_aligned_sum, lemma_pow2_divides,
    lemma_pow2_positive, lemma_round_up_is_least, lemma_round_up_properties, max_usize, round_up_to_boundary, spec_round_up,
};

verus! {

/// The largest request alignment the allocator serves; anything above
/// fails cleanly with no mapping attempted.
pub const MAX_SUPPORTED_ALIGN: usize = 4096;

/// Size and alignment of an allocation request.
#[derive(Clone, Copy, Debug, PartialEq, Eq, Structural)]
pub struct Layout {
    pub size: usize,
    pub align: usize,
}

impl Layout {
    /// A layout's alignment is a power of two.
    pub open spec fn wf(self) -> bool {
        is_pow2(self.align as int)
    }

    /// The size rounded up to the layout's own alignment.
    pub open spec fn spec_padded_size(self) -> nat {
        spec_round_up(self.size as nat, self.align as nat)
    }

    /// Make a layout; fails exactly when the alignment is not a power of two.
    pub fn from_size_align(size: usize, align: usize) -> (r: Option<Layout>)
        ensures
            match r {
                Some(l) => l.size == size && l.align == align && l.wf(),
                None => !is_pow2(align as int),
            },
    {
        if check_power_of_two(align) {
            Some(Layout { size, align })
        } else {
            None
        }
    }

    /// The size rounded up to the layout's own alignment.
    pub fn pad_to_align(&self) -> (r: usize)
        requires
            self.wf(),
            self.size + self.align <= usize::MAX,
        ensures
            r == self.spec_padded_size(),
    {
        proof {
            lemma_pow2_positive(self.align as int);
        }
        round_up_to_boundary(self.size, self.align)
    }
}

/// `n` zero bytes: the contents of a fresh anonymous mapping.
pub open spec fn zero_bytes(n: nat) -> Seq<u8> {
    Seq::new(n, |i: int| 0u8)
}

/// One live anonymous mapping: its address and its contents.
pub struct Region {
    pub address: usize,
    pub bytes: Vec<u8>,
}

/// The kernel's view of this process's anonymous mappings: a table of
/// nonempty, disjoint regions at page-aligned addresses, handed out at
/// ever-growing addresses.
pub struct MemoryMap {
    pub page_size: usize,
    pub next_address: usize,
    pub regions: Vec<Region>,
}

/// The regions as a map from address to contents.
pub open spec fn regions_map(rs: Seq<Region>) -> Map<int, Seq<u8>>
    decreases rs.len(),
{
    if rs.len() == 0 {
        Map::empty()
    } else {
        regions_map(rs.drop_last()).insert(rs.last().address as int, rs.last().bytes@)
    }
}

/// An address is in the map exactly when some region carries it.
proof fn lemma_regions_map_dom(rs: Seq<Region>)
    ensures
        forall|k: int|
            #[trigger] regions_map(rs).contains_key(k) <==> exists|i: int|
                0 <= i < rs.len() && (#[trigger] rs[i]).address == k,
    decreases rs.len(),
{
    if rs.len() > 0 {
        lemma_regions_map_dom(rs.drop_last());
        assert forall|k: int| #[trigger] regions_map(rs).contains_key(k) implies exists|i: int|
            0 <= i < rs.len() && (#[trigger] rs[i]).address == k by {
            if k == rs.last().address {
                assert(rs[rs.len() - 1].address == k);
            } else {
                assert(regions_map(rs.drop_last()).contains_key(k));
                let i = choose|i: int|
                    0 <= i < rs.drop_last().len() && (#[trigger] rs.drop_last()[i]).address == k;
                assert(rs.drop_last()[i] == rs[i]);
                assert(rs[i].address == k);
            }
        }
        assert forall|k: int|
            (exists|i: int| 0 <= i < rs.len() && (#[trigger] rs[i]).address == k) implies #[trigger] regions_map(
            rs,
        ).contains_key(k) by {
            let i = choose|i: int| 0 <= i < rs.len() && (#[trigger] rs[i]).address == k;
            if i < rs.len() - 1 {
                assert(rs.drop_last()[i] == rs[i]);
                assert(rs.drop_last()[i].address == k);
                assert(regions_map(rs.drop_last()).contains_key(k));
            }
        }
    }
}

/// With distinct addresses, each region's contents are what the map holds
/// at its address.
proof fn lemma_regions_map_lookup(rs: Seq<Region>, i: int)
    requires
        0 <= i < rs.len(),
        forall|a: int, b: int|
            0 <= a < b < rs.len() ==> (#[trigger] rs[a]).address != (#[trigger] rs[b]).address,
    ensures
        regions_map(rs).contains_key(rs[i].address as int),
        regions_map(rs)[rs[i].address as int] == rs[i].bytes@,
    decreases rs.len(),
{
    if i == rs.len() - 1 {
    } else {
        assert(rs.drop_last()[i] == rs[i]);
        lemma_regions_map_lookup(rs.drop_last(), i);
        assert(rs[i].address != rs[rs.len() - 1].address);
    }
}

/// With distinct addresses, removing a region removes exactly its entry.
proof fn lemma_regions_map_remove(rs: Seq<Region>, i: int)
    requires
        0 <= i < rs.len(),
        forall|a: int, b: int|
            0 <= a < b < rs.len() ==> (#[trigger] rs[a]).address != (#[trigger] rs[b]).address,
    ensures
        regions_map(rs.remove(i)) == regions_map(rs).remove(rs[i].address as int),
    decreases rs.len(),
{
    lemma_regions_map_dom(rs.drop_last());
    if i == rs.len() - 1 {
        assert(rs.remove(i) =~= rs.drop_last());
        assert(!regions_map(rs.drop_last()).contains_key(rs[i].address as int));
        assert(regions_map(rs.drop_last()) =~= regions_map(rs).remove(rs[i].address as int));
    } else {
        assert(rs.remove(i).len() == rs.len() - 1);
        assert(rs.remove(i).last() == rs.last());
        assert(rs.remove(i).drop_last() =~= rs.drop_last().remove(i));
        assert(forall|a: int, b: int|
            0 <= a < b < rs.drop_last().len() ==> (#[trigger] rs.drop_last()[a]).address != (
            #[trigger] rs.drop_last()[b]).address);
        lemma_regions_map_remove(rs.drop_last(), i);
        assert(rs.drop_last()[i] == rs[i]);
        assert(rs[i].address != rs.last().address);
        assert(regions_map(rs.drop_last().remove(i)).insert(
            rs.last().address as int,
            rs.last().bytes@,
        ) =~= regions_map(rs).remove(rs[i].address as int));
    }
}

/// With distinct addresses, replacing a region's contents in place updates
/// exactly its entry.
proof fn lemma_regions_map_update(rs: Seq<Region>, i: int, region: Region)
    requires
        0 <= i < rs.len(),
        region.address == rs[i].address,
        forall|a: int, b: int|
            0 <= a < b < rs.len() ==> (#[trigger] rs[a]).address != (#[trigger] rs[b]).address,
    ensures
        regions_map(rs.update(i, region)) == regions_map(rs).insert(
            rs[i].address as int,
            region.bytes@,
        ),
    decreases rs.len(),
{
    if i == rs.len() - 1 {
        assert(rs.update(i, region).drop_last() =~= rs.drop_last());
        assert(rs.update(i, region).last() == region);
        assert(regions_map(rs.drop_last()).insert(region.address as int, region.bytes@)
            =~= regions_map(rs).insert(rs[i].address as int, region.bytes@));
    } else {
        assert(rs.update(i, region).last() == rs.last());
        assert(rs.update(i, region).drop_last() =~= rs.drop_last().update(i, region));
        assert(rs.drop_last()[i] == rs[i]);
        assert(forall|a: int, b: int|
            0 <= a < b < rs.drop_last().len() ==> (#[trigger] rs.drop_last()[a]).address != (
            #[trigger] rs.drop_last()[b]).address);
        lemma_regions_map_update(rs.drop_last(), i, region);
        assert(rs[i].address != rs.last().address);
        assert(regions_map(rs.drop_last().update(i, region)).insert(
            rs.last().address as int,
            rs.last().bytes@,
        ) =~= regions_map(rs).insert(rs[i].address as int, region.bytes@));
    }
}

impl MemoryMap {
    /// The live mappings, by address.
    pub open spec fn as_map(self) -> Map<int, Seq<u8>> {
        regions_map(self.regions@)
    }

    /// The table's invariant: a power-of-two page size; a positive,
    /// page-aligned next address; nonempty regions at positive,
    /// page-aligned addresses, each wholly below the next address and
    /// wholly below its successor.
    pub open spec fn wf(self) -> bool {
        &&& is_pow2(self.page_size as int)
        &&& self.page_size > 0
        &&& self.next_address > 0
        &&& aligned(self.next_address as nat, self.page_size as nat)
        &&& forall|i: int|
            0 <= i < self.regions@.len() ==> (#[trigger] self.regions@[i]).address > 0 && aligned(
                self.regions@[i].address as nat,
                self.page_size as nat,
            ) && self.regions@[i].bytes@.len() > 0 && self.regions@[i].address
                + self.regions@[i].bytes@.len() <= self.next_address
        &&& forall|a: int, b: int|
            0 <= a < b < self.regions@.len() ==> (#[trigger] self.regions@[a]).address
                + self.regions@[a].bytes@.len() <= (#[trigger] self.regions@[b]).address
    }

    /// Distinct regions never share an address.
    pub proof fn lemma_addresses_distinct(self)
        requires
            self.wf(),
        ensures
            forall|a: int, b: int|
                0 <= a < b < self.regions@.len() ==> (#[trigger] self.regions@[a]).address != (
                #[trigger] self.regions@[b]).address,
    {
    }

    /// A fresh table with no mappings.
    pub fn new(page_size: usize) -> (r: MemoryMap)
        requires
            is_pow2(page_size as int),
        ensures
            r.wf(),
            r.page_size == page_size,
            r.as_map() == Map::<int, Seq<u8>>::empty(),
    {
        proof {
            lemma_pow2_positive(page_size as int);
        }
        MemoryMap { page_size, next_address: page_size, regions: Vec::new() }
    }

    /// How many mappings are live.
    pub fn region_count(&self) -> (r: usize)
        ensures
            r == self.regions@.len(),
    {
        self.regions.len()
    }

    /// The contents mapped at `address`, if that address is mapped.
    pub fn lookup(&self, address: usize) -> (r: Option<&Vec<u8>>)
        requires
            self.wf(),
        ensures
            match r {
                Some(bytes) => self.as_map().contains_key(address as int) && bytes@
                    == self.as_map()[address as int],
                None => !self.as_map().contains_key(address as int),
            },
    {
        proof {
            self.lemma_addresses_distinct();
            lemma_regions_map_dom(self.regions@);
        }
        let mut i: usize = 0;
        while i < self.regions.len()
            invariant
                self.wf(),
                i <= self.regions@.len(),
                forall|j: int| 0 <= j < i ==> (#[trigger] self.regions@[j]).address != address,
            decreases self.regions@.len() - i,
        {
            if self.regions[i].address == address {
                proof {
                    self.lemma_addresses_distinct();
                    lemma_regions_map_lookup(self.regions@, i as int);
                }
                return Some(&self.regions[i].bytes);
            }
            i = i + 1;
        }
        proof {
            lemma_regions_map_dom(self.regions@);
        }
        None
    }

    /// Map `length` fresh zero bytes at a new page-aligned address: the
    /// model of an anonymous private mapping. Fails exactly when the
    /// address space is exhausted.
    pub fn map_anonymous(&mut self, length: usize) -> (r: Option<usize>)
        requires
            old(self).wf(),
            length > 0,
            aligned(length as nat, old(self).page_size as nat),
        ensures
            final(self).wf(),
            final(self).page_size == old(self).page_size,
            match r {
                Some(a) => {
                    &&& a != 0
                    &&& aligned(a as nat, old(self).page_size as nat)
                    &&& !old(self).as_map().contains_key(a as int)
                    &&& final(self).as_map() == old(self).as_map().insert(
                        a as int,
                        zero_bytes(length as nat),
                    )
                },
                None => *final(self) == *old(self) && old(self).next_address + length > usize::MAX,
            },
    {
        if length > usize::MAX - self.next_address {
            return None;
        }
        let address = self.next_address;
        let mut bytes: Vec<u8> = Vec::new();
        let mut i: usize = 0;
        while i < length
            invariant
                i <= length,
                bytes@.len() == i,
                forall|j: int| 0 <= j < i ==> bytes@[j] == 0u8,
            decreases length - i,
        {
            bytes.push(0u8);
            i = i + 1;
        }
        proof {
            assert(bytes@ =~= zero_bytes(length as nat));
            lemma_regions_map_dom(self.regions@);
            assert(!regions_map(self.regions@).contains_key(address as int)) by {
                if regions_map(self.regions@).contains_key(address as int) {
                    let w = choose|w: int|
                        0 <= w < self.regions@.len() && (#[trigger] self.regions@[w]).address
                            == address;
                    assert(self.regions@[w].address + self.regions@[w].bytes@.len()
                        <= self.next_address);
                }
            }
        }
        let ghost old_regions = self.regions@;
        let ghost old_self = *self;
        self.next_address = address + length;
        self.regions.push(Region { address, bytes });
        proof {
            assert(self.regions@.drop_last() =~= old_regions);
            lemma_aligned_sum(address as nat, length as nat, self.page_size as nat);
            assert forall|w: int| 0 <= w < self.regions@.len() implies (
            #[trigger] self.regions@[w]).address > 0 && aligned(
                self.regions@[w].address as nat,
                self.page_size as nat,
            ) && self.regions@[w].bytes@.len() > 0 && self.regions@[w].address
                + self.regions@[w].bytes@.len() <= self.next_address by {
                if w < old_regions.len() {
                    assert(self.regions@[w] == old_regions[w]);
                    assert(old_self.wf());
                }
            }
            assert forall|a: int, b: int| 0 <= a < b < self.regions@.len() implies (
            #[trigger] self.regions@[a]).address + self.regions@[a].bytes@.len() <= (
            #[trigger] self.regions@[b]).address by {
                assert(self.regions@[a] == old_regions[a]);
                if b < old_regions.len() {
                    assert(self.regions@[b] == old_regions[b]);
                }
            }
        }
        Some(address)
    }

    /// Unmap the mapping at `address` of byte length `length`: the model
    /// of releasing one anonymous mapping. Returns whether such a mapping
    /// existed; when none does (a double unmap, a bad length), the table
    /// is unchanged.
    pub fn unmap(&mut self, address: usize, length: usize) -> (r: bool)
        requires
            old(self).wf(),
        ensures
            final(self).wf(),
            final(self).page_size == old(self).page_size,
            if old(self).as_map().contains_key(address as int) && old(self).as_map()[address as int].len()
                == length {
                r && final(self).as_map() == old(self).as_map().remove(address as int)
            } else {
                !r && *final(self) == *old(self)
            },
    {
        let mut i: usize = 0;
        while i < self.regions.len()
            invariant
                *self == *old(self),
                self.wf(),
                i <= self.regions@.len(),
                forall|j: int| 0 <= j < i ==> (#[trigger] self.regions@[j]).address != address,
            decreases self.regions@.len() - i,
        {
            if self.regions[i].address == address {
                proof {
                    self.lemma_addresses_distinct();
                    lemma_regions_map_lookup(self.regions@, i as int);
                }
                if self.regions[i].bytes.len() == length {
                    let ghost old_regions = self.regions@;
                    proof {
                        self.lemma_addresses_distinct();
                        lemma_regions_map_remove(self.regions@, i as int);
                    }
                    self.regions.remove(i);
                    proof {
                        assert forall|w: int| 0 <= w < self.regions@.len() implies (
                        #[trigger] self.regions@[w]).address > 0 && aligned(
                            self.regions@[w].address as nat,
                            self.page_size as nat,
                        ) && self.regions@[w].bytes@.len() > 0 && self.regions@[w].address
                            + self.regions@[w].bytes@.len() <= self.next_address by {
                            if w < i as int {
                                assert(self.regions@[w] == old_regions[w]);
                            } else {
                                assert(self.regions@[w] == old_regions[w + 1]);
                            }
                        }
                        assert forall|a: int, b: int| 0 <= a < b < self.regions@.len() implies (
                        #[trigger] self.regions@[a]).address + self.regions@[a].bytes@.len() <= (
                        #[trigger] self.regions@[b]).address by {
                            if b < i as int {
                                assert(self.regions@[a] == old_regions[a]);
                                assert(self.regions@[b] == old_regions[b]);
                            } else if a < i as int {
                                assert(self.regions@[a] == old_regions[a]);
                                assert(self.regions@[b] == old_regions[b + 1]);
                            } else {
                                assert(self.regions@[a] == old_regions[a + 1]);
                                assert(self.regions@[b] == old_regions[b + 1]);
                            }
                        }
                    }
                    return true;
                } else {
                    return false;
                }
            }
            i = i + 1;
        }
        proof {
            lemma_regions_map_dom(self.regions@);
        }
        false
    }

    /// Overwrite the first `count` bytes of the mapping at `address` with
    /// the first `count` bytes of `data`: the model of copying into a
    /// mapped region. Returns whether such a mapping (long enough) exists;
    /// otherwise the table is unchanged.
    pub fn write_prefix(&mut self, address: usize, data: &Vec<u8>, count: usize) -> (r: bool)
        requires
            old(self).wf(),
            count <= data@.len(),
        ensures
            final(self).wf(),
            final(self).page_size == old(self).page_size,
            if old(self).as_map().contains_key(address as int) && count <= old(self).as_map()[
                address as int].len() {
                r && final(self).as_map() == old(self).as_map().insert(
                    address as int,
                    data@.take(count as int) + old(self).as_map()[address as int].skip(
                        count as int,
                    ),
                )
            } else {
                !r && *final(self) == *old(self)
            },
    {
        let mut i: usize = 0;
        while i < self.regions.len()
            invariant
                *self == *old(self),
                self.wf(),
                i <= self.regions@.len(),
                count <= data@.len(),
                forall|j: int| 0 <= j < i ==> (#[trigger] self.regions@[j]).address != address,
            decreases self.regions@.len() - i,
        {
            if self.regions[i].address == address {
                proof {
                    self.lemma_addresses_distinct();
                    lemma_regions_map_lookup(self.regions@, i as int);
                }
                if self.regions[i].bytes.len() < count {
                    return false;
                }
                let ghost old_regions = self.regions@;
                let mut region = self.regions.remove(i);
                let mut j: usize = 0;
                while j < count
                    invariant
                        j <= count,
                        count <= data@.len(),
                        count <= region.bytes@.len(),
                        0 <= i < old_regions.len(),
                        region.address == old_regions[i as int].address,
                        region.bytes@.len() == old_regions[i as int].bytes@.len(),
                        forall|t: int| 0 <= t < j ==> region.bytes@[t] == data@[t],
                        forall|t: int|
                            j <= t < region.bytes@.len() ==> region.bytes@[t] == old_regions[
                                i as int].bytes@[t],
                    decreases count - j,
                {
                    region.bytes.set(j, data[j]);
                    j = j + 1;
                }
                let ghost updated = region;
                proof {
                    assert(updated.bytes@ =~= data@.take(count as int) + old_regions[
                        i as int].bytes@.skip(count as int));
                }
                self.regions.insert(i, region);
                proof {
                    assert(self.regions@ =~= old_regions.update(i as int, updated));
                    self.lemma_addresses_distinct();
                    lemma_regions_map_update(old_regions, i as int, updated);
                    assert forall|w: int| 0 <= w < self.regions@.len() implies (
                    #[trigger] self.regions@[w]).address > 0 && aligned(
                        self.regions@[w].address as nat,
                        self.page_size as nat,
                    ) && self.regions@[w].bytes@.len() > 0 && self.regions@[w].address
                        + self.regions@[w].bytes@.len() <= self.next_address by {
                        if w != i as int {
                            assert(self.regions@[w] == old_regions[w]);
                        }
                    }
                    assert forall|a: int, b: int| 0 <= a < b < self.regions@.len() implies (
                    #[trigger] self.regions@[a]).address + self.regions@[a].bytes@.len() <= (
                    #[trigger] self.regions@[b]).address by {
                        if a != i as int {
                            assert(self.regions@[a] == old_regions[a]);
                        }
                        if b != i as int {
                            assert(self.regions@[b] == old_regions[b]);
                        }
                    }
                }
                return true;
            }
            i = i + 1;
        }
        proof {
            lemma_regions_map_dom(self.regions@);
        }
        false
    }
}

/// A deliberate placeholder for a per-thread caching layer named as
/// future work; it carries no state yet.
pub struct ThreadCache {}

impl ThreadCache {
    /// An empty cache.
    pub fn new() -> (r: ThreadCache) {
        ThreadCache {}
    }
}

/// The process allocator. It starts unarmed (page size zero) and is armed
/// exactly once, early in startup, with the discovered page size; every
/// request afterwards is rounded up to a page multiple and served by a
/// fresh mapping.
pub struct Allocator {
    pub page_size: usize,
    pub thread_cache: ThreadCache,
}

impl Allocator {
    /// Whether the page size has been stored.
    pub open spec fn armed(self) -> bool {
        self.page_size != 0
    }

    /// An armed allocator holds a power-of-two page size no smaller than
    /// the largest supported request alignment.
    pub open spec fn wf(self) -> bool {
        self.armed() ==> is_pow2(self.page_size as int) && self.page_size >= MAX_SUPPORTED_ALIGN
    }

    /// The page-rounded size of a request: its size rounded up to the
    /// larger of its own alignment and the page size.
    pub open spec fn spec_aligned_size(self, layout: Layout) -> nat {
        spec_round_up(
            layout.size as nat,
            if layout.align >= self.page_size {
                layout.align as nat
            } else {
                self.page_size as nat
            },
        )
    }

    /// An unarmed allocator.
    pub fn new() -> (r: Allocator)
        ensures
            !r.armed(),
            r.wf(),
    {
        Allocator { page_size: 0, thread_cache: ThreadCache::new() }
    }

    /// Arm the allocator, exactly once, with the discovered page size.
    pub fn initialize(&mut self, page_size: usize)
        requires
            !old(self).armed(),
            is_pow2(page_size as int),
            page_size >= MAX_SUPPORTED_ALIGN,
        ensures
            final(self).armed(),
            final(self).wf(),
            final(self).page_size == page_size,
    {
        proof {
            lemma_pow2_positive(page_size as int);
        }
        self.page_size = page_size;
    }

    /// The request's layout aligned to at least the page size: same size,
    /// alignment raised to the larger of its own and the page's.
    pub fn align_layout_to_page_size(&self, layout: Layout) -> (r: Layout)
        requires
            self.armed(),
            self.wf(),
            layout.wf(),
        ensures
            r.size == layout.size,
            r.align == if layout.align >= self.page_size {
                layout.align as int
            } else {
                self.page_size as int
            },
            r.wf(),
    {
        Layout { size: layout.size, align: max_usize(layout.align, self.page_size) }
    }

    /// Serve a request with a fresh anonymous mapping of the page-rounded
    /// size. Fails cleanly, with no mapping attempted, when the requested
    /// alignment exceeds the supported maximum; fails also on an empty
    /// request or an exhausted address space. A successful address is
    /// nonnull and aligned to both the page size and the requested
    /// alignment.
    pub fn allocate(&self, mm: &mut MemoryMap, layout: Layout) -> (r: Option<usize>)
        requires
            self.armed(),
            self.wf(),
            old(mm).wf(),
            self.page_size == old(mm).page_size,
            layout.wf(),
        ensures
            final(mm).wf(),
            final(mm).page_size == old(mm).page_size,
            match r {
                Some(a) => {
                    &&& layout.align <= MAX_SUPPORTED_ALIGN
                    &&& a != 0
                    &&& aligned(a as nat, self.page_size as nat)
                    &&& aligned(a as nat, layout.align as nat)
                    &&& !old(mm).as_map().contains_key(a as int)
                    &&& final(mm).as_map() == old(mm).as_map().insert(
                        a as int,
                        zero_bytes(self.spec_aligned_size(layout)),
                    )
                },
                None => *final(mm) == *old(mm) && (layout.align > MAX_SUPPORTED_ALIGN
                    || layout.size == 0 || layout.size + self.page_size > usize::MAX || old(
                    mm,
                ).next_address + self.spec_aligned_size(layout) > usize::MAX),
            },
    {
        if layout.align > MAX_SUPPORTED_ALIGN {
            return None;
        }
        if layout.size == 0 {
            return None;
        }
        if layout.size > usize::MAX - self.page_size {
            return None;
        }
        let boundary = max_usize(layout.align, self.page_size);
        assert(boundary == self.page_size);
        let aligned_size = round_up_to_boundary(layout.size, boundary);
        proof {
            lemma_pow2_positive(self.page_size as int);
            lemma_round_up_properties(layout.size as nat, self.page_size as nat);
        }
        match mm.map_anonymous(aligned_size) {
            None => None,
            Some(a) => {
                proof {
                    lemma_pow2_positive(layout.align as int);
                    lemma_pow2_divides(layout.align as nat, self.page_size as nat);
                    lemma_aligned_coarser(a as nat, self.page_size as nat, layout.align as nat);
                }
                Some(a)
            },
        }
    }

    /// Release the mapping obtained for `address` with `layout`: unmap
    /// exactly the page-rounded size. When no such mapping exists (a
    /// double release, a never-allocated address, a mismatched layout),
    /// the table is unchanged.
    pub fn dealloc(&self, mm: &mut MemoryMap, address: usize, layout: Layout)
        requires
            self.armed(),
            self.wf(),
            old(mm).wf(),
            self.page_size == old(mm).page_size,
            layout.wf(),
        ensures
            final(mm).wf(),
            final(mm).page_size == old(mm).page_size,
            if layout.size + self.page_size <= usize::MAX && layout.align <= MAX_SUPPORTED_ALIGN
                && old(mm).as_map().contains_key(address as int) && old(mm).as_map()[
                address as int].len() == self.spec_aligned_size(layout) {
                final(mm).as_map() == old(mm).as_map().remove(address as int)
            } else {
                *final(mm) == *old(mm)
            },
    {
        if layout.align > MAX_SUPPORTED_ALIGN {
            return ;
        }
        if layout.size > usize::MAX - self.page_size {
            return ;
        }
        let boundary = max_usize(layout.align, self.page_size);
        assert(boundary == self.page_size);
        let aligned_size = round_up_to_boundary(layout.size, boundary);
        mm.unmap(address, aligned_size);
    }

    /// Reallocate. A null address is a plain allocation; a zero new size
    /// is a release; an alignment above the supported maximum fails with
    /// nothing changed. When the old and new page-rounded sizes are equal
    /// the identical address is returned and nothing changes; otherwise a
    /// fresh mapping is obtained, the lesser of the old padded size and
    /// the new requested size is copied into it, and the old mapping is
    /// released.
    pub fn realloc(&self, mm: &mut MemoryMap, address: usize, layout: Layout, new_size: usize) -> (r:
        Option<usize>)
        requires
            self.armed(),
            self.wf(),
            old(mm).wf(),
            self.page_size == old(mm).page_size,
            layout.wf(),
        ensures
            final(mm).wf(),
            final(mm).page_size == old(mm).page_size,
            ({
                let old_aligned = self.spec_aligned_size(layout);
                let new_aligned = self.spec_aligned_size(
                    Layout { size: new_size, align: layout.align },
                );
                let copy_len = if layout.spec_padded_size() <= new_size {
                    layout.spec_padded_size() as int
                } else {
                    new_size as int
                };
                if address == 0 {
                    match r {
                        Some(a) => {
                            &&& layout.align <= MAX_SUPPORTED_ALIGN
                            &&& a != 0
                            &&& aligned(a as nat, self.page_size as nat)
                            &&& aligned(a as nat, layout.align as nat)
                            &&& !old(mm).as_map().contains_key(a as int)
                            &&& final(mm).as_map() == old(mm).as_map().insert(
                                a as int,
                                zero_bytes(new_aligned),
                            )
                        },
                        None => *final(mm) == *old(mm) && (layout.align > MAX_SUPPORTED_ALIGN
                            || new_size == 0 || new_size + self.page_size > usize::MAX || old(
                            mm,
                        ).next_address + new_aligned > usize::MAX),
                    }
                } else if new_size == 0 {
                    r is None && if layout.size + self.page_size <= usize::MAX && layout.align
                        <= MAX_SUPPORTED_ALIGN && old(mm).as_map().contains_key(address as int)
                        && old(mm).as_map()[address as int].len() == old_aligned {
                        final(mm).as_map() == old(mm).as_map().remove(address as int)
                    } else {
                        *final(mm) == *old(mm)
                    }
                } else if layout.align > MAX_SUPPORTED_ALIGN {
                    r is None && *final(mm) == *old(mm)
                } else if layout.size + self.page_size > usize::MAX || new_size + self.page_size
                    > usize::MAX {
                    r is None && *final(mm) == *old(mm)
                } else if old_aligned == new_aligned {
                    r == Some(address) && *final(mm) == *old(mm)
                } else if !(old(mm).as_map().contains_key(address as int) && old(mm).as_map()[
                    address as int].len() == old_aligned) {
                    r is None && *final(mm) == *old(mm)
                } else {
                    match r {
                        None => *final(mm) == *old(mm) && old(mm).next_address + new_aligned
                            > usize::MAX,
                        Some(a) => {
                            &&& a != 0
                            &&& a != address
                            &&& aligned(a as nat, self.page_size as nat)
                            &&& aligned(a as nat, layout.align as nat)
                            &&& !old(mm).as_map().contains_key(a as int)
                            &&& final(mm).as_map() == old(mm).as_map().insert(
                                a as int,
                                old(mm).as_map()[address as int].take(copy_len) + zero_bytes(
                                    new_aligned,
                                ).skip(copy_len),
                            ).remove(address as int)
                            &&& forall|t: int|
                                0 <= t < copy_len ==> final(mm).as_map()[a as int][t] == old(
                                    mm,
                                ).as_map()[address as int][t]
                        },
                    }
                }
            }),
    {
        if address == 0 {
            return self.allocate(mm, Layout { size: new_size, align: layout.align });
        }
        if new_size == 0 {
            self.dealloc(mm, address, layout);
            return None;
        }
        if layout.align > MAX_SUPPORTED_ALIGN {
            return None;
        }
        if layout.size > usize::MAX - self.page_size {
            return None;
        }
        if new_size > usize::MAX - self.page_size {
            return None;
        }
        let boundary = max_usize(layout.align, self.page_size);
        assert(boundary == self.page_size);
        let old_aligned = round_up_to_boundary(layout.size, boundary);
        let new_aligned = round_up_to_boundary(new_size, boundary);
        if old_aligned == new_aligned {
            return Some(address);
        }
        proof {
            lemma_pow2_positive(layout.align as int);
            lemma_pow2_positive(self.page_size as int);
            lemma_round_up_properties(layout.size as nat, layout.align as nat);
            lemma_round_up_properties(layout.size as nat, self.page_size as nat);
            lemma_round_up_properties(new_size as nat, self.page_size as nat);
            lemma_pow2_divides(layout.align as nat, self.page_size as nat);
            lemma_aligned_coarser(
                self.spec_aligned_size(layout),
                self.page_size as nat,
                layout.align as nat,
            );
            lemma_round_up_is_least(
                layout.size as nat,
                layout.align as nat,
                self.spec_aligned_size(layout),
            );
        }
        let padded_old = round_up_to_boundary(layout.size, layout.align);
        let copy_len = if padded_old <= new_size {
            padded_old
        } else {
            new_size
        };
        let mut copied: Vec<u8> = Vec::new();
        match mm.lookup(address) {
            None => {
                return None;
            },
            Some(bytes_found) => {
                if bytes_found.len() != old_aligned {
                    return None;
                }
                let mut t: usize = 0;
                while t < copy_len
                    invariant
                        t <= copy_len,
                        copy_len <= bytes_found@.len(),
                        copied@.len() == t,
                        forall|j: int| 0 <= j < t ==> copied@[j] == bytes_found@[j],
                    decreases copy_len - t,
                {
                    copied.push(bytes_found[t]);
                    t = t + 1;
                }
            },
        }
        let ghost m0 = old(mm).as_map();
        let new_address = match self.allocate(
            mm,
            Layout { size: new_size, align: layout.align },
        ) {
            None => {
                return None;
            },
            Some(a) => a,
        };
        let ok = mm.write_prefix(new_address, &copied, copy_len);
        assert(ok);
        let removed = mm.unmap(address, old_aligned);
        assert(removed);
        proof {
            let content = m0[address as int].take(copy_len as int) + zero_bytes(
                self.spec_aligned_size(Layout { size: new_size, align: layout.align }),
            ).skip(copy_len as int);
            assert(copied@.take(copy_len as int) =~= m0[address as int].take(copy_len as int));
            assert(copied@.take(copy_len as int) + zero_bytes(
                self.spec_aligned_size(Layout { size: new_size, align: layout.align }),
            ).skip(copy_len as int) =~= content);
            assert(mm.as_map() =~= m0.insert(new_address as int, content).remove(address as int));
        }
        Some(new_address)
    }
}

/// Allocator round-trip law: a mapping inserted at a fresh address and
/// then removed leaves the table of live mappings exactly as it was, and
/// the address is no longer mapped afterwards, so releasing it again
/// changes nothing.
pub proof fn lemma_allocate_deallocate_round_trip(m: Map<int, Seq<u8>>, a: int, contents: Seq<u8>)
    requires
        !m.contains_key(a),
    ensures
        m.insert(a, contents).remove(a) == m,
        !m.insert(a, contents).remove(a).contains_key(a),
{
    assert(m.insert(a, contents).remove(a) =~= m);
}

} // verus!
