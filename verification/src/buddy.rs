//! The entry table of a buddy allocator: leaves, parents and a list of
//! unused entries.
use vstd::prelude::*;

verus! {

/// An allocated or free block.
#[derive(Clone, Copy, Debug, PartialEq, Eq, Structural)]
pub struct LeafBuddyEntry {
    pub size: u32,
    pub free: bool,
    pub sibling: u32,
    pub parent: u32,
    pub next_of_this_size: u32,
    pub previous_of_this_size: u32,
}

/// A block split into two children.
#[derive(Clone, Copy, Debug, PartialEq, Eq, Structural)]
pub struct ParentBuddyEntry {
    pub size: u32,
    pub left_child: u32,
    pub right_child: u32,
    pub parent: u32,
}

/// An entry in the list of unused entries.
#[derive(Clone, Copy, Debug, PartialEq, Eq, Structural)]
pub struct UnusedBuddyEntry {
    pub next: u32,
    pub previous: u32,
}

/// An entry of the table.
#[derive(Clone, Copy, Debug, PartialEq, Eq, Structural)]
pub enum BuddyEntry {
    Unused(UnusedBuddyEntry),
    Parent(ParentBuddyEntry),
    Leaf(LeafBuddyEntry),
}

impl BuddyEntry {
    /// The entry, which must be a leaf.
    pub fn as_leaf(&self) -> (r: &LeafBuddyEntry)
        requires
            self is Leaf,
        ensures
            *r == self->Leaf_0,
    {
        match self {
            BuddyEntry::Leaf(leaf) => leaf,
            _ => vstd::pervasive::unreached(),
        }
    }

    /// The entry, which must be a parent.
    pub fn as_parent(&self) -> (r: &ParentBuddyEntry)
        requires
            self is Parent,
        ensures
            *r == self->Parent_0,
    {
        match self {
            BuddyEntry::Parent(parent) => parent,
            _ => vstd::pervasive::unreached(),
        }
    }

    /// The entry, which must be unused.
    pub fn as_unused(&self) -> (r: &UnusedBuddyEntry)
        requires
            self is Unused,
        ensures
            *r == self->Unused_0,
    {
        match self {
            BuddyEntry::Unused(unused) => unused,
            _ => vstd::pervasive::unreached(),
        }
    }

    /// The entry, which must be a leaf, for changing in place.
    pub fn as_leaf_mut(&mut self) -> (r: &mut LeafBuddyEntry)
        requires
            *old(self) is Leaf,
        ensures
            *r == (*old(self))->Leaf_0,
            *final(self) == BuddyEntry::Leaf(*final(r)),
    {
        match self {
            BuddyEntry::Leaf(leaf) => leaf,
            _ => vstd::pervasive::unreached(),
        }
    }

    /// The entry, which must be a parent, for changing in place.
    pub fn as_parent_mut(&mut self) -> (r: &mut ParentBuddyEntry)
        requires
            *old(self) is Parent,
        ensures
            *r == (*old(self))->Parent_0,
            *final(self) == BuddyEntry::Parent(*final(r)),
    {
        match self {
            BuddyEntry::Parent(parent) => parent,
            _ => vstd::pervasive::unreached(),
        }
    }

    /// The entry, which must be an unused, for changing in place.
    pub fn as_unused_mut(&mut self) -> (r: &mut UnusedBuddyEntry)
        requires
            *old(self) is Unused,
        ensures
            *r == (*old(self))->Unused_0,
            *final(self) == BuddyEntry::Unused(*final(r)),
    {
        match self {
            BuddyEntry::Unused(unused) => unused,
            _ => vstd::pervasive::unreached(),
        }
    }
}

/// The index that stands for no entry.
pub const NON_EXISTANT_INDEX: u32 = u32::MAX;

/// The entry at `i` of a table of `capacity` entries that are all unused and
/// linked in order.
pub open spec fn unused_link(i: int, capacity: int) -> BuddyEntry {
    BuddyEntry::Unused(
        UnusedBuddyEntry {
            next: if i + 1 == capacity { NON_EXISTANT_INDEX } else { (i + 1) as u32 },
            previous: if i == 0 { NON_EXISTANT_INDEX } else { (i - 1) as u32 },
        },
    )
}

/// A buddy allocator's table of `CAPACITY` entries, for block orders
/// `LOWEST_ORDER` to `HIGHEST_ORDER`.
pub struct BuddyAllocator<const CAPACITY: u32, const HIGHEST_ORDER: usize, const LOWEST_ORDER: usize> {
    entries: Vec<BuddyEntry>,
    first_free_indices_for_orders: Vec<Option<u32>>,
    unused_entries: Option<u32>,
}

impl<const CAPACITY: u32, const HIGHEST_ORDER: usize, const LOWEST_ORDER: usize> BuddyAllocator<
    CAPACITY,
    HIGHEST_ORDER,
    LOWEST_ORDER,
> {
    pub closed spec fn entries(&self) -> Seq<BuddyEntry> {
        self.entries@
    }

    pub closed spec fn first_free_indices(&self) -> Seq<Option<u32>> {
        self.first_free_indices_for_orders@
    }

    pub closed spec fn unused_head(&self) -> Option<u32> {
        self.unused_entries
    }

    /// An allocator whose entries are all zeroed unused entries and whose
    /// indices are all `None`; `all_unused` makes it usable.
    pub fn unusable() -> (r: Self)
        requires
            LOWEST_ORDER <= HIGHEST_ORDER < usize::MAX,
        ensures
            r.entries().len() == CAPACITY,
            forall|i: int| 0 <= i < CAPACITY ==> #[trigger] r.entries()[i] == BuddyEntry::Unused(
                UnusedBuddyEntry { next: 0, previous: 0 },
            ),
            r.first_free_indices().len() == HIGHEST_ORDER - LOWEST_ORDER + 1,
            forall|i: int| 0 <= i < r.first_free_indices().len() ==> #[trigger] r.first_free_indices()[i] is None,
            r.unused_head() is None,
    {
        let mut entries: Vec<BuddyEntry> = Vec::new();
        while entries.len() < CAPACITY as usize
            invariant
                entries.len() <= CAPACITY,
                forall|i: int| 0 <= i < entries.len() ==> #[trigger] entries@[i] == BuddyEntry::Unused(
                    UnusedBuddyEntry { next: 0, previous: 0 },
                ),
            decreases CAPACITY - entries.len(),
        {
            entries.push(BuddyEntry::Unused(UnusedBuddyEntry { next: 0, previous: 0 }));
        }
        let orders = HIGHEST_ORDER - LOWEST_ORDER + 1;
        let mut first_free_indices_for_orders: Vec<Option<u32>> = Vec::new();
        while first_free_indices_for_orders.len() < orders
            invariant
                first_free_indices_for_orders.len() <= orders,
                forall|i: int| 0 <= i < first_free_indices_for_orders.len() ==> #[trigger] first_free_indices_for_orders@[i] is None,
            decreases orders - first_free_indices_for_orders.len(),
        {
            first_free_indices_for_orders.push(None);
        }
        Self { entries, first_free_indices_for_orders, unused_entries: None }
    }

    /// Links every entry into the list of unused entries, in order, and
    /// makes entry 0 its head.
    pub fn all_unused(&mut self) -> (r: &mut Self)
        requires
            CAPACITY >= 2,
            old(self).entries().len() == CAPACITY,
        ensures
            r.unused_head() == Some(0u32),
            r.entries().len() == CAPACITY,
            forall|i: int| 0 <= i < CAPACITY ==> #[trigger] r.entries()[i] == unused_link(i, CAPACITY as int),
            r.first_free_indices() == old(self).first_free_indices(),
            *final(self) == *final(r),
    {
        self.unused_entries = Some(0);
        // Initialize the middle entries separately for simplicity.
        self.entries.set(0, BuddyEntry::Unused(UnusedBuddyEntry { next: 1, previous: NON_EXISTANT_INDEX }));
        let mut i: u32 = 1;
        while i < CAPACITY - 1
            invariant
                CAPACITY >= 2,
                1 <= i <= CAPACITY - 1,
                self.entries@.len() == CAPACITY,
                self.unused_entries == Some(0u32),
                self.first_free_indices_for_orders@ == old(self).first_free_indices_for_orders@,
                forall|k: int| 0 <= k < i ==> #[trigger] self.entries@[k] == unused_link(k, CAPACITY as int),
            decreases CAPACITY - 1 - i,
        {
            self.entries.set(i as usize, BuddyEntry::Unused(UnusedBuddyEntry { next: i + 1, previous: i - 1 }));
            i = i + 1;
        }
        self.entries.set(
            (CAPACITY - 1) as usize,
            BuddyEntry::Unused(UnusedBuddyEntry { next: NON_EXISTANT_INDEX, previous: CAPACITY - 2 }),
        );
        self
    }
}

} // verus!
