use crate::datatype::{left, taken, terms_of, BuilderDataType, Term};
use vstd::prelude::*;

verus! {

/// The shared subterms that `Reference` and `SelfReference` nodes name by
/// handle. A slot is either alive and holds a subterm, or vacant. An
/// evaluation reads the arena and never changes it.
pub struct Arena<'de> {
    slots: Vec<Option<BuilderDataType<'de>>>,
}

/// The values of the slots of an arena, in order.
pub open spec fn slots_of<'de>(v: Seq<Option<BuilderDataType<'de>>>) -> Seq<Option<Term>> {
    Seq::new(
        v.len(),
        |i: int|
            match v[i] {
                Some(node) => Some(node@),
                None => None,
            },
    )
}

/// Whether a handle names a slot of the arena that is alive.
pub open spec fn alive(arena: Seq<Option<Term>>, handle: usize) -> bool {
    handle < arena.len() && arena[handle as int] is Some
}

impl<'de> View for Arena<'de> {
    type V = Seq<Option<Term>>;

    closed spec fn view(&self) -> Seq<Option<Term>> {
        slots_of(self.slots@)
    }
}

impl<'de> Arena<'de> {
    /// An arena without slots.
    pub fn new() -> (arena: Self)
        ensures
            arena@ == Seq::<Option<Term>>::empty(),
    {
        let arena = Arena { slots: Vec::new() };
        assert(arena@ =~= Seq::<Option<Term>>::empty());
        arena
    }

    /// The number of slots, alive or vacant.
    pub fn len(&self) -> (n: usize)
        ensures
            n == self@.len(),
    {
        self.slots.len()
    }

    /// Adds a slot that holds the subterm and hands out its handle.
    pub fn insert(&mut self, node: BuilderDataType<'de>) -> (handle: usize)
        ensures
            handle == old(self)@.len(),
            final(self)@ == old(self)@.push(Some(node@)),
    {
        let handle = self.slots.len();
        self.slots.push(Some(node));
        assert(self@ =~= old(self)@.push(Some(node@)));
        handle
    }

    /// Adds a vacant slot and hands out its handle, so that a subterm can
    /// name its own slot before it is stored there.
    pub fn reserve(&mut self) -> (handle: usize)
        ensures
            handle == old(self)@.len(),
            final(self)@ == old(self)@.push(None),
    {
        let handle = self.slots.len();
        self.slots.push(None);
        assert(self@ =~= old(self)@.push(None));
        handle
    }

    /// Stores the subterm in an existing slot, which is alive afterwards.
    /// Does nothing and answers `false` where the handle names no slot.
    pub fn fill(&mut self, handle: usize, node: BuilderDataType<'de>) -> (done: bool)
        ensures
            done == (handle < old(self)@.len()),
            done ==> final(self)@ == old(self)@.update(handle as int, Some(node@)),
            !done ==> final(self)@ == old(self)@,
    {
        if handle < self.slots.len() {
            self.slots[handle] = Some(node);
            assert(self@ =~= old(self)@.update(handle as int, Some(node@)));
            true
        } else {
            false
        }
    }

    /// Vacates a slot: every handle of it dangles afterwards.
    pub fn release(&mut self, handle: usize)
        ensures
            handle < old(self)@.len() ==> final(self)@ == old(self)@.update(handle as int, None),
            handle >= old(self)@.len() ==> final(self)@ == old(self)@,
    {
        if handle < self.slots.len() {
            self.slots[handle] = None;
            assert(self@ =~= old(self)@.update(handle as int, None));
        }
    }

    /// The subterm that a handle names, if its slot is alive.
    pub fn get(&self, handle: usize) -> (r: Option<&BuilderDataType<'de>>)
        ensures
            r is Some == alive(self@, handle),
            r matches Some(node) ==> Some(node@) == self@[handle as int],
    {
        if handle < self.slots.len() {
            match &self.slots[handle] {
                Some(node) => Some(node),
                None => None,
            }
        } else {
            None
        }
    }
}

/// The mutable cells that `Store` and `Take` nodes name by handle.
pub struct Cells<'de> {
    slots: Vec<BuilderDataType<'de>>,
}

impl<'de> View for Cells<'de> {
    type V = Seq<Term>;

    closed spec fn view(&self) -> Seq<Term> {
        terms_of(self.slots@)
    }
}

impl<'de> Cells<'de> {
    /// No cells.
    pub fn new() -> (cells: Self)
        ensures
            cells@ == Seq::<Term>::empty(),
    {
        let cells = Cells { slots: Vec::new() };
        assert(cells@ =~= Seq::<Term>::empty());
        cells
    }

    /// The number of cells.
    pub fn len(&self) -> (n: usize)
        ensures
            n == self@.len(),
    {
        self.slots.len()
    }

    /// Adds a cell that holds the node and hands out its handle.
    pub fn insert(&mut self, node: BuilderDataType<'de>) -> (handle: usize)
        ensures
            handle == old(self)@.len(),
            final(self)@ == old(self)@.push(node@),
    {
        let handle = self.slots.len();
        self.slots.push(node);
        assert(self@ =~= old(self)@.push(node@));
        handle
    }

    /// The node that a cell holds, if the handle names a cell.
    pub fn get(&self, handle: usize) -> (r: Option<&BuilderDataType<'de>>)
        ensures
            r is Some == (handle < self@.len()),
            r matches Some(node) ==> node@ == self@[handle as int],
    {
        if handle < self.slots.len() {
            Some(&self.slots[handle])
        } else {
            None
        }
    }

    /// A copy of the node that a cell holds, if the handle names a cell.
    pub fn read(&self, handle: usize) -> (r: Option<BuilderDataType<'de>>)
        ensures
            r is Some == (handle < self@.len()),
            r matches Some(node) ==> node@ == self@[handle as int],
    {
        if handle < self.slots.len() {
            Some(self.slots[handle].clone())
        } else {
            None
        }
    }

    /// The consuming read of a cell: hands out what `take_one` reads from
    /// the node in the cell and leaves the cell wound down by one step.
    /// Nothing is read or changed where the handle names no cell.
    pub fn take(&mut self, handle: usize) -> (r: Option<BuilderDataType<'de>>)
        ensures
            r is Some == (handle < old(self)@.len()),
            r matches Some(node) ==> node@ == taken(old(self)@[handle as int]) && final(self)@
                == old(self)@.update(handle as int, left(old(self)@[handle as int])),
            r is None ==> final(self)@ == old(self)@,
    {
        if handle < self.slots.len() {
            let r = self.slots[handle].take_one();
            assert(self@ =~= old(self)@.update(handle as int, left(old(self)@[handle as int])));
            Some(r)
        } else {
            None
        }
    }
}

} // verus!
