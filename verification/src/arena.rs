use vstd::prelude::*;

verus! {

/// A stable reference to a value inside one specific arena.
///
/// Handles are plain indices; an arena never invalidates or reuses one while
/// it is alive, so a handle may be cached freely.  Cross-references between
/// IR values are always made through handles, never through references.
#[derive(Clone, Copy, Debug, PartialEq, Eq, Structural, Hash)]
pub struct Handle {
    pub index: usize,
}

impl Handle {
    /// The handle's position in its arena, as a mathematical integer.
    pub open spec fn idx(self) -> int {
        self.index as int
    }

    pub fn new(index: usize) -> (h: Handle)
        ensures
            h == (Handle { index }),
    {
        Handle { index }
    }
}

/// An append-only store.  Each inserted value keeps the position it was
/// given forever, so the `Handle` returned at insertion stays valid for the
/// arena's whole lifetime.
#[derive(Debug)]
pub struct Arena<T> {
    pub items: Vec<T>,
}

impl<T> Arena<T> {
    /// The arena's contents, oldest first.
    pub open spec fn view(&self) -> Seq<T> {
        self.items@
    }

    pub fn new() -> (a: Arena<T>)
        ensures
            a@ == Seq::<T>::empty(),
    {
        Arena { items: Vec::new() }
    }

    pub fn len(&self) -> (n: usize)
        ensures
            n == self@.len(),
    {
        self.items.len()
    }

    /// Inserts `value` at the end and returns its handle.
    pub fn append(&mut self, value: T) -> (h: Handle)
        ensures
            final(self)@ == old(self)@.push(value),
            h.index == old(self)@.len(),
    {
        let h = Handle { index: self.items.len() };
        self.items.push(value);
        h
    }

    pub fn get(&self, h: Handle) -> (r: &T)
        requires
            h.idx() < self@.len(),
        ensures
            *r == self@[h.idx()],
    {
        &self.items[h.index]
    }
}

} // verus!
