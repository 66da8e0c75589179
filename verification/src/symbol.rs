use vstd::prelude::*;

verus! {

/// An interned file-name handle: opaque, cheaply copyable, and compared by
/// identity. The string it stands for is kept by whoever interned it; the
/// scanner and parser never need the text back, only equality of handles.
#[derive(Clone, Copy, PartialEq, Eq, Structural, Hash, Debug)]
pub struct Symbol {
    pub id: usize,
}

impl Symbol {
    pub fn new(id: usize) -> (s: Symbol)
        ensures
            s.id == id,
    {
        Symbol { id }
    }
}

} // verus!
