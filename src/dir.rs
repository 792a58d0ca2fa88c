use vstd::prelude::*;

verus! {

/// A directory row: immutable once created.
///
/// A `parent` of `None` means the directory sits directly under the root.
#[derive(Debug, Clone, PartialEq, Eq, Hash, Default)]
pub struct Directory {
    pub id: usize,
    pub name: String,
    pub parent: Option<usize>,
}

impl Directory {
    /// Create a directory value with the given fields.
    pub fn new(id: usize, name: String, parent: Option<usize>) -> (r: Directory)
        ensures
            r.id == id,
            r.name@ == name@,
            r.parent == parent,
    {
        Directory { id, name, parent }
    }

    /// Row id of the directory.
    pub fn id(&self) -> (r: usize)
        ensures
            r == self.id,
    {
        self.id
    }

    /// Name of the directory.
    pub fn name(&self) -> (r: &str)
        ensures
            r@ == self.name@,
    {
        self.name.as_str()
    }

    /// Row id of the parent directory; `None` means the root.
    pub fn parent(&self) -> (r: Option<usize>)
        ensures
            r == self.parent,
    {
        self.parent
    }
}

} // verus!
