//! Paths in a document.

use vstd::prelude::*;

verus! {

/// The child positions that lead from the root element to a node.
///
/// The empty path leads to the root element. A path stays usable as long as nothing on its way is
/// removed or moved.
#[derive(Debug, Hash)]
pub struct XmlPath {
    indexes: Vec<usize>,
}

impl View for XmlPath {
    type V = Seq<usize>;

    closed spec fn view(&self) -> Seq<usize> {
        self.indexes@
    }
}

impl Default for XmlPath {
    fn default() -> (r: Self)
        ensures
            r@ == Seq::<usize>::empty(),
    {
        XmlPath { indexes: Vec::new() }
    }
}

impl Clone for XmlPath {
    fn clone(&self) -> (r: Self)
        ensures
            r@ == self@,
    {
        let indexes = self.indexes.clone();
        proof {
            assert(indexes@ =~= self.indexes@);
        }
        XmlPath { indexes }
    }
}

impl PartialEq for XmlPath {
    fn eq(&self, other: &Self) -> (r: bool) {
        if self.indexes.len() != other.indexes.len() {
            return false;
        }
        let mut k: usize = 0;
        while k < self.indexes.len()
            invariant
                k <= self.indexes@.len(),
                self.indexes@.len() == other.indexes@.len(),
                forall|i: int| 0 <= i < k ==> self.indexes@[i] == other.indexes@[i],
            decreases self.indexes@.len() - k,
        {
            if self.indexes[k] != other.indexes[k] {
                return false;
            }
            k = k + 1;
        }
        proof {
            assert(self.indexes@ =~= other.indexes@);
        }
        true
    }
}

impl vstd::std_specs::cmp::PartialEqSpecImpl for XmlPath {
    open spec fn obeys_eq_spec() -> bool {
        true
    }

    open spec fn eq_spec(&self, other: &Self) -> bool {
        self@ == other@
    }
}

impl Eq for XmlPath {

}

impl XmlPath {
    /// Returns the path of the root element.
    pub fn root() -> (r: Self)
        ensures
            r@ == Seq::<usize>::empty(),
    {
        XmlPath { indexes: Vec::new() }
    }

    /// Returns the path of a child.
    pub fn child(&self, index: usize) -> (r: Self)
        ensures
            r@ == self@.push(index),
    {
        let mut path = self.clone();
        path.indexes.push(index);
        path
    }

    /// Returns the path of the parent.
    pub fn parent(&self) -> (r: Option<Self>)
        ensures
            match r {
                Some(p) => self@.len() > 0 && p@ == self@.drop_last(),
                None => self@.len() == 0,
            },
    {
        let mut path = self.clone();
        match path.indexes.pop() {
            Some(_) => Some(path),
            None => None,
        }
    }

    /// Returns the child positions.
    pub fn indexes(&self) -> (r: &[usize])
        ensures
            r@ == self@,
    {
        self.indexes.as_slice()
    }

    /// Returns whether the path leads to the root element.
    pub fn is_root(&self) -> (r: bool)
        ensures
            r == (self@.len() == 0),
    {
        self.indexes.len() == 0
    }
}

/// The parent of a child's path is the path that the child was taken of.
pub proof fn lemma_parent_of_child(path: Seq<usize>, index: usize)
    ensures
        path.push(index).len() > 0,
        path.push(index).drop_last() == path,
{
    assert(path.push(index).drop_last() =~= path);
}

} // verus!
