//! The path of a directory: a starting directory and the names of the
//! directories entered from it, one after the other.

use vstd::prelude::*;
use vstd::slice::slice_to_vec;

verus! {

/// A directory, given as the place where browsing began and the steps taken
/// down from there. The steps form a stack: entering a directory pushes its
/// name, going back pops one, and the stack never goes below the start.
#[derive(Debug, Clone, PartialEq, Eq)]
pub struct DirPath {
    /// The starting directory, as the user wrote it.
    pub root: String,
    /// The names entered from the starting directory, outermost first.
    pub segments: Vec<Vec<u8>>,
}

/// What a path says, as plain values.
pub struct PathView {
    pub root: Seq<char>,
    pub segments: Seq<Seq<u8>>,
}

impl View for DirPath {
    type V = PathView;

    open spec fn view(&self) -> PathView {
        PathView {
            root: self.root@,
            segments: Seq::new(self.segments@.len(), |i: int| self.segments@[i]@),
        }
    }
}

impl DirPath {
    /// The path of the starting directory itself.
    pub fn new(root: String) -> (path: DirPath)
        ensures
            path@.root == root@,
            path@.segments == Seq::<Seq<u8>>::empty(),
    {
        let path = DirPath { root, segments: Vec::new() };
        assert(path@.segments =~= Seq::<Seq<u8>>::empty());
        path
    }

    /// How many directories have been entered from the start.
    pub fn depth(&self) -> (d: usize)
        ensures
            d == self@.segments.len(),
    {
        self.segments.len()
    }

    /// Enters the directory `name`.
    pub fn push(&mut self, name: &[u8])
        ensures
            final(self)@.root == old(self)@.root,
            final(self)@.segments == old(self)@.segments.push(name@),
    {
        self.segments.push(slice_to_vec(name));
        assert(self@.segments =~= old(self)@.segments.push(name@));
    }

    /// Goes back one directory. At the start there is nowhere to go back to:
    /// the path stays as it is and the answer is `false`.
    pub fn pop(&mut self) -> (moved: bool)
        ensures
            moved == (old(self)@.segments.len() > 0),
            final(self)@.root == old(self)@.root,
            final(self)@.segments == if moved {
                old(self)@.segments.drop_last()
            } else {
                old(self)@.segments
            },
    {
        match self.segments.pop() {
            Some(_) => {
                assert(self@.segments =~= old(self)@.segments.drop_last());
                true
            },
            None => {
                assert(self@.segments =~= old(self)@.segments);
                false
            },
        }
    }

    /// A copy of this path.
    pub fn duplicate(&self) -> (copy: DirPath)
        ensures
            copy@ == self@,
    {
        let mut segments: Vec<Vec<u8>> = Vec::new();
        let mut i: usize = 0;
        while i < self.segments.len()
            invariant
                i <= self.segments@.len(),
                segments@.len() == i,
                forall|k: int| 0 <= k < i ==> segments@[k]@ == self.segments@[k]@,
            decreases self.segments.len() - i,
        {
            segments.push(slice_to_vec(self.segments[i].as_slice()));
            i += 1;
        }
        let copy = DirPath { root: self.root.clone(), segments };
        assert(copy@.segments =~= self@.segments);
        copy
    }
}

} // verus!
