//! Index lists and lists of index lists.

use crate::text::{
    append_close, append_decimal, append_open, append_separator, decimal, indices_text,
    lemma_listed_push, listed, paths_text,
};
use vstd::prelude::*;

verus! {

/// An ordered list of vertex indices: a path, a face, or a flat run of
/// triangles, three entries per triangle.
#[derive(Debug, PartialEq)]
pub struct Indices {
    inner: Vec<u64>,
}

impl View for Indices {
    type V = Seq<u64>;

    closed spec fn view(&self) -> Seq<u64> {
        self.inner@
    }
}

impl Clone for Indices {
    fn clone(&self) -> (r: Self)
        ensures
            r@ == self@,
    {
        let mut inner: Vec<u64> = Vec::new();
        let mut i: usize = 0;
        while i < self.inner.len()
            invariant
                i <= self.inner.len(),
                inner@ == self.inner@.take(i as int),
            decreases self.inner.len() - i,
        {
            inner.push(self.inner[i]);
            i += 1;
        }
        Indices { inner }
    }
}

impl Indices {
    /// The empty list.
    pub fn new() -> (r: Self)
        ensures
            r@ == Seq::<u64>::empty(),
    {
        Indices { inner: Vec::new() }
    }

    /// The list that holds exactly the entries of `indices`, in order.
    pub fn from_indices(indices: Vec<u64>) -> (r: Self)
        ensures
            r@ == indices@,
    {
        Indices { inner: indices }
    }

    /// Number of entries.
    pub fn len(&self) -> (n: usize)
        ensures
            n == self@.len(),
    {
        self.inner.len()
    }

    /// The entry at position `i`, or `None` past the end.
    pub fn get(&self, i: usize) -> (r: Option<u64>)
        ensures
            r == (if i < self@.len() {
                Some(self@[i as int])
            } else {
                None
            }),
    {
        if i < self.inner.len() {
            Some(self.inner[i])
        } else {
            None
        }
    }

    /// Appends one entry.
    pub fn push(&mut self, index: u64)
        ensures
            final(self)@ == old(self)@.push(index),
    {
        self.inner.push(index);
    }

    /// The entries as a vector, borrowed.
    pub fn as_vec(&self) -> (v: &Vec<u64>)
        ensures
            v@ == self@,
    {
        &self.inner
    }

    /// The entries as a vector, owned.
    pub fn into_vec(self) -> (v: Vec<u64>)
        ensures
            v@ == self@,
    {
        self.inner
    }

    /// Appends the list as text: its entries in decimal between brackets,
    /// separated by a comma and a blank.
    pub fn append_to(&self, text: &mut String)
        ensures
            final(text)@ == old(text)@ + indices_text(self@),
    {
        let ghost pieces = Seq::new(self@.len(), |k: int| decimal(self@[k] as nat));
        append_open(text);
        let mut i: usize = 0;
        while i < self.inner.len()
            invariant
                i <= self.inner.len(),
                pieces == Seq::new(self@.len(), |k: int| decimal(self@[k] as nat)),
                text@ == old(text)@ + seq!['['] + listed(pieces.take(i as int)),
            decreases self.inner.len() - i,
        {
            if i > 0 {
                append_separator(text);
            }
            append_decimal(text, self.inner[i]);
            proof {
                lemma_listed_push(pieces.take(i as int), pieces[i as int]);
                assert(pieces.take(i + 1) == pieces.take(i as int).push(pieces[i as int]));
            }
            i += 1;
        }
        append_close(text);
        proof {
            assert(pieces.take(self@.len() as int) == pieces);
        }
    }

    /// The list as text, as in `[0, 12, 7]`.
    pub fn to_string(&self) -> (text: String)
        ensures
            text@ == indices_text(self@),
    {
        let mut text = String::new();
        self.append_to(&mut text);
        text
    }

    /// The same entries in the opposite order.  On a flat run of triangles
    /// this flips the winding of every triangle.
    pub fn reversed(&self) -> (r: Self)
        ensures
            r@ == self@.reverse(),
    {
        let n = self.inner.len();
        let mut inner: Vec<u64> = Vec::new();
        let mut i: usize = 0;
        while i < n
            invariant
                n == self.inner.len(),
                i <= n,
                inner@.len() == i,
                forall|k: int| 0 <= k < i ==> inner@[k] == self.inner@[n - 1 - k],
            decreases n - i,
        {
            inner.push(self.inner[n - 1 - i]);
            i += 1;
        }
        Indices { inner }
    }
}

/// The views of the lists in `lists`, in order.
pub open spec fn views(lists: Seq<Indices>) -> Seq<Seq<u64>> {
    Seq::new(lists.len(), |i: int| lists[i]@)
}

/// An ordered list of index lists: the paths of a polygon or the faces of a
/// polyhedron.
#[derive(Debug, PartialEq)]
pub struct Paths {
    inner: Vec<Indices>,
}

/// The faces of a polyhedron.
pub type Faces = Paths;

impl View for Paths {
    type V = Seq<Seq<u64>>;

    closed spec fn view(&self) -> Seq<Seq<u64>> {
        views(self.inner@)
    }
}

impl Clone for Paths {
    fn clone(&self) -> (r: Self)
        ensures
            r@ == self@,
    {
        let mut inner: Vec<Indices> = Vec::new();
        let mut i: usize = 0;
        while i < self.inner.len()
            invariant
                i <= self.inner.len(),
                inner@.len() == i,
                forall|k: int| 0 <= k < i ==> inner@[k]@ == self.inner@[k]@,
            decreases self.inner.len() - i,
        {
            inner.push(self.inner[i].clone());
            i += 1;
        }
        Paths { inner }
    }
}

impl Paths {
    /// The empty list.
    pub fn new() -> (r: Self)
        ensures
            r@ == Seq::<Seq<u64>>::empty(),
    {
        Paths { inner: Vec::new() }
    }

    /// The empty list, with room set aside for `capacity` entries.
    pub fn with_capacity(capacity: usize) -> (r: Self)
        ensures
            r@ == Seq::<Seq<u64>>::empty(),
    {
        Paths { inner: Vec::with_capacity(capacity) }
    }

    /// The list that holds exactly the entries of `paths`, in order.
    pub fn from_paths(paths: Vec<Indices>) -> (r: Self)
        ensures
            r@ == views(paths@),
    {
        Paths { inner: paths }
    }

    /// The list that holds exactly the entries of `faces`, in order.
    pub fn from_faces(faces: Vec<Indices>) -> (r: Self)
        ensures
            r@ == views(faces@),
    {
        Paths { inner: faces }
    }

    /// Number of entries.
    pub fn len(&self) -> (n: usize)
        ensures
            n == self@.len(),
    {
        self.inner.len()
    }

    /// The entry at position `i`, or `None` past the end.
    pub fn get(&self, i: usize) -> (r: Option<&Indices>)
        ensures
            match r {
                Some(face) => i < self@.len() && face@ == self@[i as int],
                None => i >= self@.len(),
            },
    {
        if i < self.inner.len() {
            Some(&self.inner[i])
        } else {
            None
        }
    }

    /// Appends one entry.
    pub fn push(&mut self, path: Indices)
        ensures
            final(self)@ == old(self)@.push(path@),
    {
        self.inner.push(path);
    }

    /// The lists as text: each as its own text, between brackets, separated
    /// by a comma and a blank, as in `[[0, 1, 2], [2, 3, 0]]`.
    pub fn to_string(&self) -> (text: String)
        ensures
            text@ == paths_text(self@),
    {
        let ghost pieces = Seq::new(self@.len(), |k: int| indices_text(self@[k]));
        let mut text = String::new();
        append_open(&mut text);
        let mut i: usize = 0;
        while i < self.inner.len()
            invariant
                i <= self.inner.len(),
                pieces == Seq::new(self@.len(), |k: int| indices_text(self@[k])),
                text@ == seq!['['] + listed(pieces.take(i as int)),
            decreases self.inner.len() - i,
        {
            if i > 0 {
                append_separator(&mut text);
            }
            self.inner[i].append_to(&mut text);
            proof {
                lemma_listed_push(pieces.take(i as int), pieces[i as int]);
                assert(pieces.take(i + 1) == pieces.take(i as int).push(pieces[i as int]));
            }
            i += 1;
        }
        append_close(&mut text);
        proof {
            assert(pieces.take(self@.len() as int) == pieces);
        }
        text
    }

    /// The entries as a vector, borrowed.
    pub fn as_vec(&self) -> (v: &Vec<Indices>)
        ensures
            views(v@) == self@,
    {
        &self.inner
    }

    /// The entries as a vector, owned.
    pub fn into_vec(self) -> (v: Vec<Indices>)
        ensures
            views(v@) == self@,
    {
        self.inner
    }
}

} // verus!
