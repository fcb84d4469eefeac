use vstd::prelude::*;

verus! {

/// The abstract value of a component list: each component as a byte sequence.
pub open spec fn view_of_components(cs: Seq<Vec<u8>>) -> Seq<Seq<u8>> {
    cs.map_values(|c: Vec<u8>| c@)
}

/// A filesystem path, as the sequence of its name components (no
/// separators): `/tmp/testhome` is the two components `tmp`, `testhome`.
/// Paths are kept root-relative; the platform prefix is a caller concern.
pub struct StorePath {
    pub components: Vec<Vec<u8>>,
}

impl View for StorePath {
    type V = Seq<Seq<u8>>;

    open spec fn view(&self) -> Seq<Seq<u8>> {
        view_of_components(self.components@)
    }
}

/// Byte-wise equality of two components.
fn bytes_eq(a: &Vec<u8>, b: &Vec<u8>) -> (r: bool)
    ensures
        r == (a@ == b@),
{
    if a.len() != b.len() {
        return false;
    }
    let n = a.len();
    let mut i: usize = 0;
    while i < n
        invariant
            n == a@.len(),
            n == b@.len(),
            i <= n,
            forall|j: int| 0 <= j < i ==> a@[j] == b@[j],
        decreases n - i,
    {
        if a[i] != b[i] {
            return false;
        }
        i += 1;
    }
    proof {
        assert(a@ =~= b@);
    }
    true
}

/// A fresh copy of one component.
fn clone_bytes(v: &Vec<u8>) -> (r: Vec<u8>)
    ensures
        r@ == v@,
{
    let mut out: Vec<u8> = Vec::new();
    let mut i: usize = 0;
    while i < v.len()
        invariant
            i <= v@.len(),
            out@ == v@.take(i as int),
        decreases v@.len() - i,
    {
        out.push(v[i]);
        proof {
            assert(v@.take(i as int).push(v@[i as int]) =~= v@.take(i + 1 as int));
        }
        i += 1;
    }
    proof {
        assert(v@.take(v@.len() as int) =~= v@);
    }
    out
}

impl StorePath {
    /// Wraps a component list as a path.
    pub fn from_components(components: Vec<Vec<u8>>) -> (r: StorePath)
        ensures
            r@ == view_of_components(components@),
    {
        StorePath { components }
    }

    /// How many components the path has.
    pub fn depth(&self) -> (r: usize)
        ensures
            r == self@.len(),
    {
        self.components.len()
    }

    /// The path made of the first `n` components.
    pub fn prefix(&self, n: usize) -> (r: StorePath)
        requires
            n <= self@.len(),
        ensures
            r@ == self@.take(n as int),
    {
        let mut components: Vec<Vec<u8>> = Vec::new();
        let mut i: usize = 0;
        while i < n
            invariant
                i <= n,
                n <= self@.len(),
                self@.len() == self.components@.len(),
                components@.len() == i,
                forall|j: int| 0 <= j < i ==> components@[j]@ == self.components@[j]@,
            decreases n - i,
        {
            components.push(clone_bytes(&self.components[i]));
            i += 1;
        }
        proof {
            assert forall|j: int| 0 <= j < n implies view_of_components(components@)[j]
                == self@.take(n as int)[j] by {
                assert(view_of_components(components@)[j] == components@[j]@);
                assert(self@[j] == self.components@[j]@);
            }
            assert(view_of_components(components@) =~= self@.take(n as int));
        }
        StorePath { components }
    }

    /// The path extended by one more component.
    pub fn join(&self, name: &Vec<u8>) -> (r: StorePath)
        ensures
            r@ == self@.push(name@),
    {
        let mut r = self.prefix(self.depth());
        proof {
            assert(self@.take(self@.len() as int) =~= self@);
        }
        r.components.push(clone_bytes(name));
        proof {
            assert(r@ =~= self@.push(name@));
        }
        r
    }

    /// Whether two paths name the same place.
    pub fn path_eq(&self, other: &StorePath) -> (r: bool)
        ensures
            r == (self@ == other@),
    {
        if self.components.len() != other.components.len() {
            proof {
                assert(self@.len() == self.components@.len());
                assert(other@.len() == other.components@.len());
            }
            return false;
        }
        let n = self.components.len();
        let mut i: usize = 0;
        while i < n
            invariant
                n == self.components@.len(),
                n == other.components@.len(),
                i <= n,
                forall|j: int| 0 <= j < i ==> self@[j] == other@[j],
            decreases n - i,
        {
            if !bytes_eq(&self.components[i], &other.components[i]) {
                proof {
                    assert(self@[i as int] != other@[i as int]);
                }
                return false;
            }
            i += 1;
        }
        proof {
            assert(self@ =~= other@);
        }
        true
    }
}

} // verus!
