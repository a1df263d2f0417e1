//! Places in the file system, as the names on the way to them.

use vstd::prelude::*;
use vstd::string::StrSliceExecFns;

verus! {

/// A path, cut into its parts. Each part holds the raw bytes of a name; the root
/// of a file system is a part of its own that holds a single slash.
pub struct ItemPath {
    pub parts: Vec<Vec<u8>>,
}

/// The part that stands for the root of a file system.
pub open spec fn is_root(part: Seq<u8>) -> bool {
    part =~= seq![47u8]
}

/// The path below `path` that a name leads to.
pub open spec fn spec_join(path: Seq<Seq<u8>>, name: Seq<char>) -> Seq<Seq<u8>> {
    path.push(vstd::utf8::encode_utf8(name))
}

/// The path that the last part of `path` lies in: there is none of an empty path
/// and of a root.
pub open spec fn spec_parent(path: Seq<Seq<u8>>) -> Option<Seq<Seq<u8>>> {
    if path.len() == 0 || is_root(path.last()) {
        None
    } else {
        Some(path.drop_last())
    }
}

impl View for ItemPath {
    type V = Seq<Seq<u8>>;

    open spec fn view(&self) -> Seq<Seq<u8>> {
        Seq::new(self.parts@.len(), |i: int| self.parts@[i]@)
    }
}

/// The same bytes once more.
pub fn copy_bytes(bytes: &Vec<u8>) -> (r: Vec<u8>)
    ensures
        r@ == bytes@,
{
    let mut r: Vec<u8> = Vec::new();
    let mut i: usize = 0;
    while i < bytes.len()
        invariant
            i <= bytes@.len(),
            r@ == bytes@.take(i as int),
        decreases bytes@.len() - i,
    {
        r.push(bytes[i]);
        i += 1;
    }
    r
}

impl ItemPath {
    /// The empty path.
    pub fn new() -> (r: Self)
        ensures
            r@ == Seq::<Seq<u8>>::empty(),
    {
        let r = ItemPath { parts: Vec::new() };
        assert(r@ =~= Seq::<Seq<u8>>::empty());
        r
    }

    /// The first `n` parts.
    fn leading(&self, n: usize) -> (r: Self)
        requires
            n <= self.parts@.len(),
        ensures
            r@ == self@.take(n as int),
    {
        let mut r = ItemPath { parts: Vec::new() };
        let mut i: usize = 0;
        while i < n
            invariant
                i <= n <= self.parts@.len(),
                r@ == self@.take(i as int),
            decreases n - i,
        {
            let ghost before = r@;
            let part = copy_bytes(&self.parts[i]);
            r.parts.push(part);
            assert(r@ =~= before.push(self@[i as int]));
            i += 1;
            assert(r@ =~= self@.take(i as int));
        }
        r
    }

    /// The same path once more.
    pub fn duplicate(&self) -> (r: Self)
        ensures
            r@ == self@,
    {
        let n: usize = self.parts.len();
        assert(self@.take(n as int) =~= self@);
        self.leading(n)
    }

    /// The path below this one that `name` leads to.
    pub fn join(&self, name: &str) -> (r: Self)
        ensures
            r@ == spec_join(self@, name@),
    {
        let mut r = self.duplicate();
        let ghost before = r@;
        r.parts.push(name.as_bytes_vec());
        assert(r@ =~= before.push(vstd::utf8::encode_utf8(name@)));
        r
    }

    /// The path that the last part lies in.
    pub fn parent(&self) -> (r: Option<Self>)
        ensures
            match r {
                Some(p) => spec_parent(self@) == Some(p@),
                None => spec_parent(self@).is_none(),
            },
    {
        let n: usize = self.parts.len();
        if n == 0 {
            return None;
        }
        let last: &Vec<u8> = &self.parts[n - 1];
        if last.len() == 1 && last[0] == 47 {
            assert(is_root(self@.last()));
            return None;
        }
        assert(self@.take(n - 1) =~= self@.drop_last());
        Some(self.leading(n - 1))
    }
}

/// A name leads back to where it started.
pub proof fn law_parent_of_join(path: Seq<Seq<u8>>, name: Seq<char>)
    requires
        !is_root(vstd::utf8::encode_utf8(name)),
    ensures
        spec_parent(spec_join(path, name)) == Some(path),
{
    assert(spec_join(path, name).drop_last() =~= path);
}

} // verus!
