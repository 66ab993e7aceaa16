//! The macro table: the set of macro names currently defined. The table
//! is consulted only for name presence (conditional gating); definition
//! bodies are never expanded, so the model is a set of byte-string names.

use vstd::prelude::*;

verus! {

/// The set of names held in the first `upto` entries of `names`.
pub open spec fn names_set_upto(names: Seq<Vec<u8>>, upto: int) -> Set<Seq<u8>> {
    Set::new(|s: Seq<u8>| exists|i: int| 0 <= i < upto && (#[trigger] names[i])@ == s)
}

/// Byte-for-byte comparison of two byte strings.
pub fn bytes_eq(a: &Vec<u8>, b: &Vec<u8>) -> (r: bool)
    ensures
        r == (a@ == b@),
{
    if a.len() != b.len() {
        return false;
    }
    let mut i: usize = 0;
    while i < a.len()
        invariant
            i <= a@.len(),
            a@.len() == b@.len(),
            forall|k: int| 0 <= k < i ==> a@[k] == b@[k],
        decreases a@.len() - i,
    {
        if a[i] != b[i] {
            return false;
        }
        i = i + 1;
    }
    proof {
        assert(a@ =~= b@);
    }
    true
}

/// The macro table. Its model is the set of names it holds; the order and
/// multiplicity of entries is irrelevant, as a hash mapping's
/// iteration order would be.
#[derive(Debug)]
pub struct Defines {
    names: Vec<Vec<u8>>,
}

impl View for Defines {
    type V = Set<Seq<u8>>;

    closed spec fn view(&self) -> Set<Seq<u8>> {
        names_set_upto(self.names@, self.names@.len() as int)
    }
}

impl Defines {
    /// An empty table.
    pub fn new() -> (r: Defines)
        ensures
            r@ == Set::<Seq<u8>>::empty(),
    {
        let r = Defines { names: Vec::new() };
        proof {
            assert(r@ =~= Set::<Seq<u8>>::empty());
        }
        r
    }

    /// Whether `name` is currently defined.
    pub fn contains(&self, name: &Vec<u8>) -> (r: bool)
        ensures
            r == self@.contains(name@),
    {
        let mut i: usize = 0;
        while i < self.names.len()
            invariant
                i <= self.names@.len(),
                forall|k: int| 0 <= k < i ==> (#[trigger] self.names@[k])@ != name@,
            decreases self.names@.len() - i,
        {
            if bytes_eq(&self.names[i], name) {
                return true;
            }
            i = i + 1;
        }
        false
    }

    /// Record `name` as defined.
    pub fn insert(&mut self, name: Vec<u8>)
        ensures
            final(self)@ == old(self)@.insert(name@),
    {
        if self.contains(&name) {
            proof {
                assert(self@ =~= old(self)@.insert(name@));
            }
        } else {
            let ghost n0 = self.names@;
            self.names.push(name);
            proof {
                assert forall|s: Seq<u8>| self@.contains(s) <==> old(self)@.insert(
                    name@,
                ).contains(s) by {
                    if self@.contains(s) {
                        let i = choose|i: int|
                            0 <= i < self.names@.len() && (#[trigger] self.names@[i])@ == s;
                        if i < n0.len() {
                            assert(n0[i]@ == s);
                        }
                    }
                    if old(self)@.contains(s) {
                        let i = choose|i: int| 0 <= i < n0.len() && (#[trigger] n0[i])@ == s;
                        assert((self.names@[i])@ == s);
                    }
                    if s == name@ {
                        assert((self.names@[n0.len() as int])@ == s);
                    }
                }
                assert(self@ =~= old(self)@.insert(name@));
            }
        }
    }

    /// Remove `name` from the table; a no-op if it is absent.
    pub fn remove(&mut self, name: &Vec<u8>)
        ensures
            final(self)@ == old(self)@.remove(name@),
    {
        let mut kept: Vec<Vec<u8>> = Vec::new();
        let mut i: usize = 0;
        while i < self.names.len()
            invariant
                i <= self.names@.len(),
                self.names@ == old(self).names@,
                forall|k: int|
                    0 <= k < kept@.len() ==> (#[trigger] kept@[k])@ != name@ && names_set_upto(
                        self.names@,
                        i as int,
                    ).contains(kept@[k]@),
                forall|s: Seq<u8>|
                    names_set_upto(self.names@, i as int).contains(s) && s != name@
                        ==> names_set_upto(kept@, kept@.len() as int).contains(s),
            decreases self.names@.len() - i,
        {
            let ghost k0 = kept@;
            let ghost i0 = i as int;
            if !bytes_eq(&self.names[i], name) {
                let entry = crate::text::clone_bytes(&self.names[i]);
                kept.push(entry);
            }
            proof {
                assert forall|s: Seq<u8>|
                    names_set_upto(self.names@, i0 + 1).contains(s) && s
                        != name@ implies names_set_upto(kept@, kept@.len() as int).contains(
                    s,
                ) by {
                    let w = choose|w: int|
                        0 <= w < i0 + 1 && (#[trigger] self.names@[w])@ == s;
                    if w < i0 {
                        assert(names_set_upto(self.names@, i0).contains(s));
                        let v = choose|v: int| 0 <= v < k0.len() && (#[trigger] k0[v])@ == s;
                        assert((kept@[v])@ == s);
                    } else {
                        assert((self.names@[i0])@ == s);
                        assert((kept@[k0.len() as int])@ == s);
                    }
                }
                assert forall|k: int| 0 <= k < kept@.len() implies (#[trigger] kept@[k])@
                    != name@ && names_set_upto(self.names@, i0 + 1).contains(kept@[k]@) by {
                    if k < k0.len() {
                        let v = choose|v: int|
                            0 <= v < i0 && (#[trigger] self.names@[v])@ == k0[k]@;
                        assert((self.names@[v])@ == kept@[k]@);
                    } else {
                        assert((self.names@[i0])@ == kept@[k]@);
                    }
                }
            }
            i = i + 1;
        }
        self.names = kept;
        proof {
            assert forall|s: Seq<u8>| self@.contains(s) <==> old(self)@.remove(name@).contains(
                s,
            ) by {
                if self@.contains(s) {
                    let k = choose|k: int|
                        0 <= k < self.names@.len() && (#[trigger] self.names@[k])@ == s;
                    assert(self.names@[k]@ != name@);
                    assert(names_set_upto(old(self).names@, old(self).names@.len() as int).contains(
                        s,
                    ));
                }
            }
            assert(self@ =~= old(self)@.remove(name@));
        }
    }

    /// Forget every recorded name.
    pub fn clear(&mut self)
        ensures
            final(self)@ == Set::<Seq<u8>>::empty(),
    {
        self.names = Vec::new();
        proof {
            assert(self@ =~= Set::<Seq<u8>>::empty());
        }
    }

    /// An independent copy holding the same names.
    pub fn duplicate(&self) -> (r: Defines)
        ensures
            r@ == self@,
    {
        let mut names: Vec<Vec<u8>> = Vec::new();
        let mut i: usize = 0;
        while i < self.names.len()
            invariant
                i <= self.names@.len(),
                names@.len() == i,
                forall|k: int| 0 <= k < i ==> (#[trigger] names@[k])@ == self.names@[k]@,
            decreases self.names@.len() - i,
        {
            let entry = crate::text::clone_bytes(&self.names[i]);
            names.push(entry);
            i = i + 1;
        }
        let r = Defines { names };
        proof {
            assert forall|s: Seq<u8>| r@.contains(s) <==> self@.contains(s) by {
                if r@.contains(s) {
                    let k = choose|k: int|
                        0 <= k < r.names@.len() && (#[trigger] r.names@[k])@ == s;
                    assert((self.names@[k])@ == s);
                }
                if self@.contains(s) {
                    let k = choose|k: int|
                        0 <= k < self.names@.len() && (#[trigger] self.names@[k])@ == s;
                    assert((r.names@[k])@ == s);
                }
            }
            assert(r@ =~= self@);
        }
        r
    }
}

} // verus!
