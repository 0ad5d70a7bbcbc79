use vstd::prelude::*;

verus! {

/// The names of the registered schemes, as bytes, in registration order.
pub struct Registry {
    names: std::vec::Vec<std::vec::Vec<u8>>,
}

impl View for Registry {
    type V = Seq<Seq<u8>>;

    closed spec fn view(&self) -> Seq<Seq<u8>> {
        views(self.names@)
    }
}

/// `names` with every entry equal to `name` left out, in order.
pub open spec fn without(names: Seq<Seq<u8>>, name: Seq<u8>) -> Seq<Seq<u8>>
    decreases names.len(),
{
    if names.len() == 0 {
        names
    } else if names.last() == name {
        without(names.drop_last(), name)
    } else {
        without(names.drop_last(), name).push(names.last())
    }
}

/// Whether two byte strings are equal.
pub fn same_bytes(a: &[u8], b: &[u8]) -> (r: bool)
    ensures
        r == (a@ == b@),
{
    if a.len() != b.len() {
        return false;
    }
    let mut i: usize = 0;
    while i < a.len()
        invariant
            a@.len() == b@.len(),
            i <= a@.len(),
            forall|k: int| 0 <= k < i ==> a@[k] == b@[k],
        decreases a@.len() - i,
    {
        if a[i] != b[i] {
            return false;
        }
        i = i + 1;
    }
    assert(a@ =~= b@);
    true
}

impl Registry {
    pub fn new() -> (r: Registry)
        ensures
            r@ == Seq::<Seq<u8>>::empty(),
    {
        Registry { names: std::vec::Vec::new() }
    }

    /// Adds a scheme under `name`.
    pub fn register(&mut self, name: &[u8])
        ensures
            final(self)@ == old(self)@.push(name@),
    {
        let mut copy: std::vec::Vec<u8> = std::vec::Vec::new();
        let mut i: usize = 0;
        while i < name.len()
            invariant
                i <= name@.len(),
                copy@ == name@.subrange(0, i as int),
            decreases name@.len() - i,
        {
            copy.push(name[i]);
            i = i + 1;
            assert(copy@ =~= name@.subrange(0, i as int));
        }
        assert(copy@ =~= name@);
        self.names.push(copy);
        assert(self@ =~= old(self)@.push(name@));
    }

    /// Whether a scheme is registered under `name`.
    pub fn contains(&self, name: &[u8]) -> (r: bool)
        ensures
            r == self@.contains(name@),
    {
        let mut i: usize = 0;
        while i < self.names.len()
            invariant
                i <= self@.len(),
                self@.len() == self.names@.len(),
                forall|k: int| 0 <= k < i ==> self@[k] != name@,
            decreases self@.len() - i,
        {
            if same_bytes(self.names[i].as_slice(), name) {
                assert(self@[i as int] == name@);
                return true;
            }
            i = i + 1;
        }
        false
    }

    /// Removes every scheme registered under `name`; the others stay, in order.
    pub fn unregister(&mut self, name: &[u8])
        ensures
            final(self)@ == without(old(self)@, name@),
    {
        let mut acc: std::vec::Vec<std::vec::Vec<u8>> = std::vec::Vec::new();
        let ghost start = self@;
        while self.names.len() > 0
            invariant
                without(start, name@) == without(self@, name@) + views(acc@).reverse(),
            decreases self.names@.len(),
        {
            let ghost before = self@;
            let n = self.names.pop().unwrap();
            let ghost acc0 = acc@;
            proof {
                assert(self@ =~= before.drop_last());
                assert(before.last() == n@);
            }
            if !same_bytes(n.as_slice(), name) {
                acc.push(n);
                proof {
                    assert(views(acc@) =~= views(acc0).push(n@));
                    assert(views(acc@).reverse() =~= seq![n@] + views(acc0).reverse());
                    assert(without(before, name@) =~= without(self@, name@).push(n@));
                    assert(without(start, name@) =~= without(self@, name@) + views(acc@).reverse());
                }
            }
        }
        assert(without(self@, name@) =~= Seq::<Seq<u8>>::empty());
        while acc.len() > 0
            invariant
                without(start, name@) == self@ + views(acc@).reverse(),
            decreases acc@.len(),
        {
            let ghost acc0 = acc@;
            let ghost before = self@;
            let n = acc.pop().unwrap();
            proof {
                assert(acc@ =~= acc0.drop_last());
                assert(views(acc0).reverse() =~= seq![n@] + views(acc@).reverse());
            }
            self.names.push(n);
            proof {
                assert(self@ =~= before.push(n@));
                assert(without(start, name@) =~= self@ + views(acc@).reverse());
            }
        }
        assert(self@ =~= without(start, name@));
    }
}

/// The byte strings held by a sequence of vectors.
pub open spec fn views(v: Seq<std::vec::Vec<u8>>) -> Seq<Seq<u8>> {
    v.map_values(|n: std::vec::Vec<u8>| n@)
}

/// Taking a name out leaves no entry under it.
pub proof fn lemma_unregistered_gone(names: Seq<Seq<u8>>, name: Seq<u8>)
    ensures
        !without(names, name).contains(name),
        forall|n: Seq<u8>| n != name ==> (names.contains(n) <==> without(names, name).contains(n)),
    decreases names.len(),
{
    if names.len() > 0 {
        let init = names.drop_last();
        lemma_unregistered_gone(init, name);
        assert forall|n: Seq<u8>| n != name implies (names.contains(n) <==> without(names, name).contains(n)) by {
            let w = without(names, name);
            let wi = without(init, name);
            assert(forall|k: int| 0 <= k < wi.len() ==> w[k] == wi[k]);
            if names.contains(n) {
                let i = choose|i: int| 0 <= i < names.len() && names[i] == n;
                if i < init.len() {
                    assert(init[i] == n);
                    assert(init.contains(n));
                    assert(wi.contains(n));
                    let k = choose|k: int| 0 <= k < wi.len() && wi[k] == n;
                    assert(w[k] == n);
                } else {
                    assert(w.last() == n);
                    assert(w[w.len() - 1] == n);
                }
            }
            if w.contains(n) {
                let i = choose|i: int| 0 <= i < w.len() && w[i] == n;
                if i < wi.len() {
                    assert(wi[i] == n);
                    assert(wi.contains(n));
                    assert(init.contains(n));
                    let j = choose|j: int| 0 <= j < init.len() && init[j] == n;
                    assert(names[j] == init[j]);
                } else {
                    assert(names[names.len() - 1] == n);
                }
            }
        }
        if without(names, name).contains(name) {
            let i = choose|i: int| 0 <= i < without(names, name).len() && without(names, name)[i] == name;
            if i < without(init, name).len() {
                assert(without(init, name)[i] == name);
            }
        }
    }
}

} // verus!
