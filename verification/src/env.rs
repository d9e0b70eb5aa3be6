//! Environments: maps from variable names to values, both byte strings,
//! each name at most once. The caller's environment and the one a command
//! runs with (see `c::prep_env`) are such maps.
use vstd::prelude::*;

verus! {

broadcast use vstd::string::group_string_axioms;

/// The search path for commands named by a rule.
pub const SAFE_PATH: &'static str = "/bin:/sbin:/usr/bin:/usr/sbin:/usr/local/bin:/usr/local/sbin";

// ---------------------------------------------------------------------------
// The map

/// A map from variable names to values; each name occurs once. Names and
/// values are byte strings, kept in two vectors side by side: Verus
/// specifies std's hash maps for integer keys, not for byte-string keys, so
/// the map is held as vectors whose view is a `Map` and whose invariant
/// (`wf`) keeps each name once.
pub struct EnvMap {
    keys: Vec<Vec<u8>>,
    vals: Vec<Vec<u8>>,
}

pub open spec fn key_at(keys: Seq<Vec<u8>>, i: int) -> Seq<u8> {
    keys[i]@
}

impl EnvMap {
    pub closed spec fn wf(&self) -> bool {
        &&& self.keys@.len() == self.vals@.len()
        &&& forall|i: int, j: int|
            0 <= i < self.keys@.len() && 0 <= j < self.keys@.len() && i != j ==> #[trigger] key_at(
                self.keys@,
                i,
            ) != #[trigger] key_at(self.keys@, j)
    }

    pub closed spec fn view(&self) -> Map<Seq<u8>, Seq<u8>> {
        Map::new(
            |k: Seq<u8>| exists|i: int| 0 <= i < self.keys@.len() && key_at(self.keys@, i) == k,
            |k: Seq<u8>|
                self.vals@[choose|i: int| 0 <= i < self.keys@.len() && key_at(self.keys@, i) == k]@,
        )
    }

    proof fn lemma_at(&self, i: int)
        requires
            self.wf(),
            0 <= i < self.keys@.len(),
        ensures
            self@.contains_key(self.keys@[i]@),
            self@[self.keys@[i]@] == self.vals@[i]@,
    {
        let k = self.keys@[i]@;
        assert(key_at(self.keys@, i) == k);
        let j = choose|j: int| 0 <= j < self.keys@.len() && key_at(self.keys@, j) == k;
        assert(j == i);
    }

    pub fn new() -> (m: EnvMap)
        ensures
            m.wf(),
            m@ == Map::<Seq<u8>, Seq<u8>>::empty(),
    {
        let m = EnvMap { keys: Vec::new(), vals: Vec::new() };
        assert(m@ =~= Map::<Seq<u8>, Seq<u8>>::empty());
        m
    }

    pub fn len(&self) -> (n: usize)
        requires
            self.wf(),
        ensures
            n == self@.len(),
    {
        proof {
            self.lemma_len();
        }
        self.keys.len()
    }

    proof fn lemma_len(&self)
        requires
            self.wf(),
        ensures
            self@.dom().finite(),
            self@.len() == self.keys@.len(),
        decreases self.keys@.len(),
    {
        let ks = self.keys@.map_values(|k: Vec<u8>| k@);
        assert forall|x: Seq<u8>| self@.dom().contains(x) <==> ks.to_set().contains(x) by {
            if self@.dom().contains(x) {
                let j = choose|j: int| 0 <= j < self.keys@.len() && key_at(self.keys@, j) == x;
                assert(ks[j] == x);
            }
            if ks.to_set().contains(x) {
                assert(ks.contains(x));
                let j = choose|j: int| 0 <= j < ks.len() && ks[j] == x;
                assert(key_at(self.keys@, j) == x);
            }
        }
        assert(self@.dom() =~= ks.to_set());
        assert forall|i: int, j: int| 0 <= i < ks.len() && 0 <= j < ks.len() && i != j implies ks[i]
            != ks[j] by {
            assert(key_at(self.keys@, i) != key_at(self.keys@, j));
        }
        assert(ks.no_duplicates());
        ks.unique_seq_to_set();
    }

    fn find(&self, key: &[u8]) -> (r: Option<usize>)
        requires
            self.wf(),
        ensures
            r matches Some(i) ==> i < self.keys@.len() && self.keys@[i as int]@ == key@,
            r is None ==> !self@.contains_key(key@),
    {
        let mut i: usize = 0;
        while i < self.keys.len()
            invariant
                i <= self.keys@.len(),
                forall|j: int| 0 <= j < i ==> key_at(self.keys@, j) != key@,
            decreases self.keys@.len() - i,
        {
            if bytes_eq(self.keys[i].as_slice(), key) {
                return Some(i);
            }
            assert(key_at(self.keys@, i as int) != key@);
            i = i + 1;
        }
        None
    }

    /// The value of a variable.
    pub fn get(&self, key: &[u8]) -> (r: Option<&Vec<u8>>)
        requires
            self.wf(),
        ensures
            self@.contains_key(key@) ==> (r matches Some(v) && v@ == self@[key@]),
            !self@.contains_key(key@) ==> r is None,
    {
        match self.find(key) {
            Some(i) => {
                proof {
                    self.lemma_at(i as int);
                }
                Some(&self.vals[i])
            },
            None => None,
        }
    }

    /// Sets a variable, replacing its value if it is already there.
    pub fn insert(&mut self, key: Vec<u8>, val: Vec<u8>)
        requires
            old(self).wf(),
        ensures
            final(self).wf(),
            final(self)@ == old(self)@.insert(key@, val@),
    {
        let ghost m0 = self@;
        match self.find(key.as_slice()) {
            Some(i) => {
                let ghost k = key@;
                let ghost v = val@;
                self.vals.set(i, val);
                assert forall|x: Seq<u8>| #[trigger] self@.contains_key(x) == m0.insert(k, v).contains_key(x) by {
                    if m0.insert(k, v).contains_key(x) && x != k {
                        let j = choose|j: int| 0 <= j < old(self).keys@.len() && key_at(old(self).keys@, j) == x;
                        assert(key_at(self.keys@, j) == x);
                    }
                    if x == k {
                        assert(key_at(self.keys@, i as int) == x);
                    }
                }
                assert forall|x: Seq<u8>| #[trigger] self@.contains_key(x) implies self@[x] == m0.insert(k, v)[x] by {
                    let j = choose|j: int| 0 <= j < self.keys@.len() && key_at(self.keys@, j) == x;
                    self.lemma_at(j);
                    if x != k {
                        old(self).lemma_at(j);
                        assert(j != i);
                    } else {
                        assert(key_at(self.keys@, i as int) == x);
                    }
                }
                assert(self@ =~= m0.insert(k, v));
            },
            None => {
                let ghost k = key@;
                let ghost v = val@;
                let ghost n = self.keys@.len();
                self.keys.push(key);
                self.vals.push(val);
                assert forall|a: int, b: int|
                    0 <= a < self.keys@.len() && 0 <= b < self.keys@.len() && a != b implies #[trigger] key_at(
                    self.keys@,
                    a,
                ) != #[trigger] key_at(self.keys@, b) by {
                    if a < n && b < n {
                        assert(key_at(old(self).keys@, a) != key_at(old(self).keys@, b));
                    } else if a < n {
                        assert(key_at(self.keys@, a) == key_at(old(self).keys@, a));
                        if key_at(old(self).keys@, a) == k {
                            assert(m0.contains_key(k));
                        }
                    } else if b < n {
                        assert(key_at(self.keys@, b) == key_at(old(self).keys@, b));
                        if key_at(old(self).keys@, b) == k {
                            assert(m0.contains_key(k));
                        }
                    }
                }
                assert forall|x: Seq<u8>| #[trigger] self@.contains_key(x) == m0.insert(k, v).contains_key(x) by {
                    if m0.contains_key(x) {
                        let j = choose|j: int| 0 <= j < old(self).keys@.len() && key_at(old(self).keys@, j) == x;
                        assert(key_at(self.keys@, j) == x);
                    }
                    if x == k {
                        assert(key_at(self.keys@, n as int) == x);
                    }
                    if self@.contains_key(x) && x != k {
                        let j = choose|j: int| 0 <= j < self.keys@.len() && key_at(self.keys@, j) == x;
                        assert(j < n);
                        assert(key_at(old(self).keys@, j) == x);
                    }
                }
                assert forall|x: Seq<u8>| #[trigger] self@.contains_key(x) implies self@[x] == m0.insert(k, v)[x] by {
                    let j = choose|j: int| 0 <= j < self.keys@.len() && key_at(self.keys@, j) == x;
                    self.lemma_at(j);
                    if j < n {
                        assert(key_at(old(self).keys@, j) == x);
                        old(self).lemma_at(j);
                        assert(x != k);
                    }
                }
                assert(self@ =~= m0.insert(k, v));
            },
        }
    }

    /// Sets a variable unless it is already there.
    pub fn insert_if_absent(&mut self, key: Vec<u8>, val: Vec<u8>)
        requires
            old(self).wf(),
        ensures
            final(self).wf(),
            final(self)@ == if old(self)@.contains_key(key@) {
                old(self)@
            } else {
                old(self)@.insert(key@, val@)
            },
    {
        match self.find(key.as_slice()) {
            Some(i) => {
                proof {
                    self.lemma_at(i as int);
                }
            },
            None => {
                self.insert(key, val);
            },
        }
    }

    /// Removes a variable.
    pub fn remove(&mut self, key: &[u8])
        requires
            old(self).wf(),
        ensures
            final(self).wf(),
            final(self)@ == old(self)@.remove(key@),
    {
        let ghost m0 = self@;
        match self.find(key) {
            Some(i) => {
                let ghost ks = self.keys@;
                let ghost vs = self.vals@;
                let ghost n = ks.len();
                self.keys.remove(i);
                self.vals.remove(i);
                assert forall|a: int, b: int|
                    0 <= a < self.keys@.len() && 0 <= b < self.keys@.len() && a != b implies #[trigger] key_at(
                    self.keys@,
                    a,
                ) != #[trigger] key_at(self.keys@, b) by {
                    let a0 = if a < i { a } else { a + 1 };
                    let b0 = if b < i { b } else { b + 1 };
                    assert(key_at(self.keys@, a) == key_at(ks, a0));
                    assert(key_at(self.keys@, b) == key_at(ks, b0));
                    assert(key_at(ks, a0) != key_at(ks, b0));
                }
                assert forall|x: Seq<u8>| #[trigger] self@.contains_key(x) == m0.remove(key@).contains_key(x) by {
                    if m0.remove(key@).contains_key(x) {
                        let j = choose|j: int| 0 <= j < n && key_at(ks, j) == x;
                        assert(j != i);
                        let j2 = if j < i { j } else { j - 1 };
                        assert(key_at(self.keys@, j2) == x);
                    }
                    if self@.contains_key(x) {
                        let j = choose|j: int| 0 <= j < self.keys@.len() && key_at(self.keys@, j) == x;
                        let j0 = if j < i { j } else { j + 1 };
                        assert(key_at(ks, j0) == x);
                        assert(j0 != i);
                        assert(key_at(ks, i as int) != key_at(ks, j0));
                    }
                }
                assert forall|x: Seq<u8>| #[trigger] self@.contains_key(x) implies self@[x] == m0.remove(key@)[x] by {
                    let j = choose|j: int| 0 <= j < self.keys@.len() && key_at(self.keys@, j) == x;
                    self.lemma_at(j);
                    let j0 = if j < i { j } else { j + 1 };
                    assert(key_at(ks, j0) == x);
                    old(self).lemma_at(j0);
                }
                assert(self@ =~= m0.remove(key@));
            },
            None => {
                assert(self@ =~= m0.remove(key@));
            },
        }
    }

    /// The variables and their values, side by side.
    pub fn entries(&self) -> (r: (&Vec<Vec<u8>>, &Vec<Vec<u8>>))
        requires
            self.wf(),
        ensures
            r.0@.len() == r.1@.len(),
            forall|i: int| 0 <= i < r.0@.len() ==> self@.contains_key(#[trigger] r.0@[i]@) && self@[r.0@[i]@] == r.1@[i]@,
            forall|k: Seq<u8>| #[trigger] self@.contains_key(k) ==> exists|i: int| 0 <= i < r.0@.len() && r.0@[i]@ == k,
    {
        proof {
            assert forall|i: int| 0 <= i < self.keys@.len() implies self@.contains_key(#[trigger] self.keys@[i]@) && self@[self.keys@[i]@] == self.vals@[i]@ by {
                self.lemma_at(i);
            }
            assert forall|k: Seq<u8>| #[trigger] self@.contains_key(k) implies exists|i: int| 0 <= i < self.keys@.len() && self.keys@[i]@ == k by {
                let j = choose|j: int| 0 <= j < self.keys@.len() && key_at(self.keys@, j) == k;
                assert(self.keys@[j]@ == k);
            }
        }
        (&self.keys, &self.vals)
    }

    /// The variables and their values.
    pub fn into_pairs(self) -> (r: (Vec<Vec<u8>>, Vec<Vec<u8>>))
        requires
            self.wf(),
        ensures
            r.0@.len() == r.1@.len(),
            forall|i: int| 0 <= i < r.0@.len() ==> self@.contains_key(#[trigger] r.0@[i]@) && self@[r.0@[i]@] == r.1@[i]@,
            forall|k: Seq<u8>| #[trigger] self@.contains_key(k) ==> exists|i: int| 0 <= i < r.0@.len() && r.0@[i]@ == k,
    {
        proof {
            assert forall|i: int| 0 <= i < self.keys@.len() implies self@.contains_key(#[trigger] self.keys@[i]@) && self@[self.keys@[i]@] == self.vals@[i]@ by {
                self.lemma_at(i);
            }
            assert forall|k: Seq<u8>| #[trigger] self@.contains_key(k) implies exists|i: int| 0 <= i < self.keys@.len() && self.keys@[i]@ == k by {
                let j = choose|j: int| 0 <= j < self.keys@.len() && key_at(self.keys@, j) == k;
                assert(self.keys@[j]@ == k);
            }
        }
        (self.keys, self.vals)
    }
}

pub(crate) fn bytes_eq(a: &[u8], b: &[u8]) -> (r: bool)
    ensures
        r == (a@ == b@),
{
    if a.len() != b.len() {
        return false;
    }
    let mut i: usize = 0;
    while i < a.len()
        invariant
            i <= a@.len(),
            a@.len() == b@.len(),
            forall|j: int| 0 <= j < i ==> a@[j] == b@[j],
        decreases a@.len() - i,
    {
        if a[i] != b[i] {
            return false;
        }
        i = i + 1;
    }
    assert(a@ =~= b@);
    true
}

} // verus!
