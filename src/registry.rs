//! The directory of connected users: identity to name, name to identity, and
//! each user's private outbound handle, kept consistent as one structure.

use vstd::prelude::*;

verus! {

/// Why a registry operation was refused.
#[derive(Clone, Copy, Debug, PartialEq, Eq, Structural)]
pub enum RegistryError {
    /// Another connected user holds the name.
    NameTaken,
    /// The identity has no registration.
    NotRegistered,
    /// The identity already has a registration.
    AlreadyRegistered,
    /// The requested name is empty.
    EmptyName,
}

/// A refused registration, with the outbound handle handed back.
#[derive(Debug)]
pub struct Refused<H> {
    pub error: RegistryError,
    pub outbound: H,
}

/// Whether some identity of `m` is registered under `n`.
pub open spec fn name_in_use(m: Map<u64, Seq<char>>, n: Seq<char>) -> bool {
    exists|id: u64| m.contains_key(id) && m[id] == n
}

/// The name-to-identity direction of `m`.
pub open spec fn inverse(m: Map<u64, Seq<char>>) -> Map<Seq<char>, u64> {
    Map::new(
        |n: Seq<char>| name_in_use(m, n),
        |n: Seq<char>| choose|id: u64| m.contains_key(id) && m[id] == n,
    )
}

/// No two identities of `m` share a name.
pub open spec fn injective(m: Map<u64, Seq<char>>) -> bool {
    forall|a: u64, b: u64|
        #![trigger m[a], m[b]]
        m.contains_key(a) && m.contains_key(b) && m[a] == m[b] ==> a == b
}

/// The `k`-th fallback name for `label`: the label followed by `k` underscores.
pub open spec fn candidate(label: Seq<char>, k: nat) -> Seq<char> {
    label + Seq::new(k, |_i: int| '_')
}

/// Whether `k` picks the first fallback name for `label` that `m` leaves free.
pub open spec fn is_first_free(m: Map<u64, Seq<char>>, label: Seq<char>, k: nat) -> bool {
    &&& !name_in_use(m, candidate(label, k))
    &&& forall|j: nat| j < k ==> name_in_use(m, #[trigger] candidate(label, j))
}

/// The default name for `label`: the first of `label`, `label_`, `label__`, ...
/// that no user of `m` holds.
pub open spec fn fallback_name(m: Map<u64, Seq<char>>, label: Seq<char>) -> Seq<char> {
    candidate(label, choose|k: nat| is_first_free(m, label, k))
}

/// Connected users. Identities and names are both unique.
pub struct Registry<H> {
    ids: Vec<u64>,
    names: Vec<String>,
    outs: Vec<H>,
    model: Ghost<Map<u64, Seq<char>>>,
    handles: Ghost<Map<u64, H>>,
}

impl<H> Registry<H> {
    /// Each registered identity and its name.
    pub closed spec fn by_identity(&self) -> Map<u64, Seq<char>> {
        self.model@
    }

    /// Each registered name and its identity.
    pub open spec fn by_name(&self) -> Map<Seq<char>, u64> {
        inverse(self.by_identity())
    }

    /// Each registered identity and its outbound handle.
    pub closed spec fn outbounds(&self) -> Map<u64, H> {
        self.handles@
    }

    /// The three columns line up, identities and names are unique, and the
    /// model maps exactly the stored identities to their names and handles.
    pub closed spec fn wf(&self) -> bool {
        let n = self.ids@.len();
        &&& self.names@.len() == n
        &&& self.outs@.len() == n
        &&& forall|i: int, j: int|
            0 <= i < n && 0 <= j < n && i != j ==> self.ids@[i] != self.ids@[j]
        &&& forall|i: int|
            0 <= i < n ==> {
                &&& self.model@.contains_key(#[trigger] self.ids@[i])
                &&& self.model@[self.ids@[i]] == self.names@[i]@
                &&& self.handles@[self.ids@[i]] == self.outs@[i]
            }
        &&& forall|id: u64| #[trigger]
            self.model@.contains_key(id) ==> exists|i: int| 0 <= i < n && self.ids@[i] == id
        &&& self.handles@.dom() == self.model@.dom()
        &&& injective(self.model@)
    }

    /// What a well-formed registry guarantees to its users.
    pub proof fn lemma_wf(&self)
        requires
            self.wf(),
        ensures
            injective(self.by_identity()),
            self.outbounds().dom() == self.by_identity().dom(),
            self.by_identity().dom().finite(),
    {
        self.lemma_dom_len();
        self.ids@.lemma_cardinality_of_set();
    }

    /// An empty registry.
    pub fn new() -> (r: Registry<H>)
        ensures
            r.wf(),
            r.by_identity() == Map::<u64, Seq<char>>::empty(),
            r.outbounds() == Map::<u64, H>::empty(),
    {
        Registry {
            ids: Vec::new(),
            names: Vec::new(),
            outs: Vec::new(),
            model: Ghost(Map::empty()),
            handles: Ghost(Map::empty()),
        }
    }

    /// The number of registered users.
    pub fn len(&self) -> (r: usize)
        requires
            self.wf(),
        ensures
            r == self.by_identity().dom().len(),
    {
        proof {
            self.lemma_dom_len();
        }
        self.ids.len()
    }

    proof fn lemma_dom_len(&self)
        requires
            self.wf(),
        ensures
            self.model@.dom() == self.ids@.to_set(),
            self.model@.dom().len() == self.ids@.len(),
    {
        assert(self.model@.dom() =~= self.ids@.to_set());
        self.ids@.unique_seq_to_set();
    }

    fn find_id(&self, id: u64) -> (r: Option<usize>)
        requires
            self.wf(),
        ensures
            r is None ==> !self.model@.contains_key(id),
            r is Some ==> r->0 < self.ids@.len() && self.ids@[r->0 as int] == id,
    {
        let mut i: usize = 0;
        while i < self.ids.len()
            invariant
                self.wf(),
                i <= self.ids@.len(),
                forall|j: int| 0 <= j < i ==> self.ids@[j] != id,
            decreases self.ids@.len() - i,
        {
            if self.ids[i] == id {
                return Some(i);
            }
            i = i + 1;
        }
        None
    }

    fn find_name(&self, name: &String) -> (r: Option<usize>)
        requires
            self.wf(),
        ensures
            r is None ==> !name_in_use(self.model@, name@),
            r is Some ==> r->0 < self.ids@.len() && self.names@[r->0 as int]@ == name@,
    {
        let mut i: usize = 0;
        while i < self.names.len()
            invariant
                self.wf(),
                i <= self.ids@.len(),
                forall|j: int| 0 <= j < i ==> self.names@[j]@ != name@,
            decreases self.ids@.len() - i,
        {
            if self.names[i] == *name {
                return Some(i);
            }
            i = i + 1;
        }
        assert forall|id: u64| self.model@.contains_key(id) implies self.model@[id] != name@ by {
            let j = choose|j: int| 0 <= j < self.ids@.len() && self.ids@[j] == id;
        }
        None
    }

    proof fn lemma_name_at(&self, i: int)
        requires
            self.wf(),
            0 <= i < self.ids@.len(),
        ensures
            name_in_use(self.model@, self.names@[i]@),
            self.by_name()[self.names@[i]@] == self.ids@[i],
    {
        let n = self.names@[i]@;
        let id = choose|id: u64| self.model@.contains_key(id) && self.model@[id] == n;
        assert(self.model@.contains_key(self.ids@[i]));
    }

    /// Whether `id` is registered.
    pub fn contains(&self, id: u64) -> (r: bool)
        requires
            self.wf(),
        ensures
            r == self.by_identity().contains_key(id),
    {
        self.find_id(id).is_some()
    }

    /// Whether some user holds `name`.
    pub fn name_taken(&self, name: &str) -> (r: bool)
        requires
            self.wf(),
        ensures
            r == self.by_name().contains_key(name@),
    {
        let key = String::from_str(name);
        match self.find_name(&key) {
            Some(i) => {
                proof {
                    self.lemma_name_at(i as int);
                }
                true
            },
            None => false,
        }
    }

    /// The identity registered under `name`.
    pub fn identity_of(&self, name: &str) -> (r: Option<u64>)
        requires
            self.wf(),
        ensures
            r == (if self.by_name().contains_key(name@) {
                Some(self.by_name()[name@])
            } else {
                None
            }),
    {
        let key = String::from_str(name);
        match self.find_name(&key) {
            Some(i) => {
                proof {
                    self.lemma_name_at(i as int);
                }
                Some(self.ids[i])
            },
            None => None,
        }
    }

    /// The outbound handle of the user registered under `name`.
    pub fn lookup_by_name(&self, name: &str) -> (r: Option<&H>)
        requires
            self.wf(),
        ensures
            r is Some <==> self.by_name().contains_key(name@),
            r is Some ==> *r->0 == self.outbounds()[self.by_name()[name@]],
    {
        let key = String::from_str(name);
        match self.find_name(&key) {
            Some(i) => {
                proof {
                    self.lemma_name_at(i as int);
                }
                Some(&self.outs[i])
            },
            None => None,
        }
    }

    /// The outbound handle of `id`.
    pub fn outbound(&self, id: u64) -> (r: Option<&H>)
        requires
            self.wf(),
        ensures
            r is Some <==> self.by_identity().contains_key(id),
            r is Some ==> *r->0 == self.outbounds()[id],
    {
        match self.find_id(id) {
            Some(i) => Some(&self.outs[i]),
            None => None,
        }
    }

    /// The name registered for `id`.
    pub fn name_of(&self, id: u64) -> (r: Option<String>)
        requires
            self.wf(),
        ensures
            r is Some <==> self.by_identity().contains_key(id),
            r is Some ==> r->0@ == self.by_identity()[id],
    {
        match self.find_id(id) {
            Some(i) => Some(self.names[i].clone()),
            None => None,
        }
    }

    fn insert_new(&mut self, id: u64, name: String, outbound: H)
        requires
            old(self).wf(),
            !old(self).model@.contains_key(id),
            !name_in_use(old(self).model@, name@),
        ensures
            final(self).wf(),
            final(self).model@ == old(self).model@.insert(id, name@),
            final(self).handles@ == old(self).handles@.insert(id, outbound),
    {
        let ghost n = name@;
        self.ids.push(id);
        self.names.push(name);
        self.outs.push(outbound);
        self.model = Ghost(self.model@.insert(id, n));
        self.handles = Ghost(self.handles@.insert(id, outbound));
        proof {
            let len = self.ids@.len();
            assert(self.ids@[len - 1] == id);
            assert forall|i: int, j: int|
                0 <= i < len && 0 <= j < len && i != j implies self.ids@[i] != self.ids@[j] by {
                if i < len - 1 && j < len - 1 {
                    assert(old(self).ids@[i] == self.ids@[i]);
                    assert(old(self).ids@[j] == self.ids@[j]);
                } else if i < len - 1 {
                    assert(old(self).model@.contains_key(old(self).ids@[i]));
                } else if j < len - 1 {
                    assert(old(self).model@.contains_key(old(self).ids@[j]));
                }
            }
            assert forall|i: int| 0 <= i < len implies {
                &&& self.model@.contains_key(#[trigger] self.ids@[i])
                &&& self.model@[self.ids@[i]] == self.names@[i]@
                &&& self.handles@[self.ids@[i]] == self.outs@[i]
            } by {
                if i < len - 1 {
                    assert(old(self).model@.contains_key(old(self).ids@[i]));
                }
            }
            assert forall|x: u64| #[trigger] self.model@.contains_key(x) implies exists|i: int|
                0 <= i < len && self.ids@[i] == x by {
                if x == id {
                    assert(self.ids@[len - 1] == x);
                } else {
                    assert(old(self).model@.contains_key(x));
                    let i = choose|i: int| 0 <= i < len - 1 && old(self).ids@[i] == x;
                    assert(self.ids@[i] == x);
                }
            }
            assert(self.handles@.dom() =~= self.model@.dom());
            assert forall|a: u64, b: u64|
                #![trigger self.model@[a], self.model@[b]]
                self.model@.contains_key(a) && self.model@.contains_key(b) && self.model@[a]
                    == self.model@[b] implies a == b by {
                if a != id && b != id {
                    assert(old(self).model@[a] == old(self).model@[b]);
                } else if a != id {
                    assert(old(self).model@.contains_key(a));
                } else if b != id {
                    assert(old(self).model@.contains_key(b));
                }
            }
        }
    }

    /// Registers `id` under `name`. Refused, with the handle handed back, when
    /// `name` is empty or held by another user, or when `id` is registered.
    pub fn register(&mut self, id: u64, name: &str, outbound: H) -> (r: Result<String, Refused<H>>)
        requires
            old(self).wf(),
        ensures
            final(self).wf(),
            match r {
                Ok(s) => {
                    &&& s@ == name@
                    &&& name@.len() > 0
                    &&& !old(self).by_name().contains_key(name@)
                    &&& !old(self).by_identity().contains_key(id)
                    &&& final(self).by_identity() == old(self).by_identity().insert(id, name@)
                    &&& final(self).outbounds() == old(self).outbounds().insert(id, outbound)
                },
                Err(e) => {
                    &&& e.outbound == outbound
                    &&& e.error == (if name@.len() == 0 {
                        RegistryError::EmptyName
                    } else if old(self).by_name().contains_key(name@) {
                        RegistryError::NameTaken
                    } else {
                        RegistryError::AlreadyRegistered
                    })
                    &&& old(self).by_identity().contains_key(id) || name@.len() == 0
                        || old(self).by_name().contains_key(name@)
                    &&& final(self).by_identity() == old(self).by_identity()
                    &&& final(self).outbounds() == old(self).outbounds()
                },
            },
    {
        let key = String::from_str(name);
        if key.as_str().unicode_len() == 0 {
            return Err(Refused { error: RegistryError::EmptyName, outbound });
        }
        if self.name_taken(name) {
            return Err(Refused { error: RegistryError::NameTaken, outbound });
        }
        if self.contains(id) {
            return Err(Refused { error: RegistryError::AlreadyRegistered, outbound });
        }
        self.insert_new(id, key.clone(), outbound);
        Ok(key)
    }

    /// Registers `id` under the first of `label`, `label_`, `label__`, ...
    /// that no user holds. Refused only when `id` is registered.
    pub fn register_fallback(&mut self, id: u64, label: &str, outbound: H) -> (r: Result<
        String,
        Refused<H>,
    >)
        requires
            old(self).wf(),
        ensures
            final(self).wf(),
            match r {
                Ok(s) => {
                    &&& s@ == fallback_name(old(self).by_identity(), label@)
                    &&& !old(self).by_name().contains_key(s@)
                    &&& !old(self).by_identity().contains_key(id)
                    &&& final(self).by_identity() == old(self).by_identity().insert(id, s@)
                    &&& final(self).outbounds() == old(self).outbounds().insert(id, outbound)
                },
                Err(e) => {
                    &&& e.outbound == outbound
                    &&& e.error == RegistryError::AlreadyRegistered
                    &&& old(self).by_identity().contains_key(id)
                    &&& final(self).by_identity() == old(self).by_identity()
                    &&& final(self).outbounds() == old(self).outbounds()
                },
            },
    {
        if self.contains(id) {
            return Err(Refused { error: RegistryError::AlreadyRegistered, outbound });
        }
        let ghost m = self.model@;
        let ghost views = self.names@.map_values(|s: String| s@);
        let ghost used = views.to_set();
        proof {
            views.lemma_cardinality_of_set();
        }
        let count = self.ids.len();
        let mut cand = String::from_str(label);
        let mut k: usize = 0;
        let ghost mut tried: Set<Seq<char>> = Set::empty();
        assert(cand@ =~= candidate(label@, 0));
        loop
            invariant
                self.wf(),
                self.model@ == m,
                views == self.names@.map_values(|s: String| s@),
                used == views.to_set(),
                used.len() <= self.ids@.len(),
                cand@ == candidate(label@, k as nat),
                tried.finite(),
                tried.len() == k,
                tried.subset_of(used),
                forall|s: Seq<char>| tried.contains(s) ==> s.len() < label@.len() + k,
                forall|j: nat| j < k ==> name_in_use(m, #[trigger] candidate(label@, j)),
                k <= self.ids@.len(),
                count == self.ids@.len(),
            ensures
                !name_in_use(m, cand@),
                cand@ == candidate(label@, k as nat),
                forall|j: nat| j < k ==> name_in_use(m, #[trigger] candidate(label@, j)),
            decreases self.ids@.len() - k,
        {
            match self.find_name(&cand) {
                None => {
                    break ;
                },
                Some(i) => {
                    proof {
                        self.lemma_name_at(i as int);
                        assert(views[i as int] == cand@);
                        assert(used.contains(cand@));
                        assert(!tried.contains(cand@));
                        tried = tried.insert(cand@);
                        vstd::set_lib::lemma_len_subset(tried, used);
                        assert(tried.len() == k + 1);
                        assert forall|j: nat| j < k + 1 implies name_in_use(
                            m,
                            #[trigger] candidate(label@, j),
                        ) by {
                            if j == k {
                                assert(candidate(label@, j) == cand@);
                            }
                        }
                    }
                    proof {
                        reveal_strlit("_");
                    }
                    cand.append("_");
                    k = k + 1;
                    proof {
                        assert(cand@ =~= candidate(label@, k as nat));
                    }
                },
            }
        }
        proof {
            assert(is_first_free(m, label@, k as nat));
            let c = choose|c: nat| is_first_free(m, label@, c);
            if c < k {
                assert(name_in_use(m, candidate(label@, c)));
            } else if c > k {
                assert(name_in_use(m, candidate(label@, k as nat)));
            }
        }
        self.insert_new(id, cand.clone(), outbound);
        Ok(cand)
    }

    /// Moves `id` to `new_name`. Refused when another user, or `id` itself,
    /// already holds `new_name`, then when `id` is not registered.
    pub fn rename(&mut self, id: u64, new_name: &str) -> (r: Result<String, RegistryError>)
        requires
            old(self).wf(),
        ensures
            final(self).wf(),
            final(self).outbounds() == old(self).outbounds(),
            match r {
                Ok(s) => {
                    &&& s@ == new_name@
                    &&& !old(self).by_name().contains_key(new_name@)
                    &&& old(self).by_identity().contains_key(id)
                    &&& final(self).by_identity() == old(self).by_identity().insert(id, new_name@)
                },
                Err(e) => {
                    &&& e == (if old(self).by_name().contains_key(new_name@) {
                        RegistryError::NameTaken
                    } else {
                        RegistryError::NotRegistered
                    })
                    &&& old(self).by_name().contains_key(new_name@)
                        || !old(self).by_identity().contains_key(id)
                    &&& final(self).by_identity() == old(self).by_identity()
                },
            },
    {
        if self.name_taken(new_name) {
            return Err(RegistryError::NameTaken);
        }
        let i = match self.find_id(id) {
            Some(i) => i,
            None => {
                return Err(RegistryError::NotRegistered);
            },
        };
        let key = String::from_str(new_name);
        self.names[i] = key.clone();
        self.model = Ghost(self.model@.insert(id, new_name@));
        proof {
            let len = self.ids@.len();
            assert(!name_in_use(old(self).model@, new_name@));
            assert forall|j: int| 0 <= j < len implies {
                &&& self.model@.contains_key(#[trigger] self.ids@[j])
                &&& self.model@[self.ids@[j]] == self.names@[j]@
                &&& self.handles@[self.ids@[j]] == self.outs@[j]
            } by {
                assert(old(self).model@.contains_key(old(self).ids@[j]));
            }
            assert forall|x: u64| #[trigger] self.model@.contains_key(x) implies exists|j: int|
                0 <= j < len && self.ids@[j] == x by {
                if x == id {
                    assert(self.ids@[i as int] == x);
                } else {
                    assert(old(self).model@.contains_key(x));
                }
            }
            assert(self.handles@.dom() =~= self.model@.dom());
            assert forall|a: u64, b: u64|
                #![trigger self.model@[a], self.model@[b]]
                self.model@.contains_key(a) && self.model@.contains_key(b) && self.model@[a]
                    == self.model@[b] implies a == b by {
                if a != id && b != id {
                    assert(old(self).model@[a] == old(self).model@[b]);
                } else if a != id {
                    assert(old(self).model@.contains_key(a));
                } else if b != id {
                    assert(old(self).model@.contains_key(b));
                }
            }
        }
        Ok(key)
    }

    /// Removes `id` and hands back the name it held.
    pub fn deregister(&mut self, id: u64) -> (r: Option<String>)
        requires
            old(self).wf(),
        ensures
            final(self).wf(),
            r is Some <==> old(self).by_identity().contains_key(id),
            r is Some ==> r->0@ == old(self).by_identity()[id],
            final(self).by_identity() == old(self).by_identity().remove(id),
            final(self).outbounds() == old(self).outbounds().remove(id),
    {
        let i = match self.find_id(id) {
            Some(i) => i,
            None => {
                proof {
                    assert(self.model@ =~= self.model@.remove(id));
                    assert(self.handles@ =~= self.handles@.remove(id));
                }
                return None;
            },
        };
        proof {
            assert(self.model@.contains_key(self.ids@[i as int]));
        }
        self.ids.remove(i);
        let name = self.names.remove(i);
        self.outs.remove(i);
        self.model = Ghost(self.model@.remove(id));
        self.handles = Ghost(self.handles@.remove(id));
        proof {
            let len = self.ids@.len();
            let o = old(self).ids@;
            assert forall|a: int, b: int|
                0 <= a < len && 0 <= b < len && a != b implies self.ids@[a] != self.ids@[b] by {
                let a0 = if a < i { a } else { a + 1 };
                let b0 = if b < i { b } else { b + 1 };
                assert(self.ids@[a] == o[a0]);
                assert(self.ids@[b] == o[b0]);
            }
            assert forall|j: int| 0 <= j < len implies {
                &&& self.model@.contains_key(#[trigger] self.ids@[j])
                &&& self.model@[self.ids@[j]] == self.names@[j]@
                &&& self.handles@[self.ids@[j]] == self.outs@[j]
            } by {
                let j0 = if j < i { j } else { j + 1 };
                assert(self.ids@[j] == o[j0]);
                assert(self.names@[j] == old(self).names@[j0]);
                assert(self.outs@[j] == old(self).outs@[j0]);
                assert(old(self).model@.contains_key(o[j0]));
                assert(o[j0] != id);
            }
            assert forall|x: u64| #[trigger] self.model@.contains_key(x) implies exists|j: int|
                0 <= j < len && self.ids@[j] == x by {
                assert(old(self).model@.contains_key(x));
                let j0 = choose|j0: int| 0 <= j0 < o.len() && o[j0] == x;
                if j0 < i {
                    assert(self.ids@[j0] == x);
                } else {
                    assert(self.ids@[j0 - 1] == x);
                }
            }
            assert(self.handles@.dom() =~= self.model@.dom());
            assert forall|a: u64, b: u64|
                #![trigger self.model@[a], self.model@[b]]
                self.model@.contains_key(a) && self.model@.contains_key(b) && self.model@[a]
                    == self.model@[b] implies a == b by {
                assert(old(self).model@[a] == old(self).model@[b]);
            }
        }
        Some(name)
    }
}

/// However registrations, renames and removals interleave, the two directions of
/// a well-formed registry agree: each name leads to an identity registered under
/// that very name, and each identity's name leads back to that identity.
pub proof fn lemma_directions_agree<H>(r: &Registry<H>)
    requires
        r.wf(),
    ensures
        forall|n: Seq<char>| #[trigger]
            r.by_name().contains_key(n) ==> r.by_identity().contains_key(r.by_name()[n])
                && r.by_identity()[r.by_name()[n]] == n,
        forall|id: u64| #[trigger]
            r.by_identity().contains_key(id) ==> r.by_name().contains_key(r.by_identity()[id])
                && r.by_name()[r.by_identity()[id]] == id,
{
    r.lemma_wf();
    let m = r.by_identity();
    assert forall|id: u64| #[trigger] m.contains_key(id) implies inverse(m).contains_key(m[id])
        && inverse(m)[m[id]] == id by {
        assert(name_in_use(m, m[id]));
        let other = choose|x: u64| m.contains_key(x) && m[x] == m[id];
        assert(m[other] == m[id]);
    }
}

/// The first `n` fallback names for `label`.
pub open spec fn candidates(label: Seq<char>, n: nat) -> Set<Seq<char>>
    decreases n,
{
    if n == 0 {
        Set::empty()
    } else {
        candidates(label, (n - 1) as nat).insert(candidate(label, (n - 1) as nat))
    }
}

proof fn lemma_candidates(label: Seq<char>, n: nat)
    ensures
        candidates(label, n).finite(),
        candidates(label, n).len() == n,
        forall|s: Seq<char>| #[trigger]
            candidates(label, n).contains(s) ==> s.len() < label.len() + n && exists|j: nat|
                j < n && s == candidate(label, j),
    decreases n,
{
    if n > 0 {
        let m = (n - 1) as nat;
        lemma_candidates(label, m);
        let c = candidate(label, m);
        assert(c.len() == label.len() + m);
        assert(!candidates(label, m).contains(c));
    }
}

proof fn lemma_least_free(m: Map<u64, Seq<char>>, label: Seq<char>, k: nat)
    requires
        !name_in_use(m, candidate(label, k)),
    ensures
        exists|c: nat| is_first_free(m, label, c),
    decreases k,
{
    if exists|j: nat| j < k && !name_in_use(m, #[trigger] candidate(label, j)) {
        let j = choose|j: nat| j < k && !name_in_use(m, #[trigger] candidate(label, j));
        lemma_least_free(m, label, j);
    } else {
        assert(is_first_free(m, label, k));
    }
}

/// With finitely many users, some fallback name is free, and
/// `fallback_name` is the first free one.
pub proof fn lemma_fallback_free(m: Map<u64, Seq<char>>, label: Seq<char>)
    requires
        m.dom().finite(),
    ensures
        !name_in_use(m, fallback_name(m, label)),
{
    let n = m.dom().len();
    m.lemma_values_len();
    lemma_candidates(label, n + 1);
    let cs = candidates(label, n + 1);
    if forall|j: nat| j < n + 1 ==> name_in_use(m, #[trigger] candidate(label, j)) {
        assert forall|s: Seq<char>| cs.contains(s) implies m.values().contains(s) by {
            let j = choose|j: nat| j < n + 1 && s == candidate(label, j);
            assert(name_in_use(m, candidate(label, j)));
            let id = choose|id: u64| m.contains_key(id) && m[id] == s;
            assert(m.contains_value(s));
        }
        vstd::set_lib::lemma_len_subset(cs, m.values());
        assert(false);
    }
    let j = choose|j: nat| j < n + 1 && !name_in_use(m, #[trigger] candidate(label, j));
    lemma_least_free(m, label, j);
}

} // verus!
