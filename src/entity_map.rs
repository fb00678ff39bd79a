use vstd::prelude::*;

verus! {

/// A transient reference to an entity of the running simulation. Valid only
/// inside the process that made it.
#[derive(Debug, Clone, Copy, PartialEq, Eq, Hash, Structural)]
pub struct Entity(pub u64);

/// A key that can be compared in executable code.
pub trait MapKey: Copy {
    fn same_key(&self, other: &Self) -> (r: bool)
        ensures
            r == (*self == *other),
    ;
}

impl MapKey for Entity {
    fn same_key(&self, other: &Self) -> (r: bool) {
        self.0 == other.0
    }
}

/// No key appears twice among the pairs.
pub open spec fn keys_unique<A, B>(s: Seq<(A, B)>) -> bool {
    forall|i: int, j: int| 0 <= i < j < s.len() ==> s[i].0 != s[j].0
}

/// The map that a list of pairs with unique keys stands for.
pub open spec fn pairs_map<A, B>(s: Seq<(A, B)>) -> Map<A, B> {
    Map::new(
        |a: A| exists|i: int| 0 <= i < s.len() && s[i].0 == a,
        |a: A| s[choose|i: int| 0 <= i < s.len() && s[i].0 == a].1,
    )
}

proof fn lemma_pairs_lookup<A, B>(s: Seq<(A, B)>, i: int)
    requires
        keys_unique(s),
        0 <= i < s.len(),
    ensures
        pairs_map(s).contains_key(s[i].0),
        pairs_map(s)[s[i].0] == s[i].1,
{
    let a = s[i].0;
    assert(exists|j: int| 0 <= j < s.len() && s[j].0 == a);
    let j = choose|j: int| 0 <= j < s.len() && s[j].0 == a;
    assert(i == j);
}

proof fn lemma_pairs_push<A, B>(s: Seq<(A, B)>, a: A, b: B)
    requires
        keys_unique(s),
        !pairs_map(s).contains_key(a),
    ensures
        keys_unique(s.push((a, b))),
        pairs_map(s.push((a, b))) == pairs_map(s).insert(a, b),
{
    let t = s.push((a, b));
    assert forall|i: int, j: int| 0 <= i < j < t.len() implies t[i].0 != t[j].0 by {
        if j == s.len() {
            assert(s[i].0 == t[i].0);
        } else {
            assert(t[i] == s[i] && t[j] == s[j]);
        }
    }
    assert forall|x: A| #[trigger] pairs_map(t).contains_key(x) == pairs_map(s).insert(a, b).contains_key(x) by {
        if pairs_map(s).contains_key(x) {
            let k = choose|k: int| 0 <= k < s.len() && s[k].0 == x;
            assert(t[k].0 == x);
        }
        if pairs_map(t).contains_key(x) {
            let k = choose|k: int| 0 <= k < t.len() && t[k].0 == x;
            if k < s.len() {
                assert(s[k].0 == x);
            }
        }
        if x == a {
            assert(t[s.len() as int].0 == x);
        }
    }
    assert forall|x: A| #[trigger] pairs_map(t).contains_key(x) implies pairs_map(t)[x] == pairs_map(s).insert(a, b)[x] by {
        let k = choose|k: int| 0 <= k < t.len() && t[k].0 == x;
        lemma_pairs_lookup(t, k);
        if k < s.len() {
            assert(t[k] == s[k]);
            lemma_pairs_lookup(s, k);
        }
    }
    assert(pairs_map(t) =~= pairs_map(s).insert(a, b));
}

proof fn lemma_pairs_remove<A, B>(s: Seq<(A, B)>, i: int)
    requires
        keys_unique(s),
        0 <= i < s.len(),
    ensures
        keys_unique(s.remove(i)),
        pairs_map(s.remove(i)) == pairs_map(s).remove(s[i].0),
{
    let t = s.remove(i);
    let a = s[i].0;
    assert(forall|k: int| 0 <= k < t.len() ==> #[trigger] t[k] == (if k < i { s[k] } else { s[k + 1] }));
    assert forall|p: int, q: int| 0 <= p < q < t.len() implies t[p].0 != t[q].0 by {
        let p2 = if p < i { p } else { p + 1 };
        let q2 = if q < i { q } else { q + 1 };
        assert(t[p] == s[p2] && t[q] == s[q2]);
    }
    assert forall|x: A| #[trigger] pairs_map(t).contains_key(x) == pairs_map(s).remove(a).contains_key(x) by {
        if pairs_map(t).contains_key(x) {
            let k = choose|k: int| 0 <= k < t.len() && t[k].0 == x;
            let k2 = if k < i { k } else { k + 1 };
            assert(s[k2].0 == x);
            assert(k2 != i);
        }
        if pairs_map(s).remove(a).contains_key(x) {
            let k = choose|k: int| 0 <= k < s.len() && s[k].0 == x;
            assert(k != i);
            if k < i {
                assert(t[k].0 == x);
            } else {
                assert(t[k - 1].0 == x);
            }
        }
    }
    assert forall|x: A| #[trigger] pairs_map(t).contains_key(x) implies pairs_map(t)[x] == pairs_map(s).remove(a)[x] by {
        let k = choose|k: int| 0 <= k < t.len() && t[k].0 == x;
        lemma_pairs_lookup(t, k);
        let k2 = if k < i { k } else { k + 1 };
        assert(t[k] == s[k2]);
        lemma_pairs_lookup(s, k2);
    }
    assert(pairs_map(t) =~= pairs_map(s).remove(a));
}

/// The index of the pair whose key is `a`, if there is one.
fn find_pair<A: MapKey, B>(v: &Vec<(A, B)>, a: &A) -> (r: Option<usize>)
    ensures
        r matches Some(i) ==> i < v@.len() && v@[i as int].0 == *a,
        r is None ==> forall|i: int| 0 <= i < v@.len() ==> v@[i].0 != *a,
{
    let mut i: usize = 0;
    while i < v.len()
        invariant
            i <= v@.len(),
            forall|j: int| 0 <= j < i ==> v@[j].0 != *a,
        decreases v@.len() - i,
    {
        if v[i].0.same_key(a) {
            return Some(i);
        }
        i = i + 1;
    }
    None
}

/// Looks `a` up in a list of pairs with unique keys.
fn lookup_pair<'v, A: MapKey, B>(v: &'v Vec<(A, B)>, a: &A) -> (r: Option<&'v B>)
    requires
        keys_unique(v@),
    ensures
        pairs_map(v@).contains_key(*a) ==> r == Some(&pairs_map(v@)[*a]),
        !pairs_map(v@).contains_key(*a) ==> r is None,
{
    match find_pair(v, a) {
        Some(i) => {
            proof {
                lemma_pairs_lookup(v@, i as int);
            }
            Some(&v[i].1)
        },
        None => None,
    }
}

/// Binds `a` to `b`, replacing what `a` was bound to.
fn put_pair<A: MapKey, B>(v: &mut Vec<(A, B)>, a: A, b: B)
    requires
        keys_unique(old(v)@),
    ensures
        keys_unique(final(v)@),
        pairs_map(final(v)@) == pairs_map(old(v)@).insert(a, b),
{
    match find_pair(v, &a) {
        Some(i) => {
            proof {
                lemma_pairs_remove(v@, i as int);
            }
            let ghost mid_old = pairs_map(v@);
            v.remove(i);
            proof {
                lemma_pairs_push(v@, a, b);
                assert(pairs_map(v@).insert(a, b) =~= mid_old.insert(a, b));
            }
            v.push((a, b));
        },
        None => {
            proof {
                assert(!pairs_map(v@).contains_key(a));
                lemma_pairs_push(v@, a, b);
            }
            v.push((a, b));
        },
    }
}

/// Unbinds `a`, if it is bound.
fn take_pair<A: MapKey, B>(v: &mut Vec<(A, B)>, a: &A)
    requires
        keys_unique(old(v)@),
    ensures
        keys_unique(final(v)@),
        pairs_map(final(v)@) == pairs_map(old(v)@).remove(*a),
{
    match find_pair(v, a) {
        Some(i) => {
            proof {
                lemma_pairs_remove(v@, i as int);
            }
            v.remove(i);
        },
        None => {
            assert(pairs_map(v@) =~= pairs_map(v@).remove(*a));
        },
    }
}

/// The two directions after `set(key, entity)` on `(fwd, rev)`: the key
/// that `entity` held loses its forward entry, the entity that `key` was
/// bound to loses its reverse entry, then both directions are installed.
pub open spec fn set_maps<K>(fwd: Map<K, Entity>, rev: Map<Entity, K>, key: K, entity: Entity) -> (
    Map<K, Entity>,
    Map<Entity, K>,
) {
    (cleared_fwd(fwd, rev, entity).insert(key, entity), cleared_rev(fwd, rev, key).insert(entity, key))
}

/// The forward direction without the key that `entity` holds, where that
/// key still points at `entity`.
pub open spec fn cleared_fwd<K>(fwd: Map<K, Entity>, rev: Map<Entity, K>, entity: Entity) -> Map<K, Entity> {
    if rev.contains_key(entity) && fwd.contains_key(rev[entity]) && fwd[rev[entity]] == entity {
        fwd.remove(rev[entity])
    } else {
        fwd
    }
}

/// The reverse direction without the entity that `key` is bound to, where
/// that entity still points at `key`.
pub open spec fn cleared_rev<K>(fwd: Map<K, Entity>, rev: Map<Entity, K>, key: K) -> Map<Entity, K> {
    if fwd.contains_key(key) && rev.contains_key(fwd[key]) && rev[fwd[key]] == key {
        rev.remove(fwd[key])
    } else {
        rev
    }
}

/// Both directions mirror each other: each key has at most one entity,
/// each entity at most one key, and no entry is stale on either side.
pub open spec fn consistent<K>(fwd: Map<K, Entity>, rev: Map<Entity, K>) -> bool {
    &&& forall|k: K| #[trigger] fwd.contains_key(k) ==> rev.contains_key(fwd[k]) && rev[fwd[k]] == k
    &&& forall|e: Entity| #[trigger] rev.contains_key(e) ==> fwd.contains_key(rev[e]) && fwd[rev[e]] == e
}

/// Setting a binding keeps the two directions mirrored.
pub proof fn lemma_set_keeps_consistent<K>(fwd: Map<K, Entity>, rev: Map<Entity, K>, key: K, entity: Entity)
    requires
        consistent(fwd, rev),
    ensures
        consistent(set_maps(fwd, rev, key, entity).0, set_maps(fwd, rev, key, entity).1),
{
    let (f, r) = set_maps(fwd, rev, key, entity);
    assert forall|k: K| #[trigger] f.contains_key(k) implies r.contains_key(f[k]) && r[f[k]] == k by {
        if k != key {
            assert(fwd.contains_key(k));
            assert(rev[fwd[k]] == k);
            if fwd[k] == entity {
                assert(rev[entity] == k);
            }
        }
    }
    assert forall|e: Entity| #[trigger] r.contains_key(e) implies f.contains_key(r[e]) && f[r[e]] == e by {
        if e != entity {
            assert(rev.contains_key(e));
            assert(fwd[rev[e]] == e);
            if rev[e] == key {
                assert(fwd[key] == e);
            }
        }
    }
}

/// A bidirectional index between a stable key and the entity that holds it.
pub struct EntityMap<K> {
    key_to_entity: Vec<(K, Entity)>,
    entity_to_key: Vec<(Entity, K)>,
}

impl<K: MapKey> EntityMap<K> {
    pub closed spec fn fwd(&self) -> Map<K, Entity> {
        pairs_map(self.key_to_entity@)
    }

    pub closed spec fn rev(&self) -> Map<Entity, K> {
        pairs_map(self.entity_to_key@)
    }

    pub closed spec fn wf(&self) -> bool {
        &&& keys_unique(self.key_to_entity@)
        &&& keys_unique(self.entity_to_key@)
        &&& consistent(self.fwd(), self.rev())
    }

    /// A well-formed map is a one-to-one correspondence between its keys
    /// and its entities.
    pub proof fn lemma_wf_consistent(&self)
        requires
            self.wf(),
        ensures
            consistent(self.fwd(), self.rev()),
    {
    }

    /// An empty map.
    pub fn default() -> (r: EntityMap<K>)
        ensures
            r.wf(),
            r.fwd() == Map::<K, Entity>::empty(),
            r.rev() == Map::<Entity, K>::empty(),
    {
        let r = EntityMap { key_to_entity: Vec::new(), entity_to_key: Vec::new() };
        assert(r.fwd() =~= Map::<K, Entity>::empty());
        assert(r.rev() =~= Map::<Entity, K>::empty());
        r
    }

    /// The entity that `key` is bound to.
    pub fn get(&self, key: &K) -> (r: Option<&Entity>)
        requires
            self.wf(),
        ensures
            self.fwd().contains_key(*key) ==> r == Some(&self.fwd()[*key]),
            !self.fwd().contains_key(*key) ==> r is None,
    {
        lookup_pair(&self.key_to_entity, key)
    }

    /// The key that `entity` is bound to.
    pub fn get_key(&self, entity: &Entity) -> (r: Option<&K>)
        requires
            self.wf(),
        ensures
            self.rev().contains_key(*entity) ==> r == Some(&self.rev()[*entity]),
            !self.rev().contains_key(*entity) ==> r is None,
    {
        lookup_pair(&self.entity_to_key, entity)
    }

    /// Binds `key` and `entity` to each other. The key that `entity` held
    /// and the entity that `key` was bound to are unbound first, so no key
    /// stands for two entities and no entity under two keys.
    pub fn set(&mut self, key: K, entity: Entity)
        requires
            old(self).wf(),
        ensures
            final(self).wf(),
            (final(self).fwd(), final(self).rev()) == set_maps(old(self).fwd(), old(self).rev(), key, entity),
    {
        let ghost f0 = self.fwd();
        let ghost r0 = self.rev();
        self.clear_key(&key);
        let ghost r1 = self.rev();
        self.set_inner(&entity);
        let ghost f2 = self.fwd();
        put_pair(&mut self.key_to_entity, key, entity);
        put_pair(&mut self.entity_to_key, entity, key);
        proof {
            assert(f2.insert(key, entity) =~= cleared_fwd(f0, r0, entity).insert(key, entity));
            assert(r1.insert(entity, key) =~= cleared_rev(f0, r0, key).insert(entity, key));
            lemma_set_keeps_consistent(f0, r0, key, entity);
        }
    }

    /// Unbinds the key that `entity` holds, if it still points at `entity`.
    fn set_inner(&mut self, entity: &Entity)
        requires
            keys_unique(old(self).key_to_entity@),
            keys_unique(old(self).entity_to_key@),
        ensures
            keys_unique(final(self).key_to_entity@),
            keys_unique(final(self).entity_to_key@),
            final(self).rev() == old(self).rev(),
            final(self).fwd() == cleared_fwd(old(self).fwd(), old(self).rev(), *entity),
    {
        let existing_key = match lookup_pair(&self.entity_to_key, entity) {
            Some(k) => *k,
            None => {
                return;
            },
        };
        let existing_entity = match lookup_pair(&self.key_to_entity, &existing_key) {
            Some(e) => *e,
            None => {
                return;
            },
        };
        if entity.same_key(&existing_entity) {
            take_pair(&mut self.key_to_entity, &existing_key);
        }
    }

    /// Unbinds the entity that `key` is bound to, if it still points at `key`.
    fn clear_key(&mut self, key: &K)
        requires
            keys_unique(old(self).key_to_entity@),
            keys_unique(old(self).entity_to_key@),
        ensures
            keys_unique(final(self).key_to_entity@),
            keys_unique(final(self).entity_to_key@),
            final(self).fwd() == old(self).fwd(),
            final(self).rev() == cleared_rev(old(self).fwd(), old(self).rev(), *key),
    {
        let existing_entity = match lookup_pair(&self.key_to_entity, key) {
            Some(e) => *e,
            None => {
                return;
            },
        };
        let existing_key = match lookup_pair(&self.entity_to_key, &existing_entity) {
            Some(k) => *k,
            None => {
                return;
            },
        };
        if key.same_key(&existing_key) {
            take_pair(&mut self.entity_to_key, &existing_entity);
        }
    }

    /// Unbinds `key` and the entity it is bound to. `None` if `key` was not
    /// bound.
    pub fn remove(&mut self, key: &K) -> (r: Option<()>)
        requires
            old(self).wf(),
        ensures
            final(self).wf(),
            !old(self).fwd().contains_key(*key) ==> r is None && *final(self) == *old(self),
            old(self).fwd().contains_key(*key) ==> r is Some
                && final(self).fwd() == old(self).fwd().remove(*key)
                && final(self).rev() == old(self).rev().remove(old(self).fwd()[*key]),
    {
        let ghost f0 = self.fwd();
        let ghost r0 = self.rev();
        let existing_entity = match lookup_pair(&self.key_to_entity, key) {
            Some(e) => *e,
            None => {
                return None;
            },
        };
        if let Some(existing_key) = lookup_pair(&self.entity_to_key, &existing_entity) {
            if key.same_key(existing_key) {
                take_pair(&mut self.entity_to_key, &existing_entity);
            }
        }
        take_pair(&mut self.key_to_entity, key);
        proof {
            let f = self.fwd();
            let r = self.rev();
            assert forall|k: K| #[trigger] f.contains_key(k) implies r.contains_key(f[k]) && r[f[k]] == k by {
                assert(r0[f0[k]] == k);
            }
            assert forall|e: Entity| #[trigger] r.contains_key(e) implies f.contains_key(r[e]) && f[r[e]] == e by {
                assert(f0[r0[e]] == e);
            }
        }
        Some(())
    }

    /// Unbinds `entity` and the key it holds. `None` if `entity` was not
    /// bound. Called when an entity is despawned, so that no key outlives
    /// its entity.
    pub fn remove_entity(&mut self, entity: &Entity) -> (r: Option<()>)
        requires
            old(self).wf(),
        ensures
            final(self).wf(),
            !old(self).rev().contains_key(*entity) ==> r is None && *final(self) == *old(self),
            old(self).rev().contains_key(*entity) ==> r is Some
                && final(self).fwd() == cleared_fwd(old(self).fwd(), old(self).rev(), *entity)
                && final(self).fwd() == old(self).fwd().remove(old(self).rev()[*entity])
                && final(self).rev() == old(self).rev().remove(*entity),
    {
        let ghost f0 = self.fwd();
        let ghost r0 = self.rev();
        let existing_key = match lookup_pair(&self.entity_to_key, entity) {
            Some(k) => *k,
            None => {
                return None;
            },
        };
        if let Some(existing_entity) = lookup_pair(&self.key_to_entity, &existing_key) {
            if entity.same_key(existing_entity) {
                take_pair(&mut self.key_to_entity, &existing_key);
            }
        }
        take_pair(&mut self.entity_to_key, entity);
        proof {
            let f = self.fwd();
            let r = self.rev();
            assert forall|k: K| #[trigger] f.contains_key(k) implies r.contains_key(f[k]) && r[f[k]] == k by {
                assert(r0[f0[k]] == k);
            }
            assert forall|e: Entity| #[trigger] r.contains_key(e) implies f.contains_key(r[e]) && f[r[e]] == e by {
                assert(f0[r0[e]] == e);
            }
        }
        Some(())
    }

    /// The observer's step: each entity whose key changed, in order, is
    /// bound to its new key.
    pub fn handle_key_changed(&mut self, changes: &Vec<(Entity, K)>)
        requires
            old(self).wf(),
        ensures
            final(self).wf(),
            (final(self).fwd(), final(self).rev()) == apply_changes(old(self).fwd(), old(self).rev(), changes@),
    {
        let mut i: usize = 0;
        while i < changes.len()
            invariant
                i <= changes@.len(),
                self.wf(),
                (self.fwd(), self.rev()) == apply_changes(old(self).fwd(), old(self).rev(), changes@.subrange(0, i as int)),
            decreases changes@.len() - i,
        {
            let (entity, key) = changes[i];
            proof {
                assert(changes@.subrange(0, i as int + 1).drop_last() =~= changes@.subrange(0, i as int));
            }
            self.set(key, entity);
            i = i + 1;
        }
        assert(changes@.subrange(0, changes@.len() as int) =~= changes@);
    }
}

/// Both directions after `set` was called for each change in order.
pub open spec fn apply_changes<K>(fwd: Map<K, Entity>, rev: Map<Entity, K>, changes: Seq<(Entity, K)>) -> (
    Map<K, Entity>,
    Map<Entity, K>,
)
    decreases changes.len(),
{
    if changes.len() == 0 {
        (fwd, rev)
    } else {
        let prev = apply_changes(fwd, rev, changes.drop_last());
        set_maps(prev.0, prev.1, changes.last().1, changes.last().0)
    }
}

/// Round trip of identities: in a well-formed map, which every operation
/// keeps well-formed, the key of an entity leads back to that entity, and
/// the entity of a key back to that key.
pub proof fn lemma_identity_round_trip<K: MapKey>(m: &EntityMap<K>, e: Entity, k: K)
    requires
        m.wf(),
    ensures
        m.rev().contains_key(e) ==> m.fwd().contains_key(m.rev()[e]) && m.fwd()[m.rev()[e]] == e,
        m.fwd().contains_key(k) ==> m.rev().contains_key(m.fwd()[k]) && m.rev()[m.fwd()[k]] == k,
{
}

} // verus!
