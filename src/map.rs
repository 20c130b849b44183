//! The spatial index: which entity occupies which coordinate.
use vstd::prelude::*;
use std::collections::HashMap;
use std::collections::HashSet;
use std::marker::PhantomData;
use crate::cells::{Cell, Cell2d};

verus! {

broadcast use vstd::std_specs::hash::group_hash_axioms;

/// An opaque handle of a simulation participant, owned by the host runtime.
#[derive(Clone, Copy, Debug, PartialEq, Eq, Hash, Structural)]
pub struct Entity(pub u64);

/// The map over coordinates that a key-indexed map stands for.
pub open spec fn by_coord<C: Cell, V>(m: Map<i64, V>) -> Map<C::Coords, V> {
    Map::new(|c: C::Coords| m.contains_key(C::key_spec(c)), |c: C::Coords| m[C::key_spec(c)])
}

/// `m` without the entries whose entity is one of `es`.
pub open spec fn without_entities<K>(m: Map<K, Entity>, es: Seq<Entity>) -> Map<K, Entity> {
    Map::new(|c: K| m.contains_key(c) && !es.contains(m[c]), |c: K| m[c])
}

/// The entities found at `cs`, in order, skipping coordinates that `m` lacks.
pub open spec fn found_entities<K>(m: Map<K, Entity>, cs: Seq<K>) -> Seq<Entity>
    decreases cs.len(),
{
    if cs.len() == 0 {
        Seq::empty()
    } else {
        let rest = found_entities(m, cs.drop_last());
        if m.contains_key(cs.last()) {
            rest.push(m[cs.last()])
        } else {
            rest
        }
    }
}

/// Coordinate to entity index, holding at most one entity per coordinate.
pub struct CellMap<C: Cell> {
    cells: HashMap<i64, Entity>,
    cell: PhantomData<C>,
}

/// The index of 2-D grid cells.
pub type Map2D = CellMap<Cell2d>;

impl<C: Cell> View for CellMap<C> {
    type V = Map<C::Coords, Entity>;

    closed spec fn view(&self) -> Map<C::Coords, Entity> {
        by_coord::<C, Entity>(self.cells@)
    }
}

/// Key injectivity of a cell type, for all coordinates at once.
pub proof fn lemma_keys_injective<C: Cell>()
    ensures
        forall|a: C::Coords, b: C::Coords| #[trigger] C::key_spec(a) == #[trigger] C::key_spec(b) ==> a == b,
{
    assert forall|a: C::Coords, b: C::Coords| #[trigger] C::key_spec(a) == #[trigger] C::key_spec(b) implies a == b by {
        C::lemma_key_injective(a, b);
    }
}

/// Inserting under a coordinate's key inserts at that coordinate.
pub proof fn lemma_by_coord_insert<C: Cell, V>(m: Map<i64, V>, c: C::Coords, v: V)
    ensures
        by_coord::<C, V>(m.insert(C::key_spec(c), v)) == by_coord::<C, V>(m).insert(c, v),
{
    lemma_keys_injective::<C>();
    assert(by_coord::<C, V>(m.insert(C::key_spec(c), v)) =~= by_coord::<C, V>(m).insert(c, v));
}

/// Removing a coordinate's key removes that coordinate.
pub proof fn lemma_by_coord_remove<C: Cell, V>(m: Map<i64, V>, c: C::Coords)
    ensures
        by_coord::<C, V>(m.remove(C::key_spec(c))) == by_coord::<C, V>(m).remove(c),
{
    lemma_keys_injective::<C>();
    assert(by_coord::<C, V>(m.remove(C::key_spec(c))) =~= by_coord::<C, V>(m).remove(c));
}

/// No keys, no coordinates.
pub proof fn lemma_by_coord_empty<C: Cell, V>()
    ensures
        by_coord::<C, V>(Map::<i64, V>::empty()) == Map::<C::Coords, V>::empty(),
{
    assert(by_coord::<C, V>(Map::<i64, V>::empty()) =~= Map::<C::Coords, V>::empty());
}

impl<C: Cell> Default for CellMap<C> {
    fn default() -> (m: CellMap<C>)
        ensures
            m@ == Map::<C::Coords, Entity>::empty(),
    {
        CellMap::new()
    }
}

impl<C: Cell> CellMap<C> {
    /// An empty index.
    pub fn new() -> (m: CellMap<C>)
        ensures
            m@ == Map::<C::Coords, Entity>::empty(),
    {
        proof {
            lemma_by_coord_empty::<C, Entity>();
        }
        CellMap { cells: HashMap::new(), cell: PhantomData }
    }

    /// Places `entity` at `coordinates`, evicting and returning the previous
    /// occupant if there was one.
    pub fn insert_cell(&mut self, coordinates: C::Coords, entity: Entity) -> (r: Option<Entity>)
        ensures
            final(self)@ == old(self)@.insert(coordinates, entity),
            r == (if old(self)@.contains_key(coordinates) {
                Some(old(self)@[coordinates])
            } else {
                None
            }),
    {
        let k = C::key(&coordinates);
        proof {
            lemma_by_coord_insert::<C, Entity>(self.cells@, coordinates, entity);
        }
        self.cells.insert(k, entity)
    }

    /// Removes and returns the occupant of `coordinates`, if any.
    pub fn remove_cell(&mut self, coordinates: &C::Coords) -> (r: Option<Entity>)
        ensures
            final(self)@ == old(self)@.remove(*coordinates),
            r == (if old(self)@.contains_key(*coordinates) {
                Some(old(self)@[*coordinates])
            } else {
                None
            }),
    {
        let k = C::key(coordinates);
        proof {
            lemma_by_coord_remove::<C, Entity>(self.cells@, *coordinates);
        }
        self.cells.remove(&k)
    }

    /// The occupant of `coordinates`, if any.
    pub fn get_cell(&self, coordinates: &C::Coords) -> (r: Option<Entity>)
        ensures
            r == (if self@.contains_key(*coordinates) {
                Some(self@[*coordinates])
            } else {
                None
            }),
    {
        let k = C::key(coordinates);
        match self.cells.get(&k) {
            Some(e) => Some(*e),
            None => None,
        }
    }

    /// The occupants of `coords`, in order; coordinates without an occupant
    /// are skipped.
    pub fn get_cell_entities(&self, coords: &Vec<C::Coords>) -> (r: Vec<Entity>)
        ensures
            r@ == found_entities(self@, coords@),
    {
        let mut r: Vec<Entity> = Vec::new();
        for i in 0..coords.len()
            invariant
                r@ == found_entities(self@, coords@.subrange(0, i as int)),
        {
            proof {
                assert(coords@.subrange(0, i as int + 1).drop_last() =~= coords@.subrange(0, i as int));
            }
            match self.get_cell(&coords[i]) {
                Some(e) => r.push(e),
                None => {},
            }
        }
        assert(coords@.subrange(0, coords@.len() as int) =~= coords@);
        r
    }

    /// Removes every entry whose entity is one of `entities`, in one scan of
    /// the index; an empty `entities` leaves the index untouched.
    pub fn remove_entities(&mut self, entities: &Vec<Entity>)
        ensures
            final(self)@ == without_entities(old(self)@, entities@),
            entities@.len() == 0 ==> *final(self) == *old(self),
    {
        let mut set: HashSet<u64> = HashSet::new();
        for i in 0..entities.len()
            invariant
                forall|b: u64| set@.contains(b) <==> exists|j: int| 0 <= j < i && #[trigger] entities@[j].0 == b,
        {
            set.insert(entities[i].0);
        }
        if set.is_empty() {
            proof {
                if entities@.len() > 0 {
                    assert(set@.contains(entities@[0].0));
                }
                assert(without_entities(old(self)@, entities@) =~= old(self)@);
            }
            return;
        }
        let ghost before = self.cells@;
        let mut doomed: Vec<i64> = Vec::new();
        let ghost mut seen: Set<i64> = Set::empty();
        for k in it: self.cells.keys()
            invariant
                self.cells@ == before,
                forall|b: u64| set@.contains(b) <==> exists|j: int| 0 <= j < entities@.len() && #[trigger] entities@[j].0 == b,
                forall|key: i64| #[trigger] before.contains_key(key) ==> seen.contains(key) || exists|j: int| it.index() <= j < it.seq().len() && *it.seq()[j] == key,
                forall|j: int| 0 <= j < doomed@.len() ==> #[trigger] before.contains_key(doomed@[j]) && set@.contains(before[doomed@[j]].0),
                forall|key: i64| #[trigger] seen.contains(key) && before.contains_key(key) && set@.contains(before[key].0) ==> doomed@.contains(key),
        {
            proof {
                seen = seen.insert(*k);
            }
            let ghost prev = doomed@;
            match self.cells.get(k) {
                Some(e) => {
                    if set.contains(&e.0) {
                        doomed.push(*k);
                        assert(doomed@[doomed@.len() - 1] == *k);
                    }
                },
                None => {},
            }
            assert forall|key: i64| prev.contains(key) implies doomed@.contains(key) by {
                let j = choose|j: int| 0 <= j < prev.len() && prev[j] == key;
                assert(doomed@[j] == key);
            }
        }
        let mut i: usize = 0;
        while i < doomed.len()
            invariant
                i <= doomed@.len(),
                forall|j: int| 0 <= j < doomed@.len() ==> #[trigger] before.contains_key(doomed@[j]) && set@.contains(before[doomed@[j]].0),
                forall|key: i64| #[trigger] self.cells@.contains_key(key) <==> (before.contains_key(key) && !doomed@.subrange(0, i as int).contains(key)),
                forall|key: i64| #[trigger] self.cells@.contains_key(key) ==> self.cells@[key] == before[key],
            decreases doomed@.len() - i,
        {
            self.cells.remove(&doomed[i]);
            proof {
                let s0 = doomed@.subrange(0, i as int);
                let s1 = doomed@.subrange(0, i as int + 1);
                assert(s1 =~= s0.push(doomed@[i as int]));
                assert forall|key: i64| s1.contains(key) <==> (s0.contains(key) || key == doomed@[i as int]) by {
                    if s1.contains(key) {
                        let j = choose|j: int| 0 <= j < s1.len() && s1[j] == key;
                        if j < s0.len() {
                            assert(s0[j] == key);
                        }
                    }
                    if s0.contains(key) {
                        let j = choose|j: int| 0 <= j < s0.len() && s0[j] == key;
                        assert(s1[j] == key);
                    }
                    if key == doomed@[i as int] {
                        assert(s1[i as int] == key);
                    }
                }
            }
            i = i + 1;
        }
        proof {
            assert(doomed@.subrange(0, i as int) =~= doomed@);
            assert forall|key: i64| #[trigger] self.cells@.contains_key(key) <==> (before.contains_key(key) && !set@.contains(before[key].0)) by {
                if before.contains_key(key) && set@.contains(before[key].0) {
                    assert(seen.contains(key));
                }
                if doomed@.contains(key) {
                    let j = choose|j: int| 0 <= j < doomed@.len() && doomed@[j] == key;
                    assert(before.contains_key(doomed@[j]));
                }
            }
            assert forall|c: C::Coords| #[trigger] self@.contains_key(c) <==> without_entities(old(self)@, entities@).contains_key(c) by {
                let key = C::key_spec(c);
                if before.contains_key(key) {
                    let e = before[key];
                    if set@.contains(e.0) {
                        let j = choose|j: int| 0 <= j < entities@.len() && #[trigger] entities@[j].0 == e.0;
                        assert(entities@[j] == e);
                    }
                    if entities@.contains(e) {
                        let j = choose|j: int| 0 <= j < entities@.len() && entities@[j] == e;
                        assert(entities@[j].0 == e.0);
                    }
                }
            }
            assert(self@ =~= without_entities(old(self)@, entities@));
        }
    }

    /// Empties the index.
    pub fn clear(&mut self)
        ensures
            final(self)@ == Map::<C::Coords, Entity>::empty(),
    {
        proof {
            lemma_by_coord_empty::<C, Entity>();
        }
        self.cells.clear();
    }
}

/// Index uniqueness: whatever inserts and removals produced the index, a
/// coordinate holds at most one entity, and two distinct coordinates never
/// share a slot of the underlying table.
pub proof fn lemma_index_uniqueness<C: Cell>(m: CellMap<C>, c: C::Coords, d: C::Coords, e1: Entity, e2: Entity)
    requires
        m@.contains_key(c) && m@[c] == e1,
        m@.contains_key(c) && m@[c] == e2,
    ensures
        e1 == e2,
        c != d ==> C::key_spec(c) != C::key_spec(d),
{
    C::lemma_key_injective(c, d);
}

/// Eviction: inserting `b` where `a` stood reports `a`, and the coordinate
/// then holds `b`, never `a` unless the two are the same entity.
pub proof fn lemma_eviction<K>(m: Map<K, Entity>, c: K, a: Entity, b: Entity)
    requires
        m.contains_key(c) && m[c] == a,
    ensures
        m.insert(c, b).contains_key(c),
        m.insert(c, b)[c] == b,
        a != b ==> m.insert(c, b)[c] != a,
{
}

} // verus!
