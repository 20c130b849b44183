//! The per-generation procedures: index synchronisation, the update
//! pipeline and appearance synchronisation.
use vstd::prelude::*;
use std::collections::HashMap;
use std::marker::PhantomData;
use crate::cells::{Cell, Color, Pixel};
use crate::map::{by_coord, lemma_by_coord_empty, lemma_by_coord_insert, without_entities, CellMap, Entity};

verus! {

broadcast use vstd::std_specs::hash::group_hash_axioms;

/// Present: the update pipeline fans out over partitions of the cells.
#[derive(Clone, Copy, Debug, Default)]
pub struct SimulationBatch;

/// Present: the update pipeline does nothing.
#[derive(Clone, Copy, Debug)]
pub struct SimulationPause;

/// How many cells one partition of a batched pass holds.
pub const BATCH_CHUNK: usize = 64;

/// Two entities resolved to one coordinate: `entity` was inserted and
/// evicted `replaced`.
#[derive(Clone, Copy, Debug, PartialEq, Eq)]
pub struct Conflict<K> {
    pub entity: Entity,
    pub replaced: Entity,
    pub coords: K,
}

/// The index after inserting each of `added`, in order.
pub open spec fn insert_all<C: Cell>(m: Map<C::Coords, Entity>, added: Seq<(Entity, C)>) -> Map<C::Coords, Entity>
    decreases added.len(),
{
    if added.len() == 0 {
        m
    } else {
        insert_all(m, added.drop_last()).insert(added.last().1.coords_spec(), added.last().0)
    }
}

/// The evictions of a different entity that inserting `added` in order causes.
pub open spec fn conflicts_of<C: Cell>(m: Map<C::Coords, Entity>, added: Seq<(Entity, C)>) -> Seq<Conflict<C::Coords>>
    decreases added.len(),
{
    if added.len() == 0 {
        Seq::empty()
    } else {
        let before = insert_all(m, added.drop_last());
        let rest = conflicts_of(m, added.drop_last());
        let c = added.last().1.coords_spec();
        if before.contains_key(c) && before[c] != added.last().0 {
            rest.push(Conflict { entity: added.last().0, replaced: before[c], coords: c })
        } else {
            rest
        }
    }
}

/// Registers newly created cells in the index, the last writer winning at a
/// coordinate; returns the conflicts, in order.
pub fn handle_new_pixels<C: Cell>(added: &Vec<(Entity, C)>, map: &mut CellMap<C>) -> (r: Vec<Conflict<C::Coords>>)
    ensures
        final(map)@ == insert_all(old(map)@, added@),
        r@ == conflicts_of(old(map)@, added@),
{
    let mut r: Vec<Conflict<C::Coords>> = Vec::new();
    for i in 0..added.len()
        invariant
            map@ == insert_all(old(map)@, added@.subrange(0, i as int)),
            r@ == conflicts_of(old(map)@, added@.subrange(0, i as int)),
    {
        let ghost pre = added@.subrange(0, i as int + 1);
        proof {
            assert(pre.drop_last() =~= added@.subrange(0, i as int));
        }
        let entity = added[i].0;
        let coords = *added[i].1.coords();
        match map.insert_cell(coords, entity) {
            Some(e) => {
                if e != entity {
                    r.push(Conflict { entity, replaced: e, coords });
                }
            },
            None => {},
        }
    }
    assert(added@.subrange(0, added@.len() as int) =~= added@);
    r
}

/// Drops the removed cells from the index in one batched removal; nothing is
/// done when none was removed.
pub fn handle_removed_pixels<C: Cell>(removed: &Vec<Entity>, map: &mut CellMap<C>)
    ensures
        final(map)@ == without_entities(old(map)@, removed@),
        removed@.len() == 0 ==> *final(map) == *old(map),
{
    if removed.len() == 0 {
        proof {
            assert(without_entities(old(map)@, removed@) =~= old(map)@);
        }
        return;
    }
    map.remove_entities(removed);
}

/// The coordinate to value map that a list of cells gives, a later cell
/// overwriting an earlier one at the same coordinate.
pub open spec fn snapshot_of<C: Cell, P>(cells: Seq<(Entity, C, P)>) -> Map<C::Coords, P>
    decreases cells.len(),
{
    if cells.len() == 0 {
        Map::empty()
    } else {
        snapshot_of(cells.drop_last()).insert(cells.last().1.coords_spec(), cells.last().2)
    }
}

/// The value to write for a cell: none when the snapshot holds an equal
/// value at its coordinate, else its current value.
pub open spec fn pixel_change<C: Cell, P>(cell: C, value: P, snap: Map<C::Coords, P>) -> Option<P> {
    if snap.contains_key(cell.coords_spec()) && snap[cell.coords_spec()] == value {
        None
    } else {
        Some(value)
    }
}

/// The writes of one pass over `cells`, in order.
pub open spec fn changes<C: Cell, P>(cells: Seq<(Entity, C, P)>, snap: Map<C::Coords, P>) -> Seq<(Entity, P)>
    decreases cells.len(),
{
    if cells.len() == 0 {
        Seq::empty()
    } else {
        let rest = changes(cells.drop_last(), snap);
        match pixel_change(cells.last().1, cells.last().2, snap) {
            Some(v) => rest.push((cells.last().0, v)),
            None => rest,
        }
    }
}

/// A read-only coordinate to value map, the baseline of change detection:
/// built from the values committed at the end of the previous pass, before
/// rule code writes the next generation.
pub struct Snapshot<C: Cell, P> {
    values: HashMap<i64, P>,
    cell: PhantomData<C>,
}

impl<C: Cell, P> View for Snapshot<C, P> {
    type V = Map<C::Coords, P>;

    closed spec fn view(&self) -> Map<C::Coords, P> {
        by_coord::<C, P>(self.values@)
    }
}

impl<C: Cell, P: Pixel> Snapshot<C, P> {
    /// Reads every (coordinate, value) pair of `cells` at once.
    pub fn build(cells: &Vec<(Entity, C, P)>) -> (s: Snapshot<C, P>)
        ensures
            s@ == snapshot_of(cells@),
    {
        proof {
            lemma_by_coord_empty::<C, P>();
        }
        let mut values: HashMap<i64, P> = HashMap::new();
        for i in 0..cells.len()
            invariant
                by_coord::<C, P>(values@) == snapshot_of(cells@.subrange(0, i as int)),
        {
            proof {
                assert(cells@.subrange(0, i as int + 1).drop_last() =~= cells@.subrange(0, i as int));
                lemma_by_coord_insert::<C, P>(values@, cells@[i as int].1.coords_spec(), cells@[i as int].2);
            }
            let k = C::key(cells[i].1.coords());
            values.insert(k, cells[i].2);
        }
        assert(cells@.subrange(0, cells@.len() as int) =~= cells@);
        Snapshot { values, cell: PhantomData }
    }

    /// The value at `coords`, if any.
    pub fn get(&self, coords: &C::Coords) -> (r: Option<P>)
        ensures
            r == (if self@.contains_key(*coords) {
                Some(self@[*coords])
            } else {
                None
            }),
    {
        let k = C::key(coords);
        match self.values.get(&k) {
            Some(v) => Some(*v),
            None => None,
        }
    }
}

/// Decides whether a cell's value is written in this pass.
pub fn handle_pixel<C: Cell, P: Pixel>(cell: &C, value: &P, snapshot: &Snapshot<C, P>) -> (r: Option<P>)
    ensures
        r == pixel_change(*cell, *value, snapshot@),
{
    match snapshot.get(cell.coords()) {
        Some(pixel) => {
            if value.same_value(&pixel) {
                None
            } else {
                Some(*value)
            }
        },
        None => Some(*value),
    }
}

/// The writes of cells `start..end`, in order: one partition of a pass.
pub fn handle_partition<C: Cell, P: Pixel>(
    cells: &Vec<(Entity, C, P)>,
    start: usize,
    end: usize,
    snapshot: &Snapshot<C, P>,
) -> (r: Vec<(Entity, P)>)
    requires
        start <= end <= cells@.len(),
    ensures
        r@ == changes(cells@.subrange(start as int, end as int), snapshot@),
{
    let mut r: Vec<(Entity, P)> = Vec::new();
    let mut i: usize = start;
    while i < end
        invariant
            start <= i <= end <= cells@.len(),
            r@ == changes(cells@.subrange(start as int, i as int), snapshot@),
        decreases end - i,
    {
        proof {
            assert(cells@.subrange(start as int, i as int + 1).drop_last() =~= cells@.subrange(start as int, i as int));
        }
        match handle_pixel(&cells[i].1, &cells[i].2, snapshot) {
            Some(v) => r.push((cells[i].0, v)),
            None => {},
        }
        i = i + 1;
    }
    r
}

/// The writes of consecutive parts join into the writes of the whole.
pub proof fn lemma_changes_split<C: Cell, P>(a: Seq<(Entity, C, P)>, b: Seq<(Entity, C, P)>, snap: Map<C::Coords, P>)
    ensures
        changes(a + b, snap) == changes(a, snap) + changes(b, snap),
    decreases b.len(),
{
    if b.len() == 0 {
        assert(a + b =~= a);
        assert(changes(a, snap) + changes(b, snap) =~= changes(a, snap));
    } else {
        assert((a + b).drop_last() =~= a + b.drop_last());
        lemma_changes_split(a, b.drop_last(), snap);
        let ca = changes(a, snap);
        let cb = changes(b.drop_last(), snap);
        match pixel_change(b.last().1, b.last().2, snap) {
            Some(v) => {
                assert(ca + cb.push((b.last().0, v)) =~= (ca + cb).push((b.last().0, v)));
            },
            None => {},
        }
    }
}

/// One pass of the update pipeline: the writes of every cell whose current
/// value differs from the snapshot at its coordinate, or that the snapshot
/// lacks, in index order. Nothing is written while paused. With `batch` the
/// cells are handled in partitions whose buffers are joined afterwards; the
/// result is the same.
pub fn handle_pixels<C: Cell, P: Pixel>(
    cells: &Vec<(Entity, C, P)>,
    snapshot: &Snapshot<C, P>,
    pause: Option<&SimulationPause>,
    batch: Option<&SimulationBatch>,
) -> (r: Vec<(Entity, P)>)
    ensures
        pause.is_some() ==> r@.len() == 0,
        pause.is_none() ==> r@ == changes(cells@, snapshot@),
{
    if pause.is_some() {
        return Vec::new();
    }
    if batch.is_some() {
        let mut r: Vec<(Entity, P)> = Vec::new();
        let mut start: usize = 0;
        while start < cells.len()
            invariant
                start <= cells@.len(),
                r@ == changes(cells@.subrange(0, start as int), snapshot@),
            decreases cells@.len() - start,
        {
            let end: usize = if cells.len() - start > BATCH_CHUNK {
                start + BATCH_CHUNK
            } else {
                cells.len()
            };
            let mut part = handle_partition(cells, start, end, snapshot);
            proof {
                lemma_changes_split(
                    cells@.subrange(0, start as int),
                    cells@.subrange(start as int, end as int),
                    snapshot@,
                );
                assert(cells@.subrange(0, start as int) + cells@.subrange(start as int, end as int)
                    =~= cells@.subrange(0, end as int));
            }
            r.append(&mut part);
            start = end;
        }
        assert(cells@.subrange(0, cells@.len() as int) =~= cells@);
        r
    } else {
        let r = handle_partition(cells, 0, cells.len(), snapshot);
        assert(cells@.subrange(0, cells@.len() as int) =~= cells@);
        r
    }
}

/// A write belongs to the result of a pass exactly when some cell of the
/// pass, judged alone against the snapshot, gives it: no cell's decision
/// depends on another cell or on the order of the cells.
pub proof fn lemma_changes_members<C: Cell, P>(cells: Seq<(Entity, C, P)>, snap: Map<C::Coords, P>, w: (Entity, P))
    ensures
        changes(cells, snap).contains(w) <==> exists|i: int|
            0 <= i < cells.len() && (#[trigger] cells[i]).0 == w.0 && pixel_change(cells[i].1, cells[i].2, snap)
                == Some(w.1),
    decreases cells.len(),
{
    if cells.len() > 0 {
        let init = cells.drop_last();
        lemma_changes_members(init, snap, w);
        let rest = changes(init, snap);
        let last = cells.last();
        if changes(cells, snap).contains(w) {
            let j = choose|j: int| 0 <= j < changes(cells, snap).len() && changes(cells, snap)[j] == w;
            if j < rest.len() {
                assert(rest[j] == w);
                let i = choose|i: int|
                    0 <= i < init.len() && (#[trigger] init[i]).0 == w.0 && pixel_change(init[i].1, init[i].2, snap)
                        == Some(w.1);
                assert(cells[i] == init[i]);
            } else {
                assert(cells[cells.len() - 1] == last);
            }
        }
        if exists|i: int|
            0 <= i < cells.len() && (#[trigger] cells[i]).0 == w.0 && pixel_change(cells[i].1, cells[i].2, snap)
                == Some(w.1) {
            let i = choose|i: int|
                0 <= i < cells.len() && (#[trigger] cells[i]).0 == w.0 && pixel_change(cells[i].1, cells[i].2, snap)
                    == Some(w.1);
            if i < init.len() {
                assert(init[i] == cells[i]);
                let j = choose|j: int| 0 <= j < rest.len() && rest[j] == w;
                assert(changes(cells, snap)[j] == w);
            } else {
                assert(changes(cells, snap)[changes(cells, snap).len() - 1] == w);
            }
        }
    }
}

/// Snapshot isolation: the set of writes does not depend on how the cells
/// are ordered or partitioned, so sequential and batched passes over the
/// same cells and snapshot agree.
pub proof fn lemma_snapshot_isolation<C: Cell, P>(
    a: Seq<(Entity, C, P)>,
    b: Seq<(Entity, C, P)>,
    snap: Map<C::Coords, P>,
)
    requires
        a.to_set() == b.to_set(),
    ensures
        changes(a, snap).to_set() == changes(b, snap).to_set(),
{
    assert forall|w: (Entity, P)| changes(a, snap).to_set().contains(w) <==> changes(b, snap).to_set().contains(w) by {
        lemma_changes_members(a, snap, w);
        lemma_changes_members(b, snap, w);
        if changes(a, snap).contains(w) {
            let i = choose|i: int|
                0 <= i < a.len() && (#[trigger] a[i]).0 == w.0 && pixel_change(a[i].1, a[i].2, snap) == Some(w.1);
            assert(a.to_set().contains(a[i]));
            assert(b.contains(a[i]));
            let j = choose|j: int| 0 <= j < b.len() && b[j] == a[i];
        }
        if changes(b, snap).contains(w) {
            let i = choose|i: int|
                0 <= i < b.len() && (#[trigger] b[i]).0 == w.0 && pixel_change(b[i].1, b[i].2, snap) == Some(w.1);
            assert(b.to_set().contains(b[i]));
            assert(a.contains(b[i]));
            let j = choose|j: int| 0 <= j < a.len() && a[j] == b[i];
        }
    }
    assert(changes(a, snap).to_set() =~= changes(b, snap).to_set());
}

/// No two of `cells` share a coordinate.
pub open spec fn unique_coords<C: Cell, P>(cells: Seq<(Entity, C, P)>) -> bool {
    forall|i: int, j: int|
        0 <= i < j < cells.len() ==> (#[trigger] cells[i]).1.coords_spec() != (#[trigger] cells[j]).1.coords_spec()
}

/// With unique coordinates, the snapshot of the cells holds each cell's own
/// value at its coordinate.
pub proof fn lemma_snapshot_holds<C: Cell, P>(cells: Seq<(Entity, C, P)>, i: int)
    requires
        unique_coords(cells),
        0 <= i < cells.len(),
    ensures
        snapshot_of(cells).contains_key(cells[i].1.coords_spec()),
        snapshot_of(cells)[cells[i].1.coords_spec()] == cells[i].2,
    decreases cells.len(),
{
    if i < cells.len() - 1 {
        let init = cells.drop_last();
        assert(init[i] == cells[i]);
        assert(unique_coords(init)) by {
            assert forall|a: int, b: int| 0 <= a < b < init.len() implies (#[trigger] init[a]).1.coords_spec()
                != (#[trigger] init[b]).1.coords_spec() by {
                assert(init[a] == cells[a] && init[b] == cells[b]);
            }
        }
        lemma_snapshot_holds(init, i);
        assert(cells[i].1.coords_spec() != cells[cells.len() - 1].1.coords_spec());
    }
}

/// Change-detection minimality: a pass against the snapshot of the very same
/// cells, with no value changed in between, writes nothing.
pub proof fn lemma_change_detection_minimality<C: Cell, P>(cells: Seq<(Entity, C, P)>)
    requires
        unique_coords(cells),
    ensures
        changes(cells, snapshot_of(cells)) == Seq::<(Entity, P)>::empty(),
{
    let snap = snapshot_of(cells);
    assert forall|n: int| 0 <= n <= cells.len() implies changes(#[trigger] cells.subrange(0, n), snap)
        == Seq::<(Entity, P)>::empty() by {
        lemma_no_changes_prefix(cells, n);
    }
    assert(cells.subrange(0, cells.len() as int) =~= cells);
}

proof fn lemma_no_changes_prefix<C: Cell, P>(cells: Seq<(Entity, C, P)>, n: int)
    requires
        unique_coords(cells),
        0 <= n <= cells.len(),
    ensures
        changes(cells.subrange(0, n), snapshot_of(cells)) == Seq::<(Entity, P)>::empty(),
    decreases n,
{
    if n > 0 {
        let pre = cells.subrange(0, n);
        assert(pre.drop_last() =~= cells.subrange(0, n - 1));
        lemma_no_changes_prefix(cells, n - 1);
        lemma_snapshot_holds(cells, n - 1);
        assert(pre.last() == cells[n - 1]);
    }
}

/// How a rendering of a cell is shown.
#[derive(Clone, Copy, Debug, PartialEq, Eq, Structural)]
pub enum Visibility {
    Inherited,
    Hidden,
    Visible,
}

/// The rendering of a cell, as far as its value decides it.
#[derive(Clone, Copy, Debug, PartialEq, Eq, Structural)]
pub struct Sprite {
    pub color: Color,
}

/// Repaints one rendering with the value's appearance and makes it visible.
pub fn apply_color<P: Pixel>(value: &P, visible: &mut Visibility, sprite: &mut Sprite)
    ensures
        *final(visible) == Visibility::Inherited,
        final(sprite).color == value.appearance(),
{
    sprite.color = value.color();
    if *visible != Visibility::Inherited {
        *visible = Visibility::Inherited;
    }
}

/// Repaints the renderings of the cells whose value changed in this pass.
/// `batch` selects the parallel path where a host provides one; the result
/// is the same.
pub fn color_sprites<P: Pixel>(query: &mut Vec<(P, Visibility, Sprite)>, batch: Option<&SimulationBatch>)
    ensures
        final(query)@.len() == old(query)@.len(),
        forall|i: int|
            0 <= i < final(query)@.len() ==> (#[trigger] final(query)@[i]) == (
            old(query)@[i].0,
            Visibility::Inherited,
            Sprite { color: old(query)@[i].0.appearance() },
        ),
{
    let _ = batch;
    let mut i: usize = 0;
    while i < query.len()
        invariant
            i <= query@.len(),
            query@.len() == old(query)@.len(),
            forall|j: int|
                0 <= j < i ==> (#[trigger] query@[j]) == (
                old(query)@[j].0,
                Visibility::Inherited,
                Sprite { color: old(query)@[j].0.appearance() },
            ),
            forall|j: int| i <= j < query@.len() ==> #[trigger] query@[j] == old(query)@[j],
        decreases query@.len() - i,
    {
        let (value, mut visible, mut sprite) = query[i];
        apply_color(&value, &mut visible, &mut sprite);
        query.set(i, (value, visible, sprite));
        i = i + 1;
    }
}

} // verus!
