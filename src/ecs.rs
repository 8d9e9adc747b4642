use vstd::prelude::*;
use vstd::string::to_string_from_display_ensures;

use crate::gamelog::GameLog;
use crate::table::Table;

verus! {

/// Identifier of one game object. Ids start at 1 and are never reused.
pub type Entity = i32;

/// What a `World` holds, as mathematical values: the last id handed out, the
/// components of each live entity keyed by type name, and the named resources.
pub struct WorldView<C, V> {
    pub counter: int,
    pub entities: Map<Entity, Map<Seq<char>, C>>,
    pub resources: Map<Seq<char>, V>,
}

/// `m` with each component of `comps` stored under its type name, in order, so
/// that a later component of a type replaces an earlier one.
pub open spec fn with_all<C>(m: Map<Seq<char>, C>, comps: Seq<(String, C)>) -> Map<Seq<char>, C>
    decreases comps.len(),
{
    if comps.len() == 0 {
        m
    } else {
        with_all(m, comps.drop_last()).insert(comps.last().0@, comps.last().1)
    }
}

/// `m` holds a component of every type named in `types`.
pub open spec fn has_types<C>(m: Map<Seq<char>, C>, types: Seq<String>) -> bool {
    forall|j: int| 0 <= j < types.len() ==> m.contains_key(#[trigger] types[j]@)
}

/// Each id of `ids` is smaller than the next.
pub open spec fn strictly_increasing(ids: Seq<Entity>) -> bool {
    forall|i: int, j: int| 0 <= i < j < ids.len() ==> ids[i] < ids[j]
}

/// The entity of each row of a query result.
pub open spec fn row_ids<'a, C>(rows: Seq<(Entity, Vec<&'a C>)>) -> Seq<Entity> {
    rows.map_values(|p: (Entity, Vec<&'a C>)| p.0)
}

/// The components of each row of a query result.
pub open spec fn row_values<'a, C>(rows: Seq<(Entity, Vec<&'a C>)>) -> Seq<Seq<C>> {
    rows.map_values(|p: (Entity, Vec<&'a C>)| p.1@.map_values(|c: &'a C| *c))
}

/// The text logged when components are added to an entity that does not exist,
/// given the decimal form `id` of its id.
pub open spec fn missing_entity_message(id: Seq<char>) -> Seq<char> {
    "Could not add components - entity "@ + id + " does not exist"@
}

impl<C, V> WorldView<C, V> {
    /// Every live id lies between 1 and the last id handed out.
    pub open spec fn valid(self) -> bool {
        &&& self.counter >= 0
        &&& forall|e: Entity| #[trigger] self.entities.contains_key(e) ==> 1 <= e <= self.counter
    }

    /// `e` is live and has a component of every type named in `types`.
    pub open spec fn selects(self, e: Entity, types: Seq<String>) -> bool {
        self.entities.contains_key(e) && has_types(self.entities[e], types)
    }

    /// `ids` lists, in increasing order, exactly the entities that `types` selects.
    pub open spec fn lists_selected(self, types: Seq<String>, ids: Seq<Entity>) -> bool {
        &&& strictly_increasing(ids)
        &&& forall|e: Entity| ids.contains(e) <==> self.selects(e, types)
    }

    /// `ids` and `comps` answer a query for `types`: `ids` lists the selected
    /// entities in increasing order, and row `i` of `comps` holds the
    /// component of each type of `types` of entity `ids[i]`, in that order.
    pub open spec fn answers_query(self, types: Seq<String>, ids: Seq<Entity>, comps: Seq<Seq<C>>) -> bool {
        &&& self.lists_selected(types, ids)
        &&& comps.len() == ids.len()
        &&& forall|i: int| 0 <= i < comps.len() ==> (#[trigger] comps[i]).len() == types.len()
        &&& forall|i: int, j: int|
            0 <= i < comps.len() && 0 <= j < types.len() ==> self.component(ids[i], types[j]@)
                == Some(#[trigger] comps[i][j])
    }

    /// The component of type `t` of entity `e`, if both exist.
    pub open spec fn component(self, e: Entity, t: Seq<char>) -> Option<C> {
        if self.entities.contains_key(e) && self.entities[e].contains_key(t) {
            Some(self.entities[e][t])
        } else {
            None
        }
    }

    /// The world after a new entity, holding `comps`, is created.
    pub open spec fn spawned(self, comps: Seq<(String, C)>) -> Self {
        WorldView {
            counter: self.counter + 1,
            entities: self.entities.insert(
                (self.counter + 1) as Entity,
                with_all(Map::empty(), comps),
            ),
            resources: self.resources,
        }
    }

    /// The world after `comps` are stored on `e`; unchanged when `e` does not exist.
    pub open spec fn with_components(self, e: Entity, comps: Seq<(String, C)>) -> Self {
        if self.entities.contains_key(e) {
            WorldView {
                entities: self.entities.insert(e, with_all(self.entities[e], comps)),
                ..self
            }
        } else {
            self
        }
    }

    /// The world after the component of type `t` is taken from `e`.
    pub open spec fn without_component(self, e: Entity, t: Seq<char>) -> Self {
        if self.entities.contains_key(e) {
            WorldView { entities: self.entities.insert(e, self.entities[e].remove(t)), ..self }
        } else {
            self
        }
    }

    /// The world after the component of type `t` is taken from every entity.
    pub open spec fn cleared(self, t: Seq<char>) -> Self {
        WorldView {
            entities: Map::new(
                |e: Entity| self.entities.contains_key(e),
                |e: Entity| self.entities[e].remove(t),
            ),
            ..self
        }
    }

    /// The world after entity `e` and all its components are gone.
    pub open spec fn deleted(self, e: Entity) -> Self {
        WorldView { entities: self.entities.remove(e), ..self }
    }

    /// The world after `v` is stored as the resource named `k`.
    pub open spec fn saved(self, k: Seq<char>, v: V) -> Self {
        WorldView { resources: self.resources.insert(k, v), ..self }
    }
}

/// Whether some entry of `s` has id `e`.
pub open spec fn has_id<T>(s: Seq<(Entity, T)>, e: Entity) -> bool {
    exists|i: int| 0 <= i < s.len() && s[i].0 == e
}

/// The ids of `s` increase along it.
pub open spec fn ids_increasing<T>(s: Seq<(Entity, T)>) -> bool {
    forall|i: int, j: int| 0 <= i < j < s.len() ==> s[i].0 < s[j].0
}

/// The components of each entity of `s`, by id.
pub open spec fn entity_map<C>(s: Seq<(Entity, Table<C>)>) -> Map<Entity, Map<Seq<char>, C>> {
    Map::new(
        |e: Entity| has_id(s, e),
        |e: Entity| s[choose|i: int| 0 <= i < s.len() && s[i].0 == e].1@,
    )
}

proof fn lemma_entity_at<C>(s: Seq<(Entity, Table<C>)>, i: int)
    requires
        ids_increasing(s),
        0 <= i < s.len(),
    ensures
        entity_map(s).contains_key(s[i].0),
        entity_map(s)[s[i].0] == s[i].1@,
{
    let e = s[i].0;
    assert(has_id(s, e));
    let j = choose|j: int| 0 <= j < s.len() && s[j].0 == e;
    if j < i {
        assert(s[j].0 < s[i].0);
    } else if i < j {
        assert(s[i].0 < s[j].0);
    }
}

proof fn lemma_entity_update<C>(s: Seq<(Entity, Table<C>)>, i: int, t: Table<C>)
    requires
        ids_increasing(s),
        0 <= i < s.len(),
    ensures
        ids_increasing(s.update(i, (s[i].0, t))),
        entity_map(s.update(i, (s[i].0, t))) == entity_map(s).insert(s[i].0, t@),
{
    let u = s.update(i, (s[i].0, t));
    assert forall|a: int, b: int| 0 <= a < b < u.len() implies u[a].0 < u[b].0 by {
        assert(u[a].0 == s[a].0 && u[b].0 == s[b].0);
    }
    let m = entity_map(u);
    let n = entity_map(s).insert(s[i].0, t@);
    assert forall|e: Entity| #![auto] m.contains_key(e) <==> n.contains_key(e) by {
        if has_id(u, e) {
            let a = choose|a: int| 0 <= a < u.len() && u[a].0 == e;
            assert(s[a].0 == e);
        }
        if has_id(s, e) {
            let a = choose|a: int| 0 <= a < s.len() && s[a].0 == e;
            assert(u[a].0 == e);
        }
    }
    assert forall|e: Entity| #[trigger] m.contains_key(e) implies m[e] == n[e] by {
        let a = choose|a: int| 0 <= a < u.len() && u[a].0 == e;
        lemma_entity_at(u, a);
        if a != i {
            assert(s[a].0 == e);
            lemma_entity_at(s, a);
        }
    }
    assert(m =~= n);
}

proof fn lemma_entity_push<C>(s: Seq<(Entity, Table<C>)>, e: Entity, t: Table<C>)
    requires
        ids_increasing(s),
        forall|i: int| 0 <= i < s.len() ==> s[i].0 < e,
    ensures
        ids_increasing(s.push((e, t))),
        entity_map(s.push((e, t))) == entity_map(s).insert(e, t@),
{
    let u = s.push((e, t));
    assert forall|a: int, b: int| 0 <= a < b < u.len() implies u[a].0 < u[b].0 by {
        if b < s.len() {
            assert(u[a].0 == s[a].0 && u[b].0 == s[b].0);
        }
    }
    let m = entity_map(u);
    let n = entity_map(s).insert(e, t@);
    assert forall|q: Entity| #![auto] m.contains_key(q) <==> n.contains_key(q) by {
        if has_id(u, q) {
            let a = choose|a: int| 0 <= a < u.len() && u[a].0 == q;
            if a < s.len() {
                assert(s[a].0 == q);
            }
        }
        if has_id(s, q) {
            let a = choose|a: int| 0 <= a < s.len() && s[a].0 == q;
            assert(u[a].0 == q);
        }
        if q == e {
            assert(u[s.len() as int].0 == q);
        }
    }
    assert forall|q: Entity| #[trigger] m.contains_key(q) implies m[q] == n[q] by {
        let a = choose|a: int| 0 <= a < u.len() && u[a].0 == q;
        lemma_entity_at(u, a);
        if a < s.len() {
            lemma_entity_at(s, a);
        }
    }
    assert(m =~= n);
}

proof fn lemma_entity_remove<C>(s: Seq<(Entity, Table<C>)>, i: int)
    requires
        ids_increasing(s),
        0 <= i < s.len(),
    ensures
        ids_increasing(s.remove(i)),
        entity_map(s.remove(i)) == entity_map(s).remove(s[i].0),
{
    let u = s.remove(i);
    assert forall|a: int| 0 <= a < u.len() implies #[trigger] u[a] == s[if a < i { a } else { a + 1 }] by {}
    assert forall|a: int, b: int| 0 <= a < b < u.len() implies u[a].0 < u[b].0 by {
        let a1 = if a < i { a } else { a + 1 };
        let b1 = if b < i { b } else { b + 1 };
        assert(u[a] == s[a1] && u[b] == s[b1]);
    }
    let m = entity_map(u);
    let n = entity_map(s).remove(s[i].0);
    assert forall|q: Entity| #![auto] m.contains_key(q) <==> n.contains_key(q) by {
        if has_id(u, q) {
            let a = choose|a: int| 0 <= a < u.len() && u[a].0 == q;
            let a1 = if a < i { a } else { a + 1 };
            assert(u[a] == s[a1]);
            assert(s[a1].0 == q);
            assert(a1 != i);
        }
        if has_id(s, q) && q != s[i].0 {
            let a = choose|a: int| 0 <= a < s.len() && s[a].0 == q;
            assert(a != i);
            let a0 = if a < i { a } else { a - 1 };
            assert(u[a0] == s[a]);
        }
    }
    assert forall|q: Entity| #[trigger] m.contains_key(q) implies m[q] == n[q] by {
        let a = choose|a: int| 0 <= a < u.len() && u[a].0 == q;
        lemma_entity_at(u, a);
        let a1 = if a < i { a } else { a + 1 };
        assert(u[a] == s[a1]);
        lemma_entity_at(s, a1);
    }
    assert(m =~= n);
}

/// Some entry among the first `n` of `s` has id `e` and a component of every
/// type of `types`.
spec fn picked<C>(s: Seq<(Entity, Table<C>)>, n: int, e: Entity, types: Seq<String>) -> bool {
    exists|k: int| 0 <= k < n && s[k].0 == e && has_types(s[k].1@, types)
}

proof fn lemma_picked_step<C>(s: Seq<(Entity, Table<C>)>, n: int, e: Entity, types: Seq<String>)
    requires
        0 <= n < s.len(),
    ensures
        picked(s, n + 1, e, types) <==> (picked(s, n, e, types) || (s[n].0 == e && has_types(
            s[n].1@,
            types,
        ))),
{
    if picked(s, n + 1, e, types) {
        let k = choose|k: int| 0 <= k < n + 1 && s[k].0 == e && has_types(s[k].1@, types);
        if k < n {
            assert(picked(s, n, e, types));
        }
    }
    if picked(s, n, e, types) {
        let k = choose|k: int| 0 <= k < n && s[k].0 == e && has_types(s[k].1@, types);
        assert(picked(s, n + 1, e, types));
    }
    if s[n].0 == e && has_types(s[n].1@, types) {
        assert(picked(s, n + 1, e, types));
    }
}

proof fn lemma_contains_push<T>(s: Seq<T>, x: T, e: T)
    ensures
        s.push(x).contains(e) <==> (s.contains(e) || e == x),
{
    let t = s.push(x);
    if t.contains(e) {
        let j = choose|j: int| 0 <= j < t.len() && t[j] == e;
        if j < s.len() {
            assert(s[j] == e);
        }
    }
    if s.contains(e) {
        let j = choose|j: int| 0 <= j < s.len() && s[j] == e;
        assert(t[j] == e);
    }
    if e == x {
        assert(t[s.len() as int] == e);
    }
}

/// One step in the life of entities: creating one with some components, or
/// deleting one.
pub enum Lifecycle<C> {
    Spawn(Seq<(String, C)>),
    Despawn(Entity),
}

/// The world after the steps `ops`, taken in order from `w`.
pub open spec fn replay<C, V>(w: WorldView<C, V>, ops: Seq<Lifecycle<C>>) -> WorldView<C, V>
    decreases ops.len(),
{
    if ops.len() == 0 {
        w
    } else {
        let before = replay(w, ops.drop_last());
        match ops.last() {
            Lifecycle::Spawn(comps) => before.spawned(comps),
            Lifecycle::Despawn(e) => before.deleted(e),
        }
    }
}

/// The ids handed out by the creations among the steps `ops` taken from `w`,
/// in order.
pub open spec fn issued<C, V>(w: WorldView<C, V>, ops: Seq<Lifecycle<C>>) -> Seq<Entity>
    decreases ops.len(),
{
    if ops.len() == 0 {
        seq![]
    } else {
        let before = issued(w, ops.drop_last());
        match ops.last() {
            Lifecycle::Spawn(_) => before.push((replay(w, ops.drop_last()).counter + 1) as Entity),
            Lifecycle::Despawn(_) => before,
        }
    }
}

/// Over any run of creations and deletions, the ids handed out increase
/// strictly, each is larger than every id in use or handed out before the
/// run (so no id is reused), and every live entity is one that was live
/// before or was created during the run.
pub proof fn lemma_ids_never_reused<C, V>(w: WorldView<C, V>, ops: Seq<Lifecycle<C>>)
    requires
        w.valid(),
        w.counter + ops.len() <= i32::MAX,
    ensures
        replay(w, ops).valid(),
        w.counter <= replay(w, ops).counter <= w.counter + ops.len(),
        strictly_increasing(issued(w, ops)),
        forall|i: int| 0 <= i < issued(w, ops).len() ==> w.counter < #[trigger] issued(w, ops)[i] <= replay(w, ops).counter,
        forall|e: Entity| #[trigger] replay(w, ops).entities.contains_key(e) ==> w.entities.contains_key(e) || issued(w, ops).contains(e),
    decreases ops.len(),
{
    if ops.len() > 0 {
        let init = ops.drop_last();
        lemma_ids_never_reused(w, init);
        let before = replay(w, init);
        let ids = issued(w, init);
        match ops.last() {
            Lifecycle::Spawn(comps) => {
                let id = (before.counter + 1) as Entity;
                let after = before.spawned(comps);
                assert(after == replay(w, ops));
                let now = ids.push(id);
                assert(now == issued(w, ops));
                assert forall|i: int| 0 <= i < now.len() implies w.counter < #[trigger] now[i] <= after.counter by {
                    if i < ids.len() {
                        assert(now[i] == ids[i]);
                    }
                }
                assert forall|e: Entity| #[trigger] after.entities.contains_key(e) implies w.entities.contains_key(e) || now.contains(e) by {
                    if e == id {
                        assert(now[now.len() - 1] == e);
                    } else if ids.contains(e) {
                        let j = choose|j: int| 0 <= j < ids.len() && ids[j] == e;
                        assert(now[j] == e);
                    }
                }
            },
            Lifecycle::Despawn(e) => {
                assert(replay(w, ops) == before.deleted(e));
                assert(issued(w, ops) == ids);
            },
        }
    }
}

/// With no types to match, every live entity is selected: `get_entities` of
/// no types lists exactly the live entities.
pub proof fn lemma_no_types_select_all<C, V>(w: WorldView<C, V>, ids: Seq<Entity>)
    requires
        w.lists_selected(seq![], ids),
    ensures
        forall|e: Entity| ids.contains(e) <==> w.entities.contains_key(e),
{
    assert forall|e: Entity| ids.contains(e) <==> w.entities.contains_key(e) by {
        if w.entities.contains_key(e) {
            assert(has_types(w.entities[e], seq![]));
        }
    }
}

/// Two strictly increasing sequences with the same elements are equal.
pub proof fn lemma_increasing_unique(a: Seq<Entity>, b: Seq<Entity>)
    requires
        strictly_increasing(a),
        strictly_increasing(b),
        forall|e: Entity| a.contains(e) <==> b.contains(e),
    ensures
        a == b,
    decreases a.len() + b.len(),
{
    if a.len() == 0 {
        if b.len() > 0 {
            assert(b.contains(b[0]));
        }
        assert(a =~= b);
    } else if b.len() == 0 {
        assert(a.contains(a[0]));
    } else {
        let x = a.last();
        let y = b.last();
        assert(a.contains(x));
        assert(b.contains(y));
        let ix = choose|i: int| 0 <= i < b.len() && b[i] == x;
        let iy = choose|i: int| 0 <= i < a.len() && a[i] == y;
        if ix < b.len() - 1 {
            assert(x < y);
        }
        if iy < a.len() - 1 {
            assert(y < x);
        }
        assert(x == y);
        let a1 = a.drop_last();
        let b1 = b.drop_last();
        assert forall|e: Entity| a1.contains(e) <==> b1.contains(e) by {
            if a1.contains(e) {
                let i = choose|i: int| 0 <= i < a1.len() && a1[i] == e;
                assert(a[i] == e && e < x);
                assert(a.contains(e));
                let j = choose|j: int| 0 <= j < b.len() && b[j] == e;
                assert(j != b.len() - 1);
                assert(b1[j] == e);
            }
            if b1.contains(e) {
                let i = choose|i: int| 0 <= i < b1.len() && b1[i] == e;
                assert(b[i] == e && e < y);
                assert(b.contains(e));
                let j = choose|j: int| 0 <= j < a.len() && a[j] == e;
                assert(j != a.len() - 1);
                assert(a1[j] == e);
            }
        }
        lemma_increasing_unique(a1, b1);
        assert(a =~= a1.push(x));
        assert(b =~= b1.push(y));
    }
}

/// A query lists exactly the entities that `get_entities` lists for the same
/// types, and each of its rows holds one component per requested type, none
/// absent.
pub proof fn lemma_query_matches_selection<C, V>(
    w: WorldView<C, V>,
    types: Seq<String>,
    ids: Seq<Entity>,
    rows: Seq<Entity>,
    comps: Seq<Seq<C>>,
)
    requires
        w.lists_selected(types, ids),
        w.answers_query(types, rows, comps),
    ensures
        rows == ids,
        forall|i: int| 0 <= i < comps.len() ==> (#[trigger] comps[i]).len() == types.len(),
        forall|i: int, j: int|
            0 <= i < rows.len() && 0 <= j < types.len() ==> (#[trigger] w.component(rows[i], types[j]@)) is Some,
{
    lemma_increasing_unique(rows, ids);
    assert forall|i: int, j: int| 0 <= i < rows.len() && 0 <= j < types.len() implies (#[trigger] w.component(rows[i], types[j]@)) is Some by {
        assert(w.component(rows[i], types[j]@) == Some(comps[i][j]));
    }
}

/// Adding components and then reading one type back gives the last component
/// of that type that was added.
pub proof fn lemma_last_write_wins<C, V>(w: WorldView<C, V>, e: Entity, comps: Seq<(String, C)>, k: String, c: C)
    requires
        w.entities.contains_key(e),
    ensures
        w.with_components(e, comps.push((k, c))).component(e, k@) == Some(c),
{
    let all = comps.push((k, c));
    assert(all.drop_last() =~= comps);
    assert(with_all(w.entities[e], all) == with_all(w.entities[e], comps).insert(k@, c));
}

/// Adding a component of a type an entity already has replaces the old one
/// whole: the entity then holds what it held before, with the new value
/// under that type.
pub proof fn lemma_add_replaces<C, V>(w: WorldView<C, V>, e: Entity, k: String, c1: C, c2: C)
    requires
        w.entities.contains_key(e),
    ensures
        w.with_components(e, seq![(k, c1)]).with_components(e, seq![(k, c2)]).entities[e]
            == w.entities[e].insert(k@, c2),
        w.with_components(e, seq![(k, c1)]).with_components(e, seq![(k, c2)]).component(e, k@)
            == Some(c2),
{
    let s1 = seq![(k, c1)];
    let s2 = seq![(k, c2)];
    assert(s1.drop_last() =~= Seq::<(String, C)>::empty());
    assert(s2.drop_last() =~= Seq::<(String, C)>::empty());
    let m1 = with_all(w.entities[e], s1);
    assert(with_all(w.entities[e], s1.drop_last()) == w.entities[e]);
    assert(s1.last() == (k, c1));
    assert(m1 == w.entities[e].insert(k@, c1));
    let m2 = with_all(m1, s2);
    assert(with_all(m1, s2.drop_last()) == m1);
    assert(s2.last() == (k, c2));
    assert(m2 == m1.insert(k@, c2));
    assert(m2 =~= w.entities[e].insert(k@, c2));
}

/// Stores each component of `comps` on `table`, in order.
fn store_all<C>(table: &mut Table<C>, comps: Vec<(String, C)>)
    requires
        old(table).wf(),
    ensures
        final(table).wf(),
        final(table)@ == with_all(old(table)@, comps@),
{
    let ghost start = table@;
    let ghost all = comps@;
    let n: usize = comps.len();
    let mut rest = comps;
    let mut done: usize = 0;
    while rest.len() > 0
        invariant
            table.wf(),
            all.len() == n,
            done + rest@.len() == all.len(),
            rest@ == all.subrange(done as int, all.len() as int),
            table@ == with_all(start, all.subrange(0, done as int)),
        decreases rest@.len(),
    {
        let (k, c) = rest.remove(0);
        proof {
            let next = all.subrange(0, done + 1);
            assert(next.drop_last() =~= all.subrange(0, done as int));
            assert(next.last() == all[done as int]);
        }
        table.insert(k, c);
        done = done + 1;
        proof {
            assert(rest@ =~= all.subrange(done as int, all.len() as int));
        }
    }
    proof {
        assert(all.subrange(0, done as int) =~= all);
    }
}

/// A small entity-component store: entities are integer ids, each holding at
/// most one component per type name, beside named world-wide resources.
pub struct World<C, V> {
    entity_counter: Entity,
    entities: Vec<(Entity, Table<C>)>,
    resources: Table<V>,
}

impl<C, V> View for World<C, V> {
    type V = WorldView<C, V>;

    closed spec fn view(&self) -> WorldView<C, V> {
        WorldView {
            counter: self.entity_counter as int,
            entities: entity_map(self.entities@),
            resources: self.resources@,
        }
    }
}

impl<C, V> World<C, V> {
    /// Ids increase along the store, each lies between 1 and the counter, and
    /// every table is well formed.
    pub closed spec fn wf(&self) -> bool {
        &&& self.entity_counter >= 0
        &&& ids_increasing(self.entities@)
        &&& forall|i: int|
            0 <= i < self.entities@.len() ==> 1 <= #[trigger] self.entities@[i].0
                <= self.entity_counter && self.entities@[i].1.wf()
        &&& self.resources.wf()
    }

    /// A well-formed world has a valid view.
    pub proof fn lemma_valid(&self)
        requires
            self.wf(),
        ensures
            self@.valid(),
    {
        assert forall|e: Entity| #[trigger] self@.entities.contains_key(e) implies 1 <= e
            <= self@.counter by {
            let i = choose|i: int| 0 <= i < self.entities@.len() && self.entities@[i].0 == e;
            assert(1 <= self.entities@[i].0 <= self.entity_counter);
        }
    }

    /// An empty world; the first entity will get id 1.
    pub fn new() -> (r: Self)
        ensures
            r.wf(),
            r@.counter == 0,
            r@.entities == Map::<Entity, Map<Seq<char>, C>>::empty(),
            r@.resources == Map::<Seq<char>, V>::empty(),
    {
        let r = World { entity_counter: 0, entities: Vec::new(), resources: Table::new() };
        assert(r@.entities =~= Map::<Entity, Map<Seq<char>, C>>::empty());
        r
    }

    /// Position of entity `e` in the store, if it is live.
    fn find(&self, e: Entity) -> (r: Option<usize>)
        requires
            self.wf(),
        ensures
            r is None ==> !self@.entities.contains_key(e),
            r matches Some(i) ==> i < self.entities@.len() && self.entities@[i as int].0 == e,
    {
        let mut i: usize = 0;
        while i < self.entities.len()
            invariant
                i <= self.entities@.len(),
                forall|j: int| 0 <= j < i ==> self.entities@[j].0 != e,
            decreases self.entities@.len() - i,
        {
            if self.entities[i].0 == e {
                return Some(i);
            }
            i = i + 1;
        }
        None
    }

    /// Creates an entity holding `components` and returns its id, one more than
    /// the last id handed out.
    pub fn add_entity(&mut self, components: Vec<(String, C)>) -> (r: Entity)
        requires
            old(self).wf(),
            old(self)@.counter < i32::MAX,
        ensures
            final(self).wf(),
            r == old(self)@.counter + 1,
            final(self)@ == old(self)@.spawned(components@),
    {
        let id = self.entity_counter + 1;
        let mut table: Table<C> = Table::new();
        store_all(&mut table, components);
        proof {
            lemma_entity_push(self.entities@, id, table);
        }
        self.entities.push((id, table));
        self.entity_counter = id;
        id
    }

    /// Stores `components` on `entity`, each replacing any component of its
    /// type. When `entity` does not exist nothing is stored and a warning is
    /// appended to `log`.
    pub fn add_components(&mut self, entity: Entity, components: Vec<(String, C)>, log: &mut GameLog)
        requires
            old(self).wf(),
        ensures
            final(self).wf(),
            final(self)@ == old(self)@.with_components(entity, components@),
            old(self)@.entities.contains_key(entity) ==> final(log).entries@ == old(log).entries@,
            !old(self)@.entities.contains_key(entity) ==> exists|id: String|
                to_string_from_display_ensures::<i32>(&entity, id) && final(log).entries@.len()
                    == old(log).entries@.len() + 1 && final(log).entries@.drop_last()
                    == old(log).entries@ && final(log).entries@.last()@
                    == missing_entity_message(id@),
    {
        match self.find(entity) {
            Some(i) => {
                proof {
                    lemma_entity_at(self.entities@, i as int);
                }
                let ghost before = self.entities@;
                store_all(&mut self.entities[i].1, components);
                proof {
                    lemma_entity_update(before, i as int, self.entities@[i as int].1);
                    assert(self.entities@ =~= before.update(i as int, (before[i as int].0, self.entities@[i as int].1)));
                }
            },
            None => {
                let id = entity.to_string();
                let mut message = "Could not add components - entity ".to_owned();
                message.append(id.as_str());
                message.append(" does not exist");
                log.add(message);
                proof {
                    assert(log.entries@.drop_last() =~= old(log).entries@);
                    assert(log.entries@.last()@ =~= missing_entity_message(id@));
                }
            },
        }
    }

    /// Whether `table` holds a component of every type in `types`.
    fn has_all(table: &Table<C>, types: &Vec<String>) -> (r: bool)
        requires
            table.wf(),
        ensures
            r == has_types(table@, types@),
    {
        let mut j: usize = 0;
        while j < types.len()
            invariant
                table.wf(),
                j <= types@.len(),
                forall|k: int| 0 <= k < j ==> table@.contains_key(#[trigger] types@[k]@),
            decreases types@.len() - j,
        {
            if !table.contains_key(&types[j]) {
                return false;
            }
            j = j + 1;
        }
        true
    }

    /// Every live entity that has a component of each type in `types`, by
    /// increasing id; with no types, every live entity.
    pub fn get_entities(&self, types: &Vec<String>) -> (r: Vec<Entity>)
        requires
            self.wf(),
        ensures
            self@.lists_selected(types@, r@),
    {
        let ghost s = self.entities@;
        let mut out: Vec<Entity> = Vec::new();
        let mut i: usize = 0;
        while i < self.entities.len()
            invariant
                self.wf(),
                s == self.entities@,
                i <= s.len(),
                strictly_increasing(out@),
                i < s.len() ==> forall|j: int| 0 <= j < out@.len() ==> out@[j] < s[i as int].0,
                forall|e: Entity| out@.contains(e) <==> picked(s, i as int, e, types@),
            decreases s.len() - i,
        {
            let id = self.entities[i].0;
            let take = Self::has_all(&self.entities[i].1, types);
            let ghost prev = out@;
            if take {
                out.push(id);
            }
            proof {
                assert forall|e: Entity| out@.contains(e) <==> picked(s, i + 1, e, types@) by {
                    lemma_picked_step(s, i as int, e, types@);
                    if take {
                        lemma_contains_push(prev, id, e);
                    }
                }
                if i + 1 < s.len() {
                    assert(s[i as int].0 < s[i + 1].0);
                }
            }
            i = i + 1;
        }
        proof {
            assert forall|e: Entity| out@.contains(e) <==> self@.selects(e, types@) by {
                if picked(s, s.len() as int, e, types@) {
                    let k = choose|k: int| 0 <= k < s.len() && s[k].0 == e && has_types(s[k].1@, types@);
                    lemma_entity_at(s, k);
                }
                if self@.selects(e, types@) {
                    let k = choose|k: int| 0 <= k < s.len() && s[k].0 == e;
                    lemma_entity_at(s, k);
                }
            }
        }
        out
    }

    /// The component of type `class` of `entity`; absent when either is missing.
    pub fn get_component(&self, entity: Entity, class: &String) -> (r: Option<&C>)
        requires
            self.wf(),
        ensures
            r is Some == self@.component(entity, class@) is Some,
            r matches Some(c) ==> self@.component(entity, class@) == Some(*c),
    {
        match self.find(entity) {
            Some(i) => {
                proof {
                    lemma_entity_at(self.entities@, i as int);
                }
                self.entities[i].1.get(class)
            },
            None => None,
        }
    }

    /// The component of each type of `types` of `entity`, in the order of
    /// `types`, with an absent slot where there is none.
    pub fn get_components(&self, entity: Entity, types: &Vec<String>) -> (r: Vec<Option<&C>>)
        requires
            self.wf(),
        ensures
            r@.len() == types@.len(),
            forall|j: int| 0 <= j < r@.len() ==> (#[trigger] r@[j] is Some) == self@.component(entity, types@[j]@) is Some,
            forall|j: int| 0 <= j < r@.len() ==> (#[trigger] r@[j] matches Some(c) ==> self@.component(entity, types@[j]@) == Some(*c)),
    {
        let mut out: Vec<Option<&C>> = Vec::new();
        let mut j: usize = 0;
        while j < types.len()
            invariant
                self.wf(),
                j <= types@.len(),
                out@.len() == j,
                forall|k: int| 0 <= k < j ==> (#[trigger] out@[k] is Some) == self@.component(entity, types@[k]@) is Some,
                forall|k: int| 0 <= k < j ==> (#[trigger] out@[k] matches Some(c) ==> self@.component(entity, types@[k]@) == Some(*c)),
            decreases types@.len() - j,
        {
            out.push(self.get_component(entity, &types[j]));
            j = j + 1;
        }
        out
    }
    /// The components of each type of `types` of `entity`, which has them all.
    fn present_components(&self, entity: Entity, types: &Vec<String>) -> (r: Vec<&C>)
        requires
            self.wf(),
            self@.selects(entity, types@),
        ensures
            r@.len() == types@.len(),
            forall|j: int| 0 <= j < r@.len() ==> self@.component(entity, types@[j]@) == Some(*#[trigger] r@[j]),
    {
        let mut out: Vec<&C> = Vec::new();
        let mut j: usize = 0;
        while j < types.len()
            invariant
                self.wf(),
                self@.selects(entity, types@),
                j <= types@.len(),
                out@.len() == j,
                forall|k: int| 0 <= k < j ==> self@.component(entity, types@[k]@) == Some(*#[trigger] out@[k]),
            decreases types@.len() - j,
        {
            assert(self@.entities[entity].contains_key(types@[j as int]@));
            let c = self.get_component(entity, &types[j]).unwrap();
            out.push(c);
            j = j + 1;
        }
        out
    }

    /// Each entity that has a component of every type in `types`, by increasing
    /// id, with those components in the order of `types`.
    pub fn query(&self, types: &Vec<String>) -> (r: Vec<(Entity, Vec<&C>)>)
        requires
            self.wf(),
        ensures
            self@.answers_query(types@, row_ids(r@), row_values(r@)),
    {
        let entities = self.get_entities(types);
        let mut data: Vec<(Entity, Vec<&C>)> = Vec::new();
        let mut i: usize = 0;
        while i < entities.len()
            invariant
                self.wf(),
                self@.lists_selected(types@, entities@),
                i <= entities@.len(),
                data@.len() == i,
                forall|k: int| 0 <= k < i ==> (#[trigger] data@[k]).0 == entities@[k],
                forall|k: int| 0 <= k < i ==> (#[trigger] data@[k]).1@.len() == types@.len(),
                forall|k: int, j: int|
                    0 <= k < i && 0 <= j < types@.len() ==> self@.component(data@[k].0, types@[j]@)
                        == Some(*#[trigger] data@[k].1@[j]),
            decreases entities@.len() - i,
        {
            let e = entities[i];
            assert(entities@.contains(e));
            let comps = self.present_components(e, types);
            data.push((e, comps));
            i = i + 1;
        }
        proof {
            assert(row_ids(data@) =~= entities@);
            let vals = row_values(data@);
            assert forall|k: int| 0 <= k < vals.len() implies (#[trigger] vals[k]).len() == types@.len() by {}
            assert forall|k: int, j: int| 0 <= k < vals.len() && 0 <= j < types@.len() implies self@.component(row_ids(data@)[k], types@[j]@) == Some(#[trigger] vals[k][j]) by {
                assert(vals[k][j] == *data@[k].1@[j]);
            }
        }
        data
    }

    /// Takes the component of type `cmp_type` from `entity`; nothing happens
    /// when either is missing.
    pub fn remove_component(&mut self, entity: Entity, cmp_type: &String)
        requires
            old(self).wf(),
        ensures
            final(self).wf(),
            final(self)@ == old(self)@.without_component(entity, cmp_type@),
    {
        match self.find(entity) {
            Some(i) => {
                proof {
                    lemma_entity_at(self.entities@, i as int);
                }
                let ghost before = self.entities@;
                self.entities[i].1.remove(cmp_type);
                proof {
                    lemma_entity_update(before, i as int, self.entities@[i as int].1);
                    assert(self.entities@ =~= before.update(i as int, (before[i as int].0, self.entities@[i as int].1)));
                }
            },
            None => {},
        }
    }

    /// Takes the component of type `cmp_type` from every entity that has one;
    /// entities without it are left as they are.
    pub fn clear_component(&mut self, cmp_type: &String)
        requires
            old(self).wf(),
        ensures
            final(self).wf(),
            final(self)@ == old(self)@.cleared(cmp_type@),
    {
        let ghost s0 = self.entities@;
        let mut i: usize = 0;
        while i < self.entities.len()
            invariant
                self.wf(),
                self.entity_counter == old(self).entity_counter,
                self.resources == old(self).resources,
                s0 == old(self).entities@,
                self.entities@.len() == s0.len(),
                i <= s0.len(),
                forall|k: int| 0 <= k < s0.len() ==> (#[trigger] self.entities@[k]).0 == s0[k].0,
                forall|k: int| 0 <= k < i ==> (#[trigger] self.entities@[k]).1@ == s0[k].1@.remove(cmp_type@),
                forall|k: int| i <= k < s0.len() ==> (#[trigger] self.entities@[k]).1@ == s0[k].1@,
            decreases s0.len() - i,
        {
            let ghost before = self.entities@;
            if self.entities[i].1.contains_key(cmp_type) {
                self.entities[i].1.remove(cmp_type);
            } else {
                assert(self.entities@[i as int].1@ =~= self.entities@[i as int].1@.remove(cmp_type@));
            }
            proof {
                lemma_entity_update(before, i as int, self.entities@[i as int].1);
                assert(self.entities@ =~= before.update(i as int, (before[i as int].0, self.entities@[i as int].1)));
            }
            i = i + 1;
        }
        proof {
            let s = self.entities@;
            let m = entity_map(s);
            let n = old(self)@.cleared(cmp_type@).entities;
            assert forall|e: Entity| #![auto] m.contains_key(e) <==> n.contains_key(e) by {
                if has_id(s, e) {
                    let k = choose|k: int| 0 <= k < s.len() && s[k].0 == e;
                    assert(s0[k].0 == e);
                    lemma_entity_at(s0, k);
                }
                if has_id(s0, e) {
                    let k = choose|k: int| 0 <= k < s0.len() && s0[k].0 == e;
                    assert(s[k].0 == e);
                }
            }
            assert forall|e: Entity| #[trigger] m.contains_key(e) implies m[e] == n[e] by {
                let k = choose|k: int| 0 <= k < s.len() && s[k].0 == e;
                assert(s0[k].0 == e);
                lemma_entity_at(s, k);
                lemma_entity_at(s0, k);
            }
            assert(m =~= n);
            assert(self@ =~= old(self)@.cleared(cmp_type@));
        }
    }

    /// Removes `entity` and all its components; other entities keep their ids.
    pub fn delete_entity(&mut self, entity: Entity)
        requires
            old(self).wf(),
        ensures
            final(self).wf(),
            final(self)@ == old(self)@.deleted(entity),
    {
        match self.find(entity) {
            Some(i) => {
                proof {
                    lemma_entity_remove(self.entities@, i as int);
                }
                self.entities.remove(i);
            },
            None => {
                assert(self@.entities =~= self@.entities.remove(entity));
            },
        }
    }

    /// Stores `val` as the resource named `key`, replacing any earlier value.
    pub fn save(&mut self, key: String, val: V)
        requires
            old(self).wf(),
        ensures
            final(self).wf(),
            final(self)@ == old(self)@.saved(key@, val),
    {
        self.resources.insert(key, val);
    }

    /// The resource named `key`; absent when it was never saved.
    pub fn fetch(&self, key: &String) -> (r: Option<&V>)
        requires
            self.wf(),
        ensures
            r is Some == self@.resources.contains_key(key@),
            r matches Some(v) ==> *v == self@.resources[key@],
    {
        self.resources.get(key)
    }
}

} // verus!
