//! Which fire materials sample which texture, kept up to date from asset
//! events, so that every fire material whose texture changed can be told so.
use vstd::prelude::*;
use vstd::std_specs::hash::obeys_key_model;
use vstd::laws_eq::obeys_concrete_eq;
use bevy_utils::{HashMap, HashSet};
use std::hash::Hash;
use crate::topdownfire::hashed::{map_get, map_insert, map_remove, set_insert, set_members, set_remove};

verus! {

/// What happened to an asset.
#[derive(Clone, Copy, Debug, PartialEq, Eq)]
pub enum AssetEventKind {
    Created,
    Modified,
    Removed,
}

/// The index seen as two maps: from each texture to the fire materials
/// filed under it, and from each fire material to the texture it was last
/// seen with.
#[verifier::reject_recursive_types(K)]
pub struct IndexModel<K> {
    pub textures: Map<K, Set<K>>,
    pub fires: Map<K, K>,
}

/// The fire materials filed under `texture`; none where it has no entry.
pub open spec fn filed_under<K>(textures: Map<K, Set<K>>, texture: K) -> Set<K> {
    if textures.contains_key(texture) {
        textures[texture]
    } else {
        Set::empty()
    }
}

/// Files `fire` under `texture`, creating the entry where there is none.
pub open spec fn file_fire<K>(textures: Map<K, Set<K>>, texture: K, fire: K) -> Map<K, Set<K>> {
    textures.insert(texture, filed_under(textures, texture).insert(fire))
}

/// Takes `fire` out of the entry of `texture`, creating an empty entry
/// where there is none.
pub open spec fn unfile_fire<K>(textures: Map<K, Set<K>>, texture: K, fire: K) -> Map<K, Set<K>> {
    textures.insert(texture, filed_under(textures, texture).remove(fire))
}

/// The index after one event on the fire material `fire`, whose asset,
/// looked up when the event is handled, refers to `material_texture`
/// (`None` where the asset is not there).
pub open spec fn index_step<K>(
    m: IndexModel<K>,
    kind: AssetEventKind,
    fire: K,
    material_texture: Option<K>,
) -> IndexModel<K> {
    let recorded = if m.fires.contains_key(fire) {
        Some(m.fires[fire])
    } else {
        None::<K>
    };
    match kind {
        AssetEventKind::Created => match material_texture {
            Some(t) => IndexModel {
                textures: file_fire(m.textures, t, fire),
                fires: m.fires.insert(fire, t),
            },
            None => m,
        },
        AssetEventKind::Modified => match (material_texture, recorded) {
            (None, None) => m,
            (Some(t), None) => IndexModel {
                textures: file_fire(m.textures, t, fire),
                fires: m.fires.insert(fire, t),
            },
            (None, Some(old_t)) => IndexModel {
                textures: unfile_fire(m.textures, old_t, fire),
                fires: m.fires.remove(fire),
            },
            (Some(new_t), Some(old_t)) => if new_t == old_t {
                m
            } else {
                IndexModel {
                    textures: unfile_fire(file_fire(m.textures, new_t, fire), old_t, fire),
                    fires: m.fires.insert(fire, new_t),
                }
            },
        },
        AssetEventKind::Removed => match material_texture {
            Some(t) => IndexModel {
                textures: unfile_fire(m.textures, t, fire),
                fires: m.fires.remove(fire),
            },
            None => m,
        },
    }
}

/// Every fire material that the index maps to a texture is filed under that
/// texture.
pub open spec fn linked<K>(m: IndexModel<K>) -> bool {
    forall|fire: K|
        #[trigger] m.fires.contains_key(fire) ==> filed_under(m.textures, m.fires[fire]).contains(
            fire,
        )
}

/// Handling any event keeps every tracked fire material filed under its
/// texture.
pub proof fn lemma_step_keeps_link<K>(
    m: IndexModel<K>,
    kind: AssetEventKind,
    fire: K,
    material_texture: Option<K>,
)
    requires
        linked(m),
    ensures
        linked(index_step(m, kind, fire, material_texture)),
{
    let next = index_step(m, kind, fire, material_texture);
    assert forall|f: K| #[trigger] next.fires.contains_key(f) implies filed_under(
        next.textures,
        next.fires[f],
    ).contains(f) by {
        if next == m {
            assert(filed_under(m.textures, m.fires[f]).contains(f));
        } else {
            lemma_filed_after_step(m, kind, fire, material_texture, f);
        }
    }
}

/// Taking one fire out of an entry leaves every other filing in place.
proof fn lemma_unfile_keeps_others<K>(textures: Map<K, Set<K>>, a: K, fire: K, t: K, f: K)
    requires
        f != fire,
        filed_under(textures, t).contains(f),
    ensures
        filed_under(unfile_fire(textures, a, fire), t).contains(f),
{
    let next = unfile_fire(textures, a, fire);
    if t == a {
        assert(next.contains_key(a));
        assert(next[a] == filed_under(textures, a).remove(fire));
        assert(filed_under(textures, a).remove(fire).contains(f));
    } else {
        assert(next.contains_key(t) == textures.contains_key(t));
        if textures.contains_key(t) {
            assert(next[t] == textures[t]);
        }
    }
}

/// Filing a fire leaves every other filing in place.
proof fn lemma_file_keeps_others<K>(textures: Map<K, Set<K>>, a: K, fire: K, t: K, f: K)
    requires
        filed_under(textures, t).contains(f),
    ensures
        filed_under(file_fire(textures, a, fire), t).contains(f),
{
    let next = file_fire(textures, a, fire);
    if t == a {
        assert(next[a] == filed_under(textures, a).insert(fire));
    } else {
        assert(next.contains_key(t) == textures.contains_key(t));
        if textures.contains_key(t) {
            assert(next[t] == textures[t]);
        }
    }
}

/// Filing and unfiling in one event touch only the fire the event is about.
proof fn lemma_filed_after_step<K>(
    m: IndexModel<K>,
    kind: AssetEventKind,
    fire: K,
    material_texture: Option<K>,
    f: K,
)
    requires
        linked(m),
        index_step(m, kind, fire, material_texture) != m,
        index_step(m, kind, fire, material_texture).fires.contains_key(f),
    ensures
        filed_under(
            index_step(m, kind, fire, material_texture).textures,
            index_step(m, kind, fire, material_texture).fires[f],
        ).contains(f),
{
    let next = index_step(m, kind, fire, material_texture);
    if f != fire {
        assert(m.fires.contains_key(f));
        assert(next.fires[f] == m.fires[f]);
        let t = m.fires[f];
        assert(filed_under(m.textures, t).contains(f));
        match kind {
            AssetEventKind::Created => {
                lemma_file_keeps_others(m.textures, material_texture->0, fire, t, f);
            },
            AssetEventKind::Removed => {
                lemma_unfile_keeps_others(m.textures, material_texture->0, fire, t, f);
            },
            AssetEventKind::Modified => {
                if material_texture is Some {
                    let mid = file_fire(m.textures, material_texture->0, fire);
                    lemma_file_keeps_others(m.textures, material_texture->0, fire, t, f);
                    if m.fires.contains_key(fire) {
                        lemma_unfile_keeps_others(mid, m.fires[fire], fire, t, f);
                    }
                } else {
                    lemma_unfile_keeps_others(m.textures, m.fires[fire], fire, t, f);
                }
                assert(filed_under(next.textures, t).contains(f));
            },
        }
    } else {
        let t = material_texture->0;
        match kind {
            AssetEventKind::Created => {
                assert(filed_under(next.textures, t).contains(f));
            },
            AssetEventKind::Removed => {
                assert(!next.fires.contains_key(f));
            },
            AssetEventKind::Modified => {
                if m.fires.contains_key(fire) {
                    let old_t = m.fires[fire];
                    assert(old_t != t);
                    let mid = file_fire(m.textures, t, fire);
                    assert(filed_under(mid, t).contains(f));
                    assert(filed_under(next.textures, t) == filed_under(mid, t));
                } else {
                    assert(filed_under(next.textures, t).contains(f));
                }
            },
        }
    }
}

/// When a texture changes, every fire material the index maps to it is
/// told so.
pub proof fn lemma_changed_texture_notifies_its_fires<K>(m: IndexModel<K>, changed: Set<K>, fire: K)
    requires
        linked(m),
        changed.finite(),
        m.fires.contains_key(fire),
        changed.contains(m.fires[fire]),
    ensures
        notification_count(m.textures, changed, fire) >= 1,
{
    let pred = |t: K| filed_under(m.textures, t).contains(fire);
    assert(pred(m.fires[fire]));
    assert(changed.filter(pred).contains(m.fires[fire]));
    vstd::set_lib::lemma_set_empty_equivalency_len(changed.filter(pred));
}

/// A fire material is only told of changed textures it is filed under.
pub proof fn lemma_only_filed_fires_are_notified<K>(m: IndexModel<K>, changed: Set<K>, fire: K)
    requires
        changed.finite(),
        forall|t: K| changed.contains(t) ==> !filed_under(m.textures, t).contains(fire),
    ensures
        notification_count(m.textures, changed, fire) == 0,
{
    let pred = |t: K| filed_under(m.textures, t).contains(fire);
    assert(changed.filter(pred) =~= Set::empty());
}

/// A modification that leaves a fire material on the texture the index
/// already has for it changes nothing; so the notifications the index asks
/// for come back as events that leave it as it was.
pub proof fn lemma_unchanged_modification_is_idle<K>(m: IndexModel<K>, fire: K, texture: K)
    requires
        m.fires.contains_key(fire),
        m.fires[fire] == texture,
    ensures
        index_step(m, AssetEventKind::Modified, fire, Some(texture)) == m,
{
}

/// After a fire material is created on a texture, the index maps it to that
/// texture and a change of that texture notifies it.
pub proof fn lemma_created_fire_is_tracked<K>(m: IndexModel<K>, fire: K, texture: K)
    ensures
        index_step(m, AssetEventKind::Created, fire, Some(texture)).fires[fire] == texture,
        notification_count(
            index_step(m, AssetEventKind::Created, fire, Some(texture)).textures,
            set![texture],
            fire,
        ) == 1,
{
    let next = index_step(m, AssetEventKind::Created, fire, Some(texture));
    let pred = |t: K| filed_under(next.textures, t).contains(fire);
    assert(set![texture].filter(pred) =~= set![texture]);
}

/// After a fire material is removed, or modified to have no asset, the index
/// no longer tracks it.
pub proof fn lemma_removed_fire_is_forgotten<K>(m: IndexModel<K>, fire: K, texture: K)
    ensures
        !index_step(m, AssetEventKind::Removed, fire, Some(texture)).fires.contains_key(fire),
        !index_step(m, AssetEventKind::Modified, fire, None).fires.contains_key(fire),
{
}

/// One event on a fire material asset, with the texture that the asset
/// refers to when the event is handled (`None` where the asset is gone).
#[derive(Clone, Copy, Debug, PartialEq, Eq)]
pub struct FireEvent<K> {
    pub kind: AssetEventKind,
    pub fire: K,
    pub material_texture: Option<K>,
}

/// The index after handling `events` in order.
pub open spec fn index_after<K>(m: IndexModel<K>, events: Seq<FireEvent<K>>) -> IndexModel<K>
    decreases events.len(),
{
    if events.len() == 0 {
        m
    } else {
        let e = events.last();
        index_step(index_after(m, events.drop_last()), e.kind, e.fire, e.material_texture)
    }
}

/// Handling events one after the other keeps every tracked fire material
/// filed under its texture.
pub proof fn lemma_events_keep_link<K>(m: IndexModel<K>, events: Seq<FireEvent<K>>)
    requires
        linked(m),
    ensures
        linked(index_after(m, events)),
    decreases events.len(),
{
    if events.len() > 0 {
        let e = events.last();
        lemma_events_keep_link(m, events.drop_last());
        lemma_step_keeps_link(index_after(m, events.drop_last()), e.kind, e.fire, e.material_texture);
    }
}

/// A creation or modification that finds the fire material's asset on
/// texture `t` leaves the index mapping the fire to `t` and filed under it,
/// whether the fire was tracked before or not, and whatever other fires
/// share its textures.
pub proof fn lemma_event_with_asset_tracks_fire<K>(
    m: IndexModel<K>,
    kind: AssetEventKind,
    fire: K,
    t: K,
)
    requires
        linked(m),
        kind != AssetEventKind::Removed,
    ensures
        index_step(m, kind, fire, Some(t)).fires.contains_key(fire),
        index_step(m, kind, fire, Some(t)).fires[fire] == t,
        filed_under(index_step(m, kind, fire, Some(t)).textures, t).contains(fire),
{
    let n = index_step(m, kind, fire, Some(t));
    if kind == AssetEventKind::Modified && m.fires.contains_key(fire) && m.fires[fire] != t {
        let old_t = m.fires[fire];
        let mid = file_fire(m.textures, t, fire);
        assert(filed_under(mid, t).contains(fire));
        assert(filed_under(n.textures, t) == filed_under(mid, t));
    } else if kind == AssetEventKind::Modified && m.fires.contains_key(fire) {
        assert(n == m);
        assert(filed_under(m.textures, m.fires[fire]).contains(fire));
    }
}

/// An event on one fire material leaves every other fire material as it
/// was: tracked or not, on the same texture, filed under the same textures.
pub proof fn lemma_event_keeps_other_fires<K>(
    m: IndexModel<K>,
    kind: AssetEventKind,
    fire: K,
    material_texture: Option<K>,
    g: K,
    u: K,
)
    requires
        g != fire,
    ensures
        index_step(m, kind, fire, material_texture).fires.contains_key(g) == m.fires.contains_key(
            g,
        ),
        m.fires.contains_key(g) ==> index_step(m, kind, fire, material_texture).fires[g]
            == m.fires[g],
        filed_under(index_step(m, kind, fire, material_texture).textures, u).contains(g)
            == filed_under(m.textures, u).contains(g),
{
    lemma_filing_of_other_fire(m.textures, u, g, fire);
}

/// Filing or unfiling `fire` anywhere does not change where another fire
/// `g` is filed.
proof fn lemma_filing_of_other_fire<K>(textures: Map<K, Set<K>>, u: K, g: K, fire: K)
    requires
        g != fire,
    ensures
        forall|a: K|
            #[trigger] filed_under(file_fire(textures, a, fire), u).contains(g) == filed_under(
                textures,
                u,
            ).contains(g),
        forall|a: K|
            #[trigger] filed_under(unfile_fire(textures, a, fire), u).contains(g) == filed_under(
                textures,
                u,
            ).contains(g),
        forall|a: K, b: K|
            #[trigger] filed_under(unfile_fire(file_fire(textures, a, fire), b, fire), u).contains(g)
                == filed_under(textures, u).contains(g),
{
    assert forall|a: K| #[trigger]
        filed_under(file_fire(textures, a, fire), u).contains(g) == filed_under(textures, u).contains(
            g,
        ) by {
        if u == a {
            assert(file_fire(textures, a, fire)[a] == filed_under(textures, a).insert(fire));
        }
    }
    assert forall|a: K| #[trigger]
        filed_under(unfile_fire(textures, a, fire), u).contains(g) == filed_under(
            textures,
            u,
        ).contains(g) by {
        if u == a {
            assert(unfile_fire(textures, a, fire)[a] == filed_under(textures, a).remove(fire));
        }
    }
    assert forall|a: K, b: K| #[trigger]
        filed_under(unfile_fire(file_fire(textures, a, fire), b, fire), u).contains(g)
            == filed_under(textures, u).contains(g) by {
        let mid = file_fire(textures, a, fire);
        if u == a {
            assert(mid[a] == filed_under(textures, a).insert(fire));
        }
        if u == b {
            assert(unfile_fire(mid, b, fire)[b] == filed_under(mid, b).remove(fire));
        }
    }
}

/// Moving a fire material to a new texture takes it out of the texture it
/// was on, and leaves its filing under every third texture as it was.
pub proof fn lemma_retexture_moves_fire<K>(m: IndexModel<K>, fire: K, t: K, u: K)
    requires
        m.fires.contains_key(fire),
        m.fires[fire] != t,
    ensures
        !filed_under(
            index_step(m, AssetEventKind::Modified, fire, Some(t)).textures,
            m.fires[fire],
        ).contains(fire),
        u != t && u != m.fires[fire] ==> filed_under(
            index_step(m, AssetEventKind::Modified, fire, Some(t)).textures,
            u,
        ).contains(fire) == filed_under(m.textures, u).contains(fire),
{
    let old_t = m.fires[fire];
    let n = index_step(m, AssetEventKind::Modified, fire, Some(t));
    let mid = file_fire(m.textures, t, fire);
    assert(n.textures[old_t] == filed_under(mid, old_t).remove(fire));
    if u != t && u != old_t {
        assert(filed_under(mid, u) == filed_under(m.textures, u));
        assert(filed_under(n.textures, u) == filed_under(mid, u));
    }
}

/// Removing a fire material whose asset is on `t`, or modifying a tracked
/// fire material to have no asset, stops tracking it and takes it out of
/// that texture, leaving every other texture's filing of it alone.
pub proof fn lemma_untracking_events_unfile_fire<K>(m: IndexModel<K>, fire: K, t: K, u: K)
    ensures
        !index_step(m, AssetEventKind::Removed, fire, Some(t)).fires.contains_key(fire),
        !filed_under(index_step(m, AssetEventKind::Removed, fire, Some(t)).textures, t).contains(
            fire,
        ),
        u != t ==> filed_under(
            index_step(m, AssetEventKind::Removed, fire, Some(t)).textures,
            u,
        ).contains(fire) == filed_under(m.textures, u).contains(fire),
        !index_step(m, AssetEventKind::Modified, fire, None).fires.contains_key(fire),
        m.fires.contains_key(fire) ==> !filed_under(
            index_step(m, AssetEventKind::Modified, fire, None).textures,
            m.fires[fire],
        ).contains(fire),
        m.fires.contains_key(fire) && u != m.fires[fire] ==> filed_under(
            index_step(m, AssetEventKind::Modified, fire, None).textures,
            u,
        ).contains(fire) == filed_under(m.textures, u).contains(fire),
{
    let r = index_step(m, AssetEventKind::Removed, fire, Some(t));
    assert(r.textures[t] == filed_under(m.textures, t).remove(fire));
    if u != t {
        assert(filed_under(r.textures, u) == filed_under(m.textures, u));
    }
    if m.fires.contains_key(fire) {
        let o = m.fires[fire];
        let n = index_step(m, AssetEventKind::Modified, fire, None);
        assert(n.textures[o] == filed_under(m.textures, o).remove(fire));
        if u != o {
            assert(filed_under(n.textures, u) == filed_under(m.textures, u));
        }
    }
}

/// Events that find no asset for a fire the index cannot act on leave the
/// index as it was: a creation without asset, a removal without asset, and a
/// modification without asset of an untracked fire.
pub proof fn lemma_events_without_asset_are_idle<K>(m: IndexModel<K>, fire: K)
    ensures
        index_step(m, AssetEventKind::Created, fire, None) == m,
        index_step(m, AssetEventKind::Removed, fire, None) == m,
        !m.fires.contains_key(fire) ==> index_step(m, AssetEventKind::Modified, fire, None) == m,
{
}

/// No events leave the index as it was.
pub proof fn lemma_no_events_is_idle<K>(m: IndexModel<K>)
    ensures
        index_after(m, Seq::<FireEvent<K>>::empty()) == m,
{
}

/// Handling one more event after a run of events is handling that event on
/// the index the run left: every event of a round is handled, in order,
/// whatever came before it.
pub proof fn lemma_events_handled_in_order<K>(
    m: IndexModel<K>,
    events: Seq<FireEvent<K>>,
    e: FireEvent<K>,
)
    ensures
        index_after(m, events.push(e)) == index_step(
            index_after(m, events),
            e.kind,
            e.fire,
            e.material_texture,
        ),
{
    assert(events.push(e).drop_last() =~= events);
}

/// Handling two runs of events one after the other is handling their
/// concatenation.
pub proof fn lemma_events_compose<K>(
    m: IndexModel<K>,
    first: Seq<FireEvent<K>>,
    second: Seq<FireEvent<K>>,
)
    ensures
        index_after(m, first + second) == index_after(index_after(m, first), second),
    decreases second.len(),
{
    if second.len() == 0 {
        assert(first + second =~= first);
    } else {
        let e = second.last();
        lemma_events_compose(m, first, second.drop_last());
        assert((first + second).drop_last() =~= first + second.drop_last());
    }
}

/// How many of the textures in `changed` have `fire` filed under them.
pub open spec fn notification_count<K>(textures: Map<K, Set<K>>, changed: Set<K>, fire: K) -> nat {
    changed.filter(|t: K| filed_under(textures, t).contains(fire)).len()
}

/// How many entries of `ts` have `fire` filed under them.
pub open spec fn filed_count<K>(textures: Map<K, Set<K>>, ts: Seq<K>, fire: K) -> nat
    decreases ts.len(),
{
    if ts.len() == 0 {
        0
    } else {
        filed_count(textures, ts.drop_last(), fire) + if filed_under(textures, ts.last()).contains(
            fire,
        ) {
            1nat
        } else {
            0nat
        }
    }
}

/// Over a sequence without repeats, counting the entries is counting the
/// set they make up.
proof fn lemma_filed_count_of_distinct<K>(textures: Map<K, Set<K>>, ts: Seq<K>, fire: K)
    requires
        ts.no_duplicates(),
    ensures
        filed_count(textures, ts, fire) == notification_count(textures, ts.to_set(), fire),
    decreases ts.len(),
{
    let pred = |t: K| filed_under(textures, t).contains(fire);
    if ts.len() == 0 {
        assert(ts.to_set().filter(pred) =~= Set::empty());
    } else {
        let init = ts.drop_last();
        let last = ts.last();
        assert(init.no_duplicates());
        lemma_filed_count_of_distinct(textures, init, fire);
        assert(ts =~= init.push(last));
        init.lemma_push_to_set_commute(last);
        assert(!init.to_set().contains(last)) by {
            if init.to_set().contains(last) {
                let k = choose|k: int| 0 <= k < init.len() && init[k] == last;
                assert(ts[k] == ts[ts.len() - 1]);
            }
        }
        vstd::seq_lib::seq_to_set_is_finite(init);
        if pred(last) {
            assert(ts.to_set().filter(pred) =~= init.to_set().filter(pred).insert(last));
        } else {
            assert(ts.to_set().filter(pred) =~= init.to_set().filter(pred));
        }
    }
}

/// Appends every member of `fires` once.
fn push_members<K: Copy + Eq + Hash>(notified: &mut Vec<K>, fires: &HashSet<K>)
    requires
        lawful_key::<K>(),
    ensures
        forall|g: K|
            #[trigger] final(notified)@.to_multiset().count(g) == old(notified)@.to_multiset().count(g)
                + if fires@.contains(g) {
                1nat
            } else {
                0nat
            },
{
    broadcast use vstd::seq_lib::group_to_multiset_ensures;

    let ghost start = notified@;
    let members = set_members(fires);
    let mut i: usize = 0;
    while i < members.len()
        invariant
            0 <= i <= members.len(),
            members@.to_set() == fires@,
            members@.no_duplicates(),
            forall|g: K|
                #[trigger] notified@.to_multiset().count(g) == start.to_multiset().count(g)
                    + if members@.take(i as int).contains(g) {
                    1nat
                } else {
                    0nat
                },
        decreases members.len() - i,
    {
        let ghost before = notified@;
        let f = members[i];
        notified.push(f);
        proof {
            vstd::seq_lib::to_multiset_build(before, f);
            assert(members@.take(i + 1) =~= members@.take(i as int).push(f));
            assert(!members@.take(i as int).contains(f)) by {
                if members@.take(i as int).contains(f) {
                    let k = choose|k: int| 0 <= k < i && #[trigger] members@.take(i as int)[k] == f;
                    assert(members@[k] == members@[i as int]);
                }
            }
            assert forall|g: K| #[trigger] notified@.to_multiset().count(g) == start.to_multiset().count(g)
                + if members@.take(i + 1).contains(g) {
                1nat
            } else {
                0nat
            } by {
                assert(notified@.to_multiset() == before.to_multiset().insert(f));
                assert(before.to_multiset().count(g) == start.to_multiset().count(g)
                    + if members@.take(i as int).contains(g) {
                    1nat
                } else {
                    0nat
                });
                if g != f {
                    assert(members@.take(i + 1).contains(g) == members@.take(i as int).contains(g)) by {
                        if members@.take(i + 1).contains(g) {
                            let k = choose|k: int| 0 <= k < i + 1 && #[trigger] members@.take(i + 1)[k] == g;
                            assert(members@.take(i as int)[k] == g);
                        }
                    }
                } else {
                    assert(members@.take(i + 1)[i as int] == g);
                }
            }
        }
        i = i + 1;
    }
    assert(members@.take(members.len() as int) =~= members@);
}

/// The textures of `changed`, each once.
fn distinct_textures<K: Copy + Eq + Hash>(changed: &Vec<K>) -> (set: HashSet<K>)
    requires
        lawful_key::<K>(),
    ensures
        set@ == changed@.to_set(),
{
    let mut set: HashSet<K> = HashSet::default();
    let mut i: usize = 0;
    while i < changed.len()
        invariant
            lawful_key::<K>(),
            0 <= i <= changed.len(),
            set@ == changed@.take(i as int).to_set(),
        decreases changed.len() - i,
    {
        set_insert(&mut set, changed[i]);
        proof {
            assert(changed@.take(i + 1) =~= changed@.take(i as int).push(changed@[i as int]));
            changed@.take(i as int).lemma_push_to_set_commute(changed@[i as int]);
        }
        i = i + 1;
    }
    assert(changed@.take(changed.len() as int) =~= changed@);
    set
}

/// What the index needs of its key type: hashing and equality that agree
/// with equality of values.
pub open spec fn lawful_key<K: PartialEq>() -> bool {
    &&& obeys_key_model::<K>()
    &&& obeys_concrete_eq::<K>()
}

/// Keeps, for every texture, the set of fire materials that sample it, and
/// for every fire material the texture it samples.
#[verifier::reject_recursive_types(K)]
pub struct FireTextureIndex<K> {
    texture_to_fire: HashMap<K, HashSet<K>>,
    fire_to_texture: HashMap<K, K>,
}

impl<K: Copy + Eq + Hash> FireTextureIndex<K> {
    /// The index as two maps.
    pub closed spec fn model(self) -> IndexModel<K> {
        IndexModel {
            textures: self.texture_to_fire@.map_values(|s: HashSet<K>| s@),
            fires: self.fire_to_texture@,
        }
    }

    /// An index that knows of no texture and no fire material.
    pub fn new() -> (index: Self)
        ensures
            index.model().textures == Map::<K, Set<K>>::empty(),
            index.model().fires == Map::<K, K>::empty(),
            linked(index.model()),
    {
        let index = FireTextureIndex {
            texture_to_fire: HashMap::default(),
            fire_to_texture: HashMap::default(),
        };
        assert(index.model().textures =~= Map::<K, Set<K>>::empty());
        index
    }

    /// Files `fire` under `texture`, as the entry API's `or_default` and
    /// `insert` do.
    fn file(&mut self, texture: K, fire: K)
        requires
            lawful_key::<K>(),
        ensures
            final(self).model().textures == file_fire(old(self).model().textures, texture, fire),
            final(self).model().fires == old(self).model().fires,
    {
        let mut fires = match map_remove(&mut self.texture_to_fire, &texture) {
            Some(s) => s,
            None => HashSet::default(),
        };
        set_insert(&mut fires, fire);
        map_insert(&mut self.texture_to_fire, texture, fires);
        assert(self.model().textures =~= file_fire(old(self).model().textures, texture, fire));
    }

    /// Takes `fire` out of the entry of `texture`, as the entry API's
    /// `or_default` and `remove` do.
    fn unfile(&mut self, texture: K, fire: K)
        requires
            lawful_key::<K>(),
        ensures
            final(self).model().textures == unfile_fire(old(self).model().textures, texture, fire),
            final(self).model().fires == old(self).model().fires,
    {
        let mut fires = match map_remove(&mut self.texture_to_fire, &texture) {
            Some(s) => s,
            None => HashSet::default(),
        };
        set_remove(&mut fires, &fire);
        map_insert(&mut self.texture_to_fire, texture, fires);
        assert(self.model().textures =~= unfile_fire(old(self).model().textures, texture, fire));
    }

    /// Brings the index up to date with one event on the fire material
    /// `fire`; `material_texture` is the texture that the material's asset
    /// refers to when the event is handled, `None` where the asset is gone.
    pub fn handle_fire_event(&mut self, kind: AssetEventKind, fire: K, material_texture: Option<K>)
        requires
            lawful_key::<K>(),
        ensures
            final(self).model() == index_step(old(self).model(), kind, fire, material_texture),
            linked(old(self).model()) ==> linked(final(self).model()),
    {
        proof {
            if linked(self.model()) {
                lemma_step_keeps_link(self.model(), kind, fire, material_texture);
            }
        }
        let recorded: Option<K> = match map_get(&self.fire_to_texture, &fire) {
            Some(t) => Some(*t),
            None => None,
        };
        assert(recorded == (if self.model().fires.contains_key(fire) {
            Some(self.model().fires[fire])
        } else {
            None::<K>
        }));
        match kind {
            AssetEventKind::Created => {
                if let Some(t) = material_texture {
                    map_insert(&mut self.fire_to_texture, fire, t);
                    self.file(t, fire);
                }
            },
            AssetEventKind::Modified => {
                match (material_texture, recorded) {
                    (None, None) => {},
                    (Some(t), None) => {
                        map_insert(&mut self.fire_to_texture, fire, t);
                        self.file(t, fire);
                    },
                    (None, Some(old_t)) => {
                        map_remove(&mut self.fire_to_texture, &fire);
                        self.unfile(old_t, fire);
                    },
                    (Some(new_t), Some(old_t)) => {
                        proof {
                            reveal(obeys_concrete_eq);
                        }
                        if old_t != new_t {
                            map_insert(&mut self.fire_to_texture, fire, new_t);
                            self.file(new_t, fire);
                            self.unfile(old_t, fire);
                        }
                    },
                }
            },
            AssetEventKind::Removed => {
                if let Some(t) = material_texture {
                    map_remove(&mut self.fire_to_texture, &fire);
                    self.unfile(t, fire);
                }
            },
        }
    }

    /// The fire materials to tell that their texture changed, given the
    /// textures that changed (repeats allowed): each material once for every
    /// distinct changed texture it is filed under, in no particular order.
    pub fn fires_to_notify(&self, changed_textures: &Vec<K>) -> (notified: Vec<K>)
        requires
            lawful_key::<K>(),
        ensures
            forall|fire: K|
                #[trigger] notified@.to_multiset().count(fire) == notification_count(
                    self.model().textures,
                    changed_textures@.to_set(),
                    fire,
                ),
    {
        broadcast use vstd::seq_lib::group_to_multiset_ensures;

        let changed = distinct_textures(changed_textures);
        let ghost textures = self.model().textures;
        let order = set_members(&changed);
        let mut notified: Vec<K> = Vec::new();
        assert(notified@.to_multiset() =~= vstd::multiset::Multiset::empty());
        let mut i: usize = 0;
        while i < order.len()
            invariant
                lawful_key::<K>(),
                0 <= i <= order.len(),
                textures == self.model().textures,
                forall|fire: K|
                    #[trigger] notified@.to_multiset().count(fire) == filed_count(
                        textures,
                        order@.take(i as int),
                        fire,
                    ),
            decreases order.len() - i,
        {
            let ghost before = notified@;
            let t = order[i];
            match map_get(&self.texture_to_fire, &t) {
                Some(fires) => {
                    assert(fires@ == filed_under(textures, t));
                    push_members(&mut notified, fires);
                },
                None => {
                    assert(filed_under(textures, t) == Set::<K>::empty());
                },
            }
            assert forall|fire: K| #[trigger] notified@.to_multiset().count(fire) == filed_count(
                textures,
                order@.take(i + 1),
                fire,
            ) by {
                assert(order@.take(i + 1).drop_last() =~= order@.take(i as int));
                assert(order@.take(i + 1).last() == t);
                assert(before.to_multiset().count(fire) == filed_count(textures, order@.take(i as int), fire));
            }
            i = i + 1;
        }
        proof {
            assert(order@.take(order.len() as int) =~= order@);
            assert forall|fire: K| #[trigger] notified@.to_multiset().count(fire) == notification_count(
                textures,
                changed_textures@.to_set(),
                fire,
            ) by {
                lemma_filed_count_of_distinct(textures, order@, fire);
            }
        }
        notified
    }
    /// One round of detection: brings the index up to date with the fire
    /// material events in order, then returns the fire materials to tell
    /// that their texture changed, as `fires_to_notify` does on the updated
    /// index.
    pub fn fire_texture_detection(
        &mut self,
        fire_events: &Vec<FireEvent<K>>,
        changed_textures: &Vec<K>,
    ) -> (notified: Vec<K>)
        requires
            lawful_key::<K>(),
        ensures
            final(self).model() == index_after(old(self).model(), fire_events@),
            linked(old(self).model()) ==> linked(final(self).model()),
            forall|fire: K|
                #[trigger] notified@.to_multiset().count(fire) == notification_count(
                    final(self).model().textures,
                    changed_textures@.to_set(),
                    fire,
                ),
    {
        let ghost start = self.model();
        let mut i: usize = 0;
        while i < fire_events.len()
            invariant
                lawful_key::<K>(),
                0 <= i <= fire_events.len(),
                self.model() == index_after(start, fire_events@.take(i as int)),
            decreases fire_events.len() - i,
        {
            let e = fire_events[i];
            self.handle_fire_event(e.kind, e.fire, e.material_texture);
            assert(fire_events@.take(i + 1).drop_last() =~= fire_events@.take(i as int));
            i = i + 1;
        }
        assert(fire_events@.take(fire_events.len() as int) =~= fire_events@);
        proof {
            if linked(start) {
                lemma_events_keep_link(start, fire_events@);
            }
        }
        self.fires_to_notify(changed_textures)
    }
}

impl<K: Copy + Eq + Hash> Default for FireTextureIndex<K> {
    /// The empty index, as `new` gives it.
    fn default() -> (index: Self)
        ensures
            index.model().textures == Map::<K, Set<K>>::empty(),
            index.model().fires == Map::<K, K>::empty(),
            linked(index.model()),
    {
        Self::new()
    }
}

} // verus!
