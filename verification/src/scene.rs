//! Shared scene state: what the OSC thread writes and the UI thread reads.
//!
//! Positions are kept in the layout frame (x right, y front, z up, normalized
//! to `[-1, 1]`), which is also the frame the renderer speaks on the wire. The
//! scene only stores them, so each coordinate is held as the bits of its
//! `f32`. Times are readings of a monotonic clock kept by the caller.

use std::collections::BTreeMap;
use vstd::prelude::*;
use crate::text::{decimal, push_decimal, string_of};

verus! {

/// A rendered object.
#[derive(Debug)]
pub struct SceneObject {
    pub id: u32,
    /// The bits of the `f32` coordinates x, y and z.
    pub pos: [u32; 3],
    pub label: String,
    /// Fixed-channel (bed) object as flagged by `/omniphony/object/<id>/meta`.
    pub fixed: bool,
    /// When the renderer last reported the object.
    pub last_seen: u64,
}

pub struct ObjectView {
    pub id: u32,
    pub pos: [u32; 3],
    pub label: Seq<char>,
    pub fixed: bool,
    pub last_seen: u64,
}

impl View for SceneObject {
    type V = ObjectView;

    open spec fn view(&self) -> ObjectView {
        ObjectView {
            id: self.id,
            pos: self.pos,
            label: self.label@,
            fixed: self.fixed,
            last_seen: self.last_seen,
        }
    }
}

/// A loudspeaker of the current layout.
#[derive(Debug)]
pub struct Speaker {
    pub name: String,
    /// The bits of the `f32` coordinates x, y and z.
    pub pos: [u32; 3],
    pub spatialize: bool,
}

#[derive(Debug)]
pub struct Scene {
    pub objects: BTreeMap<u32, SceneObject>,
    pub speakers: Vec<Speaker>,
    pub layout_name: String,
}

/// The objects of a scene, as plain values.
pub open spec fn objects_view(m: Map<u32, SceneObject>) -> Map<u32, ObjectView> {
    m.map_values(|o: SceneObject| o@)
}

pub open spec fn opt_chars(name: Option<&str>) -> Option<Seq<char>> {
    match name {
        Some(n) => Some(n@),
        None => None,
    }
}

/// The label of an object the renderer has not named: `#` and its id.
pub open spec fn default_label(id: u32) -> Seq<char> {
    seq!['#'] + decimal(id as nat)
}

/// The object after a position report.
pub open spec fn moved(
    prev: Option<ObjectView>,
    id: u32,
    pos: [u32; 3],
    name: Option<Seq<char>>,
    now: u64,
) -> ObjectView {
    match prev {
        Some(o) => ObjectView {
            pos,
            last_seen: now,
            label: match name {
                Some(n) => n,
                None => o.label,
            },
            ..o
        },
        None => ObjectView {
            id,
            pos,
            label: match name {
                Some(n) => n,
                None => default_label(id),
            },
            fixed: false,
            last_seen: now,
        },
    }
}

/// The object after a metadata report.
pub open spec fn described(
    prev: Option<ObjectView>,
    id: u32,
    fixed: bool,
    label: Option<Seq<char>>,
    now: u64,
) -> ObjectView {
    let o = match prev {
        Some(o) => o,
        None => ObjectView { id, pos: [0u32, 0u32, 0u32], label: default_label(id), fixed, last_seen: now },
    };
    ObjectView {
        fixed,
        label: match label {
            Some(l) => l,
            None => o.label,
        },
        ..o
    }
}

/// How long ago `then` was at `now`; zero when `then` is later.
pub open spec fn age(now: u64, then: u64) -> int {
    if now >= then {
        now - then
    } else {
        0
    }
}

/// The objects reported less than `older_than` ago.
pub open spec fn still_live(m: Map<u32, ObjectView>, now: u64, older_than: u64) -> Map<u32, ObjectView> {
    m.restrict(m.dom().filter(|k: u32| age(now, m[k].last_seen) < older_than))
}

pub open spec fn lookup(m: Map<u32, ObjectView>, id: u32) -> Option<ObjectView> {
    if m.contains_key(id) {
        Some(m[id])
    } else {
        None
    }
}

/// Object ids are `u32`, whose order std defines, so the map's contracts apply.
proof fn lemma_ids_are_ordered()
    ensures
        vstd::laws_cmp::obeys_cmp::<u32>(),
        vstd::std_specs::btree::key_obeys_cmp_spec::<u32>(),
{
    broadcast use vstd::std_specs::btree::group_btree_axioms, vstd::laws_cmp::group_laws_cmp;

}

fn default_label_exec(id: u32) -> (s: String)
    ensures
        s@ == default_label(id),
{
    let mut v: Vec<char> = Vec::new();
    v.push('#');
    push_decimal(&mut v, id as u64);
    string_of(&v)
}

fn label_of(name: Option<&str>, otherwise: String) -> (s: String)
    ensures
        s@ == match name {
            Some(n) => n@,
            None => otherwise@,
        },
{
    match name {
        Some(n) => n.to_owned(),
        None => otherwise,
    }
}

impl Scene {
    pub fn new() -> (s: Scene)
        ensures
            s.objects@ == Map::<u32, SceneObject>::empty(),
            s.speakers@.len() == 0,
            s.layout_name@.len() == 0,
    {
        Scene { objects: BTreeMap::new(), speakers: Vec::new(), layout_name: String::new() }
    }

    /// A position report: the object moves and is seen `now`; a name given
    /// with the report replaces its label. An unknown id becomes a new,
    /// unfixed object labelled with the name, or `#` and its id.
    pub fn upsert_position(&mut self, id: u32, pos: [u32; 3], name: Option<&str>, now: u64)
        ensures
            objects_view(final(self).objects@) == objects_view(old(self).objects@).insert(
                id,
                moved(lookup(objects_view(old(self).objects@), id), id, pos, opt_chars(name), now),
            ),
            final(self).speakers@ == old(self).speakers@,
            final(self).layout_name@ == old(self).layout_name@,
    {
        broadcast use vstd::std_specs::btree::group_btree_axioms;

        proof {
            lemma_ids_are_ordered();
        }

        let next = match self.objects.get(&id) {
            Some(o) => SceneObject {
                id: o.id,
                pos,
                label: label_of(name, o.label.clone()),
                fixed: o.fixed,
                last_seen: now,
            },
            None => SceneObject {
                id,
                pos,
                label: label_of(name, default_label_exec(id)),
                fixed: false,
                last_seen: now,
            },
        };
        let ghost before = self.objects@;
        self.objects.insert(id, next);
        assert(objects_view(self.objects@) =~= objects_view(before).insert(id, next@));
    }

    /// A metadata report: the object's fixed flag, and its label when one is
    /// given. An unknown id becomes a new object at the origin, seen `now`.
    pub fn upsert_meta(&mut self, id: u32, fixed: bool, label: Option<&str>, now: u64)
        ensures
            objects_view(final(self).objects@) == objects_view(old(self).objects@).insert(
                id,
                described(lookup(objects_view(old(self).objects@), id), id, fixed, opt_chars(label), now),
            ),
            final(self).speakers@ == old(self).speakers@,
            final(self).layout_name@ == old(self).layout_name@,
    {
        broadcast use vstd::std_specs::btree::group_btree_axioms;

        proof {
            lemma_ids_are_ordered();
        }

        let next = match self.objects.get(&id) {
            Some(o) => SceneObject {
                id: o.id,
                pos: o.pos,
                label: label_of(label, o.label.clone()),
                fixed,
                last_seen: o.last_seen,
            },
            None => SceneObject {
                id,
                pos: [0, 0, 0],
                label: label_of(label, default_label_exec(id)),
                fixed,
                last_seen: now,
            },
        };
        let ghost before = self.objects@;
        self.objects.insert(id, next);
        assert(objects_view(self.objects@) =~= objects_view(before).insert(id, next@));
    }

    /// Drop the objects that stopped updating: those last seen `older_than`
    /// or more before `now`. The real Studio also gets explicit removals; the
    /// timeout is the safety net for a renderer that vanished.
    pub fn prune(&mut self, now: u64, older_than: u64)
        ensures
            objects_view(final(self).objects@) == still_live(objects_view(old(self).objects@), now, older_than),
            final(self).speakers@ == old(self).speakers@,
            final(self).layout_name@ == old(self).layout_name@,
    {
        broadcast use vstd::std_specs::btree::group_btree_axioms;

        proof {
            lemma_ids_are_ordered();
        }

        let ghost m0 = self.objects@;
        let mut stale: Vec<u32> = Vec::new();
        for entry in it: self.objects.iter()
            invariant
                self.objects@ == m0,
                self.speakers@ == old(self).speakers@,
                self.layout_name@ == old(self).layout_name@,
                forall|k: u32| #[trigger] m0.contains_key(k) ==> it.seq().contains((&k, &m0[k])),
                it.index() <= it.seq().len(),
                it.index() == it.seq().len() ==> forall|k: u32|
                    m0.contains_key(k) && age(now, m0[k].last_seen) >= older_than ==> #[trigger] stale@.contains(k),
                forall|j: int| 0 <= j < stale@.len() ==> {
                    &&& m0.contains_key(#[trigger] stale@[j])
                    &&& age(now, m0[stale@[j]].last_seen) >= older_than
                },
                forall|i: int| 0 <= i < it.index() ==> {
                    let k = *(#[trigger] it.seq()[i]).0;
                    age(now, m0[k].last_seen) >= older_than ==> stale@.contains(k)
                },
        {
            assert(entry == it.seq()[it.index() as int]);
            let (k, o) = entry;
            let seen = o.last_seen;
            let elapsed: u64 = if now >= seen { now - seen } else { 0 };
            let ghost before = stale@;
            if elapsed >= older_than {
                stale.push(*k);
            }
            proof {
                let idx = it.index() as int;
                assert forall|x: u32| before.contains(x) implies stale@.contains(x) by {
                    let j = choose|j: int| 0 <= j < before.len() && before[j] == x;
                    assert(stale@[j] == x);
                }
                if elapsed >= older_than {
                    assert(stale@[stale@.len() - 1] == *k);
                }
                assert forall|i: int| 0 <= i < idx + 1 implies {
                    let k2 = *(#[trigger] it.seq()[i]).0;
                    age(now, m0[k2].last_seen) >= older_than ==> stale@.contains(k2)
                } by {
                    if i < idx {
                        let k2 = *it.seq()[i].0;
                        if age(now, m0[k2].last_seen) >= older_than {
                            assert(before.contains(k2));
                        }
                    }
                }
                assert forall|x: u32|
                    idx + 1 == it.seq().len() && m0.contains_key(x) && age(now, m0[x].last_seen) >= older_than implies
                        #[trigger] stale@.contains(x) by {
                    assert(it.seq().contains((&x, &m0[x])));
                    let i = choose|i: int| 0 <= i < it.seq().len() && it.seq()[i] == (&x, &m0[x]);
                    assert(*it.seq()[i].0 == x);
                }
            }
        }
        let mut i: usize = 0;
        while i < stale.len()
            invariant
                0 <= i <= stale@.len(),
                self.speakers@ == old(self).speakers@,
                self.layout_name@ == old(self).layout_name@,
                forall|k: u32| #[trigger] self.objects@.contains_key(k) <==> (m0.contains_key(k) && !stale@.take(i as int).contains(k)),
                forall|k: u32| self.objects@.contains_key(k) ==> #[trigger] self.objects@[k] == m0[k],
            decreases stale@.len() - i,
        {
            let k = stale[i];
            self.objects.remove(&k);
            proof {
                let t0 = stale@.take(i as int);
                let t1 = stale@.take(i + 1);
                assert forall|x: u32| t1.contains(x) <==> (t0.contains(x) || x == k) by {
                    if t1.contains(x) {
                        let j = choose|j: int| 0 <= j < t1.len() && t1[j] == x;
                        if j < i {
                            assert(t0[j] == x);
                        }
                    }
                    if t0.contains(x) {
                        let j = choose|j: int| 0 <= j < t0.len() && t0[j] == x;
                        assert(t1[j] == x);
                    }
                    if x == k {
                        assert(t1[i as int] == x);
                    }
                }
            }
            i = i + 1;
        }
        proof {
            assert(stale@.take(stale@.len() as int) =~= stale@);
            let live = still_live(objects_view(m0), now, older_than);
            assert forall|k: u32| #[trigger] objects_view(self.objects@).contains_key(k) <==> live.contains_key(k) by {
                if m0.contains_key(k) && stale@.contains(k) {
                    let j = choose|j: int| 0 <= j < stale@.len() && stale@[j] == k;
                    assert(age(now, m0[stale@[j]].last_seen) >= older_than);
                }
            }
            assert(objects_view(self.objects@) =~= live);
        }
    }

    /// An explicit removal.
    pub fn remove(&mut self, id: u32)
        ensures
            objects_view(final(self).objects@) == objects_view(old(self).objects@).remove(id),
            final(self).speakers@ == old(self).speakers@,
            final(self).layout_name@ == old(self).layout_name@,
    {
        broadcast use vstd::std_specs::btree::group_btree_axioms;

        proof {
            lemma_ids_are_ordered();
        }

        let ghost before = self.objects@;
        self.objects.remove(&id);
        assert(objects_view(self.objects@) =~= objects_view(before).remove(id));
    }
}

} // verus!
