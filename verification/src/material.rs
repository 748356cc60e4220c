//! Materials: the set of texture bindings of a drawable, keyed by texture
//! slot. Materials are both shading state and the draw-batching key, so they
//! come with a decidable equality and a total order used to sort draw
//! submissions.

use vstd::prelude::*;

verus! {

/// One texture binding: a shader slot and the shared texture bound to it.
#[derive(Clone, Copy, Debug, PartialEq, Eq, Structural)]
pub struct MaterialSlot {
    pub slot: u32,
    pub texture: u64,
}

/// Strict order on single bindings: by slot, then by texture handle.
pub open spec fn slot_lt(a: MaterialSlot, b: MaterialSlot) -> bool {
    a.slot < b.slot || (a.slot == b.slot && a.texture < b.texture)
}

/// Lexicographic strict order on binding lists; a proper prefix is smaller.
pub open spec fn slots_lt(a: Seq<MaterialSlot>, b: Seq<MaterialSlot>) -> bool
    decreases a.len(),
{
    if b.len() == 0 {
        false
    } else if a.len() == 0 {
        true
    } else if a[0] == b[0] {
        slots_lt(a.drop_first(), b.drop_first())
    } else {
        slot_lt(a[0], b[0])
    }
}

/// Of two binding lists, at least one of "smaller", "equal", "greater" holds.
pub proof fn lemma_slots_total(a: Seq<MaterialSlot>, b: Seq<MaterialSlot>)
    ensures
        slots_lt(a, b) || slots_lt(b, a) || a =~= b,
    decreases a.len(),
{
    if b.len() == 0 || a.len() == 0 {
    } else if a[0] == b[0] {
        lemma_slots_total(a.drop_first(), b.drop_first());
        if !slots_lt(a, b) && !slots_lt(b, a) {
            assert(slots_lt(a, b) == slots_lt(a.drop_first(), b.drop_first()));
            assert(slots_lt(b, a) == slots_lt(b.drop_first(), a.drop_first()));
            assert(a.drop_first() =~= b.drop_first());
            assert forall|k: int| 0 <= k < a.len() implies a[k] == b[k] by {
                if k > 0 {
                    assert(a[k] == a.drop_first()[k - 1]);
                    assert(b[k] == b.drop_first()[k - 1]);
                }
            }
            assert(a =~= b);
        }
    }
}

/// The order on binding lists is irreflexive.
pub proof fn lemma_slots_lt_irrefl(a: Seq<MaterialSlot>)
    ensures
        !slots_lt(a, a),
    decreases a.len(),
{
    if a.len() > 0 {
        lemma_slots_lt_irrefl(a.drop_first());
    }
}

/// The order on binding lists is transitive.
pub proof fn lemma_slots_lt_trans(a: Seq<MaterialSlot>, b: Seq<MaterialSlot>, c: Seq<MaterialSlot>)
    requires
        slots_lt(a, b),
        slots_lt(b, c),
    ensures
        slots_lt(a, c),
    decreases a.len(),
{
    if a.len() == 0 {
    } else if b.len() == 0 || c.len() == 0 {
    } else {
        if a[0] == b[0] && b[0] == c[0] {
            lemma_slots_lt_trans(a.drop_first(), b.drop_first(), c.drop_first());
        }
    }
}

/// A material: bindings sorted strictly by slot, so that each slot occurs at
/// most once and equal materials have identical representations.
#[derive(Clone, Debug)]
pub struct Material {
    slots: Vec<MaterialSlot>,
}

impl Material {
    /// The binding list, in increasing slot order.
    pub closed spec fn bindings(&self) -> Seq<MaterialSlot> {
        self.slots@
    }

    /// Bindings are strictly ordered by slot.
    pub open spec fn wf(&self) -> bool {
        forall|i: int, j: int|
            0 <= i < j < self.bindings().len() ==> self.bindings()[i].slot < self.bindings()[j].slot
    }

    /// The slot-to-texture mapping this material denotes.
    pub open spec fn slot_map(&self) -> Map<u32, u64> {
        Map::new(
            |s: u32| exists|i: int| 0 <= i < self.bindings().len() && self.bindings()[i].slot == s,
            |s: u32|
                self.bindings()[choose|i: int|
                    0 <= i < self.bindings().len() && self.bindings()[i].slot == s].texture,
        )
    }

    /// A material with no texture bound.
    pub fn new() -> (r: Material)
        ensures
            r.bindings() == Seq::<MaterialSlot>::empty(),
            r.wf(),
    {
        Material { slots: Vec::new() }
    }

    /// How many slots have a texture bound.
    pub fn bindings_len(&self) -> (r: usize)
        ensures
            r == self.bindings().len(),
    {
        self.slots.len()
    }

    /// The binding at position `i` of the slot-ordered binding list.
    pub fn binding_at(&self, i: usize) -> (r: MaterialSlot)
        requires
            i < self.bindings().len(),
        ensures
            r == self.bindings()[i as int],
    {
        self.slots[i]
    }

    /// The texture bound to `slot`, if any.
    pub fn texture_for(&self, slot: u32) -> (r: Option<u64>)
        requires
            self.wf(),
        ensures
            r is Some <==> self.slot_map().dom().contains(slot),
            r is Some ==> r.unwrap() == self.slot_map()[slot],
    {
        let n = self.slots.len();
        let mut i: usize = 0;
        while i < n
            invariant
                n == self.bindings().len(),
                0 <= i <= n,
                self.wf(),
                forall|k: int| 0 <= k < i ==> self.bindings()[k].slot != slot,
            decreases n - i,
        {
            if self.slots[i].slot == slot {
                proof {
                    let w = choose|k: int|
                        0 <= k < self.bindings().len() && self.bindings()[k].slot == slot;
                    assert(self.bindings()[i as int].slot == slot);
                    assert(w == i as int);
                }
                return Some(self.slots[i].texture);
            }
            i += 1;
        }
        proof {
            if self.slot_map().dom().contains(slot) {
                let w = choose|k: int|
                    0 <= k < self.bindings().len() && self.bindings()[k].slot == slot;
                assert(self.bindings()[w].slot == slot);
            }
        }
        None
    }

    /// Binds `texture` to `slot`, replacing any texture already bound there.
    pub fn add_texture(&mut self, slot: u32, texture: u64)
        requires
            old(self).wf(),
        ensures
            final(self).wf(),
            final(self).slot_map() == old(self).slot_map().insert(slot, texture),
    {
        let n = self.slots.len();
        let mut i: usize = 0;
        while i < n && self.slots[i].slot < slot
            invariant
                *self == *old(self),
                n == self.bindings().len(),
                0 <= i <= n,
                self.wf(),
                forall|k: int| 0 <= k < i ==> self.bindings()[k].slot < slot,
            decreases n - i,
        {
            i += 1;
        }
        if i < n && self.slots[i].slot == slot {
            self.slots[i] = MaterialSlot { slot, texture };
            proof {
                assert(self.bindings() =~= old(self).bindings().update(
                    i as int,
                    MaterialSlot { slot, texture },
                ));
                lemma_sorted_map_insert(old(self).bindings(), self.bindings(), i as int, slot, texture);
            }
            return;
        }
        let ghost pos = i as int;
        self.slots.insert(i, MaterialSlot { slot, texture });
        proof {
            old(self).bindings().insert_ensures(pos, MaterialSlot { slot, texture });
            assert forall|k: int| 0 <= k < old(self).bindings().len() implies old(
                self,
            ).bindings()[k].slot != slot by {
                if k >= pos {
                    assert(old(self).bindings()[pos].slot > slot);
                }
            }
            assert forall|p: int, q: int|
                0 <= p < q < self.bindings().len() implies self.bindings()[p].slot
                < self.bindings()[q].slot by {
                if p < pos && q < pos {
                } else if p == pos {
                    assert(self.bindings()[q] == old(self).bindings()[q - 1]);
                    assert(old(self).bindings()[q - 1].slot > slot);
                } else if q == pos {
                    assert(self.bindings()[p] == old(self).bindings()[p]);
                } else if p < pos {
                    assert(self.bindings()[p] == old(self).bindings()[p]);
                    assert(self.bindings()[q] == old(self).bindings()[q - 1]);
                } else {
                    assert(self.bindings()[p] == old(self).bindings()[p - 1]);
                    assert(self.bindings()[q] == old(self).bindings()[q - 1]);
                }
            }
            lemma_sorted_map_grow(old(self).bindings(), self.bindings(), pos, slot, texture);
        }
    }
}

/// After replacing the binding at `i` (whose slot is `slot`) with `texture`,
/// a strictly sorted binding list denotes the updated mapping.
proof fn lemma_sorted_map_insert(
    olds: Seq<MaterialSlot>,
    news: Seq<MaterialSlot>,
    i: int,
    slot: u32,
    texture: u64,
)
    requires
        0 <= i < olds.len(),
        olds[i].slot == slot,
        news =~= olds.update(i, MaterialSlot { slot, texture }),
        forall|p: int, q: int| 0 <= p < q < olds.len() ==> olds[p].slot < olds[q].slot,
    ensures
        (Map::new(
            |s: u32| exists|k: int| 0 <= k < news.len() && news[k].slot == s,
            |s: u32| news[choose|k: int| 0 <= k < news.len() && news[k].slot == s].texture,
        )) == (Map::new(
            |s: u32| exists|k: int| 0 <= k < olds.len() && olds[k].slot == s,
            |s: u32| olds[choose|k: int| 0 <= k < olds.len() && olds[k].slot == s].texture,
        )).insert(slot, texture),
{
    let m_new = Map::new(
        |s: u32| exists|k: int| 0 <= k < news.len() && news[k].slot == s,
        |s: u32| news[choose|k: int| 0 <= k < news.len() && news[k].slot == s].texture,
    );
    let m_old = Map::new(
        |s: u32| exists|k: int| 0 <= k < olds.len() && olds[k].slot == s,
        |s: u32| olds[choose|k: int| 0 <= k < olds.len() && olds[k].slot == s].texture,
    );
    assert forall|s: u32| m_new.dom().contains(s) implies m_old.insert(slot, texture).dom().contains(
        s,
    ) && m_new[s] == m_old.insert(slot, texture)[s] by {
        let k = choose|k: int| 0 <= k < news.len() && news[k].slot == s;
        if s == slot {
            assert(k == i);
        } else {
            assert(olds[k].slot == s);
            let k2 = choose|k2: int| 0 <= k2 < olds.len() && olds[k2].slot == s;
            assert(k2 == k);
        }
    }
    assert forall|s: u32| m_old.insert(slot, texture).dom().contains(s) implies m_new.dom().contains(
        s,
    ) by {
        if s == slot {
            assert(news[i].slot == s);
        } else {
            let k = choose|k: int| 0 <= k < olds.len() && olds[k].slot == s;
            assert(news[k].slot == s);
        }
    }
    assert(m_new =~= m_old.insert(slot, texture));
}

/// After inserting a fresh binding at position `i` of a strictly sorted
/// binding list, the list denotes the mapping extended with that binding.
proof fn lemma_sorted_map_grow(
    olds: Seq<MaterialSlot>,
    news: Seq<MaterialSlot>,
    i: int,
    slot: u32,
    texture: u64,
)
    requires
        0 <= i <= olds.len(),
        news =~= olds.insert(i, MaterialSlot { slot, texture }),
        forall|k: int| 0 <= k < olds.len() ==> olds[k].slot != slot,
        forall|p: int, q: int| 0 <= p < q < olds.len() ==> olds[p].slot < olds[q].slot,
    ensures
        (Map::new(
            |s: u32| exists|k: int| 0 <= k < news.len() && news[k].slot == s,
            |s: u32| news[choose|k: int| 0 <= k < news.len() && news[k].slot == s].texture,
        )) == (Map::new(
            |s: u32| exists|k: int| 0 <= k < olds.len() && olds[k].slot == s,
            |s: u32| olds[choose|k: int| 0 <= k < olds.len() && olds[k].slot == s].texture,
        )).insert(slot, texture),
{
    let m_new = Map::new(
        |s: u32| exists|k: int| 0 <= k < news.len() && news[k].slot == s,
        |s: u32| news[choose|k: int| 0 <= k < news.len() && news[k].slot == s].texture,
    );
    let m_old = Map::new(
        |s: u32| exists|k: int| 0 <= k < olds.len() && olds[k].slot == s,
        |s: u32| olds[choose|k: int| 0 <= k < olds.len() && olds[k].slot == s].texture,
    );
    assert forall|s: u32| m_new.dom().contains(s) implies m_old.insert(slot, texture).dom().contains(
        s,
    ) && m_new[s] == m_old.insert(slot, texture)[s] by {
        let k = choose|k: int| 0 <= k < news.len() && news[k].slot == s;
        if s == slot {
            assert(news[i].slot == slot);
            assert(k == i) by {
                if k < i {
                    assert(olds[k].slot == s);
                } else if k > i {
                    assert(olds[k - 1].slot == s);
                }
            }
        } else {
            assert(k != i);
            let ko: int = if k < i { k } else { k - 1 };
            assert(olds[ko].slot == s);
            let k2 = choose|k2: int| 0 <= k2 < olds.len() && olds[k2].slot == s;
            assert(olds[k2].slot == olds[ko].slot);
            assert(k2 == ko);
        }
    }
    assert forall|s: u32| m_old.insert(slot, texture).dom().contains(s) implies m_new.dom().contains(
        s,
    ) by {
        if s == slot {
            assert(news[i].slot == s);
        } else {
            let k = choose|k: int| 0 <= k < olds.len() && olds[k].slot == s;
            let kn: int = if k < i { k } else { k + 1 };
            assert(news[kn].slot == s);
        }
    }
    assert(m_new =~= m_old.insert(slot, texture));
}

impl PartialEq for Material {
    /// Two materials are equal when they bind the same textures to the same
    /// slots.
    fn eq(&self, other: &Material) -> (r: bool) {
        if self.slots.len() != other.slots.len() {
            assert(self.bindings() != other.bindings());
            return false;
        }
        let n = self.slots.len();
        let mut i: usize = 0;
        while i < n
            invariant
                n == self.bindings().len(),
                n == other.bindings().len(),
                0 <= i <= n,
                forall|k: int| 0 <= k < i ==> self.bindings()[k] == other.bindings()[k],
            decreases n - i,
        {
            let a = self.slots[i];
            let b = other.slots[i];
            if a.slot != b.slot || a.texture != b.texture {
                assert(self.bindings()[i as int] != other.bindings()[i as int]);
                return false;
            }
            i += 1;
        }
        proof {
            assert(self.bindings() =~= other.bindings());
        }
        true
    }
}

impl Eq for Material {

}

impl vstd::std_specs::cmp::PartialEqSpecImpl for Material {
    open spec fn obeys_eq_spec() -> bool {
        true
    }

    open spec fn eq_spec(&self, other: &Material) -> bool {
        self.bindings() == other.bindings()
    }
}

/// Strict total order on materials, used to group equal materials when
/// sorting draw submissions.
pub open spec fn material_lt(a: &Material, b: &Material) -> bool {
    slots_lt(a.bindings(), b.bindings())
}

/// Decides `material_lt`.
pub fn material_before(a: &Material, b: &Material) -> (r: bool)
    ensures
        r == material_lt(a, b),
{
    let an = a.slots.len();
    let bn = b.slots.len();
    let mut i: usize = 0;
    proof {
        assert(a.bindings().skip(0) =~= a.bindings());
        assert(b.bindings().skip(0) =~= b.bindings());
    }
    loop
        invariant
            an == a.bindings().len(),
            bn == b.bindings().len(),
            0 <= i <= an,
            i <= bn,
            forall|k: int| 0 <= k < i ==> a.bindings()[k] == b.bindings()[k],
            slots_lt(a.bindings(), b.bindings()) == slots_lt(
                a.bindings().skip(i as int),
                b.bindings().skip(i as int),
            ),
        decreases an - i,
    {
        if i == bn {
            assert(b.bindings().skip(i as int).len() == 0);
            return false;
        }
        if i == an {
            assert(a.bindings().skip(i as int).len() == 0);
            assert(b.bindings().skip(i as int).len() > 0);
            return true;
        }
        let x = a.slots[i];
        let y = b.slots[i];
        let ghost sa = a.bindings().skip(i as int);
        let ghost sb = b.bindings().skip(i as int);
        assert(sa[0] == a.bindings()[i as int] && sb[0] == b.bindings()[i as int]);
        if x.slot == y.slot && x.texture == y.texture {
            proof {
                assert(sa.drop_first() =~= a.bindings().skip(i as int + 1));
                assert(sb.drop_first() =~= b.bindings().skip(i as int + 1));
            }
            i += 1;
        } else {
            assert(slots_lt(sa, sb) == slot_lt(sa[0], sb[0]));
            return x.slot < y.slot || (x.slot == y.slot && x.texture < y.texture);
        }
    }
}

/// Decides material equality without consuming the values.
pub fn material_same(a: &Material, b: &Material) -> (r: bool)
    ensures
        r == (a.bindings() == b.bindings()),
{
    a == b
}

} // verus!
