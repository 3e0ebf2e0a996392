//! The layer stack: an ordered list of layers and the index of the active
//! one, addressed through [`LayerPos`].

use vstd::prelude::*;

use crate::command_error::{RemoveLayerError, ReorderLayersError};
use std::collections::BTreeSet;
use crate::layer_pos::{cursor_ok, InsertLayerError, LayerPos, SelectLayerError};
use crate::mask::{
    count_true, kept, lemma_count_true_le, lemma_count_true_step, lemma_count_true_take,
    lemma_kept_index, lemma_kept_len, lemma_kept_step, lemma_picked_exact, picked,
};

verus! {

broadcast use {vstd::std_specs::btree::group_btree_axioms, vstd::laws_cmp::group_laws_cmp};

/// The mask of layer indices named by `positions`.
pub open spec fn selection_mask(positions: Seq<LayerPos>, curr: usize, count: usize) -> Seq<bool> {
    Seq::new(
        count as nat,
        |j: int|
            exists|k: int|
                0 <= k < positions.len() && #[trigger] positions[k].spec_select_idx(curr, count)
                    == Ok::<usize, SelectLayerError>(j as usize),
    )
}

/// The error of the first position, in order, that names no layer.
pub open spec fn first_select_error(positions: Seq<LayerPos>, curr: usize, count: usize) -> Option<
    SelectLayerError,
>
    decreases positions.len(),
{
    if positions.len() == 0 {
        None
    } else {
        match first_select_error(positions.drop_last(), curr, count) {
            Some(e) => Some(e),
            None => match positions.last().spec_select_idx(curr, count) {
                Err(e) => Some(e),
                Ok(_) => None,
            },
        }
    }
}

/// How many removed indices lie at or below the cursor.
pub open spec fn removed_through(mask: Seq<bool>, curr: usize) -> nat {
    if curr < mask.len() {
        count_true(mask.take(curr + 1))
    } else {
        count_true(mask)
    }
}

/// `a - b`, or zero when `b` exceeds `a`.
pub open spec fn saturating_sub(a: usize, b: nat) -> usize {
    if a >= b {
        (a - b) as usize
    } else {
        0
    }
}

/// Stack and cursor after inserting `x` at `at`.
pub open spec fn spec_insert<L>(items: Seq<L>, curr: usize, at: LayerPos, x: L) -> Result<
    (Seq<L>, usize),
    InsertLayerError,
> {
    match at.spec_insert_idx(curr, items.len() as usize) {
        Ok(p) => Ok((items.insert(p as int, x), p)),
        Err(e) => Err(e),
    }
}

/// The stack after moving the item at `from` to index `to`.
pub open spec fn move_item<L>(items: Seq<L>, from: int, to: int) -> Seq<L> {
    items.remove(from).insert(to, items[from])
}

/// Stack after moving the layer at `from` to the place of `to`.
pub open spec fn spec_reorder<L>(items: Seq<L>, curr: usize, from: LayerPos, to: LayerPos) -> Result<
    Seq<L>,
    ReorderLayersError,
> {
    match from.spec_select_idx(curr, items.len() as usize) {
        Err(e) => Err(ReorderLayersError::SrcIndexOutOfBounds(e)),
        Ok(f) => match to.spec_select_idx(curr, items.len() as usize) {
            Err(e) => Err(ReorderLayersError::DstIndexOutOfBounds(e)),
            Ok(t) => Ok(move_item(items, f as int, t as int)),
        },
    }
}

/// Stack, cursor and removed layers after removing the layers at `positions`.
pub open spec fn spec_remove<L>(items: Seq<L>, curr: usize, positions: Seq<LayerPos>) -> Result<
    (Seq<L>, usize, Seq<(usize, L)>),
    RemoveLayerError,
> {
    let count = items.len() as usize;
    match first_select_error(positions, curr, count) {
        Some(e) => Err(RemoveLayerError::Select(e)),
        None => {
            let mask = selection_mask(positions, curr, count);
            Ok(
                (
                    kept(items, mask),
                    saturating_sub(curr, removed_through(mask, curr)),
                    picked(items, mask),
                ),
            )
        },
    }
}

/// The layer stack. The cursor is zero when the stack is empty and the index
/// of an existing layer otherwise.
#[derive(Debug)]
pub struct Layers<L> {
    list: Vec<L>,
    curr: usize,
}

impl<L> Layers<L> {
    #[verifier::type_invariant]
    spec fn inv(self) -> bool {
        cursor_ok(self.curr, self.list.len())
    }

    /// The layers, bottom to top.
    pub closed spec fn items(&self) -> Seq<L> {
        self.list@
    }

    /// The index of the active layer (zero when there is none).
    pub closed spec fn cursor(&self) -> usize {
        self.curr
    }

    pub fn new() -> (r: Self)
        ensures
            r.items() == Seq::<L>::empty(),
            r.cursor() == 0,
    {
        Layers { list: Vec::new(), curr: 0 }
    }

    /// A stack from its layers and active index, or `None` when the index
    /// breaks the cursor rule.
    pub fn from_parts(list: Vec<L>, curr: usize) -> (r: Option<Self>)
        ensures
            r is Some <==> cursor_ok(curr, list.len()),
            r matches Some(l) ==> l.items() == list@ && l.cursor() == curr,
    {
        if (list.len() == 0 && curr == 0) || curr < list.len() {
            Some(Layers { list, curr })
        } else {
            None
        }
    }

    /// The layers and the active index.
    pub fn into_parts(self) -> (r: (Vec<L>, usize))
        ensures
            r.0@ == self.items(),
            r.1 == self.cursor(),
            cursor_ok(r.1, r.0.len()),
    {
        proof {
            use_type_invariant(&self);
        }
        (self.list, self.curr)
    }

    pub fn len(&self) -> (r: usize)
        ensures
            r == self.items().len(),
            cursor_ok(self.cursor(), r),
    {
        proof {
            use_type_invariant(self);
        }
        self.list.len()
    }

    pub fn is_empty(&self) -> (r: bool)
        ensures
            r <==> self.items().len() == 0,
    {
        self.list.len() == 0
    }

    /// The layers, bottom to top.
    pub fn as_slice(&self) -> (r: &[L])
        ensures
            r@ == self.items(),
    {
        self.list.as_slice()
    }

    /// The index of the active layer, or `None` when there are no layers.
    pub fn curr(&self) -> (r: Option<usize>)
        ensures
            r == if self.items().len() == 0 {
                None
            } else {
                Some(self.cursor())
            },
            r matches Some(i) ==> i < self.items().len(),
    {
        proof {
            use_type_invariant(self);
        }
        if self.list.len() == 0 {
            None
        } else {
            Some(self.curr)
        }
    }

    pub fn insert_idx(&self, at: LayerPos) -> (r: Result<usize, InsertLayerError>)
        ensures
            r == at.spec_insert_idx(self.cursor(), self.items().len() as usize),
            r matches Ok(i) ==> i <= self.items().len(),
    {
        proof {
            use_type_invariant(self);
        }
        at.insert_layer_idx(self.curr, self.list.len())
    }

    pub fn select_idx(&self, at: LayerPos) -> (r: Result<usize, SelectLayerError>)
        ensures
            r == at.spec_select_idx(self.cursor(), self.items().len() as usize),
            r matches Ok(i) ==> i < self.items().len(),
    {
        proof {
            use_type_invariant(self);
        }
        at.select_layer_idx(self.curr, self.list.len())
    }

    /// Inserts a layer at `at` and makes it the active one.
    pub fn insert(&mut self, at: LayerPos, layer: L) -> (r: Result<&mut L, InsertLayerError>)
        ensures
            match spec_insert(old(self).items(), old(self).cursor(), at, layer) {
                Ok((items, curr)) => {
                    &&& r is Ok
                    &&& *r->Ok_0 == layer
                    &&& final(self).cursor() == curr
                    &&& final(self).items() == items.update(curr as int, *final(r->Ok_0))
                },
                Err(e) => {
                    &&& r matches Err(e2) && e2 == e
                    &&& final(self).items() == old(self).items()
                    &&& final(self).cursor() == old(self).cursor()
                },
            },
    {
        proof {
            use_type_invariant(&*self);
        }
        match at.insert_layer_idx(self.curr, self.list.len()) {
            Err(e) => Err(e),
            Ok(pos) => {
                let (mut list, _) = self.take_parts();
                list.insert(pos, layer);
                *self = Layers { list, curr: pos };
                Ok(&mut self.list[pos])
            },
        }
    }

    /// The layer at `at`.
    pub fn get(&self, at: LayerPos) -> (r: Result<&L, SelectLayerError>)
        ensures
            match at.spec_select_idx(self.cursor(), self.items().len() as usize) {
                Ok(i) => r matches Ok(l) && *l == self.items()[i as int],
                Err(e) => r matches Err(e2) && e2 == e,
            },
    {
        proof {
            use_type_invariant(self);
        }
        match at.select_layer_idx(self.curr, self.list.len()) {
            Ok(i) => Ok(&self.list[i]),
            Err(e) => Err(e),
        }
    }

    /// The layer at `at`, for changing it in place.
    pub fn get_mut(&mut self, at: LayerPos) -> (r: Result<&mut L, SelectLayerError>)
        ensures
            final(self).cursor() == old(self).cursor(),
            match at.spec_select_idx(old(self).cursor(), old(self).items().len() as usize) {
                Ok(i) => {
                    &&& r is Ok
                    &&& *r->Ok_0 == old(self).items()[i as int]
                    &&& final(self).items() == old(self).items().update(i as int, *final(r->Ok_0))
                },
                Err(e) => {
                    &&& r matches Err(e2) && e2 == e
                    &&& final(self).items() == old(self).items()
                },
            },
    {
        proof {
            use_type_invariant(&*self);
        }
        match at.select_layer_idx(self.curr, self.list.len()) {
            Ok(i) => Ok(&mut self.list[i]),
            Err(e) => Err(e),
        }
    }

    /// Moves the layer at `from` to the place of the layer at `to`; the
    /// layers in between shift by one. Returns whether the order changed.
    pub fn reorder(&mut self, from: LayerPos, to: LayerPos) -> (r: Result<bool, ReorderLayersError>)
        ensures
            final(self).cursor() == old(self).cursor(),
            match spec_reorder(old(self).items(), old(self).cursor(), from, to) {
                Ok(items) => {
                    &&& r is Ok
                    &&& final(self).items() == items
                    &&& r->Ok_0 == (from.spec_select_idx(
                        old(self).cursor(),
                        old(self).items().len() as usize,
                    ) != to.spec_select_idx(old(self).cursor(), old(self).items().len() as usize))
                },
                Err(e) => {
                    &&& r matches Err(e2) && e2 == e
                    &&& final(self).items() == old(self).items()
                },
            },
    {
        proof {
            use_type_invariant(&*self);
        }
        let f = match self.select_idx(from) {
            Ok(i) => i,
            Err(e) => return Err(ReorderLayersError::SrcIndexOutOfBounds(e)),
        };
        let t = match self.select_idx(to) {
            Ok(i) => i,
            Err(e) => return Err(ReorderLayersError::DstIndexOutOfBounds(e)),
        };
        if f == t {
            proof {
                assert(move_item(self.list@, f as int, t as int) =~= self.list@);
            }
            Ok(false)
        } else {
            let (mut list, curr) = self.take_parts();
            let item = list.remove(f);
            list.insert(t, item);
            *self = Layers { list, curr };
            Ok(true)
        }
    }

    /// Removes the layers at `positions` and returns them with their former
    /// indices, lowest first. The active index moves down by the number of
    /// removed layers at or below it. No layer is removed when a position
    /// names none.
    pub fn remove(&mut self, positions: Vec<LayerPos>) -> (r: Result<Vec<(usize, L)>, RemoveLayerError>)
        ensures
            match spec_remove(old(self).items(), old(self).cursor(), positions@) {
                Ok((items, curr, removed)) => {
                    &&& r matches Ok(v) && v@ == removed
                    &&& final(self).items() == items
                    &&& final(self).cursor() == curr
                },
                Err(e) => {
                    &&& r matches Err(e2) && e2 == e
                    &&& final(self).items() == old(self).items()
                    &&& final(self).cursor() == old(self).cursor()
                },
            },
    {
        proof {
            use_type_invariant(&*self);
        }
        let n = self.list.len();
        let curr = self.curr;
        let ghost pos = positions@;
        // The set of named indices.
        let mut selected: BTreeSet<usize> = BTreeSet::new();
        let mut k: usize = 0;
        while k < positions.len()
            invariant
                k <= positions.len(),
                pos == positions@,
                n == self.list.len(),
                curr == self.curr,
                cursor_ok(curr, n),
                first_select_error(pos.take(k as int), curr, n) is None,
                forall|x: usize| #[trigger] selected@.contains(x) ==> x < n,
                forall|j: int|
                    0 <= j < n ==> (#[trigger] selected@.contains(j as usize) <==> exists|k2: int|
                        0 <= k2 < k && #[trigger] pos[k2].spec_select_idx(curr, n) == Ok::<
                            usize,
                            SelectLayerError,
                        >(j as usize)),
            decreases positions.len() - k,
        {
            proof {
                assert(pos.take(k + 1).drop_last() =~= pos.take(k as int));
            }
            match positions[k].select_layer_idx(curr, n) {
                Ok(i) => {
                    let ghost old_set = selected@;
                    selected.insert(i);
                    proof {
                        assert forall|j: int| 0 <= j < n implies (#[trigger] selected@.contains(
                            j as usize,
                        ) <==> exists|k2: int|
                            0 <= k2 < k + 1 && #[trigger] pos[k2].spec_select_idx(curr, n) == Ok::<
                                usize,
                                SelectLayerError,
                            >(j as usize)) by {
                            if j == i {
                                assert(pos[k as int].spec_select_idx(curr, n) == Ok::<
                                    usize,
                                    SelectLayerError,
                                >(j as usize));
                            } else {
                                assert(selected@.contains(j as usize) == old_set.contains(
                                    j as usize,
                                ));
                                if selected@.contains(j as usize) {
                                    let k2 = choose|k2: int|
                                        0 <= k2 < k && #[trigger] pos[k2].spec_select_idx(curr, n)
                                            == Ok::<usize, SelectLayerError>(j as usize);
                                    assert(0 <= k2 < k + 1);
                                }
                            }
                        }
                    }
                },
                Err(e) => {
                    proof {
                        lemma_first_error_prefix(pos, curr, n, (k + 1) as int);
                    }
                    return Err(RemoveLayerError::Select(e));
                },
            }
            k = k + 1;
        }
        proof {
            assert(pos.take(k as int) =~= pos);
        }
        let ghost m = selection_mask(pos, curr, n);
        proof {
            assert forall|j: int| 0 <= j < n implies m[j] == selected@.contains(j as usize) by {}
        }
        // How many removed layers lie at or below the active one.
        let mut below: usize = 0;
        if n > 0 {
            let mut j: usize = 0;
            while j <= curr
                invariant
                    j <= curr + 1,
                    curr < n,
                    m == selection_mask(pos, curr, n),
                    m.len() == n,
                    forall|x: int| 0 <= x < n ==> m[x] == selected@.contains(x as usize),
                    below == count_true(m.take(j as int)),
                    below <= j,
                decreases curr + 1 - j,
            {
                proof {
                    lemma_count_true_step(m, j as int);
                }
                if selected.contains(&j) {
                    below = below + 1;
                }
                j = j + 1;
            }
        } else {
            proof {
                assert(m.take(0) =~= m);
            }
        }
        // Rebuild the list, moving out the removed layers.
        let (mut list, _) = self.take_parts();
        let ghost orig = list@;
        let mut removed: Vec<(usize, L)> = Vec::new();
        let mut j: usize = 0;
        while j < n
            invariant
                j <= n,
                orig.len() == n,
                m.len() == n,
                forall|x: int| 0 <= x < n ==> m[x] == selected@.contains(x as usize),
                list@ == kept(orig.take(j as int), m.take(j as int)) + orig.skip(j as int),
                removed@ == picked(orig.take(j as int), m.take(j as int)),
                kept(orig.take(j as int), m.take(j as int)).len() + removed.len() == j,
            decreases n - j,
        {
            proof {
                lemma_kept_step(orig, m, j as int);
                lemma_kept_len(orig.take(j as int), m.take(j as int));
                lemma_kept_len(orig.take(j + 1), m.take(j + 1));
                assert(orig.skip(j as int) =~= seq![orig[j as int]] + orig.skip(j + 1));
            }
            let at = j - removed.len();
            if selected.contains(&j) {
                let item = list.remove(at);
                removed.push((j, item));
                proof {
                    assert(list@ =~= kept(orig.take(j + 1), m.take(j + 1)) + orig.skip(j + 1));
                }
            } else {
                proof {
                    assert(list@ =~= kept(orig.take(j + 1), m.take(j + 1)) + orig.skip(j + 1));
                }
            }
            j = j + 1;
        }
        proof {
            assert(orig.take(n as int) =~= orig);
            assert(m.take(n as int) =~= m);
            assert(orig.skip(n as int) =~= Seq::<L>::empty());
            assert(list@ =~= kept(orig, m));
            lemma_kept_len(orig, m);
            lemma_count_true_le(m);
            if curr < n {
                lemma_count_true_take(m, curr + 1);
            }
        }
        let new_curr = curr.saturating_sub(below);
        *self = Layers { list, curr: new_curr };
        Ok(removed)
    }

    /// Moves the layers out, leaving an empty stack behind.
    fn take_parts(&mut self) -> (r: (Vec<L>, usize))
        ensures
            r.0@ == old(self).items(),
            r.1 == old(self).cursor(),
            cursor_ok(r.1, r.0.len()),
            final(self).items() == Seq::<L>::empty(),
    {
        proof {
            use_type_invariant(&*self);
        }
        let mut tmp = Layers::new();
        std::mem::swap(self, &mut tmp);
        tmp.into_parts()
    }

    /// Makes the layer at `at` the active one.
    pub fn set_target(&mut self, at: LayerPos) -> (r: Result<(), SelectLayerError>)
        ensures
            final(self).items() == old(self).items(),
            match at.spec_select_idx(old(self).cursor(), old(self).items().len() as usize) {
                Ok(i) => r is Ok && final(self).cursor() == i,
                Err(e) => r == Err::<(), SelectLayerError>(e) && final(self).cursor() == old(
                    self,
                ).cursor(),
            },
    {
        proof {
            use_type_invariant(&*self);
        }
        let idx = self.select_idx(at)?;
        self.curr = idx;
        Ok(())
    }
}

/// A prefix that ends in the first failing position has that failure first.
proof fn lemma_first_error_prefix(pos: Seq<LayerPos>, curr: usize, n: usize, k: int)
    requires
        1 <= k <= pos.len(),
        first_select_error(pos.take(k - 1), curr, n) is None,
        pos[k - 1].spec_select_idx(curr, n) is Err,
    ensures
        first_select_error(pos, curr, n) == Some(pos[k - 1].spec_select_idx(curr, n)->Err_0),
    decreases pos.len() - k,
{
    assert(pos.take(k).drop_last() =~= pos.take(k - 1));
    if k == pos.len() {
        assert(pos.take(k) =~= pos);
    } else {
        lemma_first_error_some_extends(pos, curr, n, k);
    }
}

/// Once a prefix has a failure, every longer prefix has the same one first.
proof fn lemma_first_error_some_extends(pos: Seq<LayerPos>, curr: usize, n: usize, k: int)
    requires
        1 <= k <= pos.len(),
        first_select_error(pos.take(k), curr, n) is Some,
    ensures
        first_select_error(pos, curr, n) == first_select_error(pos.take(k), curr, n),
    decreases pos.len() - k,
{
    if k == pos.len() {
        assert(pos.take(k) =~= pos);
    } else {
        assert(pos.take(k + 1).drop_last() =~= pos.take(k));
        lemma_first_error_some_extends(pos, curr, n, k + 1);
    }
}


/// Inserting a layer makes it the active one: the cursor names the new layer.
pub proof fn law_inserted_layer_is_current<L>(items: Seq<L>, curr: usize, at: LayerPos, x: L)
    requires
        items.len() < usize::MAX,
        cursor_ok(curr, items.len() as usize),
        at.insert_defined(curr, items.len() as usize),
    ensures
        spec_insert(items, curr, at, x) matches Ok((items2, curr2)) ==> {
            &&& cursor_ok(curr2, items2.len() as usize)
            &&& LayerPos::Current.spec_select_idx(curr2, items2.len() as usize) == Ok::<
                usize,
                SelectLayerError,
            >(curr2)
            &&& items2[curr2 as int] == x
        },
{
}

/// Moving a layer from `from` to `to` and then from `to` back to `from`
/// restores the stack.
pub proof fn law_reorder_round_trip<L>(items: Seq<L>, curr: usize, from: LayerPos, to: LayerPos)
    requires
        items.len() <= usize::MAX,
        cursor_ok(curr, items.len() as usize),
    ensures
        spec_reorder(items, curr, from, to) matches Ok(items2) ==> spec_reorder(items2, curr, to, from)
            == Ok::<Seq<L>, ReorderLayersError>(items),
{
    if let Ok(items2) = spec_reorder(items, curr, from, to) {
        let f = from.spec_select_idx(curr, items.len() as usize)->Ok_0 as int;
        let t = to.spec_select_idx(curr, items.len() as usize)->Ok_0 as int;
        assert(items2.len() == items.len());
        assert(move_item(items2, t, f) =~= items);
    }
}

/// Inserting adds the new layer and nothing else: taking it out again
/// gives back the stack as it was.
pub proof fn law_insert_adds_only_the_layer<L>(items: Seq<L>, curr: usize, at: LayerPos, x: L)
    requires
        items.len() < usize::MAX,
        cursor_ok(curr, items.len() as usize),
    ensures
        spec_insert(items, curr, at, x) matches Ok((items2, c)) ==> {
            &&& items2.len() == items.len() + 1
            &&& items2[c as int] == x
            &&& items2.remove(c as int) == items
        },
{
    if let Ok((items2, c)) = spec_insert(items, curr, at, x) {
        assert(items2.remove(c as int) =~= items);
    }
}

/// Moving a layer puts the layer from `from` at index `to`; the other
/// layers keep their order.
pub proof fn law_reorder_moves_one_layer<L>(items: Seq<L>, curr: usize, from: LayerPos, to: LayerPos)
    requires
        items.len() <= usize::MAX,
        cursor_ok(curr, items.len() as usize),
    ensures
        spec_reorder(items, curr, from, to) matches Ok(items2) ==> {
            let f = from.spec_select_idx(curr, items.len() as usize)->Ok_0 as int;
            let t = to.spec_select_idx(curr, items.len() as usize)->Ok_0 as int;
            &&& items2.len() == items.len()
            &&& items2[t] == items[f]
            &&& items2.remove(t) == items.remove(f)
        },
{
    if let Ok(items2) = spec_reorder(items, curr, from, to) {
        let f = from.spec_select_idx(curr, items.len() as usize)->Ok_0 as int;
        let t = to.spec_select_idx(curr, items.len() as usize)->Ok_0 as int;
        assert(items2.remove(t) =~= items.remove(f));
    }
}

/// The first failing position is one of the given positions, and there is
/// none exactly when every position names a layer.
proof fn lemma_first_error_is_some_position(positions: Seq<LayerPos>, curr: usize, count: usize)
    ensures
        first_select_error(positions, curr, count) is None <==> forall|p: int|
            0 <= p < positions.len() ==> #[trigger] positions[p].spec_select_idx(curr, count) is Ok,
        first_select_error(positions, curr, count) matches Some(e) ==> exists|p: int|
            0 <= p < positions.len() && #[trigger] positions[p].spec_select_idx(curr, count) == Err::<
                usize,
                SelectLayerError,
            >(e),
    decreases positions.len(),
{
    if positions.len() > 0 {
        let init = positions.drop_last();
        lemma_first_error_is_some_position(init, curr, count);
        assert forall|p: int| 0 <= p < init.len() implies init[p] == positions[p] by {}
        if first_select_error(init, curr, count) is None {
            if first_select_error(positions, curr, count) is None {
                assert forall|p: int| 0 <= p < positions.len() implies #[trigger] positions[p].spec_select_idx(
                    curr,
                    count,
                ) is Ok by {
                    if p < init.len() {
                        assert(init[p] == positions[p]);
                    }
                }
            } else {
                assert(positions[positions.len() - 1].spec_select_idx(curr, count) is Err);
            }
        } else {
            let e = first_select_error(init, curr, count)->Some_0;
            let p = choose|p: int|
                0 <= p < init.len() && #[trigger] init[p].spec_select_idx(curr, count) == Err::<
                    usize,
                    SelectLayerError,
                >(e);
            assert(positions[p] == init[p]);
        }
    }
}

/// A removal takes out exactly the named layers, lowest index first, each
/// with its index; when it fails, it is because a given position names no
/// layer.
pub proof fn law_remove_takes_named_layers<L>(items: Seq<L>, curr: usize, positions: Seq<LayerPos>)
    requires
        items.len() <= usize::MAX,
        cursor_ok(curr, items.len() as usize),
    ensures
        spec_remove(items, curr, positions) matches Ok((items2, curr2, removed)) ==> {
            &&& forall|p: int|
                0 <= p < positions.len() ==> #[trigger] positions[p].spec_select_idx(
                    curr,
                    items.len() as usize,
                ) is Ok
            &&& forall|k: int|
                0 <= k < removed.len() ==> {
                    let (i, x) = #[trigger] removed[k];
                    &&& i < items.len()
                    &&& x == items[i as int]
                    &&& exists|p: int|
                        0 <= p < positions.len() && #[trigger] positions[p].spec_select_idx(
                            curr,
                            items.len() as usize,
                        ) == Ok::<usize, SelectLayerError>(i)
                }
            &&& forall|k1: int, k2: int|
                0 <= k1 < k2 < removed.len() ==> (#[trigger] removed[k1]).0 < (
                #[trigger] removed[k2]).0
            &&& forall|p: int|
                0 <= p < positions.len() ==> (#[trigger] positions[p].spec_select_idx(
                    curr,
                    items.len() as usize,
                ) matches Ok(j) ==> exists|k: int|
                    0 <= k < removed.len() && (#[trigger] removed[k]).0 == j)
        },
        spec_remove(items, curr, positions) matches Err(RemoveLayerError::Select(e)) ==> exists|
            p: int,
        |
            0 <= p < positions.len() && #[trigger] positions[p].spec_select_idx(
                curr,
                items.len() as usize,
            ) == Err::<usize, SelectLayerError>(e),
{
    let n = items.len() as usize;
    lemma_first_error_is_some_position(positions, curr, n);
    if let Ok((items2, curr2, removed)) = spec_remove(items, curr, positions) {
        let m = selection_mask(positions, curr, n);
        lemma_picked_exact(items, m);
        assert forall|p: int| 0 <= p < positions.len() implies (#[trigger] positions[p].spec_select_idx(
            curr,
            n,
        ) matches Ok(j) ==> exists|k: int| 0 <= k < removed.len() && (#[trigger] removed[k]).0 == j) by {
            if let Ok(j) = positions[p].spec_select_idx(curr, n) {
                assert(j < n);
                assert(m[j as int]);
            }
        }
    }
}

/// Removing layers keeps the cursor rule, keeps the remaining layers in their
/// order, and hands back every removed layer: together they are the stack.
pub proof fn law_remove_partitions<L>(items: Seq<L>, curr: usize, positions: Seq<LayerPos>)
    requires
        items.len() <= usize::MAX,
        cursor_ok(curr, items.len() as usize),
    ensures
        spec_remove(items, curr, positions) matches Ok((items2, curr2, removed)) ==> {
            &&& cursor_ok(curr2, items2.len() as usize)
            &&& items2.len() + removed.len() == items.len()
            &&& removed.len() == count_true(selection_mask(positions, curr, items.len() as usize))
        },
{
    if let Ok((items2, curr2, removed)) = spec_remove(items, curr, positions) {
        let n = items.len() as usize;
        let m = selection_mask(positions, curr, n);
        lemma_kept_len(items, m);
        lemma_count_true_le(m);
        if curr < n {
            lemma_count_true_take(m, curr + 1);
        }
    }
}

/// A removal that spares the active layer leaves it active.
pub proof fn law_remove_keeps_active<L>(items: Seq<L>, curr: usize, positions: Seq<LayerPos>)
    requires
        items.len() <= usize::MAX,
        cursor_ok(curr, items.len() as usize),
        items.len() > 0,
        !selection_mask(positions, curr, items.len() as usize)[curr as int],
    ensures
        spec_remove(items, curr, positions) matches Ok((items2, curr2, _)) ==> {
            &&& curr2 < items2.len()
            &&& items2[curr2 as int] == items[curr as int]
        },
{
    let n = items.len() as usize;
    let m = selection_mask(positions, curr, n);
    lemma_count_true_step(m, curr as int);
    lemma_kept_len(items.take(curr as int), m.take(curr as int));
    lemma_kept_index(items, m, curr as int);
}

/// Removing no positions changes nothing.
pub proof fn law_remove_nothing<L>(items: Seq<L>, curr: usize)
    requires
        items.len() <= usize::MAX,
        cursor_ok(curr, items.len() as usize),
    ensures
        spec_remove(items, curr, Seq::<LayerPos>::empty()) == Ok::<
            (Seq<L>, usize, Seq<(usize, L)>),
            RemoveLayerError,
        >((items, curr, Seq::empty())),
{
    let n = items.len() as usize;
    let m = selection_mask(Seq::<LayerPos>::empty(), curr, n);
    lemma_no_mask(items, m);
    if curr < n {
        lemma_no_mask(items.take(0), m.take(curr + 1));
    }
}

/// With no flag set, everything is kept and nothing is picked.
proof fn lemma_no_mask<L>(items: Seq<L>, m: Seq<bool>)
    requires
        forall|j: int| 0 <= j < m.len() ==> !m[j],
    ensures
        m.len() == items.len() ==> kept(items, m) == items && picked(items, m) == Seq::<
            (usize, L),
        >::empty(),
        count_true(m) == 0,
    decreases m.len(),
{
    if m.len() > 0 {
        lemma_no_mask(items.drop_last(), m.drop_last());
        if m.len() == items.len() {
            assert(kept(items, m) =~= items);
        }
    }
}

} // verus!
