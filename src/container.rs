//! A fixed number of ordered slots, each empty or holding one stack.
use vstd::prelude::*;
use vstd::std_specs::cmp::PartialEqSpec;

use crate::stack::{stack_view, ItemKind, StackView, Stackable};

verus! {

/// Two kinds are the same when `==` on them says so.
pub open spec fn same_kind<K: PartialEq>(a: K, b: K) -> bool {
    a.eq_spec(&b)
}

/// The abstract picture of one slot.
pub open spec fn slot_view<T: Stackable>(slot: Option<T>) -> Option<StackView<T::KindType>> {
    match slot {
        Some(t) => Some(stack_view(t)),
        None => None,
    }
}

/// The abstract picture of a sequence of slots.
pub open spec fn slots_view<T: Stackable>(slots: Seq<Option<T>>) -> Seq<
    Option<StackView<T::KindType>>,
> {
    slots.map_values(|slot: Option<T>| slot_view(slot))
}

/// Every occupied slot holds no more than its stack's cap.
pub open spec fn slots_bounded<K>(slots: Seq<Option<StackView<K>>>) -> bool {
    forall|i: int|
        0 <= i < slots.len() && (#[trigger] slots[i]) is Some ==> slots[i]->0.is_bounded()
}

/// Merging `item` into one slot gives the slot's new content and what is left of `item`.
/// An empty slot takes the whole stack; a stack of the same kind is topped up to its cap;
/// a stack of another kind is left alone.
pub open spec fn merge_into<K: PartialEq>(slot: Option<StackView<K>>, item: StackView<K>) -> (
    Option<StackView<K>>,
    Option<StackView<K>>,
) {
    match slot {
        None => (Some(item), None),
        Some(s) => if same_kind(s.kind, item.kind) {
            if item.amount + s.amount <= s.max_amount {
                (Some(StackView { amount: s.amount + item.amount, ..s }), None)
            } else {
                (
                    Some(StackView { amount: s.max_amount, ..s }),
                    Some(StackView { amount: (item.amount + s.amount - s.max_amount) as nat, ..item }),
                )
            }
        } else {
            (slot, Some(item))
        },
    }
}

/// Merging `item` into the slots from index `i` on, in ascending order, until nothing is left.
pub open spec fn fill_from<K: PartialEq>(
    slots: Seq<Option<StackView<K>>>,
    item: StackView<K>,
    i: int,
) -> (Seq<Option<StackView<K>>>, Option<StackView<K>>)
    decreases slots.len() - i,
{
    if i < 0 || i >= slots.len() {
        (slots, Some(item))
    } else {
        let (merged, rest) = merge_into(slots[i], item);
        let next = slots.update(i, merged);
        match rest {
            None => (next, None),
            Some(r) => fill_from(next, r, i + 1),
        }
    }
}

/// Adding `item` to all of the slots: the new slots and the residual, if any.
pub open spec fn fill<K: PartialEq>(slots: Seq<Option<StackView<K>>>, item: StackView<K>) -> (
    Seq<Option<StackView<K>>>,
    Option<StackView<K>>,
) {
    fill_from(slots, item, 0)
}

/// The slots with the contents at `a` and `b` exchanged.
pub open spec fn swapped<A>(slots: Seq<A>, a: int, b: int) -> Seq<A> {
    slots.update(a, slots[b]).update(b, slots[a])
}

/// Taking slot `i` out: the slots left behind and what was taken.
pub open spec fn taken<A>(slots: Seq<Option<A>>, i: int) -> (Seq<Option<A>>, Option<A>) {
    (slots.update(i, None), slots[i])
}

/// How many items a slot holds.
pub open spec fn amount_of<K>(slot: Option<StackView<K>>) -> nat {
    match slot {
        Some(s) => s.amount,
        None => 0,
    }
}

/// How many items the slots hold together.
pub open spec fn total<K>(slots: Seq<Option<StackView<K>>>) -> nat
    decreases slots.len(),
{
    if slots.len() == 0 {
        0
    } else {
        total(slots.drop_last()) + amount_of(slots.last())
    }
}

/// Replacing one slot changes the total by the difference of the two amounts.
proof fn lemma_total_update<K>(slots: Seq<Option<StackView<K>>>, i: int, x: Option<StackView<K>>)
    requires
        0 <= i < slots.len(),
    ensures
        total(slots.update(i, x)) + amount_of(slots[i]) == total(slots) + amount_of(x),
    decreases slots.len(),
{
    let next = slots.update(i, x);
    if i == slots.len() - 1 {
        assert(next.drop_last() =~= slots.drop_last());
    } else {
        assert(next.drop_last() =~= slots.drop_last().update(i, x));
        lemma_total_update(slots.drop_last(), i, x);
    }
}

/// Merging from index `i` on conserves items.
proof fn lemma_fill_from_conserves<K: PartialEq>(
    slots: Seq<Option<StackView<K>>>,
    item: StackView<K>,
    i: int,
)
    ensures
        total(fill_from(slots, item, i).0) + amount_of(fill_from(slots, item, i).1) == total(slots)
            + item.amount,
    decreases slots.len() - i,
{
    if 0 <= i < slots.len() {
        let (merged, rest) = merge_into(slots[i], item);
        let next = slots.update(i, merged);
        lemma_total_update(slots, i, merged);
        if let Some(r) = rest {
            lemma_fill_from_conserves(next, r, i + 1);
        }
    }
}

/// Adding a stack conserves items: what the slots held before plus the stack's amount
/// equals what they hold after plus the residual's amount.
pub proof fn lemma_add_conserves_total<K: PartialEq>(
    slots: Seq<Option<StackView<K>>>,
    item: StackView<K>,
)
    ensures
        total(fill(slots, item).0) + amount_of(fill(slots, item).1) == total(slots) + item.amount,
{
    lemma_fill_from_conserves(slots, item, 0);
}

/// Right after a slot is taken, looking at it finds it empty.
pub proof fn lemma_take_then_slot_is_empty<A>(slots: Seq<Option<A>>, i: int)
    requires
        0 <= i < slots.len(),
    ensures
        taken(slots, i).0[i] is None,
{
}

/// Swapping the same two slots twice gives back the slots as they were.
pub proof fn lemma_swap_twice_restores<A>(slots: Seq<A>, a: int, b: int)
    requires
        0 <= a < slots.len(),
        0 <= b < slots.len(),
    ensures
        swapped(swapped(slots, a, b), a, b) == slots,
{
    assert(swapped(swapped(slots, a, b), a, b) =~= slots);
}

/// Replacing one slot of bounded slots by a bounded slot keeps them bounded.
proof fn lemma_update_bounded<K>(slots: Seq<Option<StackView<K>>>, i: int, x: Option<StackView<K>>)
    requires
        slots_bounded(slots),
        0 <= i < slots.len(),
        x is Some ==> x->0.is_bounded(),
    ensures
        slots_bounded(slots.update(i, x)),
{
    assert forall|j: int|
        0 <= j < slots.len() && (#[trigger] slots.update(i, x)[j]) is Some implies slots.update(
        i,
        x,
    )[j]->0.is_bounded() by {
        if j != i {
            assert(slots.update(i, x)[j] == slots[j]);
        }
    }
}

/// Representation of an in-game container:
/// ordered slots, a size fixed at construction, and each slot holding items of one kind.
pub struct Container<T> where T: Stackable + ItemKind {
    slots: Vec<Option<T>>,
}

impl<T: Stackable + ItemKind> View for Container<T> {
    type V = Seq<Option<T>>;

    closed spec fn view(&self) -> Seq<Option<T>> {
        self.slots@
    }
}

impl<T: Stackable + ItemKind> Container<T> {
    /// Every occupied slot holds no more than its stack's cap.
    pub open spec fn wf(&self) -> bool {
        slots_bounded(slots_view(self@))
    }

    /// A container of `size` empty slots.
    pub fn new(size: usize) -> (r: Self)
        ensures
            r@.len() == size,
            forall|i: int| 0 <= i < size ==> (#[trigger] r@[i]) is None,
            r.wf(),
    {
        let mut slots: Vec<Option<T>> = Vec::new();
        let mut i: usize = 0;
        while i < size
            invariant
                i <= size,
                slots@.len() == i,
                forall|j: int| 0 <= j < i ==> (#[trigger] slots@[j]) is None,
            decreases size - i,
        {
            slots.push(None);
            i = i + 1;
        }
        Container { slots }
    }

    /// Adds `item` to the slot at `index` alone and returns what is left of it
    /// (kinds are compared with `==`, which must behave as its specification says):
    /// an empty slot takes the whole stack, a stack of the same kind is topped up,
    /// a stack of another kind is left alone and `item` comes back whole.
    pub fn add_to_slot(&mut self, item: T, index: usize) -> (r: Option<T>)
        requires
            old(self).wf(),
            stack_view(item).is_bounded(),
            index < old(self)@.len(),
            <T::KindType as PartialEqSpec>::obeys_eq_spec(),
        ensures
            final(self).wf(),
            final(self)@.len() == old(self)@.len(),
            slots_view(final(self)@) == slots_view(old(self)@).update(
                index as int,
                merge_into(slot_view(old(self)@[index as int]), stack_view(item)).0,
            ),
            slot_view(r) == merge_into(slot_view(old(self)@[index as int]), stack_view(item)).1,
            forall|j: int|
                0 <= j < old(self)@.len() && j != index ==> #[trigger] final(self)@[j]
                    == old(self)@[j],
            old(self)@[index as int] is None ==> final(self)@[index as int] == Some(item),
            old(self)@[index as int] is Some && !same_kind(
                old(self)@[index as int]->0.spec_item_kind(),
                item.spec_item_kind(),
            ) ==> final(self)@ == old(self)@ && r == Some(item),
            r is Some ==> stack_view(r->0).is_bounded(),
    {
        let ghost before = slots_view(self@);
        let mut item = item;
        assert(before[index as int] == slot_view(self@[index as int]));
        let r = match &mut self.slots[index] {
            Some(slot_item) => {
                if slot_item.item_kind() == item.item_kind() {
                    let rest = slot_item.add_amount(item.amount());
                    let res = item.set_amount(rest);
                    assert(res is Ok);
                    if item.amount() == 0 {
                        None
                    } else {
                        Some(item)
                    }
                } else {
                    Some(item)
                }
            },
            None => {
                self.slots[index] = Some(item);
                None
            },
        };
        proof {
            let merged = slots_view(self@)[index as int];
            assert(slots_view(self@) =~= before.update(index as int, merged));
            lemma_update_bounded(before, index as int, merged);
        }
        r
    }

    /// Adds `item` to the container and returns what is left of it, if anything.
    /// Slots are visited in ascending order: an empty slot takes the whole remainder,
    /// a stack of the same kind is topped up, and the scan stops once nothing is left.
    pub fn add_item(&mut self, item: T) -> (r: Option<T>)
        requires
            old(self).wf(),
            stack_view(item).is_bounded(),
            <T::KindType as PartialEqSpec>::obeys_eq_spec(),
        ensures
            final(self).wf(),
            final(self)@.len() == old(self)@.len(),
            slots_view(final(self)@) == fill(slots_view(old(self)@), stack_view(item)).0,
            slot_view(r) == fill(slots_view(old(self)@), stack_view(item)).1,
    {
        let ghost goal = fill(slots_view(self@), stack_view(item));
        let n = self.slots.len();
        let mut rest = item;
        let mut index: usize = 0;
        while index < n
            invariant
                self.wf(),
                self@.len() == n,
                n == old(self)@.len(),
                goal == fill(slots_view(old(self)@), stack_view(item)),
                index <= n,
                stack_view(rest).is_bounded(),
                <T::KindType as PartialEqSpec>::obeys_eq_spec(),
                fill_from(slots_view(self@), stack_view(rest), index as int) == goal,
            decreases n - index,
        {
            let ghost current = slots_view(self@);
            match self.add_to_slot(rest, index) {
                None => {
                    assert(slots_view(self@) =~= fill_from(current, stack_view(rest), index as int).0);
                    return None;
                },
                Some(left) => {
                    assert(slots_view(self@) =~= current.update(
                        index as int,
                        merge_into(current[index as int], stack_view(rest)).0,
                    ));
                    rest = left;
                },
            }
            index = index + 1;
        }
        Some(rest)
    }

    /// Empties the slot at `index`, dropping its contents.
    pub fn erase_slot(&mut self, index: usize)
        requires
            index < old(self)@.len(),
        ensures
            final(self)@ == old(self)@.update(index as int, None),
            final(self)@.len() == old(self)@.len(),
            old(self).wf() ==> final(self).wf(),
    {
        self.slots[index] = None;
        proof {
            if old(self).wf() {
                assert(slots_view(self@) =~= slots_view(old(self)@).update(index as int, None));
                lemma_update_bounded(slots_view(old(self)@), index as int, None);
            }
        }
    }

    /// Exchanges the contents of the slots at `index_a` and `index_b`.
    pub fn swap_slots(&mut self, index_a: usize, index_b: usize)
        requires
            index_a < old(self)@.len(),
            index_b < old(self)@.len(),
        ensures
            final(self)@ == swapped(old(self)@, index_a as int, index_b as int),
            final(self)@.len() == old(self)@.len(),
            old(self).wf() ==> final(self).wf(),
    {
        let a = self.take(index_a);
        let b = self.take(index_b);
        self.slots[index_a] = b;
        self.slots[index_b] = a;
        proof {
            let v = slots_view(old(self)@);
            assert(self@ =~= swapped(old(self)@, index_a as int, index_b as int));
            if old(self).wf() {
                assert(slots_view(self@) =~= swapped(v, index_a as int, index_b as int));
                lemma_update_bounded(v, index_a as int, v[index_b as int]);
                lemma_update_bounded(
                    v.update(index_a as int, v[index_b as int]),
                    index_b as int,
                    v[index_a as int],
                );
            }
        }
    }

    /// The contents of the slot at `index`, if any.
    pub fn slot(&self, index: usize) -> (r: Option<&T>)
        requires
            index < self@.len(),
        ensures
            r is Some <==> self@[index as int] is Some,
            r is Some ==> *r->0 == self@[index as int]->0,
    {
        self.slots[index].as_ref()
    }

    /// The contents of the slot at `index`, if any, for changing in place.
    /// The container stays well formed as long as the caller keeps the stack within its cap.
    pub fn slot_mut(&mut self, index: usize) -> (r: Option<&mut T>)
        requires
            index < old(self)@.len(),
        ensures
            r is Some <==> old(self)@[index as int] is Some,
            final(self)@.len() == old(self)@.len(),
            r is None ==> final(self)@ == old(self)@,
            r is Some ==> *r->0 == old(self)@[index as int]->0 && final(self)@ == old(
                self,
            )@.update(index as int, Some(*final(r->0))),
    {
        self.slots[index].as_mut()
    }

    /// Removes and returns the contents of the slot at `index`, leaving it empty.
    pub fn take(&mut self, index: usize) -> (r: Option<T>)
        requires
            index < old(self)@.len(),
        ensures
            (final(self)@, r) == taken(old(self)@, index as int),
            final(self)@.len() == old(self)@.len(),
            old(self).wf() ==> final(self).wf(),
    {
        let mut slot_contents = None;
        std::mem::swap(&mut self.slots[index], &mut slot_contents);
        proof {
            if old(self).wf() {
                assert(slots_view(self@) =~= slots_view(old(self)@).update(index as int, None));
                lemma_update_bounded(slots_view(old(self)@), index as int, None);
            }
        }
        slot_contents
    }

    /// The number of slots, fixed at construction.
    pub fn size(&self) -> (r: usize)
        ensures
            r == self@.len(),
    {
        self.slots.len()
    }
}

} // verus!
