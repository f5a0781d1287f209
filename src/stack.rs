//! Item stacks: the capabilities a stored item must offer, and a concrete stack type.
use vstd::prelude::*;

verus! {

/// What the container knows of a stack: its kind, how many items it holds, and how many it may hold.
pub struct StackView<K> {
    pub kind: K,
    pub amount: nat,
    pub max_amount: nat,
}

impl<K> StackView<K> {
    /// The stack holds no more than its cap.
    pub open spec fn is_bounded(self) -> bool {
        self.amount <= self.max_amount
    }
}

/// Unique identification of an object.
pub trait Id {
    type IdType;

    fn id(&self) -> Self::IdType;
}

/// Identification of items of the same kind: two stacks merge only when their kinds are equal.
pub trait ItemKind {
    type KindType: Eq;

    spec fn spec_item_kind(&self) -> Self::KindType;

    fn item_kind(&self) -> (r: Self::KindType)
        ensures
            r == self.spec_item_kind(),
    ;
}

/// A quantity of items bounded by a cap that is fixed when the stack is made.
pub trait Stackable: ItemKind + Sized {
    spec fn spec_amount(&self) -> usize;

    spec fn spec_max_amount(&self) -> usize;

    fn amount(&self) -> (r: usize)
        ensures
            r == self.spec_amount(),
    ;

    fn max_amount(&self) -> (r: usize)
        ensures
            r == self.spec_max_amount(),
    ;

    /// Sets the amount if it does not exceed the cap; otherwise fails and changes nothing.
    fn set_amount(&mut self, amount: usize) -> (r: Result<(), ()>)
        ensures
            r is Ok <==> amount <= old(self).spec_max_amount(),
            r is Ok ==> final(self).spec_amount() == amount,
            r is Err ==> *final(self) == *old(self),
            final(self).spec_max_amount() == old(self).spec_max_amount(),
            final(self).spec_item_kind() == old(self).spec_item_kind(),
    ;

    /// Adds as much of `amount` as fits under the cap and returns what did not fit.
    fn add_amount(&mut self, amount: usize) -> (r: usize)
        requires
            old(self).spec_amount() <= old(self).spec_max_amount(),
        ensures
            final(self).spec_amount() == (if amount <= old(self).spec_max_amount()
                - old(self).spec_amount() {
                old(self).spec_amount() + amount
            } else {
                old(self).spec_max_amount() as int
            }),
            final(self).spec_amount() + r == old(self).spec_amount() + amount,
            final(self).spec_max_amount() == old(self).spec_max_amount(),
            final(self).spec_item_kind() == old(self).spec_item_kind(),
    ;
}

/// The abstract picture of any stackable item.
pub open spec fn stack_view<T: Stackable>(t: T) -> StackView<T::KindType> {
    StackView {
        kind: t.spec_item_kind(),
        amount: t.spec_amount() as nat,
        max_amount: t.spec_max_amount() as nat,
    }
}

/// A stack of items whose kind is a number.
pub struct ItemStack {
    item_kind: usize,
    amount: usize,
    max_amount: usize,
}

impl ItemStack {
    /// Makes a stack of `amount` items of kind `item_kind`, capped at `max_amount`.
    pub fn new(item_kind: usize, amount: usize, max_amount: usize) -> (r: Self)
        requires
            amount <= max_amount,
        ensures
            r.spec_item_kind() == item_kind,
            r.spec_amount() == amount,
            r.spec_max_amount() == max_amount,
    {
        ItemStack { item_kind, amount, max_amount }
    }
}

impl ItemKind for ItemStack {
    type KindType = usize;

    closed spec fn spec_item_kind(&self) -> usize {
        self.item_kind
    }

    fn item_kind(&self) -> (r: usize) {
        self.item_kind
    }
}

impl Stackable for ItemStack {
    closed spec fn spec_amount(&self) -> usize {
        self.amount
    }

    closed spec fn spec_max_amount(&self) -> usize {
        self.max_amount
    }

    fn amount(&self) -> (r: usize) {
        self.amount
    }

    fn max_amount(&self) -> (r: usize) {
        self.max_amount
    }

    fn set_amount(&mut self, amount: usize) -> (r: Result<(), ()>) {
        if amount > self.max_amount {
            Err(())
        } else {
            self.amount = amount;
            Ok(())
        }
    }

    fn add_amount(&mut self, amount: usize) -> (r: usize) {
        let room = self.max_amount - self.amount;
        if amount > room {
            self.amount = self.max_amount;
            amount - room
        } else {
            self.amount = self.amount + amount;
            0
        }
    }
}

} // verus!
