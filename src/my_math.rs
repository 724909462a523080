use vstd::prelude::*;

verus! {

/// A counter value.
pub struct Val {
    pub val: i32,
}

/// Adds an amount in place.
pub trait Add {
    /// The value that additions change.
    spec fn value(&self) -> int;

    fn add(&mut self, other: i32)
        requires
            i32::MIN <= old(self).value() + other <= i32::MAX,
        ensures
            final(self).value() == old(self).value() + other,
    ;
}

/// Increments in place, by way of `Add`.
pub trait Inc: Add {
    fn inc(&mut self)
        requires
            old(self).value() < i32::MAX,
        ensures
            final(self).value() == old(self).value() + 1,
    ;
}

impl Add for Val {
    open spec fn value(&self) -> int {
        self.val as int
    }

    fn add(&mut self, other: i32) {
        self.val = self.val + other;
    }
}

impl Inc for Val {
    fn inc(&mut self) {
        self.add(1)
    }
}

} // verus!
