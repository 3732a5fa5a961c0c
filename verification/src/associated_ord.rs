use vstd::prelude::*;

verus! {

/// A value paired with the order key it is ranked by. Only the key takes part
/// in ordering; the value rides along and gives the entry its identity.
pub struct AssociatedOrd<T, O> {
    pub ord: O,
    pub value: T,
}

impl<T, O> AssociatedOrd<T, O> {
    pub fn new(value: T, ord: O) -> (r: Self)
        ensures
            r == (AssociatedOrd { value, ord }),
    {
        Self { value, ord }
    }

    pub fn as_value(self) -> (r: T)
        ensures
            r == self.value,
    {
        self.value
    }
}

} // verus!
