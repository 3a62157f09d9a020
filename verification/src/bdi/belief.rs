use vstd::prelude::*;

verus! {

/// Certainties are fixed-point fractions of this unit: a certainty of
/// `CERTAINTY_UNIT` means the belief is held as an established fact, and
/// `0` means no confidence at all.
pub const CERTAINTY_UNIT: u32 = 1000;

/// A proposed certainty clamped into the representable range
/// `[0, CERTAINTY_UNIT]`.
pub open spec fn clamped_certainty(c: int) -> int {
    if c < 0 {
        0
    } else if c > CERTAINTY_UNIT {
        CERTAINTY_UNIT as int
    } else {
        c
    }
}

/// A certainty-weighted statement that the proposition named `key`
/// currently has `value`. Beliefs are owned by the belief store; their
/// certainty is clamped into `[0, CERTAINTY_UNIT]` on every mutation.
#[derive(Debug, PartialEq)]
pub struct Belief {
    pub key: String,
    pub value: String,
    pub certainty: u32,
}

impl Belief {
    /// The stored certainty always lies in `[0, CERTAINTY_UNIT]`.
    pub open spec fn wf(&self) -> bool {
        self.certainty <= CERTAINTY_UNIT
    }

    /// Creates an asserted fact: certainty defaults to `CERTAINTY_UNIT`.
    pub fn new(key: &str, value: &str) -> (r: Self)
        ensures
            r.key@ == key@,
            r.value@ == value@,
            r.certainty == CERTAINTY_UNIT,
            r.wf(),
    {
        Belief { key: key.to_owned(), value: value.to_owned(), certainty: CERTAINTY_UNIT }
    }

    /// Creates a belief with an explicit certainty; values outside
    /// `[0, CERTAINTY_UNIT]` are clamped into the range.
    pub fn with_certainty(key: &str, value: &str, certainty: i64) -> (r: Self)
        ensures
            r.key@ == key@,
            r.value@ == value@,
            r.certainty == clamped_certainty(certainty as int),
            r.wf(),
    {
        let c: u32 = if certainty < 0 {
            0
        } else if certainty > CERTAINTY_UNIT as i64 {
            CERTAINTY_UNIT
        } else {
            certainty as u32
        };
        Belief { key: key.to_owned(), value: value.to_owned(), certainty: c }
    }

    /// Creates a fact, that is a belief with full certainty.
    pub fn fact(key: &str, value: &str) -> (r: Self)
        ensures
            r.key@ == key@,
            r.value@ == value@,
            r.certainty == CERTAINTY_UNIT,
            r.wf(),
    {
        Self::new(key, value)
    }

    /// The proposition key.
    pub fn key(&self) -> (r: &str)
        ensures
            r@ == self.key@,
    {
        self.key.as_str()
    }

    /// The proposition value.
    pub fn value(&self) -> (r: &str)
        ensures
            r@ == self.value@,
    {
        self.value.as_str()
    }

    /// The stored certainty.
    pub fn certainty(&self) -> (r: u32)
        ensures
            r == self.certainty,
    {
        self.certainty
    }

    /// Replaces the certainty; values outside `[0, CERTAINTY_UNIT]` are
    /// clamped into the range.
    pub fn set_certainty(&mut self, certainty: i64)
        ensures
            final(self).key == old(self).key,
            final(self).value == old(self).value,
            final(self).certainty == clamped_certainty(certainty as int),
            final(self).wf(),
    {
        self.certainty = if certainty < 0 {
            0
        } else if certainty > CERTAINTY_UNIT as i64 {
            CERTAINTY_UNIT
        } else {
            certainty as u32
        };
    }
}

impl Clone for Belief {
    fn clone(&self) -> (r: Self)
        ensures
            r == *self,
    {
        Belief { key: self.key.clone(), value: self.value.clone(), certainty: self.certainty }
    }
}

} // verus!
