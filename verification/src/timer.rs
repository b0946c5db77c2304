//! A delay/sound timer: an 8-bit counter whose decrement saturates at zero.

use vstd::prelude::*;

verus! {

/// An 8-bit counter that can be decremented without ever wrapping below
/// zero, standing for a CHIP-8 delay or sound timer.
pub struct Timer {
    value: u8,
}

/// The value a timer holds after one decrement: one less, except that a
/// timer already at zero stays at zero.
pub open spec fn timer_dec(v: u8) -> u8 {
    if v == 0 {
        0
    } else {
        (v - 1) as u8
    }
}

impl Timer {
    /// The current value of the timer, as contracts see it.
    pub closed spec fn view(&self) -> u8 {
        self.value
    }

    /// Gets the current value.
    pub fn get(&self) -> (r: u8)
        ensures
            r == self@,
    {
        self.value
    }

    /// Sets the current value.
    pub fn set(&mut self, value: u8)
        ensures
            final(self)@ == value,
    {
        self.value = value;
    }

    /// Decrements by one; a timer at zero stays at zero.
    pub fn decrement(&mut self)
        ensures
            final(self)@ == timer_dec(old(self)@),
    {
        self.value = if self.value == 0 {
            0
        } else {
            self.value - 1
        };
    }
}

impl Default for Timer {
    /// A fresh timer holds zero.
    fn default() -> (r: Self)
        ensures
            r@ == 0u8,
    {
        Timer { value: 0 }
    }
}

/// Decrementing yields one less than the value set, with a floor of zero,
/// and repeated decrements from zero stay at zero.
pub proof fn lemma_timer_decrement(v: u8)
    ensures
        v > 0 ==> timer_dec(v) == v - 1,
        timer_dec(0) == 0,
        timer_dec(timer_dec(0)) == 0,
{
}

} // verus!
