//! `Cd`: a container that tracks whether the data it owns was handed out
//! for mutation.

use vstd::prelude::*;

verus! {

/// Change detection: owns a value and remembers whether a mutable handle to
/// it was taken since the last reset.
#[derive(Clone, Copy, Debug, Hash, PartialEq, Eq, PartialOrd, Ord)]
pub struct Cd<T> {
    /// The owned value.
    pub data: T,
    /// Whether a mutable handle was taken since the last reset.
    pub changed: bool,
}

impl<T> Cd<T> {
    /// Creates a tracker whose change flag starts false.
    pub fn new(data: T) -> (r: Cd<T>)
        ensures
            r.data == data,
            !r.changed,
    {
        Cd { data, changed: false }
    }

    /// Creates a tracker whose change flag starts true.
    pub fn new_true(data: T) -> (r: Cd<T>)
        ensures
            r.data == data,
            r.changed,
    {
        Cd { data, changed: true }
    }

    /// Resets the change flag to false.
    pub fn reset(&mut self)
        ensures
            final(self).data == old(self).data,
            !final(self).changed,
    {
        self.changed = false;
    }

    /// Takes the data out, consuming the tracker.
    pub fn take(self) -> (r: T)
        ensures
            r == self.data,
    {
        self.data
    }

    /// Whether the value was handed out for mutation since the last reset.
    pub fn changed(&self) -> (r: bool)
        ensures
            r == self.changed,
    {
        self.changed
    }

    /// A read-only handle; reading never trips change detection.
    pub fn get(&self) -> (r: &T)
        ensures
            *r == self.data,
    {
        &self.data
    }

    /// A mutable handle; taking it trips change detection.
    pub fn get_mut(&mut self) -> (r: &mut T)
        ensures
            *r == old(self).data,
            final(self).data == *final(r),
            final(self).changed,
    {
        self.changed = true;
        &mut self.data
    }

    /// A mutable handle that does not trip change detection.
    pub fn mutate_silently(&mut self) -> (r: &mut T)
        ensures
            *r == old(self).data,
            final(self).data == *final(r),
            final(self).changed == old(self).changed,
    {
        &mut self.data
    }
}

impl<T: Default> Default for Cd<T> {
    /// The default tracker holds the default value, with the flag false.
    fn default() -> (r: Cd<T>)
        ensures
            !r.changed,
    {
        Cd { data: T::default(), changed: false }
    }
}

} // verus!
