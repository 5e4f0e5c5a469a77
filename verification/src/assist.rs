//! Completion assistance for a partially typed expression.
//!
//! An `Assist` describes a prefix of the user's input: how much of it is
//! already known to be valid, how much more would become valid if further
//! input arrived, and an optional list of items that could follow.

use vstd::prelude::*;

verus! {

/// Given a list of items, this provides assistance for completing them.
pub struct Assist<T> {
    /// How many of the first items are valid.
    valid: usize,
    /// Following the valid items, how many more items will be valid once
    /// more items are added.
    pending: usize,
    /// Among the pending items, how many carry a special marking, counted
    /// from the end of the pending range.
    pending_special: usize,
    /// An optional list of items that can follow the valid and pending ones.
    next_options: NextOptions<T>,
}

/// The candidate continuations attached to an `Assist`.
pub enum NextOptions<T> {
    NoOptions,
    Avail(usize, Vec<T>),
}

impl<T> NextOptions<T> {
    /// True when there is at least one candidate continuation.
    pub open spec fn spec_is_avail(self) -> bool {
        self is Avail
    }

    /// Turn the relative offset stored in `Avail` into an absolute position
    /// by adding the length of the valid prefix.
    pub fn into_position(self, valid: usize) -> (r: (usize, Vec<T>))
        requires
            self is Avail ==> self->0 + valid <= usize::MAX,
        ensures
            self is NoOptions ==> r.0 == 0 && r.1@ =~= Seq::<T>::empty(),
            self is Avail ==> r.0 == valid + self->0 && r.1 == self->1,
    {
        match self {
            NextOptions::NoOptions => (0, Vec::new()),
            NextOptions::Avail(pos, v) => (valid + pos, v),
        }
    }
}

impl<T> Default for NextOptions<T> {
    fn default() -> (r: Self)
        ensures
            r is NoOptions,
    {
        NextOptions::NoOptions
    }
}

impl<T> Assist<T> {
    /// The length of the confirmed-valid prefix.
    pub closed spec fn spec_valid(self) -> usize {
        self.valid
    }

    /// The length of the pending range.
    pub closed spec fn spec_pending(self) -> usize {
        self.pending
    }

    /// The length of the specially marked tail of the pending range.
    pub closed spec fn spec_pending_special(self) -> usize {
        self.pending_special
    }

    /// The candidate continuations.
    pub closed spec fn spec_next_options(self) -> NextOptions<T> {
        self.next_options
    }

    /// Extend the pending range by `count`.
    pub fn pend(&mut self, count: usize)
        requires
            old(self).spec_pending() + count <= usize::MAX,
        ensures
            final(self).spec_pending() == old(self).spec_pending() + count,
            final(self).spec_valid() == old(self).spec_valid(),
            final(self).spec_pending_special() == old(self).spec_pending_special(),
            final(self).spec_next_options() == old(self).spec_next_options(),
    {
        self.pending = self.pending + count;
    }

    /// Extend the pending range by one.
    pub fn pend_one(&mut self)
        requires
            old(self).spec_pending() + 1 <= usize::MAX,
        ensures
            final(self).spec_pending() == old(self).spec_pending() + 1,
            final(self).spec_valid() == old(self).spec_valid(),
            final(self).spec_pending_special() == old(self).spec_pending_special(),
            final(self).spec_next_options() == old(self).spec_next_options(),
    {
        self.pend(1);
    }

    /// The current length of the pending range.
    pub fn pending(&self) -> (r: usize)
        ensures
            r == self.spec_pending(),
    {
        self.pending
    }

    /// Whether any input is pending.
    pub fn has_pending(&self) -> (r: bool)
        ensures
            r == (self.spec_pending() > 0),
    {
        self.pending > 0
    }

    /// Promote the whole pending range to valid.
    pub fn commit_pending(&mut self)
        requires
            old(self).spec_valid() + old(self).spec_pending() <= usize::MAX,
        ensures
            final(self).spec_valid() == old(self).spec_valid() + old(self).spec_pending(),
            final(self).spec_pending() == 0,
            final(self).spec_pending_special() == 0,
            final(self).spec_next_options() == old(self).spec_next_options(),
    {
        self.valid = self.valid + self.pending;
        self.pending = 0;
        self.pending_special = 0;
    }

    /// Replace the candidate continuations, by value.
    pub fn next_options(self, next_options: NextOptions<T>) -> (r: Self)
        ensures
            r.spec_valid() == self.spec_valid(),
            r.spec_pending() == self.spec_pending(),
            r.spec_pending_special() == self.spec_pending_special(),
            r.spec_next_options() == next_options,
    {
        let mut s = self;
        s.next_options = next_options;
        s
    }

    /// Replace the candidate continuations, in place.
    pub fn set_next_options(&mut self, next_options: NextOptions<T>)
        ensures
            final(self).spec_valid() == old(self).spec_valid(),
            final(self).spec_pending() == old(self).spec_pending(),
            final(self).spec_pending_special() == old(self).spec_pending_special(),
            final(self).spec_next_options() == next_options,
    {
        self.next_options = next_options;
    }

    /// Replace the length of the specially marked pending tail.
    pub fn set_pending_special(&mut self, pending_special: usize)
        ensures
            final(self).spec_valid() == old(self).spec_valid(),
            final(self).spec_pending() == old(self).spec_pending(),
            final(self).spec_pending_special() == pending_special,
            final(self).spec_next_options() == old(self).spec_next_options(),
    {
        self.pending_special = pending_special;
    }

    /// Add to the valid prefix length.
    pub fn with_valid(self, valid: usize) -> (r: Self)
        requires
            self.spec_valid() + valid <= usize::MAX,
        ensures
            r.spec_valid() == self.spec_valid() + valid,
            r.spec_pending() == self.spec_pending(),
            r.spec_pending_special() == self.spec_pending_special(),
            r.spec_next_options() == self.spec_next_options(),
    {
        let mut s = self;
        s.valid = s.valid + valid;
        s
    }

    /// Add to the valid prefix length, stopping at the machine's limit.
    pub fn bump_valid(self, valid: usize) -> (r: Self)
        ensures
            r.spec_valid() == if self.spec_valid() + valid <= usize::MAX {
                self.spec_valid() + valid
            } else {
                usize::MAX as int
            },
            r.spec_pending() == self.spec_pending(),
            r.spec_pending_special() == self.spec_pending_special(),
            r.spec_next_options() == self.spec_next_options(),
    {
        let mut s = self;
        s.valid = if s.valid <= usize::MAX - valid {
            s.valid + valid
        } else {
            usize::MAX
        };
        s
    }

    /// Break the assist into its four parts.
    pub fn dismantle(self) -> (r: (usize, usize, usize, NextOptions<T>))
        ensures
            r.0 == self.spec_valid(),
            r.1 == self.spec_pending(),
            r.2 == self.spec_pending_special(),
            r.3 == self.spec_next_options(),
    {
        let Self { valid, pending, pending_special, next_options } = self;
        (valid, pending, pending_special, next_options)
    }
}

impl<T> Default for Assist<T> {
    fn default() -> (r: Self)
        ensures
            r.spec_valid() == 0,
            r.spec_pending() == 0,
            r.spec_pending_special() == 0,
            r.spec_next_options() is NoOptions,
    {
        Assist { valid: 0, pending: 0, pending_special: 0, next_options: NextOptions::NoOptions }
    }
}

} // verus!
