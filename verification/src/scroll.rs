//! Viewport scrolling over the event list: which events are visible, and
//! how the offset follows the selection.

use vstd::prelude::*;

verus! {

/// Height of the participant header area.
pub const HEADER_HEIGHT: u16 = 3;

/// Vertical spacing between messages.
pub const MESSAGE_SPACING: u16 = 3;

/// Offset from lifeline start to first message.
pub const FIRST_MESSAGE_OFFSET: u16 = 2;

/// The scroll position of the event column.
#[derive(Clone, Copy, PartialEq, Eq, Structural, Debug)]
pub struct ScrollState {
    /// Index of the first visible event.
    pub offset: usize,
    /// Height available for rendering events.
    pub viewport_height: u16,
}

impl ScrollState {
    /// How many events fit in the viewport.
    pub open spec fn spec_capacity(self) -> int {
        self.viewport_height as int / MESSAGE_SPACING as int
    }

    pub fn new() -> (r: Self)
        ensures
            r.offset == 0,
            r.viewport_height == 0,
    {
        ScrollState { offset: 0, viewport_height: 0 }
    }

    /// Records the viewport height, minus the header and first-message
    /// offset (saturating at zero).
    pub fn set_viewport(&mut self, height: u16)
        ensures
            final(self).offset == old(self).offset,
            final(self).viewport_height == (if height >= HEADER_HEIGHT + FIRST_MESSAGE_OFFSET {
                height - (HEADER_HEIGHT + FIRST_MESSAGE_OFFSET)
            } else {
                0
            }),
    {
        let reserved = HEADER_HEIGHT + FIRST_MESSAGE_OFFSET;
        self.viewport_height = if height >= reserved {
            height - reserved
        } else {
            0
        };
    }

    /// How many events fit in the viewport.
    pub fn capacity(&self) -> (r: usize)
        ensures
            r == self.spec_capacity(),
    {
        (self.viewport_height / MESSAGE_SPACING) as usize
    }

    /// Moves the offset the least amount needed to bring `index` into view.
    pub fn ensure_visible(&mut self, index: usize)
        ensures
            final(self).viewport_height == old(self).viewport_height,
            old(self).spec_capacity() == 0 ==> *final(self) == *old(self),
            old(self).spec_capacity() > 0 ==> final(self).offset <= index < final(self).offset
                + old(self).spec_capacity(),
            old(self).spec_capacity() > 0 && old(self).offset <= index < old(self).offset + old(
                self,
            ).spec_capacity() ==> final(self).offset == old(self).offset,
    {
        let capacity = self.capacity();
        if capacity == 0 {
            return;
        }
        if index < self.offset {
            self.offset = index;
        } else if index - self.offset >= capacity {
            self.offset = index - (capacity - 1);
        }
    }

    /// The visible range of event indices: from the offset up to capacity
    /// further, clamped to `total_events`.
    pub fn visible_range(&self, total_events: usize) -> (r: (usize, usize))
        ensures
            r.0 == self.offset,
            r.1 == (if self.offset + self.spec_capacity() <= total_events {
                self.offset + self.spec_capacity()
            } else {
                total_events as int
            }),
    {
        let capacity = self.capacity();
        let end = if capacity <= usize::MAX - self.offset && self.offset + capacity
            <= total_events {
            self.offset + capacity
        } else {
            total_events
        };
        proof {
            if !(self.offset + self.spec_capacity() <= total_events) {
                assert(end == total_events);
            }
        }
        (self.offset, end)
    }

    /// Whether there are more events than the viewport can show.
    pub fn needs_scroll(&self, total_events: usize) -> (r: bool)
        ensures
            r == (total_events > self.spec_capacity()),
    {
        total_events > self.capacity()
    }
}

impl Default for ScrollState {
    fn default() -> (r: Self)
        ensures
            r.offset == 0,
            r.viewport_height == 0,
    {
        ScrollState::new()
    }
}

} // verus!
