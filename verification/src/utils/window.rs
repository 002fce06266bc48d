//! The window that suppresses replayed ids.

use crate::utils::bitmap::Bitmap;
use vstd::prelude::*;

verus! {

/// Why the window turned a value away.
#[derive(Clone, Copy, Debug, PartialEq, Eq, Structural)]
pub enum WindowError {
    /// The value is at or below the lower edge of the window.
    Expired { val: u64, min: u64, max: u64 },
    /// The value's bit is already set.
    Existed { val: u64 },
}

/// A sliding window `(min, max]` of width `cap` over `u64` values, with one
/// bit per residue modulo `cap`. The window only moves forward and never
/// clears a bit.
#[derive(Debug, Clone)]
pub struct Window {
    pub min: u64,
    pub max: u64,
    pub cap: u64,
    pub bit_map: Bitmap,
}

/// A window as plain values.
pub struct WindowView {
    pub min: u64,
    pub max: u64,
    pub cap: u64,
    pub bits: Seq<bool>,
}

impl WindowView {
    /// The width is positive, the edges are `cap` apart, and there is a bit
    /// for each residue.
    pub open spec fn wf(self) -> bool {
        &&& self.cap > 0
        &&& self.max - self.min == self.cap
        &&& self.bits.len() >= self.cap
    }

    /// Whether `put(val)` is accepted.
    #[verifier::opaque]
    pub open spec fn accepts(self, val: u64) -> bool {
        val > self.min && (val > self.max || !self.bits[(val % self.cap) as int])
    }

    /// Why `put(val)` is turned away, where it is.
    pub open spec fn rejection(self, val: u64) -> WindowError {
        if val <= self.min {
            WindowError::Expired { val, min: self.min, max: self.max }
        } else {
            WindowError::Existed { val }
        }
    }

    /// The window after `put(val)`.
    #[verifier::opaque]
    pub open spec fn put(self, val: u64) -> WindowView {
        if !self.accepts(val) {
            self
        } else if val > self.max {
            WindowView {
                min: (self.min + (val - self.max)) as u64,
                max: val,
                cap: self.cap,
                bits: self.bits.update((val % self.cap) as int, true),
            }
        } else {
            WindowView { bits: self.bits.update((val % self.cap) as int, true), ..self }
        }
    }

    /// `val` has been recorded: it is not above the upper edge and its bit is
    /// set. Such a value is never accepted again.
    #[verifier::opaque]
    pub open spec fn seen(self, val: u64) -> bool {
        val <= self.max && self.bits[(val % self.cap) as int]
    }
}

impl View for Window {
    type V = WindowView;

    open spec fn view(&self) -> WindowView {
        WindowView { min: self.min, max: self.max, cap: self.cap, bits: self.bit_map@ }
    }
}

impl Window {
    /// The window `(min, max]` with no bit set.
    pub fn new(min: u64, max: u64) -> (w: Self)
        requires
            min <= max,
            (max - min) / 8 + 1 <= usize::MAX,
        ensures
            w@.min == min,
            w@.max == max,
            w@.cap == max - min,
            w@.bits.len() >= w@.cap,
            w@.bits.len() == 8 * ((max - min + 7) / 8),
            forall|k: int| 0 <= k < w@.bits.len() ==> !w@.bits[k],
            max > min ==> w@.wf(),
    {
        Window { min, max, cap: max - min, bit_map: Bitmap::new(max - min) }
    }

    /// A window with the same edges and bits.
    pub fn duplicate(&self) -> (w: Self)
        ensures
            w@ == self@,
    {
        Window { min: self.min, max: self.max, cap: self.cap, bit_map: self.bit_map.duplicate() }
    }

    /// Records `val`. A value at or below `min` is expired. A value above
    /// `max` moves both edges up so that `max` becomes `val`, and is accepted.
    /// A value inside the window is accepted if its bit was clear and turned
    /// away if it was set. An accepted value has its bit set; a value turned
    /// away leaves the window as it was.
    pub fn put(&mut self, val: u64) -> (r: Result<(), WindowError>)
        requires
            old(self)@.wf(),
        ensures
            final(self)@ == old(self)@.put(val),
            final(self)@.wf(),
            r is Ok <==> old(self)@.accepts(val),
            r matches Err(e) ==> e == old(self)@.rejection(val),
    {
        proof {
            reveal(WindowView::accepts);
            reveal(WindowView::put);
        }
        if val <= self.min {
            Err(WindowError::Expired { val, min: self.min, max: self.max })
        } else if val > self.max {
            let delta: u64 = val - self.max;
            self.min = self.min + delta;
            self.max = self.max + delta;
            self.bit_map.set(val % self.cap, true);
            Ok(())
        } else if self.bit_map.get(val % self.cap) {
            Err(WindowError::Existed { val })
        } else {
            self.bit_map.set(val % self.cap, true);
            Ok(())
        }
    }

    /// Whether `val` has been recorded, see [`WindowView::seen`].
    pub fn has_seen(&self, val: u64) -> (r: bool)
        requires
            self@.wf(),
        ensures
            r == self@.seen(val),
    {
        proof {
            reveal(WindowView::seen);
        }
        val <= self.max && self.bit_map.get(val % self.cap)
    }

    /// Bit `val` of the bitmap, read without reducing `val` modulo `cap`.
    pub fn contains(&self, val: u64) -> (r: bool)
        requires
            val < self@.bits.len(),
        ensures
            r == self@.bits[val as int],
    {
        self.bit_map.get(val)
    }

    /// Whether the window can take a `put`: see [`WindowView::wf`].
    pub fn is_valid(&self) -> (r: bool)
        ensures
            r == self@.wf(),
    {
        let n: usize = self.bit_map.len();
        self.cap > 0 && self.max >= self.min && self.max - self.min == self.cap && self.cap / 8
            < n as u64 || (self.cap > 0 && self.max >= self.min && self.max - self.min == self.cap
            && self.cap % 8 == 0 && self.cap / 8 == n as u64)
    }
}

/// Once a value has been accepted it is seen, and a seen value is turned away.
pub proof fn lemma_put_records(w: WindowView, val: u64)
    requires
        w.wf(),
        w.accepts(val),
    ensures
        w.put(val).seen(val),
        !w.put(val).accepts(val),
{
    reveal(WindowView::accepts);
    reveal(WindowView::put);
    reveal(WindowView::seen);
}

/// A seen value stays seen whatever is put afterwards, and is never accepted.
pub proof fn lemma_seen_is_kept(w: WindowView, seen: u64, val: u64)
    requires
        w.wf(),
        w.seen(seen),
    ensures
        w.put(val).seen(seen),
        !w.accepts(seen),
        w.put(val).wf(),
{
    reveal(WindowView::accepts);
    reveal(WindowView::put);
    reveal(WindowView::seen);
}

/// Whatever is put, the window stays well-formed and every seen value stays
/// seen.
pub proof fn lemma_put_keeps_all_seen(w: WindowView, val: u64)
    requires
        w.wf(),
    ensures
        w.put(val).wf(),
        forall|x: u64| w.seen(x) ==> #[trigger] w.put(val).seen(x),
{
    reveal(WindowView::accepts);
    reveal(WindowView::put);
    assert forall|x: u64| w.seen(x) implies #[trigger] w.put(val).seen(x) by {
        lemma_seen_is_kept(w, x, val);
    }
}

/// A window with no bit set has seen nothing.
pub proof fn lemma_clear_window_sees_nothing(w: WindowView, val: u64)
    requires
        w.wf(),
        forall|k: int| 0 <= k < w.bits.len() ==> !w.bits[k],
    ensures
        !w.seen(val),
{
    reveal(WindowView::seen);
}

/// A value that is turned away leaves the window as it was.
pub proof fn lemma_rejected_put(w: WindowView, val: u64)
    requires
        !w.accepts(val),
    ensures
        w.put(val) == w,
{
    reveal(WindowView::put);
}

/// A value that is accepted was not seen before.
pub proof fn lemma_accepted_was_unseen(w: WindowView, val: u64)
    requires
        w.wf(),
        w.accepts(val),
    ensures
        !w.seen(val),
{
    reveal(WindowView::accepts);
    reveal(WindowView::put);
    reveal(WindowView::seen);
}

} // verus!
