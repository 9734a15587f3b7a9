//! The window's size bookkeeping around fullscreen: which size to come back to when
//! leaving fullscreen, and when that size has been reached.
use vstd::prelude::*;

verus! {

/// Sizes are in physical pixels, `(width, height)`.
pub struct WindowSizing {
    pub is_fullscreen: bool,
    /// The last size the window had while neither fullscreen nor maximized.
    pub last_windowed_size: (u32, u32),
    /// The size to come back to when leaving fullscreen.
    pub windowed_size_before_fullscreen: Option<(u32, u32)>,
    /// A windowed size still to be restored after leaving fullscreen.
    pub restore_windowed_size_after_fullscreen: Option<(u32, u32)>,
    /// The next maximized resize is not to be turned into fullscreen.
    pub suppress_maximize_to_fullscreen_once: bool,
    /// The size the window last asked the system for.
    pub pending_size: Option<(u32, u32)>,
}

/// What the window is asked to do when fullscreen is toggled.
#[derive(Clone, Copy, PartialEq, Eq, Structural, Debug)]
pub enum FullscreenChange {
    /// Leave fullscreen, un-maximized.
    Leave,
    /// Go borderless fullscreen on the current monitor.
    Enter,
}

/// `a` and `b` differ by at most two pixels in each dimension.
pub open spec fn close_enough(a: (u32, u32), b: (u32, u32)) -> bool {
    -2 <= a.0 - b.0 <= 2 && -2 <= a.1 - b.1 <= 2
}

/// A usable window size: both dimensions positive.
pub open spec fn usable(size: (u32, u32)) -> bool {
    size.0 > 0 && size.1 > 0
}

impl WindowSizing {
    /// Windowed, at `size`, with that size to come back to.
    pub fn new(size: (u32, u32)) -> (w: Self)
        ensures
            !w.is_fullscreen,
            w.last_windowed_size == size,
            w.windowed_size_before_fullscreen == Some(size),
            w.restore_windowed_size_after_fullscreen is None,
            !w.suppress_maximize_to_fullscreen_once,
            w.pending_size is None,
    {
        WindowSizing {
            is_fullscreen: false,
            last_windowed_size: size,
            windowed_size_before_fullscreen: Some(size),
            restore_windowed_size_after_fullscreen: None,
            suppress_maximize_to_fullscreen_once: false,
            pending_size: None,
        }
    }

    /// Toggles fullscreen, the window being `currently_fullscreen`, `maximized` and of inner
    /// size `size`. Leaving fullscreen schedules the size to come back to (the one saved on
    /// entering, else the last windowed size) and lets the next maximized resize pass.
    /// Entering saves the size to come back to: the last windowed size if the window was
    /// maximized or has no usable size, else its current size, which also becomes the last
    /// windowed size.
    pub fn toggle_fullscreen(&mut self, currently_fullscreen: bool, maximized: bool, size: (u32, u32)) -> (change: FullscreenChange)
        ensures
            currently_fullscreen ==> change == FullscreenChange::Leave && *final(self) == (
            WindowSizing {
                restore_windowed_size_after_fullscreen: Some(
                    match old(self).windowed_size_before_fullscreen {
                        Some(s) => s,
                        None => old(self).last_windowed_size,
                    },
                ),
                suppress_maximize_to_fullscreen_once: true,
                is_fullscreen: false,
                ..*old(self)
            }),
            !currently_fullscreen ==> change == FullscreenChange::Enter && *final(self) == (
            WindowSizing {
                windowed_size_before_fullscreen: Some(
                    if !maximized && usable(size) {
                        size
                    } else {
                        old(self).last_windowed_size
                    },
                ),
                last_windowed_size: if !maximized && usable(size) {
                    size
                } else {
                    old(self).last_windowed_size
                },
                is_fullscreen: true,
                ..*old(self)
            }),
    {
        if currently_fullscreen {
            let restore_size = match self.windowed_size_before_fullscreen {
                Some(s) => s,
                None => self.last_windowed_size,
            };
            self.restore_windowed_size_after_fullscreen = Some(restore_size);
            self.suppress_maximize_to_fullscreen_once = true;
            self.is_fullscreen = false;
            FullscreenChange::Leave
        } else {
            if maximized {
                self.windowed_size_before_fullscreen = Some(self.last_windowed_size);
            } else if size.0 > 0 && size.1 > 0 {
                self.windowed_size_before_fullscreen = Some(size);
                self.last_windowed_size = size;
            } else {
                self.windowed_size_before_fullscreen = Some(self.last_windowed_size);
            }
            self.is_fullscreen = true;
            FullscreenChange::Enter
        }
    }

    /// While windowed with a size still to restore, the window being at `current`: once it
    /// is within two pixels of that size, the restore is done and `current` becomes the last
    /// windowed size (`None`); otherwise the size is asked for again and returned.
    pub fn apply_pending_window_restore(&mut self, current: (u32, u32)) -> (request: Option<(u32, u32)>)
        requires
            current.0 <= i32::MAX && current.1 <= i32::MAX,
            old(self).restore_windowed_size_after_fullscreen matches Some(r) ==> r.0 <= i32::MAX
                && r.1 <= i32::MAX,
        ensures
            (old(self).is_fullscreen || old(self).restore_windowed_size_after_fullscreen is None)
                ==> request is None && *final(self) == *old(self),
            !old(self).is_fullscreen ==> match old(self).restore_windowed_size_after_fullscreen {
                None => true,
                Some(r) => if close_enough(current, r) {
                    request is None && *final(self) == (WindowSizing {
                        restore_windowed_size_after_fullscreen: None,
                        last_windowed_size: current,
                        ..*old(self)
                    })
                } else {
                    request == Some(r) && *final(self) == (WindowSizing {
                        pending_size: Some(r),
                        ..*old(self)
                    })
                },
            },
    {
        if self.is_fullscreen {
            return None;
        }
        let (rw, rh) = match self.restore_windowed_size_after_fullscreen {
            Some(v) => v,
            None => return None,
        };
        let dw = current.0 as i64 - rw as i64;
        let dh = current.1 as i64 - rh as i64;
        if -2 <= dw && dw <= 2 && -2 <= dh && dh <= 2 {
            self.restore_windowed_size_after_fullscreen = None;
            self.last_windowed_size = current;
            return None;
        }
        self.pending_size = Some((rw, rh));
        Some((rw, rh))
    }

    /// On a windowed resize: a maximized window is to go fullscreen, unless the next
    /// maximize was to be let pass or a restore is under way, in which case the pass is used
    /// up and nothing else happens.
    pub fn maximized_resize_goes_fullscreen(&mut self, maximized: bool) -> (go: bool)
        ensures
            (old(self).suppress_maximize_to_fullscreen_once
                || old(self).restore_windowed_size_after_fullscreen is Some) ==> !go && *final(self)
                == (WindowSizing { suppress_maximize_to_fullscreen_once: false, ..*old(self) }),
            !(old(self).suppress_maximize_to_fullscreen_once
                || old(self).restore_windowed_size_after_fullscreen is Some) ==> go == maximized
                && *final(self) == *old(self),
    {
        if self.suppress_maximize_to_fullscreen_once
            || self.restore_windowed_size_after_fullscreen.is_some() {
            self.suppress_maximize_to_fullscreen_once = false;
            false
        } else {
            maximized
        }
    }

    /// A resize to `size` within two pixels of the size the window asked for answers that
    /// request, which is then forgotten.
    pub fn take_own_request(&mut self, size: (u32, u32)) -> (own: bool)
        requires
            size.0 <= i32::MAX && size.1 <= i32::MAX,
            old(self).pending_size matches Some(p) ==> p.0 <= i32::MAX && p.1 <= i32::MAX,
        ensures
            own == (old(self).pending_size matches Some(p) && close_enough(size, p)),
            own ==> *final(self) == (WindowSizing { pending_size: None, ..*old(self) }),
            !own ==> *final(self) == *old(self),
    {
        match self.pending_size {
            Some((pw, ph)) => {
                let dw = size.0 as i64 - pw as i64;
                let dh = size.1 as i64 - ph as i64;
                if -2 <= dw && dw <= 2 && -2 <= dh && dh <= 2 {
                    self.pending_size = None;
                    true
                } else {
                    false
                }
            },
            None => false,
        }
    }

    /// After a windowed resize to `size`: it is the last windowed size unless the window is
    /// maximized or a restore is under way.
    pub fn note_windowed_size(&mut self, maximized: bool, size: (u32, u32))
        ensures
            (!maximized && old(self).restore_windowed_size_after_fullscreen is None) ==> *final(self)
                == (WindowSizing { last_windowed_size: size, ..*old(self) }),
            !(!maximized && old(self).restore_windowed_size_after_fullscreen is None)
                ==> *final(self) == *old(self),
    {
        if !maximized && self.restore_windowed_size_after_fullscreen.is_none() {
            self.last_windowed_size = size;
        }
    }
}

} // verus!
