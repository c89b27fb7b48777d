//! The desktop scene: when the local puppet is shown and which windows keep
//! the app in the dock. Times are milliseconds on a monotonic clock.

use vstd::prelude::*;

use crate::strings::{str_eq, StringSet};

verus! {

/// How long the local puppet stays visible once no friend is online.
pub const HIDE_DELAY_MS: u64 = 5000;

/// How long the local puppet stays hidden once a friend is online again.
pub const SHOW_DELAY_MS: u64 = 3000;

/// Whether the local puppet is shown, and a pending change with its deadline.
pub struct Visibility {
    pub show_local: bool,
    pending: Option<(bool, u64)>,
}

/// The ghost state of `Visibility`.
pub struct VisibilityView {
    pub show_local: bool,
    pub pending: Option<(bool, u64)>,
}

impl View for Visibility {
    type V = VisibilityView;

    closed spec fn view(&self) -> VisibilityView {
        VisibilityView { show_local: self.show_local, pending: self.pending }
    }
}

/// The visibility after an update at time `now`.
pub open spec fn next_visibility(
    v: VisibilityView,
    hide_when_alone: bool,
    has_friends: bool,
    now: u64,
) -> VisibilityView {
    if !hide_when_alone {
        VisibilityView { show_local: true, pending: None }
    } else if v.show_local == has_friends {
        VisibilityView { show_local: v.show_local, pending: None }
    } else {
        let (target, deadline) = match v.pending {
            Some(p) => p,
            None => (
                has_friends,
                (now + if has_friends {
                    SHOW_DELAY_MS
                } else {
                    HIDE_DELAY_MS
                }) as u64,
            ),
        };
        if now >= deadline {
            VisibilityView { show_local: target, pending: None }
        } else {
            VisibilityView { show_local: v.show_local, pending: Some((target, deadline)) }
        }
    }
}

impl Visibility {
    /// The local puppet is shown and nothing is pending.
    pub fn new() -> (r: Visibility)
        ensures
            r@ == (VisibilityView { show_local: true, pending: None }),
    {
        Visibility { show_local: true, pending: None }
    }

    /// Whether the scene window is needed: for the local puppet or for friends.
    pub fn window_open(&self, has_friends: bool) -> (r: bool)
        ensures
            r == (self@.show_local || has_friends),
    {
        self.show_local || has_friends
    }

    /// Advances to time `now`. When hiding the local puppet while alone is
    /// enabled, it is hidden `HIDE_DELAY_MS` after the last friend went offline
    /// and shown again `SHOW_DELAY_MS` after a friend came online; a change of
    /// circumstances before the deadline cancels the pending change.
    pub fn update(&mut self, hide_when_alone: bool, has_friends: bool, now: u64)
        requires
            now <= u64::MAX - HIDE_DELAY_MS,
        ensures
            final(self)@ == next_visibility(old(self)@, hide_when_alone, has_friends, now),
    {
        if !hide_when_alone {
            self.show_local = true;
            self.pending = None;
            return;
        }
        if self.show_local == has_friends {
            self.pending = None;
            return;
        }
        let (target, deadline) = match self.pending {
            Some(p) => p,
            None => {
                let delay = if has_friends {
                    SHOW_DELAY_MS
                } else {
                    HIDE_DELAY_MS
                };
                let p = (has_friends, now + delay);
                self.pending = Some(p);
                p
            },
        };
        if now >= deadline {
            self.show_local = target;
            self.pending = None;
        }
    }
}

/// Left alone from time `t`, the local puppet stays visible until
/// `HIDE_DELAY_MS` has passed and is hidden from then on.
pub proof fn law_local_puppet_hides_after_the_delay(t: u64, later: u64)
    requires
        t <= later,
        later <= u64::MAX - HIDE_DELAY_MS,
    ensures
        ({
            let start = VisibilityView { show_local: true, pending: None };
            let v1 = next_visibility(start, true, false, t);
            next_visibility(v1, true, false, later).show_local == (later < t + HIDE_DELAY_MS)
        }),
{
}

/// A friend coming back online before the deadline cancels the hiding.
pub proof fn law_reconnect_cancels_hiding(t: u64, back: u64)
    requires
        t <= back,
        back <= u64::MAX - HIDE_DELAY_MS,
    ensures
        ({
            let start = VisibilityView { show_local: true, pending: None };
            let v1 = next_visibility(start, true, false, t);
            next_visibility(v1, true, true, back) == start
        }),
{
}

/// Disabling the setting shows the local puppet and cancels any pending change.
pub proof fn law_disabling_restores_the_local_puppet(v: VisibilityView, has_friends: bool, now: u64)
    ensures
        next_visibility(v, false, has_friends, now) == (VisibilityView {
            show_local: true,
            pending: None,
        }),
{
}

/// What to do with the scene window to bring it in line with whether it is
/// needed.
#[derive(Debug, Clone, Copy, PartialEq, Eq, Structural)]
pub enum SceneAction {
    /// Create the window, with no hitboxes yet.
    Create,
    /// Destroy the window, then forget its hitboxes.
    Destroy,
    /// Leave the window as it is.
    Keep,
}

/// What to do with the scene window, given whether it is needed and whether
/// it is present.
pub open spec fn scene_action_for(open: bool, present: bool) -> SceneAction {
    if open && !present {
        SceneAction::Create
    } else if !open && present {
        SceneAction::Destroy
    } else {
        SceneAction::Keep
    }
}

/// What to do with the scene window, given whether it is needed (`open`)
/// and whether it is present.
pub fn scene_action(open: bool, present: bool) -> (r: SceneAction)
    ensures
        r == scene_action_for(open, present),
{
    if open && !present {
        SceneAction::Create
    } else if !open && present {
        SceneAction::Destroy
    } else {
        SceneAction::Keep
    }
}

/// Windows that never keep the app in the dock.
pub open spec fn is_decoration_window(label: Seq<char>) -> bool {
    label == "scene"@ || label == "splashscreen"@
}

/// The open windows that keep the app in the dock, and the dock state last applied.
pub struct ActivationPolicy {
    windows: StringSet,
    applied_regular: Option<bool>,
}

impl ActivationPolicy {
    /// The open windows that keep the app in the dock.
    pub closed spec fn windows_spec(&self) -> Set<Seq<char>> {
        self.windows@
    }

    /// The dock state last applied, if any.
    pub closed spec fn applied_spec(&self) -> Option<bool> {
        self.applied_regular
    }

    /// No window is open and no dock state has been applied.
    pub fn new() -> (r: ActivationPolicy)
        ensures
            r.windows_spec() == Set::<Seq<char>>::empty(),
            r.applied_spec() is None,
    {
        ActivationPolicy { windows: StringSet::new(), applied_regular: None }
    }

    /// Records that a window was created or destroyed; decoration windows
    /// (the scene and the splash screen) are ignored.
    pub fn record_window(&mut self, label: &str, created: bool)
        ensures
            final(self).windows_spec() == if is_decoration_window(label@) {
                old(self).windows_spec()
            } else if created {
                old(self).windows_spec().insert(label@)
            } else {
                old(self).windows_spec().remove(label@)
            },
            final(self).applied_spec() == old(self).applied_spec(),
    {
        if str_eq(label, "scene") || str_eq(label, "splashscreen") {
            return;
        }
        if created {
            self.windows.insert(label.to_owned());
        } else {
            self.windows.remove(label);
        }
    }

    /// The number of open windows that keep the app in the dock.
    pub fn window_count(&self) -> (r: usize)
        ensures
            r == self.windows_spec().len(),
    {
        self.windows.len()
    }

    /// The dock state to apply, if it differs from the one last applied: the app
    /// is a regular (dock) app exactly while such a window is open.
    pub fn pending_change(&self) -> (r: Option<bool>)
        ensures
            r == if self.applied_spec() == Some(self.windows_spec() != Set::<Seq<char>>::empty()) {
                None::<bool>
            } else {
                Some(self.windows_spec() != Set::<Seq<char>>::empty())
            },
    {
        let regular = !self.windows.is_empty();
        match self.applied_regular {
            Some(applied) => if applied == regular {
                None
            } else {
                Some(regular)
            },
            None => Some(regular),
        }
    }

    /// Records that the dock state `regular` was applied.
    pub fn mark_applied(&mut self, regular: bool)
        ensures
            final(self).applied_spec() == Some(regular),
            final(self).windows_spec() == old(self).windows_spec(),
    {
        self.applied_regular = Some(regular);
    }
}

} // verus!
