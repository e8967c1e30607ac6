use vstd::prelude::*;

verus! {

/// What the main display reports about itself.
#[derive(Debug, Clone, Copy, PartialEq, Eq, Structural)]
pub struct DisplayState {
    pub is_online: bool,
    pub is_active: bool,
    pub is_asleep: bool,
}

/// Why a capture was refused.
#[derive(Debug, Clone, Copy, PartialEq, Eq, Structural)]
pub enum CaptureBlockReason {
    DisplayOffline,
    DisplayInactive,
    DisplayAsleep,
}

/// Whether a screenshot may be taken now, and if not, why not.
#[derive(Debug, Clone, Copy, PartialEq, Eq, Structural)]
pub struct CaptureAvailability {
    reason: Option<CaptureBlockReason>,
}

/// The reason a display state blocks capture: offline first, then asleep, then inactive.
pub open spec fn spec_block_reason(display: DisplayState) -> Option<CaptureBlockReason> {
    if !display.is_online {
        Some(CaptureBlockReason::DisplayOffline)
    } else if display.is_asleep {
        Some(CaptureBlockReason::DisplayAsleep)
    } else if !display.is_active {
        Some(CaptureBlockReason::DisplayInactive)
    } else {
        None
    }
}

impl CaptureAvailability {
    pub closed spec fn block_reason(self) -> Option<CaptureBlockReason> {
        self.reason
    }

    pub fn from_display_state(display: DisplayState) -> (availability: Self)
        ensures
            availability.block_reason() == spec_block_reason(display),
    {
        if !display.is_online {
            return Self::blocked(CaptureBlockReason::DisplayOffline);
        }
        if display.is_asleep {
            return Self::blocked(CaptureBlockReason::DisplayAsleep);
        }
        if !display.is_active {
            return Self::blocked(CaptureBlockReason::DisplayInactive);
        }
        Self::allowed()
    }

    pub fn is_allowed(self) -> (allowed: bool)
        ensures
            allowed == (self.block_reason() is None),
    {
        self.reason.is_none()
    }

    /// Availability under the capture simulation switch: capture is always allowed when
    /// the switch reads `1`, and otherwise goes by the display.
    pub fn for_environment(simulate_capture: Option<&str>, display: DisplayState) -> (availability:
        Self)
        ensures
            (simulate_capture matches Some(v) && v@ == "1"@) ==> availability.block_reason() is None,
            !(simulate_capture matches Some(v) && v@ == "1"@) ==> availability.block_reason()
                == spec_block_reason(display),
    {
        match simulate_capture {
            Some(v) => {
                if crate::text::str_eq(v, "1") {
                    return Self::allowed();
                }
            },
            None => {},
        }
        Self::from_display_state(display)
    }

    /// `Ok` when capture is allowed; otherwise the message that says why it was skipped.
    pub fn ensure_allowed(self) -> (r: Result<(), String>)
        ensures
            match self.block_reason() {
                None => r is Ok,
                Some(reason) => r matches Err(message) && message@ == block_message(reason),
            },
    {
        match self.reason {
            None => Ok(()),
            Some(CaptureBlockReason::DisplayOffline) => Err(crate::text::owned(DISPLAY_OFFLINE)),
            Some(CaptureBlockReason::DisplayInactive) => Err(crate::text::owned(DISPLAY_INACTIVE)),
            Some(CaptureBlockReason::DisplayAsleep) => Err(crate::text::owned(DISPLAY_ASLEEP)),
        }
    }

    fn allowed() -> (availability: Self)
        ensures
            availability.block_reason() is None,
    {
        Self { reason: None }
    }

    fn blocked(reason: CaptureBlockReason) -> (availability: Self)
        ensures
            availability.block_reason() == Some(reason),
    {
        Self { reason: Some(reason) }
    }
}


pub const DISPLAY_OFFLINE: &'static str = "当前显示器未在线，已跳过截图";
pub const DISPLAY_INACTIVE: &'static str = "当前显示器未激活，已跳过截图";
pub const DISPLAY_ASLEEP: &'static str = "当前显示器已息屏，已跳过截图";

/// The message for a skipped capture.
pub open spec fn block_message(reason: CaptureBlockReason) -> Seq<char> {
    match reason {
        CaptureBlockReason::DisplayOffline => DISPLAY_OFFLINE@,
        CaptureBlockReason::DisplayInactive => DISPLAY_INACTIVE@,
        CaptureBlockReason::DisplayAsleep => DISPLAY_ASLEEP@,
    }
}


/// A screenshot is allowed exactly when the display is online, active and awake.
pub proof fn lemma_capture_needs_awake_display(display: DisplayState)
    ensures
        (spec_block_reason(display) is None) == (display.is_online && display.is_active
            && !display.is_asleep),
{
}

} // verus!
