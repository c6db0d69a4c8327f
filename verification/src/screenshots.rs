//! The screenshot interface. The engine takes no screenshots: every
//! request is answered with the same refusal.

use vstd::prelude::*;

verus! {

/// The outcome of a screenshot call.
#[derive(Clone, Copy, Debug, PartialEq, Eq, Structural)]
pub enum ScreenshotError {
    /// The call succeeded.
    Success,
    /// Screenshots are not available.
    IncompatibleVersion,
}

/// The kind of a screenshot.
#[derive(Clone, Copy, Debug, PartialEq, Eq, Structural)]
pub enum ScreenshotType {
    NoScreenshot,
    Mono,
    Stereo,
    Cubemap,
    MonoPanorama,
    StereoPanorama,
}

/// The file of a screenshot that a name is asked for.
#[derive(Clone, Copy, Debug, PartialEq, Eq, Structural)]
pub enum ScreenshotPropertyFilename {
    Preview,
    Vr,
}

/// The screenshot interface; it has no state.
pub struct Screenshots {}

impl Default for Screenshots {
    fn default() -> Self {
        Screenshots {  }
    }
}

impl Screenshots {
    /// The screenshot interface.
    pub fn new() -> Self {
        Screenshots {  }
    }

    /// Refuses a screenshot that the caller rendered.
    pub fn submit_screenshot(
        &self,
        handle: u32,
        kind: ScreenshotType,
        preview_filename: &Vec<u8>,
        vr_filename: &Vec<u8>,
    ) -> (r: ScreenshotError)
        ensures
            r == ScreenshotError::IncompatibleVersion,
    {
        ScreenshotError::IncompatibleVersion
    }

    /// Refuses to take a stereo screenshot.
    pub fn take_stereo_screenshot(&self, preview_filename: &Vec<u8>, vr_filename: &Vec<u8>) -> (r:
        ScreenshotError)
        ensures
            r == ScreenshotError::IncompatibleVersion,
    {
        ScreenshotError::IncompatibleVersion
    }

    /// Refuses a progress report; `progress` is a bit pattern.
    pub fn update_screenshot_progress(&self, handle: u32, progress: u32) -> (r: ScreenshotError)
        ensures
            r == ScreenshotError::IncompatibleVersion,
    {
        ScreenshotError::IncompatibleVersion
    }

    /// The length of a screenshot's file name, which is 0, and the refusal.
    pub fn get_screenshot_property_filename(
        &self,
        handle: u32,
        filename: ScreenshotPropertyFilename,
    ) -> (r: (u32, ScreenshotError))
        ensures
            r == (0u32, ScreenshotError::IncompatibleVersion),
    {
        (0, ScreenshotError::IncompatibleVersion)
    }

    /// The kind of a screenshot, which is none, and the refusal.
    pub fn get_screenshot_property_type(&self, handle: u32) -> (r: (
        ScreenshotType,
        ScreenshotError,
    ))
        ensures
            r == (ScreenshotType::NoScreenshot, ScreenshotError::IncompatibleVersion),
    {
        (ScreenshotType::NoScreenshot, ScreenshotError::IncompatibleVersion)
    }

    /// Accepts the kinds of screenshot the caller wants to take itself;
    /// none will ever be asked of it.
    pub fn hook_screenshot(&self, supported: &Vec<ScreenshotType>) -> (r: ScreenshotError)
        ensures
            r == ScreenshotError::Success,
    {
        ScreenshotError::Success
    }

    /// Refuses a request for a screenshot.
    pub fn request_screenshot(
        &self,
        kind: ScreenshotType,
        preview_filename: &Vec<u8>,
        vr_filename: &Vec<u8>,
    ) -> (r: ScreenshotError)
        ensures
            r == ScreenshotError::IncompatibleVersion,
    {
        ScreenshotError::IncompatibleVersion
    }
}

} // verus!
