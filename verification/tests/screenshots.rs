use xrizer::screenshots::{
    ScreenshotError, ScreenshotPropertyFilename, ScreenshotType, Screenshots,
};

#[test]
fn screenshots_are_refused() {
    let screenshots = Screenshots::new();
    let name = b"shot".to_vec();
    assert_eq!(
        screenshots.submit_screenshot(1, ScreenshotType::Mono, &name, &name),
        ScreenshotError::IncompatibleVersion
    );
    assert_eq!(
        screenshots.take_stereo_screenshot(&name, &name),
        ScreenshotError::IncompatibleVersion
    );
    assert_eq!(
        screenshots.update_screenshot_progress(1, 0.5f32.to_bits()),
        ScreenshotError::IncompatibleVersion
    );
    assert_eq!(
        screenshots.request_screenshot(ScreenshotType::Stereo, &name, &name),
        ScreenshotError::IncompatibleVersion
    );
}

#[test]
fn screenshot_properties_are_empty() {
    let screenshots = Screenshots::new();
    assert_eq!(
        screenshots.get_screenshot_property_filename(1, ScreenshotPropertyFilename::Preview),
        (0, ScreenshotError::IncompatibleVersion)
    );
    assert_eq!(
        screenshots.get_screenshot_property_filename(1, ScreenshotPropertyFilename::Vr),
        (0, ScreenshotError::IncompatibleVersion)
    );
    assert_eq!(
        screenshots.get_screenshot_property_type(1),
        (ScreenshotType::NoScreenshot, ScreenshotError::IncompatibleVersion)
    );
}

#[test]
fn screenshot_hook_is_accepted() {
    let screenshots = Screenshots::new();
    assert_eq!(
        screenshots.hook_screenshot(&vec![ScreenshotType::Mono, ScreenshotType::Cubemap]),
        ScreenshotError::Success
    );
    assert_eq!(screenshots.hook_screenshot(&Vec::new()), ScreenshotError::Success);
}
