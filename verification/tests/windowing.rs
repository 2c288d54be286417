//! One window or several.

use flowsurface::windowing::WindowingMode;

#[test]
fn platform_default_is_correct() {
    if std::path::MAIN_SEPARATOR == '\\' {
        assert_eq!(WindowingMode::platform_default(), WindowingMode::SingleWindowEmbedded);
    } else {
        assert_eq!(WindowingMode::platform_default(), WindowingMode::NativeMultiWindow);
    }
}

#[test]
fn native_popout_only_in_multi_window() {
    assert!(WindowingMode::NativeMultiWindow.allows_native_popout());
    assert!(!WindowingMode::SingleWindowEmbedded.allows_native_popout());
}
