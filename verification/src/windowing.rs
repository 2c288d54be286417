//! How the application handles several windows.
//!
//! On Windows, several native windows starve one another of redraws. There everything is drawn
//! inside a single window.

use vstd::prelude::*;

verus! {

/// How the application handles several windows.
#[derive(Debug, Clone, Copy, PartialEq, Eq, Structural)]
pub enum WindowingMode {
    /// A pane that pops out gets a window of its own.
    NativeMultiWindow,
    /// A pane that pops out is docked inside the only window.
    SingleWindowEmbedded,
}

/// `std::path::MAIN_SEPARATOR`: the character between the components of a path. Nothing is claimed
/// of it, as it depends on the platform: it is a backslash on Windows and a slash elsewhere.
#[verifier::external_body]
fn path_separator() -> char {
    std::path::MAIN_SEPARATOR
}

impl WindowingMode {
    /// The mode on Windows, and the mode elsewhere.
    pub open spec fn on(windows: bool) -> WindowingMode {
        if windows {
            WindowingMode::SingleWindowEmbedded
        } else {
            WindowingMode::NativeMultiWindow
        }
    }

    /// The mode of the platform with a character between the components of a path.
    pub fn for_separator(separator: char) -> (m: Self)
        ensures
            m == WindowingMode::on(separator == '\\'),
    {
        if separator == '\\' {
            WindowingMode::SingleWindowEmbedded
        } else {
            WindowingMode::NativeMultiWindow
        }
    }

    /// The mode of this platform.
    pub fn platform_default() -> (m: Self)
        ensures
            exists|windows: bool| m == #[trigger] WindowingMode::on(windows),
    {
        WindowingMode::for_separator(path_separator())
    }

    /// True when a pane may get a window of its own.
    pub fn allows_native_popout(&self) -> (r: bool)
        ensures
            r == (*self is NativeMultiWindow),
    {
        match self {
            WindowingMode::NativeMultiWindow => true,
            WindowingMode::SingleWindowEmbedded => false,
        }
    }

    /// Why it is this mode.
    pub fn reason(&self) -> (s: &'static str)
        ensures
            s@ == match self {
                WindowingMode::NativeMultiWindow => "platform_supported"@,
                WindowingMode::SingleWindowEmbedded => "winit_win32_redraw_bug"@,
            },
    {
        match self {
            WindowingMode::NativeMultiWindow => "platform_supported",
            WindowingMode::SingleWindowEmbedded => "winit_win32_redraw_bug",
        }
    }

    /// Its name.
    pub fn display(&self) -> (s: &'static str)
        ensures
            s@ == match self {
                WindowingMode::NativeMultiWindow => "NativeMultiWindow"@,
                WindowingMode::SingleWindowEmbedded => "SingleWindowEmbedded"@,
            },
    {
        match self {
            WindowingMode::NativeMultiWindow => "NativeMultiWindow",
            WindowingMode::SingleWindowEmbedded => "SingleWindowEmbedded",
        }
    }
}

/// True when a saved position of a window is dropped, so that the window opens in the middle. That
/// happens when its title bar can be reached on none of the displays. `displays` is their number,
/// if it is known: as long as it is not, a position is kept.
pub fn recovers_position(has_position: bool, displays: Option<usize>, reachable: bool) -> (r: bool)
    ensures
        r == (has_position && (displays matches Some(n) && n > 0 && !reachable)),
{
    match displays {
        Some(n) => has_position && n > 0 && !reachable,
        None => false,
    }
}

} // verus!
