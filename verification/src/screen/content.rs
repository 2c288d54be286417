//! What panes show, which live data and settings concern them, and where panes go.

use vstd::prelude::*;
use crate::windowing::WindowingMode;

verus! {

/// What a pane shows.
#[derive(Debug, Clone, Copy, PartialEq, Eq, Structural)]
pub enum ContentKind {
    Starter,
    Kline,
    Heatmap,
    ShaderHeatmap,
    TimeAndSales,
    Ladder,
    Comparison,
}

/// What settings are for.
#[derive(Debug, Clone, Copy, PartialEq, Eq, Structural)]
pub enum ConfigKind {
    Kline,
    Heatmap,
    TimeAndSales,
    Ladder,
    Comparison,
}

impl ContentKind {
    /// The settings that a pane without any takes over from another pane.
    pub open spec fn adopts(self) -> Option<ConfigKind> {
        match self {
            ContentKind::Kline => Some(ConfigKind::Kline),
            ContentKind::Heatmap => Some(ConfigKind::Heatmap),
            ContentKind::ShaderHeatmap => Some(ConfigKind::Heatmap),
            ContentKind::TimeAndSales => Some(ConfigKind::TimeAndSales),
            ContentKind::Comparison => Some(ConfigKind::Comparison),
            ContentKind::Starter => None,
            ContentKind::Ladder => None,
        }
    }

    /// True when settings that one pane shares with all reach a pane with this content. `current`
    /// is what its own settings are for, if it has any.
    pub fn takes_config(self, current: Option<ConfigKind>, shared: ConfigKind) -> (r: bool)
        ensures
            r == match current {
                Some(own) => own == shared,
                None => self.adopts() == Some(shared),
            },
    {
        match current {
            Some(own) => own == shared,
            None => match self {
                ContentKind::Kline => shared == ConfigKind::Kline,
                ContentKind::Heatmap | ContentKind::ShaderHeatmap => shared == ConfigKind::Heatmap,
                ContentKind::TimeAndSales => shared == ConfigKind::TimeAndSales,
                ContentKind::Comparison => shared == ConfigKind::Comparison,
                ContentKind::Starter | ContentKind::Ladder => false,
            },
        }
    }

    /// True when live trades are drawn.
    pub fn takes_trades(self) -> (r: bool)
        ensures
            r == (self is Heatmap || self is ShaderHeatmap || self is Kline || self is TimeAndSales
                || self is Ladder),
    {
        match self {
            ContentKind::Heatmap
            | ContentKind::ShaderHeatmap
            | ContentKind::Kline
            | ContentKind::TimeAndSales
            | ContentKind::Ladder => true,
            ContentKind::Starter | ContentKind::Comparison => false,
        }
    }

    /// True when live order books are drawn.
    pub fn takes_depth(self) -> (r: bool)
        ensures
            r == (self is Heatmap || self is ShaderHeatmap || self is Ladder),
    {
        match self {
            ContentKind::Heatmap | ContentKind::ShaderHeatmap | ContentKind::Ladder => true,
            _ => false,
        }
    }

    /// True when live candles are drawn.
    pub fn takes_klines(self) -> (r: bool)
        ensures
            r == (self is Kline || self is Comparison),
    {
        match self {
            ContentKind::Kline | ContentKind::Comparison => true,
            _ => false,
        }
    }
}

/// Where a new pane goes.
#[derive(Debug, Clone, Copy, PartialEq, Eq, Structural)]
pub enum NewPanePlace {
    /// Beside the pane that has the focus.
    BesideFocus,
    /// Beside the last pane.
    BesideLast,
    /// Into a grid of its own.
    NewGrid,
}

/// Where a new pane goes. `focused` says whether a pane of the main window has the focus, and
/// `panes` how many there are.
pub fn new_pane_place(focused: bool, panes: usize) -> (p: NewPanePlace)
    ensures
        p == if focused {
            NewPanePlace::BesideFocus
        } else if panes > 0 {
            NewPanePlace::BesideLast
        } else {
            NewPanePlace::NewGrid
        },
{
    if focused {
        NewPanePlace::BesideFocus
    } else if panes > 0 {
        NewPanePlace::BesideLast
    } else {
        NewPanePlace::NewGrid
    }
}

/// What becomes of a pane that is to pop out.
#[derive(Debug, Clone, Copy, PartialEq, Eq, Structural)]
pub enum PopoutStep {
    /// It gets a window of its own.
    OpenWindow,
    /// It fills the only window.
    Maximize,
    /// Nothing: no pane has the focus.
    Nothing,
}

/// What becomes of the pane that has the focus, if there is one, when it is to pop out.
pub fn popout_step(mode: WindowingMode, focused: bool) -> (s: PopoutStep)
    ensures
        s == if !focused {
            PopoutStep::Nothing
        } else if mode is NativeMultiWindow {
            PopoutStep::OpenWindow
        } else {
            PopoutStep::Maximize
        },
{
    if !focused {
        PopoutStep::Nothing
    } else if mode.allows_native_popout() {
        PopoutStep::OpenWindow
    } else {
        PopoutStep::Maximize
    }
}

/// True when a pane gets the focus of its own accord: it is the only one, and none has it.
pub fn focuses_only_pane(focused: bool, panes: usize) -> (r: bool)
    ensures
        r == (!focused && panes == 1),
{
    !focused && panes == 1
}

} // verus!
