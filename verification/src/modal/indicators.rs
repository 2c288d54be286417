//! The dialog that lists the indicators of a chart and holds their settings.
//!
//! Settings that are fractions are kept as the bits of a single-precision number: the dialog hands
//! them on and does not compute with them. A choice from a list is kept as its place in the list.

use vstd::prelude::*;
use crate::seqs::lemma_filter_map_take;

verus! {

/// An indicator of a candle chart.
#[derive(Debug, Clone, Copy, PartialEq, Eq, Structural)]
pub enum KlineIndicator {
    SessionVolumeProfile,
    VolumeBubbles,
    Vwap,
    /// One of those without settings.
    Other(u8),
}

/// The settings of the volume profile of a session.
#[derive(Debug, Clone, Copy, PartialEq, Eq, Structural)]
pub struct SessionVolumeProfileConfig {
    pub interval: u8,
    pub placement: u8,
    pub mode: u8,
    pub width_percent: u32,
    pub value_area_percent: u32,
    pub row_size_ticks: u16,
    pub show_poc: bool,
    pub show_value_area: bool,
    pub show_vwap: bool,
    pub show_session_high_low: bool,
}

/// The settings of volume bubbles.
#[derive(Debug, Clone, Copy, PartialEq, Eq, Structural)]
pub struct VolumeBubbleConfig {
    pub session: u8,
    pub color_mode: u8,
    pub max_bubbles_per_bar: usize,
    pub max_candidates_per_candle: usize,
    pub max_history_minutes_per_request: u64,
    pub min_qty: u32,
    pub min_radius_px: u32,
    pub max_radius_px: u32,
    pub show_labels: bool,
    pub use_raw_trades_when_available: bool,
}

/// The settings of the volume-weighted average price.
#[derive(Debug, Clone, Copy, PartialEq, Eq, Structural)]
pub struct VwapConfig {
    pub anchor: u8,
    pub line_width: u32,
    pub band_multiplier: u32,
    pub show_bands: bool,
    pub show_labels: bool,
}

/// The settings of all indicators.
#[derive(Debug, Clone, Copy, PartialEq, Eq, Structural)]
pub struct KlineConfig {
    pub session_volume_profile: SessionVolumeProfileConfig,
    pub volume_bubbles: VolumeBubbleConfig,
    pub vwap: VwapConfig,
}

/// A setting.
#[derive(Debug, Clone, Copy, PartialEq, Eq, Structural)]
pub enum Setting {
    ProfileInterval,
    ProfilePlacement,
    ProfileMode,
    ProfileWidth,
    ProfileValueArea,
    ProfileTicksPerRow,
    ProfilePoc,
    ProfileValueAreaLines,
    ProfileVwap,
    ProfileHighLow,
    BubbleSession,
    BubbleColorMode,
    BubblesPerCandle,
    BubbleCandidates,
    BubbleHistory,
    BubbleMinQty,
    BubbleMinRadius,
    BubbleMaxRadius,
    BubbleLabels,
    BubbleReuse,
    VwapAnchor,
    VwapLineWidth,
    VwapBandMultiplier,
    VwapBands,
    VwapLabels,
}

/// The value of a setting.
#[derive(Debug, Clone, Copy, PartialEq, Eq, Structural)]
pub enum SettingValue {
    /// A place in a list.
    Choice(u8),
    /// The bits of a fraction.
    Fraction(u32),
    /// A whole number.
    Count(u64),
    /// On or off.
    Switch(bool),
}

/// A setting and the value that the user gave it.
#[derive(Debug, Clone, Copy, PartialEq, Eq, Structural)]
pub enum KlineChange {
    ProfileInterval(u8),
    ProfilePlacement(u8),
    ProfileMode(u8),
    ProfileWidth(u32),
    ProfileValueArea(u32),
    ProfileTicksPerRow(u16),
    ProfilePoc(bool),
    ProfileValueAreaLines(bool),
    ProfileVwap(bool),
    ProfileHighLow(bool),
    BubbleSession(u8),
    BubbleColorMode(u8),
    BubblesPerCandle(usize),
    BubbleCandidates(usize),
    BubbleHistory(u64),
    BubbleMinQty(u32),
    BubbleMinRadius(u32),
    BubbleMaxRadius(u32),
    BubbleLabels(bool),
    BubbleReuse(bool),
    VwapAnchor(u8),
    VwapLineWidth(u32),
    VwapBandMultiplier(u32),
    VwapBands(bool),
    VwapLabels(bool),
}

impl KlineChange {
    /// The setting that is changed.
    pub open spec fn setting(self) -> Setting {
        match self {
            KlineChange::ProfileInterval(_) => Setting::ProfileInterval,
            KlineChange::ProfilePlacement(_) => Setting::ProfilePlacement,
            KlineChange::ProfileMode(_) => Setting::ProfileMode,
            KlineChange::ProfileWidth(_) => Setting::ProfileWidth,
            KlineChange::ProfileValueArea(_) => Setting::ProfileValueArea,
            KlineChange::ProfileTicksPerRow(_) => Setting::ProfileTicksPerRow,
            KlineChange::ProfilePoc(_) => Setting::ProfilePoc,
            KlineChange::ProfileValueAreaLines(_) => Setting::ProfileValueAreaLines,
            KlineChange::ProfileVwap(_) => Setting::ProfileVwap,
            KlineChange::ProfileHighLow(_) => Setting::ProfileHighLow,
            KlineChange::BubbleSession(_) => Setting::BubbleSession,
            KlineChange::BubbleColorMode(_) => Setting::BubbleColorMode,
            KlineChange::BubblesPerCandle(_) => Setting::BubblesPerCandle,
            KlineChange::BubbleCandidates(_) => Setting::BubbleCandidates,
            KlineChange::BubbleHistory(_) => Setting::BubbleHistory,
            KlineChange::BubbleMinQty(_) => Setting::BubbleMinQty,
            KlineChange::BubbleMinRadius(_) => Setting::BubbleMinRadius,
            KlineChange::BubbleMaxRadius(_) => Setting::BubbleMaxRadius,
            KlineChange::BubbleLabels(_) => Setting::BubbleLabels,
            KlineChange::BubbleReuse(_) => Setting::BubbleReuse,
            KlineChange::VwapAnchor(_) => Setting::VwapAnchor,
            KlineChange::VwapLineWidth(_) => Setting::VwapLineWidth,
            KlineChange::VwapBandMultiplier(_) => Setting::VwapBandMultiplier,
            KlineChange::VwapBands(_) => Setting::VwapBands,
            KlineChange::VwapLabels(_) => Setting::VwapLabels,
        }
    }

    /// The value that it is given.
    pub open spec fn value(self) -> SettingValue {
        match self {
            KlineChange::ProfileInterval(v) => SettingValue::Choice(v),
            KlineChange::ProfilePlacement(v) => SettingValue::Choice(v),
            KlineChange::ProfileMode(v) => SettingValue::Choice(v),
            KlineChange::ProfileWidth(v) => SettingValue::Fraction(v),
            KlineChange::ProfileValueArea(v) => SettingValue::Fraction(v),
            KlineChange::ProfileTicksPerRow(v) => SettingValue::Count(v as u64),
            KlineChange::ProfilePoc(v) => SettingValue::Switch(v),
            KlineChange::ProfileValueAreaLines(v) => SettingValue::Switch(v),
            KlineChange::ProfileVwap(v) => SettingValue::Switch(v),
            KlineChange::ProfileHighLow(v) => SettingValue::Switch(v),
            KlineChange::BubbleSession(v) => SettingValue::Choice(v),
            KlineChange::BubbleColorMode(v) => SettingValue::Choice(v),
            KlineChange::BubblesPerCandle(v) => SettingValue::Count(v as u64),
            KlineChange::BubbleCandidates(v) => SettingValue::Count(v as u64),
            KlineChange::BubbleHistory(v) => SettingValue::Count(v),
            KlineChange::BubbleMinQty(v) => SettingValue::Fraction(v),
            KlineChange::BubbleMinRadius(v) => SettingValue::Fraction(v),
            KlineChange::BubbleMaxRadius(v) => SettingValue::Fraction(v),
            KlineChange::BubbleLabels(v) => SettingValue::Switch(v),
            KlineChange::BubbleReuse(v) => SettingValue::Switch(v),
            KlineChange::VwapAnchor(v) => SettingValue::Choice(v),
            KlineChange::VwapLineWidth(v) => SettingValue::Fraction(v),
            KlineChange::VwapBandMultiplier(v) => SettingValue::Fraction(v),
            KlineChange::VwapBands(v) => SettingValue::Switch(v),
            KlineChange::VwapLabels(v) => SettingValue::Switch(v),
        }
    }
}

impl KlineConfig {
    /// The value of a setting.
    pub open spec fn at(self, setting: Setting) -> SettingValue {
        let p = self.session_volume_profile;
        let b = self.volume_bubbles;
        let w = self.vwap;
        match setting {
            Setting::ProfileInterval => SettingValue::Choice(p.interval),
            Setting::ProfilePlacement => SettingValue::Choice(p.placement),
            Setting::ProfileMode => SettingValue::Choice(p.mode),
            Setting::ProfileWidth => SettingValue::Fraction(p.width_percent),
            Setting::ProfileValueArea => SettingValue::Fraction(p.value_area_percent),
            Setting::ProfileTicksPerRow => SettingValue::Count(p.row_size_ticks as u64),
            Setting::ProfilePoc => SettingValue::Switch(p.show_poc),
            Setting::ProfileValueAreaLines => SettingValue::Switch(p.show_value_area),
            Setting::ProfileVwap => SettingValue::Switch(p.show_vwap),
            Setting::ProfileHighLow => SettingValue::Switch(p.show_session_high_low),
            Setting::BubbleSession => SettingValue::Choice(b.session),
            Setting::BubbleColorMode => SettingValue::Choice(b.color_mode),
            Setting::BubblesPerCandle => SettingValue::Count(b.max_bubbles_per_bar as u64),
            Setting::BubbleCandidates => SettingValue::Count(b.max_candidates_per_candle as u64),
            Setting::BubbleHistory => SettingValue::Count(b.max_history_minutes_per_request),
            Setting::BubbleMinQty => SettingValue::Fraction(b.min_qty),
            Setting::BubbleMinRadius => SettingValue::Fraction(b.min_radius_px),
            Setting::BubbleMaxRadius => SettingValue::Fraction(b.max_radius_px),
            Setting::BubbleLabels => SettingValue::Switch(b.show_labels),
            Setting::BubbleReuse => SettingValue::Switch(b.use_raw_trades_when_available),
            Setting::VwapAnchor => SettingValue::Choice(w.anchor),
            Setting::VwapLineWidth => SettingValue::Fraction(w.line_width),
            Setting::VwapBandMultiplier => SettingValue::Fraction(w.band_multiplier),
            Setting::VwapBands => SettingValue::Switch(w.show_bands),
            Setting::VwapLabels => SettingValue::Switch(w.show_labels),
        }
    }

    /// The value of a setting.
    pub fn get(self, setting: Setting) -> (v: SettingValue)
        ensures
            v == self.at(setting),
    {
        let p = self.session_volume_profile;
        let b = self.volume_bubbles;
        let w = self.vwap;
        match setting {
            Setting::ProfileInterval => SettingValue::Choice(p.interval),
            Setting::ProfilePlacement => SettingValue::Choice(p.placement),
            Setting::ProfileMode => SettingValue::Choice(p.mode),
            Setting::ProfileWidth => SettingValue::Fraction(p.width_percent),
            Setting::ProfileValueArea => SettingValue::Fraction(p.value_area_percent),
            Setting::ProfileTicksPerRow => SettingValue::Count(p.row_size_ticks as u64),
            Setting::ProfilePoc => SettingValue::Switch(p.show_poc),
            Setting::ProfileValueAreaLines => SettingValue::Switch(p.show_value_area),
            Setting::ProfileVwap => SettingValue::Switch(p.show_vwap),
            Setting::ProfileHighLow => SettingValue::Switch(p.show_session_high_low),
            Setting::BubbleSession => SettingValue::Choice(b.session),
            Setting::BubbleColorMode => SettingValue::Choice(b.color_mode),
            Setting::BubblesPerCandle => SettingValue::Count(b.max_bubbles_per_bar as u64),
            Setting::BubbleCandidates => SettingValue::Count(b.max_candidates_per_candle as u64),
            Setting::BubbleHistory => SettingValue::Count(b.max_history_minutes_per_request),
            Setting::BubbleMinQty => SettingValue::Fraction(b.min_qty),
            Setting::BubbleMinRadius => SettingValue::Fraction(b.min_radius_px),
            Setting::BubbleMaxRadius => SettingValue::Fraction(b.max_radius_px),
            Setting::BubbleLabels => SettingValue::Switch(b.show_labels),
            Setting::BubbleReuse => SettingValue::Switch(b.use_raw_trades_when_available),
            Setting::VwapAnchor => SettingValue::Choice(w.anchor),
            Setting::VwapLineWidth => SettingValue::Fraction(w.line_width),
            Setting::VwapBandMultiplier => SettingValue::Fraction(w.band_multiplier),
            Setting::VwapBands => SettingValue::Switch(w.show_bands),
            Setting::VwapLabels => SettingValue::Switch(w.show_labels),
        }
    }

    /// The settings after a change: the one that is changed has its new value, and all others keep
    /// theirs.
    pub fn with(self, change: KlineChange) -> (cfg: KlineConfig)
        ensures
            forall|s: Setting|
                #[trigger] cfg.at(s) == if s == change.setting() {
                    change.value()
                } else {
                    self.at(s)
                },
    {
        match change {
            KlineChange::ProfileInterval(..) | KlineChange::ProfilePlacement(..)
            | KlineChange::ProfileMode(..) | KlineChange::ProfileWidth(..)
            | KlineChange::ProfileValueArea(..) | KlineChange::ProfileTicksPerRow(..)
            | KlineChange::ProfilePoc(..) | KlineChange::ProfileValueAreaLines(..)
            | KlineChange::ProfileVwap(..) | KlineChange::ProfileHighLow(..) => KlineConfig {
                session_volume_profile: profile_with(self.session_volume_profile, change),
                ..self
            },
            KlineChange::VwapAnchor(..) | KlineChange::VwapLineWidth(..)
            | KlineChange::VwapBandMultiplier(..) | KlineChange::VwapBands(..)
            | KlineChange::VwapLabels(..) => KlineConfig {
                vwap: vwap_with(self.vwap, change),
                ..self
            },
            _ => KlineConfig { volume_bubbles: bubbles_with(self.volume_bubbles, change), ..self },
        }
    }
}

/// The settings of the volume profile after a change.
fn profile_with(
    svp: SessionVolumeProfileConfig,
    change: KlineChange,
) -> (r: SessionVolumeProfileConfig)
    ensures
        r == match change {
            KlineChange::ProfileInterval(interval) => SessionVolumeProfileConfig {
                interval,
                ..svp
            },
            KlineChange::ProfilePlacement(placement) => SessionVolumeProfileConfig {
                placement,
                ..svp
            },
            KlineChange::ProfileMode(mode) => SessionVolumeProfileConfig { mode, ..svp },
            KlineChange::ProfileWidth(width_percent) => SessionVolumeProfileConfig {
                width_percent,
                ..svp
            },
            KlineChange::ProfileValueArea(value_area_percent) => SessionVolumeProfileConfig {
                value_area_percent,
                ..svp
            },
            KlineChange::ProfileTicksPerRow(row_size_ticks) => SessionVolumeProfileConfig {
                row_size_ticks,
                ..svp
            },
            KlineChange::ProfilePoc(show_poc) => SessionVolumeProfileConfig { show_poc, ..svp },
            KlineChange::ProfileValueAreaLines(show_value_area) => SessionVolumeProfileConfig {
                show_value_area,
                ..svp
            },
            KlineChange::ProfileVwap(show_vwap) => SessionVolumeProfileConfig {
                show_vwap,
                ..svp
            },
            KlineChange::ProfileHighLow(show_session_high_low) => SessionVolumeProfileConfig {
                show_session_high_low,
                ..svp
            },
            _ => svp,
        },
{
    let mut r = svp;
    match change {
        KlineChange::ProfileInterval(v) => r.interval = v,
        KlineChange::ProfilePlacement(v) => r.placement = v,
        KlineChange::ProfileMode(v) => r.mode = v,
        KlineChange::ProfileWidth(v) => r.width_percent = v,
        KlineChange::ProfileValueArea(v) => r.value_area_percent = v,
        KlineChange::ProfileTicksPerRow(v) => r.row_size_ticks = v,
        KlineChange::ProfilePoc(v) => r.show_poc = v,
        KlineChange::ProfileValueAreaLines(v) => r.show_value_area = v,
        KlineChange::ProfileVwap(v) => r.show_vwap = v,
        KlineChange::ProfileHighLow(v) => r.show_session_high_low = v,
        _ => {},
    }
    r
}

/// The settings of volume bubbles after a change.
fn bubbles_with(bubbles: VolumeBubbleConfig, change: KlineChange) -> (r: VolumeBubbleConfig)
    ensures
        r == match change {
            KlineChange::BubbleSession(session) => VolumeBubbleConfig { session, ..bubbles },
            KlineChange::BubbleColorMode(color_mode) => VolumeBubbleConfig {
                color_mode,
                ..bubbles
            },
            KlineChange::BubblesPerCandle(max_bubbles_per_bar) => VolumeBubbleConfig {
                max_bubbles_per_bar,
                ..bubbles
            },
            KlineChange::BubbleCandidates(max_candidates_per_candle) => VolumeBubbleConfig {
                max_candidates_per_candle,
                ..bubbles
            },
            KlineChange::BubbleHistory(max_history_minutes_per_request) => VolumeBubbleConfig {
                max_history_minutes_per_request,
                ..bubbles
            },
            KlineChange::BubbleMinQty(min_qty) => VolumeBubbleConfig { min_qty, ..bubbles },
            KlineChange::BubbleMinRadius(min_radius_px) => VolumeBubbleConfig {
                min_radius_px,
                ..bubbles
            },
            KlineChange::BubbleMaxRadius(max_radius_px) => VolumeBubbleConfig {
                max_radius_px,
                ..bubbles
            },
            KlineChange::BubbleLabels(show_labels) => VolumeBubbleConfig {
                show_labels,
                ..bubbles
            },
            KlineChange::BubbleReuse(use_raw_trades_when_available) => VolumeBubbleConfig {
                use_raw_trades_when_available,
                ..bubbles
            },
            _ => bubbles,
        },
{
    let mut r = bubbles;
    match change {
        KlineChange::BubbleSession(v) => r.session = v,
        KlineChange::BubbleColorMode(v) => r.color_mode = v,
        KlineChange::BubblesPerCandle(v) => r.max_bubbles_per_bar = v,
        KlineChange::BubbleCandidates(v) => r.max_candidates_per_candle = v,
        KlineChange::BubbleHistory(v) => r.max_history_minutes_per_request = v,
        KlineChange::BubbleMinQty(v) => r.min_qty = v,
        KlineChange::BubbleMinRadius(v) => r.min_radius_px = v,
        KlineChange::BubbleMaxRadius(v) => r.max_radius_px = v,
        KlineChange::BubbleLabels(v) => r.show_labels = v,
        KlineChange::BubbleReuse(v) => r.use_raw_trades_when_available = v,
        _ => {},
    }
    r
}

/// The settings of the volume-weighted average price after a change.
fn vwap_with(vwap: VwapConfig, change: KlineChange) -> (r: VwapConfig)
    ensures
        r == match change {
            KlineChange::VwapAnchor(anchor) => VwapConfig { anchor, ..vwap },
            KlineChange::VwapLineWidth(line_width) => VwapConfig { line_width, ..vwap },
            KlineChange::VwapBandMultiplier(band_multiplier) => VwapConfig {
                band_multiplier,
                ..vwap
            },
            KlineChange::VwapBands(show_bands) => VwapConfig { show_bands, ..vwap },
            KlineChange::VwapLabels(show_labels) => VwapConfig { show_labels, ..vwap },
            _ => vwap,
        },
{
    let mut r = vwap;
    match change {
        KlineChange::VwapAnchor(v) => r.anchor = v,
        KlineChange::VwapLineWidth(v) => r.line_width = v,
        KlineChange::VwapBandMultiplier(v) => r.band_multiplier = v,
        KlineChange::VwapBands(v) => r.show_bands = v,
        KlineChange::VwapLabels(v) => r.show_labels = v,
        _ => {},
    }
    r
}

/// Where a slider goes, in hundredths.
#[derive(Debug, Clone, Copy, PartialEq, Eq, Structural)]
pub enum SliderRange {
    Fixed { min: u32, max: u32, step: u32 },
    /// As the volumes of the chart ask for. Its values are written with commas.
    VolumeScale,
}

/// Something that the user can set.
#[derive(Debug)]
#[allow(inconsistent_fields)]
pub enum Control {
    PickList(Setting),
    Slider {
        label: &'static str,
        range: SliderRange,
        setting: Setting,
        /// How many decimals are written.
        decimals: u8,
        /// What is written behind them.
        unit: &'static str,
    },
    Checkbox { label: &'static str, setting: Setting },
}

/// Something that the user can set, as a value.
#[verifier::ext_equal]
#[allow(inconsistent_fields)]
pub enum ControlView {
    PickList(Setting),
    Slider {
        label: Seq<char>,
        range: SliderRange,
        setting: Setting,
        decimals: u8,
        unit: Seq<char>,
    },
    Checkbox { label: Seq<char>, setting: Setting },
}

impl View for Control {
    type V = ControlView;

    open spec fn view(&self) -> ControlView {
        match *self {
            Control::PickList(setting) => ControlView::PickList(setting),
            Control::Slider { label, range, setting, decimals, unit } => ControlView::Slider {
                label: label@,
                range,
                setting,
                decimals,
                unit: unit@,
            },
            Control::Checkbox { label, setting } => ControlView::Checkbox { label: label@, setting },
        }
    }
}

/// What several controls denote.
pub open spec fn control_views(s: Seq<Control>) -> Seq<ControlView> {
    s.map_values(|c: Control| c@)
}

/// The settings of one indicator.
#[derive(Debug)]
pub struct IndicatorCard {
    pub title: &'static str,
    pub controls: Vec<Control>,
}

/// The settings of one indicator, as a value.
#[verifier::ext_equal]
pub struct CardView {
    pub title: Seq<char>,
    pub controls: Seq<ControlView>,
}

impl View for IndicatorCard {
    type V = CardView;

    open spec fn view(&self) -> CardView {
        CardView { title: self.title@, controls: control_views(self.controls@) }
    }
}

/// What several cards denote.
pub open spec fn card_views(s: Seq<IndicatorCard>) -> Seq<CardView> {
    s.map_values(|c: IndicatorCard| c@)
}

/// The card of the volume profile of a session.
pub open spec fn profile_card_view() -> CardView {
    CardView {
        title: "Session Volume Profile"@,
        controls: seq![
            ControlView::PickList(Setting::ProfileInterval),
            ControlView::PickList(Setting::ProfilePlacement),
            ControlView::PickList(Setting::ProfileMode),
            ControlView::Slider {
                label: "Width"@,
                range: SliderRange::Fixed { min: 1000, max: 9000, step: 100 },
                setting: Setting::ProfileWidth,
                decimals: 0,
                unit: "%"@,
            },
            ControlView::Slider {
                label: "Value area"@,
                range: SliderRange::Fixed { min: 5000, max: 9500, step: 100 },
                setting: Setting::ProfileValueArea,
                decimals: 0,
                unit: "%"@,
            },
            ControlView::Slider {
                label: "Ticks / row"@,
                range: SliderRange::Fixed { min: 100, max: 5000, step: 100 },
                setting: Setting::ProfileTicksPerRow,
                decimals: 0,
                unit: ""@,
            },
            ControlView::Checkbox { label: "POC"@, setting: Setting::ProfilePoc },
            ControlView::Checkbox { label: "VAH / VAL"@, setting: Setting::ProfileValueAreaLines },
            ControlView::Checkbox { label: "Session VWAP level"@, setting: Setting::ProfileVwap },
            ControlView::Checkbox { label: "Session high / low"@, setting: Setting::ProfileHighLow },
        ],
    }
}

/// The card of the volume profile of a session.
fn profile_card() -> (card: IndicatorCard)
    ensures
        card@ == profile_card_view(),
{
    let mut controls: Vec<Control> = Vec::new();
    controls.push(Control::PickList(Setting::ProfileInterval));
    controls.push(Control::PickList(Setting::ProfilePlacement));
    controls.push(Control::PickList(Setting::ProfileMode));
    controls.push(
        Control::Slider {
            label: "Width",
            range: SliderRange::Fixed { min: 1000, max: 9000, step: 100 },
            setting: Setting::ProfileWidth,
            decimals: 0,
            unit: "%",
        },
    );
    controls.push(
        Control::Slider {
            label: "Value area",
            range: SliderRange::Fixed { min: 5000, max: 9500, step: 100 },
            setting: Setting::ProfileValueArea,
            decimals: 0,
            unit: "%",
        },
    );
    controls.push(
        Control::Slider {
            label: "Ticks / row",
            range: SliderRange::Fixed { min: 100, max: 5000, step: 100 },
            setting: Setting::ProfileTicksPerRow,
            decimals: 0,
            unit: "",
        },
    );
    controls.push(Control::Checkbox { label: "POC", setting: Setting::ProfilePoc });
    controls.push(Control::Checkbox { label: "VAH / VAL", setting: Setting::ProfileValueAreaLines });
    controls.push(Control::Checkbox { label: "Session VWAP level", setting: Setting::ProfileVwap });
    controls.push(Control::Checkbox { label: "Session high / low", setting: Setting::ProfileHighLow });
    assert(control_views(controls@) =~= profile_card_view().controls);
    IndicatorCard { title: "Session Volume Profile", controls }
}

/// The card of volume bubbles.
pub open spec fn bubble_card_view() -> CardView {
    CardView {
        title: "Volume Bubbles"@,
        controls: seq![
            ControlView::PickList(Setting::BubbleSession),
            ControlView::PickList(Setting::BubbleColorMode),
            ControlView::Slider {
                label: "Max / candle"@,
                range: SliderRange::Fixed { min: 100, max: 1000, step: 100 },
                setting: Setting::BubblesPerCandle,
                decimals: 0,
                unit: ""@,
            },
            ControlView::Slider {
                label: "Historical candidates"@,
                range: SliderRange::Fixed { min: 100, max: 2000, step: 100 },
                setting: Setting::BubbleCandidates,
                decimals: 0,
                unit: ""@,
            },
            ControlView::Slider {
                label: "History / request"@,
                range: SliderRange::Fixed { min: 100, max: 12000, step: 100 },
                setting: Setting::BubbleHistory,
                decimals: 0,
                unit: "m"@,
            },
            ControlView::Slider {
                label: "Minimum volume"@,
                range: SliderRange::VolumeScale,
                setting: Setting::BubbleMinQty,
                decimals: 0,
                unit: ""@,
            },
            ControlView::Slider {
                label: "Minimum radius"@,
                range: SliderRange::Fixed { min: 100, max: 2000, step: 100 },
                setting: Setting::BubbleMinRadius,
                decimals: 0,
                unit: "px"@,
            },
            ControlView::Slider {
                label: "Maximum radius"@,
                range: SliderRange::Fixed { min: 400, max: 4000, step: 100 },
                setting: Setting::BubbleMaxRadius,
                decimals: 0,
                unit: "px"@,
            },
            ControlView::Checkbox { label: "Labels"@, setting: Setting::BubbleLabels },
            ControlView::Checkbox { label: "Reuse shared raw trades"@, setting: Setting::BubbleReuse },
        ],
    }
}

/// The card of volume bubbles.
fn bubble_card() -> (card: IndicatorCard)
    ensures
        card@ == bubble_card_view(),
{
    let mut controls: Vec<Control> = Vec::new();
    controls.push(Control::PickList(Setting::BubbleSession));
    controls.push(Control::PickList(Setting::BubbleColorMode));
    controls.push(
        Control::Slider {
            label: "Max / candle",
            range: SliderRange::Fixed { min: 100, max: 1000, step: 100 },
            setting: Setting::BubblesPerCandle,
            decimals: 0,
            unit: "",
        },
    );
    controls.push(
        Control::Slider {
            label: "Historical candidates",
            range: SliderRange::Fixed { min: 100, max: 2000, step: 100 },
            setting: Setting::BubbleCandidates,
            decimals: 0,
            unit: "",
        },
    );
    controls.push(
        Control::Slider {
            label: "History / request",
            range: SliderRange::Fixed { min: 100, max: 12000, step: 100 },
            setting: Setting::BubbleHistory,
            decimals: 0,
            unit: "m",
        },
    );
    controls.push(
        Control::Slider {
            label: "Minimum volume",
            range: SliderRange::VolumeScale,
            setting: Setting::BubbleMinQty,
            decimals: 0,
            unit: "",
        },
    );
    controls.push(
        Control::Slider {
            label: "Minimum radius",
            range: SliderRange::Fixed { min: 100, max: 2000, step: 100 },
            setting: Setting::BubbleMinRadius,
            decimals: 0,
            unit: "px",
        },
    );
    controls.push(
        Control::Slider {
            label: "Maximum radius",
            range: SliderRange::Fixed { min: 400, max: 4000, step: 100 },
            setting: Setting::BubbleMaxRadius,
            decimals: 0,
            unit: "px",
        },
    );
    controls.push(Control::Checkbox { label: "Labels", setting: Setting::BubbleLabels });
    controls.push(Control::Checkbox { label: "Reuse shared raw trades", setting: Setting::BubbleReuse });
    assert(control_views(controls@) =~= bubble_card_view().controls);
    IndicatorCard { title: "Volume Bubbles", controls }
}

/// The card of the volume-weighted average price.
pub open spec fn vwap_card_view() -> CardView {
    CardView {
        title: "VWAP"@,
        controls: seq![
            ControlView::PickList(Setting::VwapAnchor),
            ControlView::Slider {
                label: "Line width"@,
                range: SliderRange::Fixed { min: 50, max: 500, step: 10 },
                setting: Setting::VwapLineWidth,
                decimals: 1,
                unit: "px"@,
            },
            ControlView::Slider {
                label: "Band multiplier"@,
                range: SliderRange::Fixed { min: 25, max: 300, step: 25 },
                setting: Setting::VwapBandMultiplier,
                decimals: 2,
                unit: "σ"@,
            },
            ControlView::Checkbox { label: "Standard-deviation bands"@, setting: Setting::VwapBands },
            ControlView::Checkbox { label: "Labels"@, setting: Setting::VwapLabels },
        ],
    }
}

/// The card of the volume-weighted average price.
fn vwap_card() -> (card: IndicatorCard)
    ensures
        card@ == vwap_card_view(),
{
    let mut controls: Vec<Control> = Vec::new();
    controls.push(Control::PickList(Setting::VwapAnchor));
    controls.push(
        Control::Slider {
            label: "Line width",
            range: SliderRange::Fixed { min: 50, max: 500, step: 10 },
            setting: Setting::VwapLineWidth,
            decimals: 1,
            unit: "px",
        },
    );
    controls.push(
        Control::Slider {
            label: "Band multiplier",
            range: SliderRange::Fixed { min: 25, max: 300, step: 25 },
            setting: Setting::VwapBandMultiplier,
            decimals: 2,
            unit: "σ",
        },
    );
    controls.push(Control::Checkbox { label: "Standard-deviation bands", setting: Setting::VwapBands });
    controls.push(Control::Checkbox { label: "Labels", setting: Setting::VwapLabels });
    assert(control_views(controls@) =~= vwap_card_view().controls);
    IndicatorCard { title: "VWAP", controls }
}

/// A card, if its indicator is selected.
pub open spec fn dealt(selected: bool, card: CardView) -> Seq<CardView> {
    if selected {
        seq![card]
    } else {
        Seq::empty()
    }
}

/// The cards of the selected indicators that have settings.
pub open spec fn cards_for(selected: Seq<KlineIndicator>) -> Seq<CardView> {
    dealt(selected.contains(KlineIndicator::SessionVolumeProfile), profile_card_view()) + dealt(
        selected.contains(KlineIndicator::VolumeBubbles),
        bubble_card_view(),
    ) + dealt(selected.contains(KlineIndicator::Vwap), vwap_card_view())
}

/// True when an indicator is among those that are selected.
fn is_selected(selected: &[KlineIndicator], indicator: KlineIndicator) -> (r: bool)
    ensures
        r == selected@.contains(indicator),
{
    let mut i: usize = 0;
    while i < selected.len()
        invariant
            i <= selected@.len(),
            forall|j: int| 0 <= j < i ==> selected@[j] != indicator,
        decreases selected@.len() - i,
    {
        if selected[i] == indicator {
            assert(selected@[i as int] == indicator);
            return true;
        }
        i += 1;
    }
    false
}

/// The cards of the selected indicators that have settings.
pub fn view_kline(selected: &[KlineIndicator]) -> (cards: Vec<IndicatorCard>)
    ensures
        card_views(cards@) == cards_for(selected@),
{
    let mut cards: Vec<IndicatorCard> = Vec::new();
    assert(card_views(cards@) =~= Seq::empty());
    let profile = is_selected(selected, KlineIndicator::SessionVolumeProfile);
    if profile {
        cards.push(profile_card());
    }
    let ghost one = dealt(profile, profile_card_view());
    assert(card_views(cards@) =~= one);
    let bubbles = is_selected(selected, KlineIndicator::VolumeBubbles);
    if bubbles {
        cards.push(bubble_card());
    }
    let ghost two = one + dealt(bubbles, bubble_card_view());
    assert(card_views(cards@) =~= two);
    let vwap = is_selected(selected, KlineIndicator::Vwap);
    if vwap {
        cards.push(vwap_card());
    }
    assert(card_views(cards@) =~= two + dealt(vwap, vwap_card_view()));
    cards
}

/// An indicator, by its number, and whether the content of the pane allows it.
#[derive(Debug, Clone, Copy, PartialEq, Eq, Structural)]
pub struct IndicatorOffer {
    pub id: u16,
    pub allowed: bool,
}

/// The lists of the dialog.
#[derive(Debug)]
pub struct IndicatorLists {
    pub selected: Vec<u16>,
    pub available: Vec<u16>,
    /// True when those that are selected can be put in another order.
    pub reorderable: bool,
}

/// An indicator, when it is allowed.
pub open spec fn permitted() -> spec_fn(IndicatorOffer) -> Option<u16> {
    |o: IndicatorOffer|
        if o.allowed {
            Some(o.id)
        } else {
            None
        }
}

/// An indicator, when it is allowed and none of those in the list.
pub open spec fn further(listed: Seq<u16>) -> spec_fn(IndicatorOffer) -> Option<u16> {
    |o: IndicatorOffer|
        if o.allowed && !listed.contains(o.id) {
            Some(o.id)
        } else {
            None
        }
}

/// True when a number is in a list.
fn is_listed(ids: &Vec<u16>, id: u16) -> (r: bool)
    ensures
        r == ids@.contains(id),
{
    let mut i: usize = 0;
    while i < ids.len()
        invariant
            i <= ids@.len(),
            forall|j: int| 0 <= j < i ==> ids@[j] != id,
        decreases ids@.len() - i,
    {
        if ids[i] == id {
            assert(ids@[i as int] == id);
            return true;
        }
        i += 1;
    }
    false
}

/// The lists of the dialog: the selected indicators that are allowed, and those offered for the
/// market that are allowed and not selected.
pub fn content_row(
    selected: &[IndicatorOffer],
    offered: &[IndicatorOffer],
    allows_drag: bool,
) -> (r: IndicatorLists)
    ensures
        r.selected@ == selected@.filter_map(permitted()),
        r.available@ == offered@.filter_map(further(selected@.filter_map(permitted()))),
        r.reorderable == (allows_drag && selected@.len() >= 2),
{
    let ghost p = permitted();
    let mut listed: Vec<u16> = Vec::new();
    let mut i: usize = 0;
    proof {
        reveal(Seq::filter_map);
        assert(selected@.take(0).filter_map(p) =~= Seq::empty());
    }
    while i < selected.len()
        invariant
            i <= selected@.len(),
            p == permitted(),
            listed@ == selected@.take(i as int).filter_map(p),
        decreases selected@.len() - i,
    {
        proof {
            lemma_filter_map_take(selected@, i as int, p);
        }
        if selected[i].allowed {
            listed.push(selected[i].id);
        }
        i += 1;
    }
    assert(selected@.take(i as int) =~= selected@);
    let ghost f = further(listed@);
    let mut available: Vec<u16> = Vec::new();
    let mut k: usize = 0;
    proof {
        reveal(Seq::filter_map);
        assert(offered@.take(0).filter_map(f) =~= Seq::empty());
    }
    while k < offered.len()
        invariant
            k <= offered@.len(),
            f == further(listed@),
            available@ == offered@.take(k as int).filter_map(f),
        decreases offered@.len() - k,
    {
        proof {
            lemma_filter_map_take(offered@, k as int, f);
        }
        if offered[k].allowed && !is_listed(&listed, offered[k].id) {
            available.push(offered[k].id);
        }
        k += 1;
    }
    assert(offered@.take(k as int) =~= offered@);
    IndicatorLists {
        selected: listed,
        available,
        reorderable: allows_drag && selected.len() >= 2,
    }
}

/// What a selection of a sequence holds was selected from it.
proof fn lemma_filter_map_member<A, B>(s: Seq<A>, f: spec_fn(A) -> Option<B>, b: B)
    ensures
        s.filter_map(f).contains(b) <==> exists|i: int| 0 <= i < s.len() && f(#[trigger] s[i]) == Some(b),
    decreases s.len(),
{
    reveal(Seq::filter_map);
    if s.len() > 0 {
        let front = s.drop_last();
        lemma_filter_map_member(front, f, b);
        let had = front.filter_map(f);
        let out = s.filter_map(f);
        if had.contains(b) {
            let i = choose|i: int| 0 <= i < front.len() && f(#[trigger] front[i]) == Some(b);
            assert(f(s[i]) == Some(b));
            assert(out[had.index_of(b)] == b);
        }
        if f(s.last()) == Some(b) {
            assert(out == had.push(b));
            assert(out[had.len() as int] == b);
            assert(f(s[s.len() - 1]) == Some(b));
        }
        if out.contains(b) && !had.contains(b) {
            let k = out.index_of(b);
            if k < had.len() {
                assert(had[k] == b);
            }
        }
        if exists|i: int| 0 <= i < s.len() && f(#[trigger] s[i]) == Some(b) {
            let i = choose|i: int| 0 <= i < s.len() && f(#[trigger] s[i]) == Some(b);
            if i < front.len() {
                assert(f(front[i]) == Some(b));
            }
        }
    }
}

/// Each indicator stands in one list at most, and each one that is offered and allowed stands in
/// one of them.
pub proof fn law_indicator_is_listed_once(
    selected: Seq<IndicatorOffer>,
    offered: Seq<IndicatorOffer>,
    id: u16,
)
    ensures
        ({
            let listed = selected.filter_map(permitted());
            let available = offered.filter_map(further(listed));
            &&& !(listed.contains(id) && available.contains(id))
            &&& offered.contains(IndicatorOffer { id, allowed: true }) ==> listed.contains(id)
                || available.contains(id)
        }),
{
    let listed = selected.filter_map(permitted());
    lemma_filter_map_member(offered, further(listed), id);
    let offer = IndicatorOffer { id, allowed: true };
    if offered.contains(offer) && !listed.contains(id) {
        let i = offered.index_of(offer);
        assert(further(listed)(offered[i]) == Some(id));
    }
}

/// The settings are all there is: two charts with the same values for all settings are set alike.
pub proof fn law_settings_tell_all(a: KlineConfig, b: KlineConfig)
    requires
        forall|s: Setting| #[trigger] a.at(s) == b.at(s),
    ensures
        a == b,
{
    assert(a.at(Setting::ProfileInterval) == b.at(Setting::ProfileInterval));
    assert(a.at(Setting::ProfilePlacement) == b.at(Setting::ProfilePlacement));
    assert(a.at(Setting::ProfileMode) == b.at(Setting::ProfileMode));
    assert(a.at(Setting::ProfileWidth) == b.at(Setting::ProfileWidth));
    assert(a.at(Setting::ProfileValueArea) == b.at(Setting::ProfileValueArea));
    assert(a.at(Setting::ProfileTicksPerRow) == b.at(Setting::ProfileTicksPerRow));
    assert(a.at(Setting::ProfilePoc) == b.at(Setting::ProfilePoc));
    assert(a.at(Setting::ProfileValueAreaLines) == b.at(Setting::ProfileValueAreaLines));
    assert(a.at(Setting::ProfileVwap) == b.at(Setting::ProfileVwap));
    assert(a.at(Setting::ProfileHighLow) == b.at(Setting::ProfileHighLow));
    assert(a.session_volume_profile == b.session_volume_profile);
    assert(a.at(Setting::BubbleSession) == b.at(Setting::BubbleSession));
    assert(a.at(Setting::BubbleColorMode) == b.at(Setting::BubbleColorMode));
    assert(a.at(Setting::BubblesPerCandle) == b.at(Setting::BubblesPerCandle));
    assert(a.at(Setting::BubbleCandidates) == b.at(Setting::BubbleCandidates));
    assert(a.at(Setting::BubbleHistory) == b.at(Setting::BubbleHistory));
    assert(a.at(Setting::BubbleMinQty) == b.at(Setting::BubbleMinQty));
    assert(a.at(Setting::BubbleMinRadius) == b.at(Setting::BubbleMinRadius));
    assert(a.at(Setting::BubbleMaxRadius) == b.at(Setting::BubbleMaxRadius));
    assert(a.at(Setting::BubbleLabels) == b.at(Setting::BubbleLabels));
    assert(a.at(Setting::BubbleReuse) == b.at(Setting::BubbleReuse));
    assert(a.volume_bubbles == b.volume_bubbles);
    assert(a.at(Setting::VwapAnchor) == b.at(Setting::VwapAnchor));
    assert(a.at(Setting::VwapLineWidth) == b.at(Setting::VwapLineWidth));
    assert(a.at(Setting::VwapBandMultiplier) == b.at(Setting::VwapBandMultiplier));
    assert(a.at(Setting::VwapBands) == b.at(Setting::VwapBands));
    assert(a.at(Setting::VwapLabels) == b.at(Setting::VwapLabels));
    assert(a.vwap == b.vwap);
}

/// The lists hold exactly what is allowed: of the selected indicators all that are, and of the
/// others all that are and are not selected.
pub proof fn law_lists_hold_what_is_allowed(
    selected: Seq<IndicatorOffer>,
    offered: Seq<IndicatorOffer>,
    id: u16,
)
    ensures
        ({
            let listed = selected.filter_map(permitted());
            let available = offered.filter_map(further(listed));
            &&& listed.contains(id) <==> selected.contains(IndicatorOffer { id, allowed: true })
            &&& available.contains(id) <==> offered.contains(IndicatorOffer { id, allowed: true })
                && !listed.contains(id)
        }),
{
    let listed = selected.filter_map(permitted());
    let offer = IndicatorOffer { id, allowed: true };
    lemma_filter_map_member(selected, permitted(), id);
    lemma_filter_map_member(offered, further(listed), id);
    if selected.contains(offer) {
        let i = selected.index_of(offer);
        assert(permitted()(selected[i]) == Some(id));
    }
    if offered.contains(offer) && !listed.contains(id) {
        let i = offered.index_of(offer);
        assert(further(listed)(offered[i]) == Some(id));
    }
}

/// Each selected indicator that has settings has its card, and no other one has.
pub proof fn law_selected_indicators_have_cards(selected: Seq<KlineIndicator>)
    ensures
        cards_for(selected).contains(profile_card_view()) <==> selected.contains(
            KlineIndicator::SessionVolumeProfile,
        ),
        cards_for(selected).contains(bubble_card_view()) <==> selected.contains(
            KlineIndicator::VolumeBubbles,
        ),
        cards_for(selected).contains(vwap_card_view()) <==> selected.contains(KlineIndicator::Vwap),
        cards_for(selected).no_duplicates(),
{
    reveal_strlit("Session Volume Profile");
    reveal_strlit("Volume Bubbles");
    reveal_strlit("VWAP");
    let p = profile_card_view();
    let b = bubble_card_view();
    let w = vwap_card_view();
    assert(p.title.len() == 22 && b.title.len() == 14 && w.title.len() == 4);
    let x = dealt(selected.contains(KlineIndicator::SessionVolumeProfile), p);
    let y = dealt(selected.contains(KlineIndicator::VolumeBubbles), b);
    let z = dealt(selected.contains(KlineIndicator::Vwap), w);
    let all = cards_for(selected);
    assert(all == x + y + z);
    if x.len() > 0 {
        assert(all[0] == p);
    }
    if y.len() > 0 {
        assert(all[x.len() as int] == b);
    }
    if z.len() > 0 {
        assert(all[(x.len() + y.len()) as int] == w);
    }
    assert forall|i: int| 0 <= i < all.len() implies (all[i] == p && x.len() > 0 && i == 0) || (
    all[i] == b && y.len() > 0 && i == x.len()) || (all[i] == w && z.len() > 0 && i == x.len()
        + y.len()) by {}
}

} // verus!
