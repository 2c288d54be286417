//! What dialogs and widgets show.

use flowsurface::modal::indicators::{
    content_row, view_kline, Control, IndicatorOffer, KlineChange, KlineConfig, KlineIndicator,
    SessionVolumeProfileConfig, Setting, SettingValue, SliderRange, VolumeBubbleConfig, VwapConfig,
};
use flowsurface::widget::circle::relative_column;
use flowsurface::widget::gex::{
    body, detail_label, empty_share, error_line, strike_bars, title, GexBody, GexFreshness,
    GexShown, GexSignModel, MarkerColor, StrikeMarks,
};

fn config() -> KlineConfig {
    KlineConfig {
        session_volume_profile: SessionVolumeProfileConfig {
            interval: 1,
            placement: 0,
            mode: 2,
            width_percent: 30.0f32.to_bits(),
            value_area_percent: 70.0f32.to_bits(),
            row_size_ticks: 4,
            show_poc: true,
            show_value_area: true,
            show_vwap: false,
            show_session_high_low: false,
        },
        volume_bubbles: VolumeBubbleConfig {
            session: 0,
            color_mode: 1,
            max_bubbles_per_bar: 3,
            max_candidates_per_candle: 5,
            max_history_minutes_per_request: 30,
            min_qty: 1.5f32.to_bits(),
            min_radius_px: 2.0f32.to_bits(),
            max_radius_px: 20.0f32.to_bits(),
            show_labels: true,
            use_raw_trades_when_available: true,
        },
        vwap: VwapConfig {
            anchor: 0,
            line_width: 1.0f32.to_bits(),
            band_multiplier: 2.0f32.to_bits(),
            show_bands: true,
            show_labels: false,
        },
    }
}

#[test]
fn a_change_touches_one_setting() {
    let cfg = config();
    let next = cfg.with(KlineChange::VwapLineWidth(2.5f32.to_bits()));
    assert_eq!(next.get(Setting::VwapLineWidth), SettingValue::Fraction(2.5f32.to_bits()));
    assert_eq!(next.with(KlineChange::VwapLineWidth(1.0f32.to_bits())), cfg);
    assert_eq!(next.volume_bubbles, cfg.volume_bubbles);
    let next = cfg.with(KlineChange::ProfileTicksPerRow(9));
    assert_eq!(next.session_volume_profile.row_size_ticks, 9);
    assert_eq!(next.vwap, cfg.vwap);
    let next = cfg.with(KlineChange::BubbleHistory(120)).with(KlineChange::BubbleLabels(false));
    assert_eq!(next.volume_bubbles.max_history_minutes_per_request, 120);
    assert!(!next.volume_bubbles.show_labels);
    assert_eq!(next.session_volume_profile, cfg.session_volume_profile);
}

#[test]
fn selected_indicators_have_their_cards() {
    assert!(view_kline(&[KlineIndicator::Other(3)]).is_empty());
    let cards = view_kline(&[KlineIndicator::Vwap, KlineIndicator::SessionVolumeProfile]);
    assert_eq!(cards.len(), 2);
    assert_eq!(cards[0].title, "Session Volume Profile");
    assert_eq!(cards[0].controls.len(), 10);
    assert_eq!(cards[1].title, "VWAP");
    match &cards[1].controls[2] {
        Control::Slider { label, range, setting, decimals, unit } => {
            assert_eq!(*label, "Band multiplier");
            assert_eq!(*range, SliderRange::Fixed { min: 25, max: 300, step: 25 });
            assert_eq!(*setting, Setting::VwapBandMultiplier);
            assert_eq!((*decimals, *unit), (2, "σ"));
        }
        other => panic!("{:?}", other),
    }
    let cards = view_kline(&[KlineIndicator::VolumeBubbles]);
    assert_eq!(cards[0].controls.len(), 10);
    assert!(matches!(
        cards[0].controls[5],
        Control::Slider { label: "Minimum volume", range: SliderRange::VolumeScale, .. }
    ));
    assert!(matches!(
        cards[0].controls[9],
        Control::Checkbox { label: "Reuse shared raw trades", setting: Setting::BubbleReuse }
    ));
}

fn offer(id: u16, allowed: bool) -> IndicatorOffer {
    IndicatorOffer { id, allowed }
}

#[test]
fn each_indicator_is_listed_once() {
    let lists = content_row(
        &[offer(2, true), offer(4, false)],
        &[offer(1, true), offer(2, true), offer(3, false), offer(4, true)],
        true,
    );
    assert_eq!(lists.selected, vec![2]);
    assert_eq!(lists.available, vec![1, 4]);
    assert!(lists.reorderable);
    assert!(!content_row(&[offer(2, true)], &[], true).reorderable);
    assert!(!content_row(&[offer(2, true), offer(3, true)], &[], false).reorderable);
}

fn everything() -> GexShown {
    GexShown {
        summary: true,
        put_gex: true,
        call_gex: true,
        net_gex: true,
        absolute_gamma: true,
        current_price: true,
        gamma_flip: true,
        call_wall: true,
        put_wall: true,
    }
}

#[test]
fn the_profile_says_how_old_it_is() {
    assert_eq!(GexFreshness::Error.absence(), "GEX data unavailable.");
    assert_eq!(GexFreshness::Loading.absence(), "Waiting for GEX data...");
    assert_eq!(GexFreshness::Error.label(), "Error · cached");
    assert!(GexFreshness::Stale.is_dimmed() && GexFreshness::Expired.is_dimmed());
    assert!(!GexFreshness::Fresh.is_dimmed());
    assert_eq!(title("BTC", "Deribit", "Proxy"), "BTC GEX · Deribit · Proxy");
    assert_eq!(error_line("timeout"), "Last refresh error: timeout");
}

#[test]
fn the_profile_says_what_is_missing() {
    assert_eq!(body(None, 0), GexBody::Absent);
    assert_eq!(
        body(Some(0), 0).notice(),
        Some("No valid options for the selected expiry filter.")
    );
    assert_eq!(body(Some(3), 0).notice(), Some("No strikes in the configured price range."));
    assert_eq!(body(Some(3), 2), GexBody::Strikes);
    assert_eq!(
        GexSignModel::CallPutOiProxy.flip_notice(false),
        Some("No gamma flip in the configured price range.")
    );
    assert_eq!(GexSignModel::AbsoluteGamma.flip_notice(false), None);
    assert_eq!(GexSignModel::AbsoluteGamma.axis_title(), "Absolute gamma concentration");
}

#[test]
fn strikes_are_marked_and_coloured() {
    let near = StrikeMarks { spot: true, flip: false, call_wall: true, put_wall: true };
    let marks = StrikeMarks::of(near, everything());
    assert_eq!(marks.badges(), "[Spot · Call Wall · Put Wall]");
    assert_eq!(marks.marker(), Some(MarkerColor::Warning));
    let marks = StrikeMarks::of(near, GexShown { current_price: false, ..everything() });
    assert_eq!(marks.badges(), "[Call Wall · Put Wall]");
    assert_eq!(marks.marker(), Some(MarkerColor::Success));
    let wall = StrikeMarks { spot: false, flip: false, call_wall: false, put_wall: true };
    assert_eq!(wall.marker(), Some(MarkerColor::Danger));
    let plain = StrikeMarks { put_wall: false, ..wall };
    assert_eq!(plain.badges(), "");
    assert_eq!(plain.marker(), None);
}

#[test]
fn strikes_have_bars_and_figures() {
    let shown = everything();
    let proxy = GexSignModel::CallPutOiProxy;
    let absolute = GexSignModel::AbsoluteGamma;
    assert!(strike_bars(shown, proxy).left && strike_bars(shown, proxy).right);
    assert!(!strike_bars(shown, absolute).left);
    assert_eq!(detail_label(shown, proxy, "+$1.00", "+$2.00"), "net +$1.00 · abs +$2.00");
    assert_eq!(detail_label(shown, absolute, "+$1.00", "+$2.00"), "abs +$2.00");
    let no_net = GexShown { net_gex: false, ..shown };
    assert_eq!(detail_label(no_net, proxy, "+$1.00", "+$2.00"), "abs +$2.00");
    assert_eq!(detail_label(no_net, absolute, "+$1.00", "+$2.00"), "");
    assert_eq!(empty_share(1), 999);
    assert_eq!(empty_share(1000), 0);
}

#[test]
fn columns_are_counted_from_a_reference() {
    assert_eq!(relative_column(105, 100), 5);
    assert_eq!(relative_column(0, 5_000_000_000), i32::MIN);
    assert_eq!(relative_column(5_000_000_000, 0), i32::MAX);
}
