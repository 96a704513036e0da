use dashcam_hud::elements::{HudElements, HudFlags, HudPreset};
use dashcam_hud::widgets::summary;

fn flags(preset: HudPreset) -> HudFlags {
    HudFlags {
        preset,
        speedometer: false,
        no_speedometer: false,
        gforce: false,
        no_gforce: false,
        compass: false,
        no_compass: false,
        gps_tag: false,
        no_gps_tag: false,
        minimap: false,
        no_minimap: false,
    }
}

fn set(s: bool, g: bool, c: bool, t: bool, m: bool) -> HudElements {
    HudElements { speedometer: s, gforce: g, compass: c, gps_tag: t, minimap: m }
}

#[test]
fn full_preset_shows_all_five_widgets() {
    assert_eq!(HudElements::full(), set(true, true, true, true, true));
}

#[test]
fn default_view_is_speed_compass_and_map() {
    assert_eq!(HudElements::default_view(), set(true, false, true, false, true));
    assert_eq!(HudElements::default(), HudElements::default_view());
}

#[test]
fn minimal_preset_is_speedometer_only() {
    assert_eq!(HudElements::minimal(), set(true, false, false, false, false));
}

#[test]
fn none_preset_shows_nothing() {
    assert_eq!(HudElements::none(), set(false, false, false, false, false));
}

#[test]
fn presets_map_to_their_widget_sets() {
    assert_eq!(HudPreset::DefaultView.elements(), HudElements::default_view());
    assert_eq!(HudPreset::Full.elements(), HudElements::full());
    assert_eq!(HudPreset::Minimal.elements(), HudElements::minimal());
    assert_eq!(HudPreset::Blank.elements(), HudElements::none());
}

#[test]
fn no_switches_keep_the_preset() {
    for p in [HudPreset::DefaultView, HudPreset::Full, HudPreset::Minimal, HudPreset::Blank] {
        assert_eq!(flags(p).resolve(), p.elements());
    }
}

#[test]
fn full_preset_without_gforce() {
    let mut f = flags(HudPreset::Full);
    f.no_gforce = true;
    assert_eq!(f.resolve(), set(true, false, true, true, true));
}

#[test]
fn default_preset_plus_gps_tag() {
    let mut f = flags(HudPreset::DefaultView);
    f.gps_tag = true;
    assert_eq!(f.resolve(), set(true, false, true, true, true));
}

#[test]
fn none_preset_with_compass_and_gps_tag() {
    let mut f = flags(HudPreset::Blank);
    f.compass = true;
    f.gps_tag = true;
    assert_eq!(f.resolve(), set(false, false, true, true, false));
}

#[test]
fn full_preset_without_minimap() {
    let mut f = flags(HudPreset::Full);
    f.no_minimap = true;
    assert_eq!(f.resolve(), set(true, true, true, true, false));
}

#[test]
fn off_switch_wins_over_on_switch() {
    let mut f = flags(HudPreset::Blank);
    f.speedometer = true;
    f.no_speedometer = true;
    assert!(!f.resolve().speedometer);
}

#[test]
fn header_lists_enabled_widgets_in_order() {
    assert_eq!(summary(HudElements::full()), "speed gforce compass gps map");
    assert_eq!(summary(HudElements::default_view()), "speed compass map");
    assert_eq!(summary(HudElements::minimal()), "speed ");
    assert_eq!(summary(HudElements::none()), "");
}
