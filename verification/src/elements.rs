//! Which HUD widgets are drawn, the named presets, and the per-widget
//! command-line overrides.
use vstd::prelude::*;

verus! {

/// Which HUD widgets to draw.  Each field is `true` = draw it.
#[derive(Debug, Clone, Copy, PartialEq, Eq, Structural)]
pub struct HudElements {
    pub speedometer: bool,
    pub gforce: bool,
    pub compass: bool,
    pub gps_tag: bool,
    pub minimap: bool,
}

impl HudElements {
    /// The widget set with every field equal to `on`.
    pub open spec fn uniform(on: bool) -> HudElements {
        HudElements { speedometer: on, gforce: on, compass: on, gps_tag: on, minimap: on }
    }

    /// Speedometer, compass and mini-map: the clean driving view.
    pub open spec fn driving_view() -> HudElements {
        HudElements { speedometer: true, gforce: false, compass: true, gps_tag: false, minimap: true }
    }

    /// Everything on — default race/action view
    pub fn full() -> (e: Self)
        ensures
            e == HudElements::uniform(true),
    {
        HudElements { speedometer: true, gforce: true, compass: true, gps_tag: true, minimap: true }
    }

    /// Speed + map only — clean driving view
    pub fn default_view() -> (e: Self)
        ensures
            e == HudElements::driving_view(),
    {
        HudElements { speedometer: true, gforce: false, compass: true, gps_tag: false, minimap: true }
    }

    /// Speed only — absolute minimum
    pub fn minimal() -> (e: Self)
        ensures
            e == (HudElements { speedometer: true, ..HudElements::uniform(false) }),
    {
        HudElements { speedometer: true, gforce: false, compass: false, gps_tag: false, minimap: false }
    }

    /// Nothing — useful for testing the pipeline
    pub fn none() -> (e: Self)
        ensures
            e == HudElements::uniform(false),
    {
        HudElements { speedometer: false, gforce: false, compass: false, gps_tag: false, minimap: false }
    }
}

impl Default for HudElements {
    /// The default widget set is the driving view.
    fn default() -> (e: Self)
        ensures
            e == HudElements::driving_view(),
    {
        Self::default_view()
    }
}

/// A named starting point for the widget set.
#[derive(Debug, Clone, Copy, PartialEq, Eq, Structural)]
pub enum HudPreset {
    /// Speedometer + compass + map
    DefaultView,
    /// All five widgets
    Full,
    /// Speedometer only
    Minimal,
    /// Nothing — opt in with individual flags
    Blank,
}

impl HudPreset {
    /// The widget set that a preset stands for.
    pub open spec fn spec_elements(self) -> HudElements {
        match self {
            HudPreset::DefaultView => HudElements::driving_view(),
            HudPreset::Full => HudElements::uniform(true),
            HudPreset::Minimal => HudElements { speedometer: true, ..HudElements::uniform(false) },
            HudPreset::Blank => HudElements::uniform(false),
        }
    }

    pub fn elements(&self) -> (e: HudElements)
        ensures
            e == self.spec_elements(),
    {
        match self {
            HudPreset::DefaultView => HudElements::default_view(),
            HudPreset::Full => HudElements::full(),
            HudPreset::Minimal => HudElements::minimal(),
            HudPreset::Blank => HudElements::none(),
        }
    }
}

/// A preset together with an explicit on and off switch for each widget.
#[derive(Debug, Clone, Copy, PartialEq, Eq, Structural)]
pub struct HudFlags {
    pub preset: HudPreset,
    pub speedometer: bool,
    pub no_speedometer: bool,
    pub gforce: bool,
    pub no_gforce: bool,
    pub compass: bool,
    pub no_compass: bool,
    pub gps_tag: bool,
    pub no_gps_tag: bool,
    pub minimap: bool,
    pub no_minimap: bool,
}

/// One widget after its switches are applied to the preset's choice:
/// the off switch wins over the on switch, and either wins over the preset.
pub open spec fn overridden(preset: bool, on: bool, off: bool) -> bool {
    if off {
        false
    } else if on {
        true
    } else {
        preset
    }
}

impl HudFlags {
    /// Whether no per-widget switch is set.
    pub open spec fn no_switches(self) -> bool {
        !self.speedometer && !self.no_speedometer && !self.gforce && !self.no_gforce
            && !self.compass && !self.no_compass && !self.gps_tag && !self.no_gps_tag
            && !self.minimap && !self.no_minimap
    }

    /// The widget set that the flags select.
    pub open spec fn spec_resolve(self) -> HudElements {
        let p = self.preset.spec_elements();
        HudElements {
            speedometer: overridden(p.speedometer, self.speedometer, self.no_speedometer),
            gforce: overridden(p.gforce, self.gforce, self.no_gforce),
            compass: overridden(p.compass, self.compass, self.no_compass),
            gps_tag: overridden(p.gps_tag, self.gps_tag, self.no_gps_tag),
            minimap: overridden(p.minimap, self.minimap, self.no_minimap),
        }
    }

    pub fn resolve(&self) -> (e: HudElements)
        ensures
            e == self.spec_resolve(),
    {
        let mut e = self.preset.elements();
        // Each pair: if the positive flag was explicitly set, force on;
        // if the negative flag was explicitly set, force off.
        if self.speedometer {
            e.speedometer = true;
        }
        if self.no_speedometer {
            e.speedometer = false;
        }
        if self.gforce {
            e.gforce = true;
        }
        if self.no_gforce {
            e.gforce = false;
        }
        if self.compass {
            e.compass = true;
        }
        if self.no_compass {
            e.compass = false;
        }
        if self.gps_tag {
            e.gps_tag = true;
        }
        if self.no_gps_tag {
            e.gps_tag = false;
        }
        if self.minimap {
            e.minimap = true;
        }
        if self.no_minimap {
            e.minimap = false;
        }
        e
    }
}

/// With no per-widget switch set, the flags select exactly the preset's widgets.
pub proof fn law_no_switches_keep_preset(flags: HudFlags)
    requires
        flags.no_switches(),
    ensures
        flags.spec_resolve() == flags.preset.spec_elements(),
{
}

/// An on switch turns its widget on and an off switch turns it off, whatever
/// the preset; the other widgets keep the preset's choice.
pub proof fn law_switch_overrides_preset(flags: HudFlags)
    ensures
        flags.no_speedometer ==> !flags.spec_resolve().speedometer,
        flags.speedometer && !flags.no_speedometer ==> flags.spec_resolve().speedometer,
        !flags.speedometer && !flags.no_speedometer ==> flags.spec_resolve().speedometer
            == flags.preset.spec_elements().speedometer,
        flags.no_gforce ==> !flags.spec_resolve().gforce,
        flags.gforce && !flags.no_gforce ==> flags.spec_resolve().gforce,
        !flags.gforce && !flags.no_gforce ==> flags.spec_resolve().gforce
            == flags.preset.spec_elements().gforce,
        flags.no_compass ==> !flags.spec_resolve().compass,
        flags.compass && !flags.no_compass ==> flags.spec_resolve().compass,
        !flags.compass && !flags.no_compass ==> flags.spec_resolve().compass
            == flags.preset.spec_elements().compass,
        flags.no_gps_tag ==> !flags.spec_resolve().gps_tag,
        flags.gps_tag && !flags.no_gps_tag ==> flags.spec_resolve().gps_tag,
        !flags.gps_tag && !flags.no_gps_tag ==> flags.spec_resolve().gps_tag
            == flags.preset.spec_elements().gps_tag,
        flags.no_minimap ==> !flags.spec_resolve().minimap,
        flags.minimap && !flags.no_minimap ==> flags.spec_resolve().minimap,
        !flags.minimap && !flags.no_minimap ==> flags.spec_resolve().minimap
            == flags.preset.spec_elements().minimap,
{
}

/// Whether every widget that `a` shows, `b` shows too.
pub open spec fn shown_within(a: HudElements, b: HudElements) -> bool {
    &&& a.speedometer ==> b.speedometer
    &&& a.gforce ==> b.gforce
    &&& a.compass ==> b.compass
    &&& a.gps_tag ==> b.gps_tag
    &&& a.minimap ==> b.minimap
}

/// The presets grow one into the next: `none` shows nothing, every widget
/// of `none` is in `minimal`, of `minimal` in `default`, of `default` in
/// `full`, and `full` shows everything.
pub proof fn law_presets_are_nested()
    ensures
        HudPreset::Blank.spec_elements() == HudElements::uniform(false),
        shown_within(HudPreset::Blank.spec_elements(), HudPreset::Minimal.spec_elements()),
        shown_within(HudPreset::Minimal.spec_elements(), HudPreset::DefaultView.spec_elements()),
        shown_within(HudPreset::DefaultView.spec_elements(), HudPreset::Full.spec_elements()),
        HudPreset::Full.spec_elements() == HudElements::uniform(true),
{
}

} // verus!
