//! Light and dark appearances.
use vstd::prelude::*;
use vstd::std_specs::convert::FromSpecImpl;

verus! {

#[derive(Debug, Clone, Copy, PartialEq, Eq, Structural)]
pub enum Appearance {
    Light,
    Dark,
}

impl Appearance {
    pub fn is_light(&self) -> (r: bool)
        ensures
            r == (*self == Appearance::Light),
    {
        matches!(self, Self::Light)
    }

    pub fn is_dark(&self) -> (r: bool)
        ensures
            r == (*self == Appearance::Dark),
    {
        matches!(self, Self::Dark)
    }
}

/// The appearance the window system asks a window to have.
#[derive(Debug, Clone, Copy, PartialEq, Eq, Structural)]
pub enum WindowAppearance {
    Light,
    VibrantLight,
    Dark,
    VibrantDark,
}

/// The appearance of a theme for a window appearance: vibrant or not, dark stays dark
/// and light stays light.
pub open spec fn appearance_for(w: WindowAppearance) -> Appearance {
    match w {
        WindowAppearance::Dark | WindowAppearance::VibrantDark => Appearance::Dark,
        WindowAppearance::Light | WindowAppearance::VibrantLight => Appearance::Light,
    }
}

/// A vibrant window appearance gives the same theme appearance as the plain one, and dark
/// and light window appearances give dark and light themes.
pub proof fn vibrancy_keeps_appearance(w: WindowAppearance)
    ensures
        appearance_for(WindowAppearance::VibrantDark) == appearance_for(WindowAppearance::Dark),
        appearance_for(WindowAppearance::VibrantLight) == appearance_for(WindowAppearance::Light),
        appearance_for(WindowAppearance::Dark) == Appearance::Dark,
        appearance_for(WindowAppearance::Light) == Appearance::Light,
        appearance_for(w) != appearance_for(WindowAppearance::Dark) ==> appearance_for(w)
            == Appearance::Light,
{
}

impl From<WindowAppearance> for Appearance {
    fn from(value: WindowAppearance) -> (r: Self) {
        match value {
            WindowAppearance::Dark | WindowAppearance::VibrantDark => Self::Dark,
            WindowAppearance::Light | WindowAppearance::VibrantLight => Self::Light,
        }
    }
}

impl FromSpecImpl<WindowAppearance> for Appearance {
    open spec fn obeys_from_spec() -> bool {
        true
    }

    open spec fn from_spec(v: WindowAppearance) -> Self {
        appearance_for(v)
    }
}

#[derive(Debug, Default, PartialEq, Clone, Copy, Eq, Structural)]
pub enum WindowBackgroundAppearance {
    #[default]
    Opaque,
    Transparent,
    Blurred,
}

} // verus!
