//! How windows look, and how the platform names that.
use vstd::prelude::*;

verus! {

/// How a window looks.
#[derive(Clone, Copy, Debug, PartialEq, Eq, Structural)]
pub enum WindowAppearance {
    /// Dark text on light.
    Light,
    /// Dark text on light that lets through what is behind.
    VibrantLight,
    /// Light text on dark.
    Dark,
    /// Light text on dark that lets through what is behind.
    VibrantDark,
}

/// The names that the platform has for appearances.
#[derive(Clone, Copy, Debug, PartialEq, Eq, Structural)]
pub enum AppearanceName {
    /// `NSAppearanceNameVibrantLight`
    VibrantLight,
    /// `NSAppearanceNameVibrantDark`
    VibrantDark,
    /// `NSAppearanceNameAqua`
    Aqua,
    /// `NSAppearanceNameDarkAqua`
    DarkAqua,
    /// A name that is not known.
    Unknown,
}

/// The appearance of a name; light where the name is not known.
pub open spec fn spec_from_native(name: AppearanceName) -> WindowAppearance {
    match name {
        AppearanceName::VibrantLight => WindowAppearance::VibrantLight,
        AppearanceName::VibrantDark => WindowAppearance::VibrantDark,
        AppearanceName::Aqua => WindowAppearance::Light,
        AppearanceName::DarkAqua => WindowAppearance::Dark,
        AppearanceName::Unknown => WindowAppearance::Light,
    }
}

/// The name of an appearance.
pub open spec fn spec_to_native(appearance: WindowAppearance) -> AppearanceName {
    match appearance {
        WindowAppearance::Light => AppearanceName::Aqua,
        WindowAppearance::Dark => AppearanceName::DarkAqua,
        WindowAppearance::VibrantLight => AppearanceName::VibrantLight,
        WindowAppearance::VibrantDark => AppearanceName::VibrantDark,
    }
}

/// The appearance of a name; light where the name is not known.
pub fn window_appearance_from_native(name: AppearanceName) -> (result: WindowAppearance)
    ensures
        result == spec_from_native(name),
{
    match name {
        AppearanceName::VibrantLight => WindowAppearance::VibrantLight,
        AppearanceName::VibrantDark => WindowAppearance::VibrantDark,
        AppearanceName::Aqua => WindowAppearance::Light,
        AppearanceName::DarkAqua => WindowAppearance::Dark,
        AppearanceName::Unknown => WindowAppearance::Light,
    }
}

/// The name of an appearance.
pub fn window_appearance_to_native(appearance: WindowAppearance) -> (result: AppearanceName)
    ensures
        result == spec_to_native(appearance),
{
    match appearance {
        WindowAppearance::Light => AppearanceName::Aqua,
        WindowAppearance::Dark => AppearanceName::DarkAqua,
        WindowAppearance::VibrantLight => AppearanceName::VibrantLight,
        WindowAppearance::VibrantDark => AppearanceName::VibrantDark,
    }
}

/// Every appearance is read back from its name.
pub proof fn law_appearances_are_read_back(appearance: WindowAppearance)
    ensures
        spec_from_native(spec_to_native(appearance)) == appearance,
        spec_to_native(appearance) != AppearanceName::Unknown,
{
}

} // verus!
