use vstd::prelude::*;

use crate::asset::{AsciiArt, AssetError};
use crate::color::{Color, Styled};
use crate::colorizer::{
    direct_paint, flag_paint, painted_view, Colorizer, DefaultColorizer, FlagColorizer,
    Orientation,
};
use crate::asset::copy_colors;
use crate::scheme::{get_colorscheme, rgb_colors, scheme_lookup, SchemeEntry};

verus! {

/// User settings: the colour scheme, the banding orientation and the icon.
pub struct Config {
    pub scheme_name: Option<String>,
    pub orientation: Option<Orientation>,
    pub icon_name: Option<String>,
}

/// The value of an optional string.
pub open spec fn opt_view(o: Option<String>) -> Option<Seq<char>> {
    match o {
        Some(s) => Some(s@),
        None => None,
    }
}

/// The value of a configuration.
pub struct ConfigView {
    pub scheme_name: Option<Seq<char>>,
    pub orientation: Option<Orientation>,
    pub icon_name: Option<Seq<char>>,
}

impl View for Config {
    type V = ConfigView;

    open spec fn view(&self) -> ConfigView {
        ConfigView {
            scheme_name: opt_view(self.scheme_name),
            orientation: self.orientation,
            icon_name: opt_view(self.icon_name),
        }
    }
}

/// `b` where it is set, `a` otherwise.
pub open spec fn overlay<T>(a: Option<T>, b: Option<T>) -> Option<T> {
    match b {
        Some(x) => Some(x),
        None => a,
    }
}

impl Default for Config {
    fn default() -> (r: Config)
        ensures
            r@ == (ConfigView { scheme_name: None, orientation: None, icon_name: None }),
    {
        Config { scheme_name: None, orientation: None, icon_name: None }
    }
}

impl Config {
    /// Sets the icon.
    pub fn with_icon(self, icon_name: String) -> (r: Config)
        ensures
            r@ == (ConfigView { icon_name: Some(icon_name@), ..self@ }),
    {
        Config { scheme_name: self.scheme_name, icon_name: Some(icon_name), orientation: self.orientation }
    }

    /// Sets the colour scheme.
    pub fn with_scheme_name(self, scheme_name: String) -> (r: Config)
        ensures
            r@ == (ConfigView { scheme_name: Some(scheme_name@), ..self@ }),
    {
        Config { scheme_name: Some(scheme_name), icon_name: self.icon_name, orientation: self.orientation }
    }

    /// Sets the banding orientation.
    pub fn with_orientation(self, orientation: &Orientation) -> (r: Config)
        ensures
            r@ == (ConfigView { orientation: Some(*orientation), ..self@ }),
    {
        Config { scheme_name: self.scheme_name, icon_name: self.icon_name, orientation: Some(*orientation) }
    }

    /// A configuration with the given settings.
    pub fn new(
        scheme_name: Option<String>,
        orientation: Option<Orientation>,
        icon_name: Option<String>,
    ) -> (r: Config)
        ensures
            r@ == (ConfigView {
                scheme_name: opt_view(scheme_name),
                orientation,
                icon_name: opt_view(icon_name),
            }),
    {
        Config { scheme_name, orientation, icon_name }
    }

    /// Lays `other` over `self`: each setting of `other` wins, and a missing
    /// one falls through to `self`.
    pub fn with_config(self, other: Config) -> (r: Config)
        ensures
            r@ == (ConfigView {
                scheme_name: overlay(self@.scheme_name, other@.scheme_name),
                orientation: overlay(self@.orientation, other@.orientation),
                icon_name: overlay(self@.icon_name, other@.icon_name),
            }),
    {
        let scheme_name = match other.scheme_name {
            Some(s) => Some(s),
            None => self.scheme_name,
        };
        let orientation = match other.orientation {
            Some(o) => Some(o),
            None => self.orientation,
        };
        let icon_name = match other.icon_name {
            Some(s) => Some(s),
            None => self.icon_name,
        };
        Config { scheme_name, orientation, icon_name }
    }
}

/// The icon name to use: the configured one, else `default`.
pub fn get_os_id(settings: &Config, default: &String) -> (r: String)
    ensures
        r@ == match settings@.icon_name {
            Some(n) => n,
            None => default@,
        },
{
    match &settings.icon_name {
        Some(n) => n.clone(),
        None => default.clone(),
    }
}

/// The colour scheme that the settings ask for: none if no scheme is named,
/// `NotFound` if the named one does not exist.
pub fn get_colorscheme_from_settings(settings: &Config, schemes: &Vec<SchemeEntry>) -> (r: Result<
    Option<Vec<Color>>,
    AssetError,
>)
    ensures
        match settings@.scheme_name {
            None => r == Ok::<Option<Vec<Color>>, AssetError>(None),
            Some(n) => match scheme_lookup(schemes@, n) {
                Some(k) => r.is_ok() && r.unwrap().is_some() && r.unwrap().unwrap()@ == rgb_colors(
                    schemes@[k].1@,
                ),
                None => r == Err::<Option<Vec<Color>>, AssetError>(AssetError::NotFound),
            },
        },
{
    match &settings.scheme_name {
        None => Ok(None),
        Some(n) => match get_colorscheme(schemes, n.as_str()) {
            Ok(c) => Ok(Some(c)),
            Err(e) => Err(e),
        },
    }
}

/// What colouring the icon yields: its own palette when no scheme is chosen;
/// banding when one is, which needs an orientation.
pub open spec fn logo_paint(
    orientation: Option<Orientation>,
    scheme: Option<Seq<Color>>,
    logo: crate::asset::AsciiArtView,
) -> Result<Seq<(Seq<char>, Color)>, AssetError> {
    match scheme {
        None => Ok(direct_paint(logo)),
        Some(s) => match orientation {
            None => Err(AssetError::MissingOrientation),
            Some(o) => flag_paint(s, o, logo),
        },
    }
}

/// The value of an optional colour list.
pub open spec fn opt_colors(o: Option<Vec<Color>>) -> Option<Seq<Color>> {
    match o {
        Some(v) => Some(v@),
        None => None,
    }
}

/// Picks the colouring strategy and applies it to the icon.
pub fn colorize_logo(
    orientation: Option<Orientation>,
    scheme: &Option<Vec<Color>>,
    logo: &AsciiArt,
) -> (r: Result<Vec<Styled>, AssetError>)
    requires
        logo@.wf(),
    ensures
        painted_view(r) == logo_paint(orientation, opt_colors(*scheme), logo@),
{
    match scheme {
        None => {
            let c = DefaultColorizer {};
            c.colorize(logo)
        },
        Some(colors) => match orientation {
            None => Err(AssetError::MissingOrientation),
            Some(o) => {
                let c = FlagColorizer { color_scheme: copy_colors(colors), orientation: o };
                c.colorize(logo)
            },
        },
    }
}

} // verus!
