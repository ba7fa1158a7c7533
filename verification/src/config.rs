//! Launcher configuration: theme and general settings, and the default
//! configuration the launcher writes on first start. Reading and writing
//! the configuration file is the host program's job.

use vstd::prelude::*;

verus! {

/// An RGBA color.
#[derive(Clone, Copy, PartialEq, Eq, Structural, Debug)]
pub struct ConfigColor {
    pub red: u8,
    pub green: u8,
    pub blue: u8,
    pub alpha: u8,
}

/// Visual settings of the launcher window.
pub struct ThemeConfig {
    pub window_background: ConfigColor,
    pub selected_item_background: ConfigColor,
    pub selected_text_color: ConfigColor,
    pub unselected_text_color: ConfigColor,
    pub item_height: u32,
    pub item_spacing: u32,
    pub item_border_radius: u32,
    pub icon_size: u32,
    pub input_font_size: u32,
    pub input_border_width: u32,
    pub text_font_size: u32,
    pub comment_font_size: u32,
    pub font_family: String,
    pub font_weight: i32,
    pub window_width: u32,
    pub window_height: u32,
    pub window_border_width: u32,
    pub input_height: u32,
}

/// Settings that are not about looks: the icon theme to resolve icons
/// under, and the rendezvous path of the activation endpoint.
pub struct GeneralConfig {
    pub icon_theme: String,
    pub socket_path: String,
}

/// The whole launcher configuration.
pub struct Config {
    pub theme: ThemeConfig,
    pub general: GeneralConfig,
}

impl Clone for ThemeConfig {
    fn clone(&self) -> (r: Self)
        ensures
            r == *self,
    {
        ThemeConfig {
            window_background: self.window_background,
            selected_item_background: self.selected_item_background,
            selected_text_color: self.selected_text_color,
            unselected_text_color: self.unselected_text_color,
            item_height: self.item_height,
            item_spacing: self.item_spacing,
            item_border_radius: self.item_border_radius,
            icon_size: self.icon_size,
            input_font_size: self.input_font_size,
            input_border_width: self.input_border_width,
            text_font_size: self.text_font_size,
            comment_font_size: self.comment_font_size,
            font_family: self.font_family.clone(),
            font_weight: self.font_weight,
            window_width: self.window_width,
            window_height: self.window_height,
            window_border_width: self.window_border_width,
            input_height: self.input_height,
        }
    }
}

impl Clone for GeneralConfig {
    fn clone(&self) -> (r: Self)
        ensures
            r == *self,
    {
        GeneralConfig {
            icon_theme: self.icon_theme.clone(),
            socket_path: self.socket_path.clone(),
        }
    }
}

impl Clone for Config {
    fn clone(&self) -> (r: Self)
        ensures
            r == *self,
    {
        Config { theme: self.theme.clone(), general: self.general.clone() }
    }
}

/// The configuration the launcher starts from when no file exists.
pub open spec fn is_default_config(c: Config) -> bool {
    &&& c.theme.window_background == (ConfigColor { red: 24, green: 24, blue: 37, alpha: 204 })
    &&& c.theme.selected_item_background == (ConfigColor {
        red: 203,
        green: 166,
        blue: 247,
        alpha: 255,
    })
    &&& c.theme.selected_text_color == (ConfigColor { red: 24, green: 24, blue: 37, alpha: 255 })
    &&& c.theme.unselected_text_color == (ConfigColor {
        red: 205,
        green: 214,
        blue: 244,
        alpha: 255,
    })
    &&& c.theme.item_height == 65
    &&& c.theme.item_spacing == 5
    &&& c.theme.item_border_radius == 10
    &&& c.theme.icon_size == 48
    &&& c.theme.input_font_size == 20
    &&& c.theme.input_border_width == 3
    &&& c.theme.text_font_size == 17
    &&& c.theme.comment_font_size == 12
    &&& c.theme.font_family@ == "JetBrainsMono NF SemiBold"@
    &&& c.theme.font_weight == 650
    &&& c.theme.window_width == 400
    &&& c.theme.window_height == 580
    &&& c.theme.window_border_width == 2
    &&& c.theme.input_height == 70
    &&& c.general.icon_theme@ == "Papirus-Dark"@
    &&& c.general.socket_path@ == "/tmp/comsic-wanderer.sock"@
}

/// Builds the default configuration.
pub fn default_config() -> (c: Config)
    ensures
        is_default_config(c),
{
    Config {
        theme: ThemeConfig {
            window_background: ConfigColor { red: 24, green: 24, blue: 37, alpha: 204 },
            selected_item_background: ConfigColor { red: 203, green: 166, blue: 247, alpha: 255 },
            selected_text_color: ConfigColor { red: 24, green: 24, blue: 37, alpha: 255 },
            unselected_text_color: ConfigColor { red: 205, green: 214, blue: 244, alpha: 255 },
            item_height: 65,
            item_spacing: 5,
            item_border_radius: 10,
            icon_size: 48,
            input_font_size: 20,
            input_border_width: 3,
            text_font_size: 17,
            comment_font_size: 12,
            font_family: "JetBrainsMono NF SemiBold".to_owned(),
            font_weight: 650,
            window_width: 400,
            window_height: 580,
            window_border_width: 2,
            input_height: 70,
        },
        general: GeneralConfig {
            icon_theme: "Papirus-Dark".to_owned(),
            socket_path: "/tmp/comsic-wanderer.sock".to_owned(),
        },
    }
}

} // verus!
