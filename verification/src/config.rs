//! Configuration data: per-display drawing settings, the collection of
//! configured displays, and the merge of command-line overrides over a file
//! configuration.
//!
//! Opacities and the normalized blur are carried in units of 1/1024.

use vstd::prelude::*;
use crate::text::str_eq;

verus! {

/// Drawing settings for one display, as the configuration collaborator hands
/// them over.
pub struct DisplayConfig {
    pub radius: i32,
    pub left: i32,
    pub right: i32,
    pub top: i32,
    pub bottom: i32,
    pub color: String,
    /// Opacity override in 1/1024 units; takes precedence over an alpha pair
    /// in `color`.
    pub opacity: Option<u16>,
    pub shadow_enabled: Option<bool>,
    pub shadow_color: Option<String>,
    /// Shadow opacity in 1/1024 units.
    pub shadow_opacity: Option<u16>,
    /// Normalized blur in 1/1024 units.
    pub shadow_blur: Option<u16>,
}

/// Equality of optional strings, read through the views.
pub open spec fn opt_str_eq(a: Option<String>, b: Option<String>) -> bool {
    match (a, b) {
        (Option::None, Option::None) => true,
        (Option::Some(x), Option::Some(y)) => x@ == y@,
        _ => false,
    }
}

/// Field-wise equality of display configurations, strings by view.
pub open spec fn cfg_eq(a: DisplayConfig, b: DisplayConfig) -> bool {
    &&& a.radius == b.radius
    &&& a.left == b.left
    &&& a.right == b.right
    &&& a.top == b.top
    &&& a.bottom == b.bottom
    &&& a.color@ == b.color@
    &&& a.opacity == b.opacity
    &&& a.shadow_enabled == b.shadow_enabled
    &&& opt_str_eq(a.shadow_color, b.shadow_color)
    &&& a.shadow_opacity == b.shadow_opacity
    &&& a.shadow_blur == b.shadow_blur
}

/// The built-in fallback: a radius of 15, borders of 30 on every edge, and an
/// opaque black colour.
pub open spec fn is_default_config(c: DisplayConfig) -> bool {
    &&& c.radius == 15
    &&& c.left == 30
    &&& c.right == 30
    &&& c.top == 30
    &&& c.bottom == 30
    &&& c.color@ == "000000"@
    &&& c.opacity is None
    &&& c.shadow_enabled is None
    &&& c.shadow_color is None
    &&& c.shadow_opacity is None
    &&& c.shadow_blur is None
}

impl Default for DisplayConfig {
    fn default() -> (c: DisplayConfig)
        ensures
            is_default_config(c),
    {
        DisplayConfig {
            radius: 15,
            left: 30,
            right: 30,
            top: 30,
            bottom: 30,
            color: "000000".to_owned(),
            opacity: None,
            shadow_enabled: None,
            shadow_color: None,
            shadow_opacity: None,
            shadow_blur: None,
        }
    }
}

fn clone_opt_string(s: &Option<String>) -> (c: Option<String>)
    ensures
        opt_str_eq(c, *s),
{
    match s {
        Some(v) => Some(v.clone()),
        None => None,
    }
}

impl DisplayConfig {
    /// A copy equal field by field.
    pub fn duplicate(&self) -> (c: DisplayConfig)
        ensures
            cfg_eq(c, *self),
    {
        DisplayConfig {
            radius: self.radius,
            left: self.left,
            right: self.right,
            top: self.top,
            bottom: self.bottom,
            color: self.color.clone(),
            opacity: self.opacity,
            shadow_enabled: self.shadow_enabled,
            shadow_color: clone_opt_string(&self.shadow_color),
            shadow_opacity: self.shadow_opacity,
            shadow_blur: self.shadow_blur,
        }
    }
}

/// One configured display: its name and its settings.
pub struct DisplayEntry {
    pub name: String,
    pub config: DisplayConfig,
}

/// The whole configuration: the settings of every configured display, in file
/// order.
pub struct SnugConfig {
    pub displays: Vec<DisplayEntry>,
}

impl SnugConfig {
    /// Whether some entry carries this display name.
    pub open spec fn spec_has_display(self, name: Seq<char>) -> bool {
        exists|i: int| 0 <= i < self.displays@.len() && self.displays@[i].name@ == name
    }

    /// The index of the first entry with this name.
    pub open spec fn spec_display_index(self, name: Seq<char>) -> int {
        choose|i: int|
            0 <= i < self.displays@.len() && self.displays@[i].name@ == name && forall|j: int|
                0 <= j < i ==> self.displays@[j].name@ != name
    }

    /// The settings of the named display: the first entry with that name, or
    /// the built-in default when none is configured.
    pub fn get_display_config(&self, display_name: &str) -> (c: DisplayConfig)
        ensures
            self.spec_has_display(display_name@) ==> {
                let i = self.spec_display_index(display_name@);
                0 <= i < self.displays@.len() && self.displays@[i].name@ == display_name@
                    && cfg_eq(c, self.displays@[i].config)
            },
            !self.spec_has_display(display_name@) ==> is_default_config(c),
    {
        let n = self.displays.len();
        let mut i: usize = 0;
        while i < n
            invariant
                i <= n,
                n == self.displays@.len(),
                forall|j: int| 0 <= j < i ==> self.displays@[j].name@ != display_name@,
            decreases n - i,
        {
            let entry = &self.displays[i];
            if str_eq(entry.name.as_str(), display_name) {
                return entry.config.duplicate();
            }
            i = i + 1;
        }
        DisplayConfig::default()
    }

    /// Names of the displays that a parent would hand to per-display workers:
    /// every configured name but the `default` sentinel, in order.
    pub fn worker_display_names(&self) -> (names: Vec<String>)
        ensures
            names@.map_values(|s: String| s@) == spec_worker_names(self.displays@),
    {
        let n = self.displays.len();
        let mut names: Vec<String> = Vec::new();
        let mut i: usize = 0;
        while i < n
            invariant
                i <= n,
                n == self.displays@.len(),
                names@.map_values(|s: String| s@) == spec_worker_names(
                    self.displays@.subrange(0, i as int),
                ),
            decreases n - i,
        {
            let entry = &self.displays[i];
            let ghost prefix = self.displays@.subrange(0, i as int);
            let ghost next_prefix = self.displays@.subrange(0, i + 1);
            proof {
                assert(next_prefix.drop_last() =~= prefix);
                assert(next_prefix.last() == self.displays@[i as int]);
            }
            if !str_eq(entry.name.as_str(), "default") {
                names.push(entry.name.clone());
                proof {
                    assert(names@.map_values(|s: String| s@) =~= spec_worker_names(next_prefix));
                }
            } else {
                proof {
                    assert(names@.map_values(|s: String| s@) =~= spec_worker_names(next_prefix));
                }
            }
            i = i + 1;
        }
        proof {
            assert(self.displays@.subrange(0, n as int) =~= self.displays@);
        }
        names
    }
}

/// The names of the configured displays other than the `default` sentinel,
/// in order, as views.
pub open spec fn spec_worker_names(entries: Seq<DisplayEntry>) -> Seq<Seq<char>>
    decreases entries.len(),
{
    if entries.len() == 0 {
        Seq::empty()
    } else {
        let rest = spec_worker_names(entries.drop_last());
        if entries.last().name@ == "default"@ {
            rest
        } else {
            rest.push(entries.last().name@)
        }
    }
}

/// Command-line overrides; every field optional, taking precedence over the
/// file configuration.
pub struct Args {
    pub config: Option<String>,
    pub display: Option<String>,
    pub radius: Option<i32>,
    pub left: Option<i32>,
    pub right: Option<i32>,
    pub top: Option<i32>,
    pub bottom: Option<i32>,
    pub color: Option<String>,
    pub opacity: Option<u16>,
    pub shadow_enabled: Option<bool>,
    pub shadow_color: Option<String>,
    pub shadow_opacity: Option<u16>,
    pub shadow_blur: Option<u16>,
}

/// The effective configuration a redraw uses.
pub struct MergedConfig {
    pub radius: i32,
    pub left: i32,
    pub right: i32,
    pub top: i32,
    pub bottom: i32,
    pub color: String,
    pub opacity: Option<u16>,
    pub shadow_enabled: Option<bool>,
    pub shadow_color: Option<String>,
    pub shadow_opacity: Option<u16>,
    pub shadow_blur: Option<u16>,
}

/// Field-wise equality of merged configurations, strings by view.
pub open spec fn merged_eq(a: MergedConfig, b: MergedConfig) -> bool {
    &&& a.radius == b.radius
    &&& a.left == b.left
    &&& a.right == b.right
    &&& a.top == b.top
    &&& a.bottom == b.bottom
    &&& a.color@ == b.color@
    &&& a.opacity == b.opacity
    &&& a.shadow_enabled == b.shadow_enabled
    &&& opt_str_eq(a.shadow_color, b.shadow_color)
    &&& a.shadow_opacity == b.shadow_opacity
    &&& a.shadow_blur == b.shadow_blur
}

impl MergedConfig {
    /// A copy equal field by field.
    pub fn duplicate(&self) -> (c: MergedConfig)
        ensures
            merged_eq(c, *self),
    {
        MergedConfig {
            radius: self.radius,
            left: self.left,
            right: self.right,
            top: self.top,
            bottom: self.bottom,
            color: self.color.clone(),
            opacity: self.opacity,
            shadow_enabled: self.shadow_enabled,
            shadow_color: clone_opt_string(&self.shadow_color),
            shadow_opacity: self.shadow_opacity,
            shadow_blur: self.shadow_blur,
        }
    }
}

impl Args {
    /// Merge the overrides onto a display's file configuration; a set
    /// override wins, an unset one falls back to the file.
    pub fn merge_with_config(&self, config: &DisplayConfig) -> (m: MergedConfig)
        ensures
            m.radius == if self.radius is Some {
                self.radius->0
            } else {
                config.radius
            },
            m.left == if self.left is Some {
                self.left->0
            } else {
                config.left
            },
            m.right == if self.right is Some {
                self.right->0
            } else {
                config.right
            },
            m.top == if self.top is Some {
                self.top->0
            } else {
                config.top
            },
            m.bottom == if self.bottom is Some {
                self.bottom->0
            } else {
                config.bottom
            },
            m.color@ == if self.color is Some {
                self.color->0@
            } else {
                config.color@
            },
            m.opacity == if self.opacity is Some {
                self.opacity
            } else {
                config.opacity
            },
            m.shadow_enabled == if self.shadow_enabled is Some {
                self.shadow_enabled
            } else {
                config.shadow_enabled
            },
            opt_str_eq(
                m.shadow_color,
                if self.shadow_color is Some {
                    self.shadow_color
                } else {
                    config.shadow_color
                },
            ),
            m.shadow_opacity == if self.shadow_opacity is Some {
                self.shadow_opacity
            } else {
                config.shadow_opacity
            },
            m.shadow_blur == if self.shadow_blur is Some {
                self.shadow_blur
            } else {
                config.shadow_blur
            },
    {
        let color = match &self.color {
            Some(c) => c.clone(),
            None => config.color.clone(),
        };
        let shadow_color = match &self.shadow_color {
            Some(c) => Some(c.clone()),
            None => clone_opt_string(&config.shadow_color),
        };
        MergedConfig {
            radius: match self.radius {
                Some(v) => v,
                None => config.radius,
            },
            left: match self.left {
                Some(v) => v,
                None => config.left,
            },
            right: match self.right {
                Some(v) => v,
                None => config.right,
            },
            top: match self.top {
                Some(v) => v,
                None => config.top,
            },
            bottom: match self.bottom {
                Some(v) => v,
                None => config.bottom,
            },
            color,
            opacity: match self.opacity {
                Some(v) => Some(v),
                None => config.opacity,
            },
            shadow_enabled: match self.shadow_enabled {
                Some(v) => Some(v),
                None => config.shadow_enabled,
            },
            shadow_color,
            shadow_opacity: match self.shadow_opacity {
                Some(v) => Some(v),
                None => config.shadow_opacity,
            },
            shadow_blur: match self.shadow_blur {
                Some(v) => Some(v),
                None => config.shadow_blur,
            },
        }
    }
}

} // verus!
