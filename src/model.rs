use vstd::prelude::*;
use crate::constants::DEFAULT_INTERVAL_MS;

verus! {

/// Order in which the tiles of a group are laid out.
#[derive(Clone, Copy, Debug, PartialEq, Eq, Structural)]
pub enum SortMode {
    Bandwidth,
    Name,
}

/// The two groups of interfaces, each shown in its own section.
#[derive(Clone, Copy, Debug, PartialEq, Eq, Structural)]
pub enum Group {
    Physical,
    Virtual,
}

/// The six independent display flags.
#[derive(Clone, Copy, Debug, PartialEq, Eq, Structural)]
pub struct DisplaySettings {
    pub show_loopback: bool,
    pub show_virtual: bool,
    pub show_overview: bool,
    pub show_inactive: bool,
    pub show_bits: bool,
    pub show_split: bool,
}

impl DisplaySettings {
    pub open spec fn default_spec() -> DisplaySettings {
        DisplaySettings {
            show_loopback: true,
            show_virtual: true,
            show_overview: true,
            show_inactive: false,
            show_bits: false,
            show_split: true,
        }
    }

    /// Number of stacked sections shown: the physical group always, the
    /// overview and the virtual group when enabled.
    pub open spec fn section_count_spec(self) -> usize {
        (1 + (if self.show_overview {
            1usize
        } else {
            0
        }) + (if self.show_virtual {
            1usize
        } else {
            0
        })) as usize
    }

    pub fn section_count(&self) -> (r: usize)
        ensures
            r == self.section_count_spec(),
            1 <= r <= 3,
    {
        let mut n: usize = 1;
        if self.show_overview {
            n = n + 1;
        }
        if self.show_virtual {
            n = n + 1;
        }
        n
    }
}

impl Default for DisplaySettings {
    fn default() -> (r: DisplaySettings)
        ensures
            r == DisplaySettings::default_spec(),
    {
        DisplaySettings {
            show_loopback: true,
            show_virtual: true,
            show_overview: true,
            show_inactive: false,
            show_bits: false,
            show_split: true,
        }
    }
}

/// The persisted settings: theme name, display flags, sort mode and interval.
#[derive(Clone, Debug)]
pub struct Config {
    pub theme: String,
    pub display: DisplaySettings,
    pub sort_mode: SortMode,
    pub interval_ms: u64,
}

impl Default for Config {
    fn default() -> (r: Config)
        ensures
            r.theme@ == seq!['G', 'r', 'e', 'e', 'n'],
            r.display == DisplaySettings::default_spec(),
            r.sort_mode == SortMode::Name,
            r.interval_ms == DEFAULT_INTERVAL_MS,
    {
        proof {
            reveal_strlit("Green");
        }
        Config {
            theme: "Green".to_owned(),
            display: DisplaySettings::default(),
            sort_mode: SortMode::Name,
            interval_ms: DEFAULT_INTERVAL_MS,
        }
    }
}

/// Launch-time overrides of the persisted settings, for one session.
#[derive(Clone, Debug)]
pub struct Args {
    pub interval: Option<u64>,
    pub hide_loopback: bool,
    pub hide_virtual: bool,
    pub show_inactive: bool,
    pub bits: bool,
}

} // verus!
