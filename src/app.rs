use vstd::prelude::*;
use crate::constants::HISTORY_LEN;
use crate::constants::INTERVAL_STEP_MS;
use crate::constants::MAX_INTERVAL_MS;
use crate::constants::MIN_ELAPSED_MICROS;
use crate::constants::MIN_INTERVAL_MS;
use crate::iface::IfaceState;
use crate::iface::aggregate;
use crate::iface::all_wf;
use crate::iface::contains_name;
use crate::iface::has_state;
use crate::iface::names_distinct;
use crate::iface::observe_all;
use crate::iface::occurs_from;
use crate::iface::reported_up;
use crate::iface::retain_reported;
use crate::iface::rx_total;
use crate::iface::states_distinct;
use crate::iface::took_some_sample;
use crate::iface::tx_total;
use crate::iface::up_names_distinct;
use crate::iface::visible_in_own_group;
use crate::model::Args;
use crate::model::Config;
use crate::model::DisplaySettings;
use crate::model::Group;
use crate::model::SortMode;
use crate::net::InterfaceSample;
use crate::net::is_physical_interface;
use crate::net::is_physical_spec;
use crate::iface::in_group_spec;
use crate::rate::Rate;
use crate::rate::effective_elapsed;
use crate::rate::history_value_spec;
use crate::rate::is_active_spec;
use crate::rate::push_history;
use crate::rate::pushed_spec;
use crate::theme::BorderColors;
use crate::theme::Color;
use crate::theme::SOLID_THEME_COUNT;
use crate::theme::Theme;
use crate::theme::build_themes;
use crate::theme::solid_tx_color;
use crate::theme::solid_tx_color_spec;
use crate::visibility::NameFilter;
use crate::visibility::filter_names;

verus! {

/// The whole state of the monitor: tracked interfaces, visible sets,
/// aggregate, and the user's settings.
pub struct App {
    pub states: Vec<IfaceState>,
    pub sample_index: u64,
    pub hostname: String,
    pub display: DisplaySettings,
    pub theme_index: usize,
    pub themes: Vec<Theme>,
    pub sort_mode: SortMode,
    pub interval_ms: u64,
    pub last_error: Option<String>,
    pub name_error: Option<String>,
    pub aliases: Vec<(String, String)>,
    pub visible_physical: Vec<String>,
    pub visible_virtual: Vec<String>,
    pub total_rx: Rate,
    pub total_tx: Rate,
    pub total_rx_history: Vec<u64>,
    pub total_tx_history: Vec<u64>,
}

impl App {
    pub open spec fn wf(&self) -> bool {
        &&& all_wf(self.states@)
        &&& states_distinct(self.states@)
        &&& names_distinct(self.visible_physical@)
        &&& names_distinct(self.visible_virtual@)
        &&& forall|n: Seq<char>| contains_name(self.visible_physical@, n) ==> is_physical_spec(n)
        &&& forall|n: Seq<char>| contains_name(self.visible_virtual@, n) ==> !is_physical_spec(n)
        &&& self.themes@.len() > 0
        &&& self.total_rx.wf()
        &&& self.total_tx.wf()
        &&& forall|i: int|
            0 <= i < self.states@.len() ==> (#[trigger] self.states@[i]).rx_rate.micros
                == self.total_rx.micros
        &&& self.total_rx_history@.len() <= HISTORY_LEN
        &&& self.total_tx_history@.len() <= HISTORY_LEN
    }

    /// What a successful tick leaves: `self` is the monitor after `before`
    /// took `samples` over `el` microseconds. Exactly the interfaces reported
    /// up are tracked, visible sets hold only tracked names and keep those still
    /// reported, every active interface is visible, each interface took its
    /// sample (when the names reported up are distinct), and the aggregate is
    /// the sum over the counted interfaces, prepended to its histories.
    pub open spec fn ticked(&self, before: &App, samples: Seq<InterfaceSample>, el: u64) -> bool {
        &&& self.last_error is None
        &&& forall|n: Seq<char>|
            has_state(self.states@, n) <==> reported_up(samples, n)
        &&& forall|n: Seq<char>|
            contains_name(self.visible_physical@, n) ==> has_state(
                self.states@,
                n,
            )
        &&& forall|n: Seq<char>|
            contains_name(self.visible_virtual@, n) ==> has_state(
                self.states@,
                n,
            )
        &&& forall|n: Seq<char>|
            contains_name(before.visible_physical@, n) && reported_up(samples, n)
                ==> contains_name(self.visible_physical@, n)
        &&& forall|n: Seq<char>|
            contains_name(before.visible_virtual@, n) && reported_up(samples, n)
                ==> contains_name(self.visible_virtual@, n)
        &&& forall|i: int|
            0 <= i < self.states@.len() ==> (#[trigger] self.states@[i]).rx_rate.micros == el && (is_active_spec(
                self.states@[i].total_rate.bytes as int,
                el as int,
            ) ==> visible_in_own_group(
                self.visible_physical@,
                self.visible_virtual@,
                self.states@[i].name@,
            ))
        &&& up_names_distinct(samples) ==> forall|i: int|
            0 <= i < self.states@.len() ==> took_some_sample(
                #[trigger] self.states@[i],
                before.states@,
                samples,
                el,
            )
        &&& self.total_rx == (Rate {
            bytes: rx_total(self.states@, before.display.show_loopback)
                as u128,
            micros: el,
        })
        &&& self.total_tx == (Rate {
            bytes: tx_total(self.states@, before.display.show_loopback)
                as u128,
            micros: el,
        })
        &&& self.total_rx_history@ == pushed_spec(
            before.total_rx_history@,
            history_value_spec(self.total_rx.bytes as int, el as int),
        )
        &&& self.total_tx_history@ == pushed_spec(
            before.total_tx_history@,
            history_value_spec(self.total_tx.bytes as int, el as int),
        )
    }

    /// One sampling pass. `sampled` is what the sampler returned this tick and
    /// `measured_micros` the time since the previous tick. On success every
    /// interface reported up is updated, every other one is dropped together
    /// with its visibility, and the aggregate is recomputed; on failure the
    /// error is recorded and the interface states are left as they were.
    pub fn update(&mut self, sampled: Result<Vec<InterfaceSample>, String>, measured_micros: u64)
        requires
            old(self).wf(),
        ensures
            final(self).wf(),
            final(self).sample_index == if old(self).sample_index == u64::MAX {
                u64::MAX
            } else {
                (old(self).sample_index + 1) as u64
            },
            final(self).display == old(self).display,
            final(self).theme_index == old(self).theme_index,
            final(self).themes == old(self).themes,
            final(self).sort_mode == old(self).sort_mode,
            final(self).interval_ms == old(self).interval_ms,
            final(self).aliases == old(self).aliases,
            final(self).name_error == old(self).name_error,
            final(self).hostname == old(self).hostname,
            match sampled {
                Ok(samples) => {
                    let el = if measured_micros < MIN_ELAPSED_MICROS {
                        MIN_ELAPSED_MICROS
                    } else {
                        measured_micros
                    };
                    &&& final(self).ticked(&*old(self), samples@, el)
                },
                Err(msg) => {
                    &&& final(self).last_error == Some(msg)
                    &&& final(self).states == old(self).states
                    &&& final(self).visible_physical == old(self).visible_physical
                    &&& final(self).visible_virtual == old(self).visible_virtual
                    &&& final(self).total_rx == old(self).total_rx
                    &&& final(self).total_tx == old(self).total_tx
                    &&& final(self).total_rx_history == old(self).total_rx_history
                    &&& final(self).total_tx_history == old(self).total_tx_history
                },
            },
    {
        let micros = effective_elapsed(measured_micros);
        self.sample_index = self.sample_index.saturating_add(1);
        match sampled {
            Ok(samples) => {
                self.last_error = None;
                let tick = self.sample_index;
                observe_all(
                    &mut self.states,
                    &mut self.visible_physical,
                    &mut self.visible_virtual,
                    &samples,
                    micros,
                    tick,
                );
                let ghost mid = self.states@;
                let ghost mid_p = self.visible_physical@;
                let ghost mid_v = self.visible_virtual@;
                retain_reported(&mut self.states, &samples);
                self.visible_physical = filter_names(&self.visible_physical, &self.states, NameFilter::Known);
                self.visible_virtual = filter_names(&self.visible_virtual, &self.states, NameFilter::Known);
                proof {
                    assert forall|n: Seq<char>| contains_name(self.visible_physical@, n) implies is_physical_spec(n) by {
                        assert(contains_name(mid_p, n));
                    }
                    assert forall|n: Seq<char>| contains_name(self.visible_virtual@, n) implies !is_physical_spec(n) by {
                        assert(contains_name(mid_v, n));
                    }
                    assert forall|i: int| 0 <= i < self.states@.len() implies
                        (#[trigger] self.states@[i]).rx_rate.micros == micros && (is_active_spec(
                        self.states@[i].total_rate.bytes as int,
                        micros as int,
                    ) ==> visible_in_own_group(
                        self.visible_physical@,
                        self.visible_virtual@,
                        self.states@[i].name@,
                    )) by {
                        assert(occurs_from(self.states@[i], mid, 0));
                        let k = choose|k: int| 0 <= k < mid.len() && mid[k] == self.states@[i];
                        assert(mid[k] == self.states@[i]);
                        assert(has_state(self.states@, self.states@[i].name@));
                        assert(reported_up(samples@, mid[k].name@));
                    }
                    if up_names_distinct(samples@) {
                        assert forall|i: int| 0 <= i < self.states@.len() implies took_some_sample(
                            #[trigger] self.states@[i],
                            old(self).states@,
                            samples@,
                            micros,
                        ) by {
                            assert(occurs_from(self.states@[i], mid, 0));
                            let k = choose|k: int| 0 <= k < mid.len() && mid[k] == self.states@[i];
                            assert(has_state(self.states@, self.states@[i].name@));
                            assert(reported_up(samples@, mid[k].name@));
                        }
                    }
                }
                let (rx, tx) = aggregate(&self.states, self.display.show_loopback);
                self.total_rx = Rate::new(rx, micros);
                self.total_tx = Rate::new(tx, micros);
                let rx_value = self.total_rx.rounded_per_second();
                let tx_value = self.total_tx.rounded_per_second();
                push_history(&mut self.total_rx_history, rx_value);
                push_history(&mut self.total_tx_history, tx_value);
            },
            Err(msg) => {
                self.last_error = Some(msg);
            },
        }
    }
}


/// `v` clamped to the allowed range of sample intervals.
pub open spec fn clamp_interval(v: u64) -> u64 {
    if v < MIN_INTERVAL_MS {
        MIN_INTERVAL_MS
    } else if v > MAX_INTERVAL_MS {
        MAX_INTERVAL_MS
    } else {
        v
    }
}

/// Index of the first theme named `name`.
pub fn theme_position(themes: &Vec<Theme>, name: &String) -> (r: Option<usize>)
    ensures
        r matches Some(i) ==> i < themes@.len() && themes@[i as int].name@ == name@,
        r is None ==> forall|i: int| 0 <= i < themes@.len() ==> (#[trigger] themes@[i]).name@ != name@,
{
    let mut i: usize = 0;
    while i < themes.len()
        invariant
            i <= themes@.len(),
            forall|k: int| 0 <= k < i ==> (#[trigger] themes@[k]).name@ != name@,
        decreases themes@.len() - i,
    {
        if themes[i].name == *name {
            return Some(i);
        }
        i = i + 1;
    }
    None
}

impl App {
    /// A fresh monitor: no interfaces yet, the persisted settings `cfg` with
    /// the launch overrides of `args` applied, the theme named in `cfg` (the
    /// first one if none has that name), and the interval clamped to its range.
    pub fn new(args: &Args, cfg: Config, hostname: String) -> (r: App)
        ensures
            r.wf(),
            r.states@.len() == 0,
            r.visible_physical@.len() == 0,
            r.visible_virtual@.len() == 0,
            r.sample_index == 0,
            r.hostname == hostname,
            r.sort_mode == cfg.sort_mode,
            r.display.show_loopback == (cfg.display.show_loopback && !args.hide_loopback),
            r.display.show_virtual == (cfg.display.show_virtual && !args.hide_virtual),
            r.display.show_inactive == (cfg.display.show_inactive || args.show_inactive),
            r.display.show_bits == (cfg.display.show_bits || args.bits),
            r.display.show_overview == cfg.display.show_overview,
            r.display.show_split == cfg.display.show_split,
            r.interval_ms == clamp_interval(
                match args.interval {
                    Some(v) => v,
                    None => cfg.interval_ms,
                },
            ),
            r.theme_index < r.themes@.len(),
            (exists|i: int| 0 <= i < r.themes@.len() && (#[trigger] r.themes@[i]).name@ == cfg.theme@)
                ==> r.themes@[r.theme_index as int].name@ == cfg.theme@,
            (forall|i: int| 0 <= i < r.themes@.len() ==> (#[trigger] r.themes@[i]).name@ != cfg.theme@)
                ==> r.theme_index == 0,
            r.last_error is None,
            r.name_error is None,
    {
        let themes = build_themes();
        let theme_index = match theme_position(&themes, &cfg.theme) {
            Some(i) => i,
            None => 0,
        };
        let mut display = cfg.display;
        if args.hide_loopback {
            display.show_loopback = false;
        }
        if args.hide_virtual {
            display.show_virtual = false;
        }
        if args.show_inactive {
            display.show_inactive = true;
        }
        if args.bits {
            display.show_bits = true;
        }
        let interval = match args.interval {
            Some(v) => v,
            None => cfg.interval_ms,
        };
        let interval_ms = if interval < MIN_INTERVAL_MS {
            MIN_INTERVAL_MS
        } else if interval > MAX_INTERVAL_MS {
            MAX_INTERVAL_MS
        } else {
            interval
        };
        App {
            states: Vec::new(),
            sample_index: 0,
            hostname,
            display,
            theme_index,
            themes,
            sort_mode: cfg.sort_mode,
            interval_ms,
            last_error: None,
            name_error: None,
            aliases: Vec::new(),
            visible_physical: Vec::new(),
            visible_virtual: Vec::new(),
            total_rx: Rate::zero(),
            total_tx: Rate::zero(),
            total_rx_history: Vec::new(),
            total_tx_history: Vec::new(),
        }
    }

    /// Whether `self` and `other` hold the same interfaces, visible sets,
    /// aggregate, themes, aliases and messages: all but the user's settings.
    pub open spec fn same_data(&self, other: &App) -> bool {
        &&& self.states == other.states
        &&& self.sample_index == other.sample_index
        &&& self.hostname == other.hostname
        &&& self.themes == other.themes
        &&& self.last_error == other.last_error
        &&& self.name_error == other.name_error
        &&& self.aliases == other.aliases
        &&& self.visible_physical == other.visible_physical
        &&& self.visible_virtual == other.visible_virtual
        &&& self.total_rx == other.total_rx
        &&& self.total_tx == other.total_tx
        &&& self.total_rx_history == other.total_rx_history
        &&& self.total_tx_history == other.total_tx_history
    }

    pub open spec fn theme_slot_spec(&self) -> int {
        self.theme_index as int % self.themes@.len() as int
    }

    /// Position in the theme table of the current theme.
    pub fn theme_slot(&self) -> (r: usize)
        requires
            self.wf(),
        ensures
            r == self.theme_slot_spec(),
            r < self.themes@.len(),
    {
        self.theme_index % self.themes.len()
    }

    /// The current theme.
    pub fn theme(&self) -> (r: &Theme)
        requires
            self.wf(),
        ensures
            *r == self.themes@[self.theme_slot_spec()],
    {
        &self.themes[self.theme_slot()]
    }

    /// Whether the current theme has its own palette and background.
    pub fn is_advanced_theme(&self) -> (r: bool)
        requires
            self.wf(),
        ensures
            r == (self.theme_slot_spec() >= SOLID_THEME_COUNT),
    {
        self.theme_slot() >= SOLID_THEME_COUNT
    }

    /// Moves to the next theme, wrapping round after the last.
    pub fn next_theme(&mut self)
        requires
            old(self).wf(),
        ensures
            final(self).wf(),
            final(self).theme_index == (old(self).theme_index as int + 1) % old(
                self,
            ).themes@.len() as int,
            final(self).same_data(&*old(self)),
            final(self).display == old(self).display,
            final(self).sort_mode == old(self).sort_mode,
            final(self).interval_ms == old(self).interval_ms,
    {
        self.theme_index = (self.theme_index % self.themes.len() + 1) % self.themes.len();
        proof {
            let n = old(self).themes@.len() as int;
            let t = old(self).theme_index as int;
            assert((t % n + 1) % n == (t + 1) % n) by (nonlinear_arith)
                requires
                    n > 0,
                    t >= 0,
            ;
        }
    }

    /// Color of receive bars.
    pub fn rx_color(&self) -> (r: Color)
        requires
            self.wf(),
        ensures
            r == self.themes@[self.theme_slot_spec()].graph,
    {
        self.theme().graph
    }

    /// Color of transmit bars: the outer border color of an advanced theme,
    /// else a darker shade of the graph color.
    pub fn tx_color(&self) -> (r: Color)
        requires
            self.wf(),
        ensures
            r == if self.theme_slot_spec() >= SOLID_THEME_COUNT {
                self.themes@[self.theme_slot_spec()].outer
            } else {
                solid_tx_color_spec(self.themes@[self.theme_slot_spec()].graph)
            },
    {
        if self.is_advanced_theme() {
            self.theme().outer
        } else {
            solid_tx_color(self.theme().graph)
        }
    }

    /// Border colors of the current theme.
    pub fn colors(&self) -> (r: BorderColors)
        requires
            self.wf(),
        ensures
            r.outer == self.themes@[self.theme_slot_spec()].outer,
            r.pane == self.themes@[self.theme_slot_spec()].pane,
            r.tile == self.themes@[self.theme_slot_spec()].graph,
    {
        let t = self.theme();
        BorderColors { outer: t.outer, pane: t.pane, tile: t.graph }
    }

    /// The settings to persist: current theme name, display flags, sort mode
    /// and interval.
    pub fn config(&self) -> (r: Config)
        requires
            self.wf(),
        ensures
            r.theme@ == self.themes@[self.theme_slot_spec()].name@,
            r.display == self.display,
            r.sort_mode == self.sort_mode,
            r.interval_ms == self.interval_ms,
    {
        Config {
            theme: self.theme().name.clone(),
            display: self.display,
            sort_mode: self.sort_mode,
            interval_ms: self.interval_ms,
        }
    }

    /// Switches between ordering by name and by bandwidth.
    pub fn toggle_sort(&mut self)
        ensures
            final(self).sort_mode == match old(self).sort_mode {
                SortMode::Bandwidth => SortMode::Name,
                SortMode::Name => SortMode::Bandwidth,
            },
            final(self).wf() == old(self).wf(),
            final(self).same_data(&*old(self)),
            final(self).display == old(self).display,
            final(self).theme_index == old(self).theme_index,
            final(self).interval_ms == old(self).interval_ms,
    {
        self.sort_mode = match self.sort_mode {
            SortMode::Bandwidth => SortMode::Name,
            SortMode::Name => SortMode::Bandwidth,
        };
    }

    /// Lengthens the interval by one step, up to the maximum.
    pub fn inc_interval(&mut self)
        ensures
            final(self).interval_ms == if old(self).interval_ms + INTERVAL_STEP_MS > MAX_INTERVAL_MS {
                MAX_INTERVAL_MS
            } else {
                (old(self).interval_ms + INTERVAL_STEP_MS) as u64
            },
            final(self).wf() == old(self).wf(),
            final(self).same_data(&*old(self)),
            final(self).display == old(self).display,
            final(self).theme_index == old(self).theme_index,
            final(self).sort_mode == old(self).sort_mode,
    {
        let next = self.interval_ms.saturating_add(INTERVAL_STEP_MS);
        self.interval_ms = if next > MAX_INTERVAL_MS {
            MAX_INTERVAL_MS
        } else {
            next
        };
    }

    /// Shortens the interval by one step, down to the minimum.
    pub fn dec_interval(&mut self)
        ensures
            final(self).interval_ms == if old(self).interval_ms <= INTERVAL_STEP_MS
                || old(self).interval_ms - INTERVAL_STEP_MS < MIN_INTERVAL_MS {
                MIN_INTERVAL_MS
            } else {
                (old(self).interval_ms - INTERVAL_STEP_MS) as u64
            },
            final(self).wf() == old(self).wf(),
            final(self).same_data(&*old(self)),
            final(self).display == old(self).display,
            final(self).theme_index == old(self).theme_index,
            final(self).sort_mode == old(self).sort_mode,
    {
        if self.interval_ms <= INTERVAL_STEP_MS {
            self.interval_ms = MIN_INTERVAL_MS;
            return;
        }
        let next = self.interval_ms - INTERVAL_STEP_MS;
        self.interval_ms = if next < MIN_INTERVAL_MS {
            MIN_INTERVAL_MS
        } else {
            next
        };
    }

    /// Whether an interface belongs to a group.
    pub fn in_group(&self, iface: &IfaceState, group: Group) -> (r: bool)
        ensures
            r == in_group_spec(iface.name@, group),
    {
        let physical = is_physical_interface(iface.name.as_str());
        match group {
            Group::Physical => physical,
            Group::Virtual => !physical,
        }
    }

    /// Records the outcome of an alias lookup: a new table replaces the old
    /// one and clears the error; a failure keeps the old table.
    pub fn refresh_aliases(&mut self, looked_up: Result<Vec<(String, String)>, String>)
        ensures
            final(self).wf() == old(self).wf(),
            match looked_up {
                Ok(map) => final(self).aliases == map && final(self).name_error is None,
                Err(msg) => final(self).aliases == old(self).aliases && final(self).name_error
                    == Some(msg),
            },
    {
        match looked_up {
            Ok(map) => {
                self.aliases = map;
                self.name_error = None;
            },
            Err(msg) => {
                self.name_error = Some(msg);
            },
        }
    }
}


/// One interactive command.
#[derive(Clone, Copy, Debug, PartialEq, Eq, Structural)]
pub enum Command {
    Quit,
    ToggleBits,
    ToggleLoopback,
    NextTheme,
    ToggleInactive,
    ToggleVirtual,
    ToggleOverview,
    ToggleSort,
    ToggleSplit,
    RefreshAliases,
    IncInterval,
    DecInterval,
}

/// What the loop around the monitor does after a command.
#[derive(Clone, Copy, Debug, PartialEq, Eq, Structural)]
pub enum Followup {
    /// Leave the loop.
    Exit,
    /// Persist the settings.
    Persist,
    /// Persist the settings and restart the tick timer.
    PersistAndResetTimer,
    /// Look the aliases up again.
    Resolve,
}

impl App {
    /// Applies one interactive command and says what the caller must do next.
    pub fn apply(&mut self, cmd: Command) -> (r: Followup)
        requires
            old(self).wf(),
        ensures
            final(self).wf(),
            final(self).same_data(&*old(self)),
            r == match cmd {
                Command::Quit => Followup::Exit,
                Command::RefreshAliases => Followup::Resolve,
                Command::IncInterval | Command::DecInterval => Followup::PersistAndResetTimer,
                _ => Followup::Persist,
            },
            final(self).display == (match cmd {
                Command::ToggleBits => DisplaySettings {
                    show_bits: !old(self).display.show_bits,
                    ..old(self).display
                },
                Command::ToggleLoopback => DisplaySettings {
                    show_loopback: !old(self).display.show_loopback,
                    ..old(self).display
                },
                Command::ToggleInactive => DisplaySettings {
                    show_inactive: !old(self).display.show_inactive,
                    ..old(self).display
                },
                Command::ToggleVirtual => DisplaySettings {
                    show_virtual: !old(self).display.show_virtual,
                    ..old(self).display
                },
                Command::ToggleOverview => DisplaySettings {
                    show_overview: !old(self).display.show_overview,
                    ..old(self).display
                },
                Command::ToggleSplit => DisplaySettings {
                    show_split: !old(self).display.show_split,
                    ..old(self).display
                },
                _ => old(self).display,
            }),
            cmd == Command::NextTheme ==> final(self).theme_index == (old(self).theme_index as int
                + 1) % old(self).themes@.len() as int,
            cmd != Command::NextTheme ==> final(self).theme_index == old(self).theme_index,
            cmd == Command::ToggleSort ==> final(self).sort_mode != old(self).sort_mode,
            cmd != Command::ToggleSort ==> final(self).sort_mode == old(self).sort_mode,
            cmd == Command::IncInterval ==> final(self).interval_ms == if old(self).interval_ms
                + INTERVAL_STEP_MS > MAX_INTERVAL_MS {
                MAX_INTERVAL_MS
            } else {
                (old(self).interval_ms + INTERVAL_STEP_MS) as u64
            },
            cmd == Command::DecInterval ==> final(self).interval_ms == if old(self).interval_ms
                <= INTERVAL_STEP_MS || old(self).interval_ms - INTERVAL_STEP_MS < MIN_INTERVAL_MS {
                MIN_INTERVAL_MS
            } else {
                (old(self).interval_ms - INTERVAL_STEP_MS) as u64
            },
            cmd != Command::IncInterval && cmd != Command::DecInterval ==> final(self).interval_ms
                == old(self).interval_ms,
    {
        match cmd {
            Command::Quit => Followup::Exit,
            Command::ToggleBits => {
                self.display.show_bits = !self.display.show_bits;
                Followup::Persist
            },
            Command::ToggleLoopback => {
                self.display.show_loopback = !self.display.show_loopback;
                Followup::Persist
            },
            Command::NextTheme => {
                self.next_theme();
                Followup::Persist
            },
            Command::ToggleInactive => {
                self.display.show_inactive = !self.display.show_inactive;
                Followup::Persist
            },
            Command::ToggleVirtual => {
                self.display.show_virtual = !self.display.show_virtual;
                Followup::Persist
            },
            Command::ToggleOverview => {
                self.display.show_overview = !self.display.show_overview;
                Followup::Persist
            },
            Command::ToggleSort => {
                self.toggle_sort();
                Followup::Persist
            },
            Command::ToggleSplit => {
                self.display.show_split = !self.display.show_split;
                Followup::Persist
            },
            Command::RefreshAliases => Followup::Resolve,
            Command::IncInterval => {
                self.inc_interval();
                Followup::PersistAndResetTimer
            },
            Command::DecInterval => {
                self.dec_interval();
                Followup::PersistAndResetTimer
            },
        }
    }

    /// The alias recorded for device `name`, if any: the first entry for it.
    pub fn alias_of(&self, name: &String) -> (r: Option<String>)
        ensures
            r matches Some(a) ==> exists|i: int|
                0 <= i < self.aliases@.len() && (#[trigger] self.aliases@[i]).0@ == name@
                    && self.aliases@[i].1@ == a@ && forall|k: int|
                    0 <= k < i ==> (#[trigger] self.aliases@[k]).0@ != name@,
            r is None ==> forall|i: int|
                0 <= i < self.aliases@.len() ==> (#[trigger] self.aliases@[i]).0@ != name@,
    {
        let mut i: usize = 0;
        while i < self.aliases.len()
            invariant
                i <= self.aliases@.len(),
                forall|k: int| 0 <= k < i ==> (#[trigger] self.aliases@[k]).0@ != name@,
            decreases self.aliases@.len() - i,
        {
            if self.aliases[i].0 == *name {
                return Some(self.aliases[i].1.clone());
            }
            i = i + 1;
        }
        None
    }
}


/// An interface that two consecutive successful ticks both leave out is no
/// longer tracked and is in neither visible set.
pub proof fn lemma_absent_twice_removed(
    a: &App,
    b: &App,
    c: &App,
    first: Seq<InterfaceSample>,
    second: Seq<InterfaceSample>,
    el1: u64,
    el2: u64,
    n: Seq<char>,
)
    requires
        b.ticked(a, first, el1),
        c.ticked(b, second, el2),
        !reported_up(first, n),
        !reported_up(second, n),
    ensures
        !has_state(b.states@, n),
        !has_state(c.states@, n),
        !contains_name(c.visible_physical@, n),
        !contains_name(c.visible_virtual@, n),
{
}

} // verus!
