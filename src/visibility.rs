use vstd::prelude::*;
use crate::app::App;
use crate::constants::MIN_TILE_WIDTH;
use crate::iface::IfaceState;
use crate::iface::contains_name;
use crate::iface::find_state;
use crate::iface::has_state;
use crate::iface::in_group_spec;
use crate::iface::names_distinct;
use crate::iface::states_distinct;
use crate::model::Group;
use crate::net::is_physical_interface;
use crate::net::is_physical_spec;
use crate::order::sort_tiles;
use crate::order::sorted_tiles;

verus! {

/// The state named `n`, when there is one.
pub open spec fn state_named(s: Seq<IfaceState>, n: Seq<char>) -> IfaceState {
    s[choose|i: int| 0 <= i < s.len() && (#[trigger] s[i]).name@ == n]
}

/// Whether an interface last active at `last_active` is still within the
/// recency window of `window` ticks at tick `tick`.
pub open spec fn keeps(tick: u64, last_active: u64, window: u64) -> bool {
    (if tick >= last_active {
        tick - last_active
    } else {
        0
    }) < window
}

/// A test a visible name must pass to stay in a set.
#[derive(Clone, Copy, Debug, PartialEq, Eq, Structural)]
pub enum NameFilter {
    /// Its interface is tracked.
    Known,
    /// Its interface was active within the last `window` ticks before `tick`.
    Recent { tick: u64, window: u64 },
    /// Its interface is displayed under the loopback setting.
    Shown { show_loopback: bool },
}

pub open spec fn passes(s: Seq<IfaceState>, n: Seq<char>, f: NameFilter) -> bool {
    has_state(s, n) && match f {
        NameFilter::Known => true,
        NameFilter::Recent { tick, window } => keeps(
            tick,
            state_named(s, n).last_active_sample,
            window,
        ),
        NameFilter::Shown { show_loopback } => show_loopback || !state_named(s, n).is_loopback,
    }
}

fn name_passes(states: &Vec<IfaceState>, name: &String, f: NameFilter) -> (r: bool)
    requires
        states_distinct(states@),
    ensures
        r == passes(states@, name@, f),
{
    match find_state(states, name) {
        None => false,
        Some(i) => {
            proof {
                let k = choose|k: int| 0 <= k < states@.len() && (#[trigger] states@[k]).name@ == name@;
                assert(k == i);
            }
            let st = &states[i];
            match f {
                NameFilter::Known => true,
                NameFilter::Recent { tick, window } => tick.saturating_sub(st.last_active_sample)
                    < window,
                NameFilter::Shown { show_loopback } => show_loopback || !st.is_loopback,
            }
        },
    }
}

/// The names of `v` that pass `f`.
pub fn filter_names(v: &Vec<String>, states: &Vec<IfaceState>, f: NameFilter) -> (r: Vec<String>)
    requires
        names_distinct(v@),
        states_distinct(states@),
    ensures
        names_distinct(r@),
        forall|n: Seq<char>|
            #[trigger] contains_name(r@, n) <==> (contains_name(v@, n) && passes(states@, n, f)),
{
    let mut kept: Vec<String> = Vec::new();
    let mut i: usize = 0;
    while i < v.len()
        invariant
            i <= v@.len(),
            names_distinct(v@),
            states_distinct(states@),
            names_distinct(kept@),
            forall|a: int|
                0 <= a < kept@.len() ==> exists|k: int|
                    0 <= k < i && (#[trigger] v@[k])@ == (#[trigger] kept@[a])@,
            forall|n: Seq<char>|
                contains_name(kept@, n) <==> (exists|k: int|
                    0 <= k < i && (#[trigger] v@[k])@ == n && passes(states@, n, f)),
        decreases v@.len() - i,
    {
        if name_passes(states, &v[i], f) {
            let ghost before = kept@;
            proof {
                assert forall|a: int| 0 <= a < before.len() implies before[a]@ != v@[i as int]@ by {
                    let k = choose|k: int| 0 <= k < i && (#[trigger] v@[k])@ == before[a]@;
                    assert(v@[k]@ != v@[i as int]@);
                }
            }
            kept.push(v[i].clone());
            proof {
                assert forall|n: Seq<char>|
                    contains_name(kept@, n) <==> (exists|k: int|
                        0 <= k < i + 1 && (#[trigger] v@[k])@ == n && passes(states@, n, f)) by {
                    if contains_name(kept@, n) {
                        let a = choose|a: int| 0 <= a < kept@.len() && (#[trigger] kept@[a])@ == n;
                        if a < before.len() {
                            assert(before[a] == kept@[a]);
                            assert(contains_name(before, n));
                        }
                    }
                    if exists|k: int| 0 <= k < i + 1 && (#[trigger] v@[k])@ == n && passes(states@, n, f) {
                        let k = choose|k: int| 0 <= k < i + 1 && (#[trigger] v@[k])@ == n && passes(states@, n, f);
                        if k < i {
                            assert(contains_name(before, n));
                            let a = choose|a: int| 0 <= a < before.len() && (#[trigger] before[a])@ == n;
                            assert(kept@[a] == before[a]);
                        } else {
                            assert(kept@[before.len() as int]@ == n);
                        }
                    }
                }
                assert forall|a: int|
                    0 <= a < kept@.len() implies exists|k: int|
                        0 <= k < i + 1 && (#[trigger] v@[k])@ == (#[trigger] kept@[a])@ by {
                    if a < before.len() {
                        assert(kept@[a] == before[a]);
                    } else {
                        assert(v@[i as int]@ == kept@[a]@);
                    }
                }
            }
        } else {
            proof {
                assert forall|n: Seq<char>|
                    contains_name(kept@, n) <==> (exists|k: int|
                        0 <= k < i + 1 && (#[trigger] v@[k])@ == n && passes(states@, n, f)) by {
                    if exists|k: int| 0 <= k < i + 1 && (#[trigger] v@[k])@ == n && passes(states@, n, f) {
                        let k = choose|k: int| 0 <= k < i + 1 && (#[trigger] v@[k])@ == n && passes(states@, n, f);
                        assert(k < i);
                    }
                }
            }
        }
        i = i + 1;
    }
    proof {
        assert forall|n: Seq<char>|
            #[trigger] contains_name(kept@, n) <==> (contains_name(v@, n) && passes(states@, n, f)) by {
            if contains_name(v@, n) && passes(states@, n, f) {
                let k = choose|k: int| 0 <= k < v@.len() && (#[trigger] v@[k])@ == n;
            }
        }
    }
    kept
}

/// The recency window, in ticks, for a section `area_width` cells wide whose
/// visible set holds `count` displayable interfaces: the interior width of one
/// tile of the provisional grid, less its two border cells, and at least one.
pub open spec fn eviction_window_spec(area_width: u16, count: nat) -> u64 {
    let inner = if area_width >= 2 {
        area_width - 2
    } else {
        0
    };
    let max_cols = if inner / (MIN_TILE_WIDTH as int) < 1 {
        1
    } else {
        inner / (MIN_TILE_WIDTH as int)
    };
    let shown = if count < 1 {
        1
    } else {
        count as int
    };
    let cols = if shown < max_cols {
        shown
    } else {
        max_cols
    };
    let tile = inner / cols;
    if tile - 2 < 1 {
        1
    } else {
        (tile - 2) as u64
    }
}

pub fn eviction_window(area_width: u16, count: usize) -> (r: u64)
    ensures
        r == eviction_window_spec(area_width, count as nat),
        r >= 1,
{
    let inner: u16 = area_width.saturating_sub(2);
    let fit: u16 = inner / MIN_TILE_WIDTH;
    let max_cols: usize = if fit < 1 {
        1
    } else {
        fit as usize
    };
    let shown: usize = if count < 1 {
        1
    } else {
        count
    };
    let cols: usize = if shown < max_cols {
        shown
    } else {
        max_cols
    };
    let tile: usize = (inner as usize) / cols;
    if tile < 3 {
        1
    } else {
        (tile - 2) as u64
    }
}

/// An interface last active at `last` is shown up to and including tick
/// `last + window - 1`, and evicted at tick `last + window`.
pub proof fn lemma_eviction_threshold(last: u64, window: u64)
    requires
        window >= 1,
        last + window <= u64::MAX,
    ensures
        keeps((last + window - 1) as u64, last, window),
        !keeps((last + window) as u64, last, window),
{
}

/// Number of entries of `v` whose interface is tracked and displayed under the
/// loopback setting.
pub open spec fn count_shown(v: Seq<String>, s: Seq<IfaceState>, show_loopback: bool) -> nat
    decreases v.len(),
{
    if v.len() == 0 {
        0
    } else {
        count_shown(v.drop_last(), s, show_loopback) + if passes(
            s,
            v.last()@,
            NameFilter::Shown { show_loopback },
        ) {
            1nat
        } else {
            0nat
        }
    }
}

/// Whether the interface named `n` is listed when inactive interfaces are shown
/// too: it is tracked, in the group, and not a loopback interface hidden by the
/// loopback setting (in the virtual group).
pub open spec fn candidate(s: Seq<IfaceState>, n: Seq<char>, group: Group, show_loopback: bool) -> bool {
    has_state(s, n) && in_group_spec(n, group) && (group == Group::Physical || show_loopback
        || !state_named(s, n).is_loopback)
}

fn count_shown_names(v: &Vec<String>, states: &Vec<IfaceState>, show_loopback: bool) -> (r: usize)
    requires
        states_distinct(states@),
    ensures
        r == count_shown(v@, states@, show_loopback),
{
    let mut count: usize = 0;
    let mut i: usize = 0;
    while i < v.len()
        invariant
            i <= v@.len(),
            states_distinct(states@),
            count == count_shown(v@.take(i as int), states@, show_loopback),
            count <= i,
        decreases v@.len() - i,
    {
        proof {
            assert(v@.take(i + 1).drop_last() =~= v@.take(i as int));
        }
        if name_passes(states, &v[i], NameFilter::Shown { show_loopback }) {
            count = count + 1;
        }
        i = i + 1;
    }
    assert(v@.take(v@.len() as int) =~= v@);
    count
}

/// Names of every tracked interface of a group, inactive ones included.
pub fn group_candidates(states: &Vec<IfaceState>, group: Group, show_loopback: bool) -> (r: Vec<String>)
    requires
        states_distinct(states@),
    ensures
        names_distinct(r@),
        forall|n: Seq<char>|
            #[trigger] contains_name(r@, n) <==> candidate(states@, n, group, show_loopback),
{
    let mut names: Vec<String> = Vec::new();
    let mut i: usize = 0;
    while i < states.len()
        invariant
            i <= states@.len(),
            states_distinct(states@),
            names_distinct(names@),
            forall|n: Seq<char>|
                contains_name(names@, n) <==> (exists|k: int|
                    0 <= k < i && (#[trigger] states@[k]).name@ == n && candidate(
                        states@,
                        n,
                        group,
                        show_loopback,
                    )),
        decreases states@.len() - i,
    {
        let st = &states[i];
        proof {
            let k = choose|k: int| 0 <= k < states@.len() && (#[trigger] states@[k]).name@ == st.name@;
            assert(k == i);
        }
        let physical = is_physical_interface(st.name.as_str());
        let in_group = match group {
            Group::Physical => physical,
            Group::Virtual => !physical,
        };
        let keep = in_group && (group == Group::Physical || show_loopback || !st.is_loopback);
        let ghost before = names@;
        if keep {
            proof {
                assert forall|a: int| 0 <= a < before.len() implies before[a]@ != st.name@ by {
                    assert(contains_name(before, before[a]@));
                    let k = choose|k: int|
                        0 <= k < i && (#[trigger] states@[k]).name@ == before[a]@ && candidate(
                            states@,
                            before[a]@,
                            group,
                            show_loopback,
                        );
                }
            }
            names.push(st.name.clone());
        }
        proof {
            assert forall|n: Seq<char>|
                contains_name(names@, n) <==> (exists|k: int|
                    0 <= k < i + 1 && (#[trigger] states@[k]).name@ == n && candidate(
                        states@,
                        n,
                        group,
                        show_loopback,
                    )) by {
                if contains_name(names@, n) {
                    let a = choose|a: int| 0 <= a < names@.len() && (#[trigger] names@[a])@ == n;
                    if a < before.len() {
                        assert(names@[a] == before[a]);
                        assert(contains_name(before, n));
                    }
                }
                if exists|k: int|
                    0 <= k < i + 1 && (#[trigger] states@[k]).name@ == n && candidate(
                        states@,
                        n,
                        group,
                        show_loopback,
                    ) {
                    let k = choose|k: int|
                        0 <= k < i + 1 && (#[trigger] states@[k]).name@ == n && candidate(
                            states@,
                            n,
                            group,
                            show_loopback,
                        );
                    if k < i {
                        assert(contains_name(before, n));
                        let a = choose|a: int| 0 <= a < before.len() && (#[trigger] before[a])@ == n;
                        assert(names@[a] == before[a]);
                    } else {
                        assert(names@[names@.len() - 1]@ == n);
                    }
                }
            }
        }
        i = i + 1;
    }
    proof {
        assert forall|n: Seq<char>|
            #[trigger] contains_name(names@, n) <==> candidate(states@, n, group, show_loopback) by {
            if candidate(states@, n, group, show_loopback) {
                let k = choose|k: int| 0 <= k < states@.len() && (#[trigger] states@[k]).name@ == n;
            }
        }
    }
    names
}

impl App {
    /// The visible set of a group.
    pub open spec fn visible_of(&self, group: Group) -> Seq<String> {
        match group {
            Group::Physical => self.visible_physical@,
            Group::Virtual => self.visible_virtual@,
        }
    }

    /// The names `visible_names` gives for this pass, in layout order under
    /// the current sort mode.
    pub fn visible_tiles(&mut self, group: Group, area_width: u16) -> (r: Vec<String>)
        requires
            old(self).wf(),
        ensures
            final(self).wf(),
            final(self).states == old(self).states,
            final(self).sample_index == old(self).sample_index,
            final(self).display == old(self).display,
            names_distinct(r@),
            sorted_tiles(r@, old(self).states@, old(self).sort_mode),
            final(self).sort_mode == old(self).sort_mode,
            group == Group::Physical ==> final(self).visible_virtual == old(self).visible_virtual,
            group == Group::Virtual ==> final(self).visible_physical == old(self).visible_physical,
            old(self).display.show_inactive ==> {
                &&& final(self).visible_physical == old(self).visible_physical
                &&& final(self).visible_virtual == old(self).visible_virtual
                &&& forall|n: Seq<char>|
                    #[trigger] contains_name(r@, n) <==> candidate(
                        old(self).states@,
                        n,
                        group,
                        old(self).display.show_loopback,
                    )
            },
            !old(self).display.show_inactive ==> {
                let window = eviction_window_spec(
                    area_width,
                    count_shown(old(self).visible_of(group), old(self).states@, old(self).display.show_loopback),
                );
                &&& forall|n: Seq<char>|
                    #[trigger] contains_name(final(self).visible_of(group), n) <==> (contains_name(
                        old(self).visible_of(group),
                        n,
                    ) && passes(
                        old(self).states@,
                        n,
                        NameFilter::Recent { tick: old(self).sample_index, window },
                    ))
                &&& forall|n: Seq<char>|
                    #[trigger] contains_name(r@, n) <==> (contains_name(final(self).visible_of(group), n)
                        && passes(
                        old(self).states@,
                        n,
                        NameFilter::Shown { show_loopback: old(self).display.show_loopback },
                    ))
            },
    {
        let names = self.visible_names(group, area_width);
        sort_tiles(&names, &self.states, self.sort_mode)
    }

    /// One render pass of the visibility engine for `group`, drawn in a section
    /// `area_width` cells wide. With inactive interfaces shown, every candidate
    /// of the group is returned and the visible set is left alone. Otherwise
    /// the visible set loses the names no longer tracked, then every interface
    /// whose last activity is a whole recency window old; the window is sized
    /// from the tile width a grid of the set's current displayable size would
    /// give. The names returned are those left that the loopback setting shows.
    /// The window is estimated once per pass from the count before eviction; it
    /// is not iterated to a fixed point, so a sharp change in the set's size can
    /// use a window one pass out of date.
    pub fn visible_names(&mut self, group: Group, area_width: u16) -> (r: Vec<String>)
        requires
            old(self).wf(),
        ensures
            final(self).wf(),
            final(self).states == old(self).states,
            final(self).sample_index == old(self).sample_index,
            final(self).display == old(self).display,
            final(self).sort_mode == old(self).sort_mode,
            names_distinct(r@),
            group == Group::Physical ==> final(self).visible_virtual == old(self).visible_virtual,
            group == Group::Virtual ==> final(self).visible_physical == old(self).visible_physical,
            old(self).display.show_inactive ==> {
                &&& final(self).visible_physical == old(self).visible_physical
                &&& final(self).visible_virtual == old(self).visible_virtual
                &&& forall|n: Seq<char>|
                    #[trigger] contains_name(r@, n) <==> candidate(
                        old(self).states@,
                        n,
                        group,
                        old(self).display.show_loopback,
                    )
            },
            !old(self).display.show_inactive ==> {
                let window = eviction_window_spec(
                    area_width,
                    count_shown(old(self).visible_of(group), old(self).states@, old(self).display.show_loopback),
                );
                &&& forall|n: Seq<char>|
                    #[trigger] contains_name(final(self).visible_of(group), n) <==> (contains_name(
                        old(self).visible_of(group),
                        n,
                    ) && passes(
                        old(self).states@,
                        n,
                        NameFilter::Recent { tick: old(self).sample_index, window },
                    ))
                &&& forall|n: Seq<char>|
                    #[trigger] contains_name(r@, n) <==> (contains_name(final(self).visible_of(group), n)
                        && passes(
                        old(self).states@,
                        n,
                        NameFilter::Shown { show_loopback: old(self).display.show_loopback },
                    ))
            },
    {
        let show_loopback = self.display.show_loopback;
        if self.display.show_inactive {
            return group_candidates(&self.states, group, show_loopback);
        }
        let current = match group {
            Group::Physical => filter_names(&self.visible_physical, &self.states, NameFilter::Known),
            Group::Virtual => filter_names(&self.visible_virtual, &self.states, NameFilter::Known),
        };
        let count = match group {
            Group::Physical => count_shown_names(&self.visible_physical, &self.states, show_loopback),
            Group::Virtual => count_shown_names(&self.visible_virtual, &self.states, show_loopback),
        };
        let window = eviction_window(area_width, count);
        let kept = filter_names(
            &current,
            &self.states,
            NameFilter::Recent { tick: self.sample_index, window },
        );
        let shown = filter_names(&kept, &self.states, NameFilter::Shown { show_loopback });
        match group {
            Group::Physical => {
                self.visible_physical = kept;
            },
            Group::Virtual => {
                self.visible_virtual = kept;
            },
        }
        proof {
            assert forall|n: Seq<char>| contains_name(self.visible_physical@, n) implies is_physical_spec(n) by {
                if group == Group::Physical {
                    assert(contains_name(current@, n));
                    assert(contains_name(old(self).visible_physical@, n));
                }
            }
            assert forall|n: Seq<char>| contains_name(self.visible_virtual@, n) implies !is_physical_spec(n) by {
                if group == Group::Virtual {
                    assert(contains_name(current@, n));
                    assert(contains_name(old(self).visible_virtual@, n));
                }
            }
        }
        shown
    }
}

} // verus!
