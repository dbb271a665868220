use vstd::prelude::*;
use crate::constants::HISTORY_LEN;
use crate::model::Group;
use crate::net::InterfaceSample;
use crate::net::is_physical_interface;
use crate::net::is_physical_spec;
use crate::net::is_up;
use crate::net::is_up_spec;
use crate::rate::Rate;
use crate::rate::counter_delta;
use crate::rate::counter_delta_spec;
use crate::rate::history_value_spec;
use crate::rate::is_active_spec;
use crate::rate::push_history;
use crate::rate::pushed_spec;
use crate::visibility::state_named;

verus! {

/// What the engine keeps for one known interface.
#[derive(Debug)]
pub struct IfaceState {
    pub name: String,
    pub rx_bytes: u64,
    pub tx_bytes: u64,
    pub rx_rate: Rate,
    pub tx_rate: Rate,
    pub total_rate: Rate,
    pub flags: u32,
    pub is_loopback: bool,
    pub rx_history: Vec<u64>,
    pub tx_history: Vec<u64>,
    pub last_active_sample: u64,
    pub initialized: bool,
}

/// The delta a tick records for one direction: none on the first sighting.
pub open spec fn observed_delta(initialized: bool, old_counter: u64, new_counter: u64) -> u64 {
    if initialized {
        counter_delta_spec(old_counter, new_counter)
    } else {
        0
    }
}

impl IfaceState {
    pub open spec fn wf(&self) -> bool {
        &&& self.rx_rate.wf()
        &&& self.tx_rate.micros == self.rx_rate.micros
        &&& self.total_rate.micros == self.rx_rate.micros
        &&& self.rx_rate.bytes <= u64::MAX
        &&& self.tx_rate.bytes <= u64::MAX
        &&& self.total_rate.bytes == self.rx_rate.bytes + self.tx_rate.bytes
        &&& self.rx_history@.len() <= HISTORY_LEN
        &&& self.tx_history@.len() <= HISTORY_LEN
    }

    /// A state for an interface seen for the first time: counters taken from
    /// the sample, no rate yet, empty histories.
    pub fn new(sample: &InterfaceSample) -> (r: IfaceState)
        ensures
            r.wf(),
            r.name@ == sample.name@,
            r.rx_bytes == sample.rx_bytes,
            r.tx_bytes == sample.tx_bytes,
            r.rx_rate.bytes == 0,
            r.tx_rate.bytes == 0,
            r.flags == sample.flags,
            r.is_loopback == sample.is_loopback,
            r.rx_history@.len() == 0,
            r.tx_history@.len() == 0,
            r.last_active_sample == 0,
            !r.initialized,
    {
        IfaceState {
            name: sample.name.clone(),
            rx_bytes: sample.rx_bytes,
            tx_bytes: sample.tx_bytes,
            rx_rate: Rate::zero(),
            tx_rate: Rate::zero(),
            total_rate: Rate::zero(),
            flags: sample.flags,
            is_loopback: sample.is_loopback,
            rx_history: Vec::new(),
            tx_history: Vec::new(),
            last_active_sample: 0,
            initialized: false,
        }
    }

    /// Takes one sample of this interface, `micros` after the previous tick:
    /// updates counters and rates, marks the interface active at `tick` when
    /// its total rate reaches one byte per second, and prepends the rounded
    /// rates to the histories. Returns whether it was active.
    pub fn observe(&mut self, sample: &InterfaceSample, micros: u64, tick: u64) -> (active: bool)
        requires
            old(self).wf(),
            micros >= 1,
        ensures
            final(self).wf(),
            final(self).name == old(self).name,
            final(self).rx_rate == (Rate {
                bytes: observed_delta(old(self).initialized, old(self).rx_bytes, sample.rx_bytes)
                    as u128,
                micros,
            }),
            final(self).tx_rate == (Rate {
                bytes: observed_delta(old(self).initialized, old(self).tx_bytes, sample.tx_bytes)
                    as u128,
                micros,
            }),
            final(self).rx_bytes == sample.rx_bytes,
            final(self).tx_bytes == sample.tx_bytes,
            final(self).flags == sample.flags,
            final(self).is_loopback == sample.is_loopback,
            final(self).initialized,
            active == is_active_spec(final(self).total_rate.bytes as int, micros as int),
            final(self).last_active_sample == if active {
                tick
            } else {
                old(self).last_active_sample
            },
            final(self).rx_history@ == pushed_spec(
                old(self).rx_history@,
                history_value_spec(final(self).rx_rate.bytes as int, micros as int),
            ),
            final(self).tx_history@ == pushed_spec(
                old(self).tx_history@,
                history_value_spec(final(self).tx_rate.bytes as int, micros as int),
            ),
    {
        let (rx_delta, tx_delta) = if self.initialized {
            (counter_delta(self.rx_bytes, sample.rx_bytes), counter_delta(self.tx_bytes, sample.tx_bytes))
        } else {
            (0u64, 0u64)
        };
        self.rx_rate = Rate::new(rx_delta as u128, micros);
        self.tx_rate = Rate::new(tx_delta as u128, micros);
        self.total_rate = self.rx_rate.plus(&self.tx_rate);
        self.rx_bytes = sample.rx_bytes;
        self.tx_bytes = sample.tx_bytes;
        self.flags = sample.flags;
        self.is_loopback = sample.is_loopback;
        self.initialized = true;
        let active = self.total_rate.is_active();
        if active {
            self.last_active_sample = tick;
        }
        let rx_value = self.rx_rate.rounded_per_second();
        let tx_value = self.tx_rate.rounded_per_second();
        push_history(&mut self.rx_history, rx_value);
        push_history(&mut self.tx_history, tx_value);
        active
    }
}

/// Whether some entry of `v` has the name `n`.
pub open spec fn contains_name(v: Seq<String>, n: Seq<char>) -> bool {
    exists|i: int| 0 <= i < v.len() && (#[trigger] v[i])@ == n
}

/// Whether the entries of `v` have pairwise distinct names.
pub open spec fn names_distinct(v: Seq<String>) -> bool {
    forall|i: int, j: int| 0 <= i < v.len() && 0 <= j < v.len() && i != j ==> (#[trigger] v[i])@ != (#[trigger] v[j])@
}

/// Whether some state in `s` has the name `n`.
pub open spec fn has_state(s: Seq<IfaceState>, n: Seq<char>) -> bool {
    exists|i: int| 0 <= i < s.len() && (#[trigger] s[i]).name@ == n
}

/// Whether the states of `s` have pairwise distinct names.
pub open spec fn states_distinct(s: Seq<IfaceState>) -> bool {
    forall|i: int, j: int| 0 <= i < s.len() && 0 <= j < s.len() && i != j ==> (#[trigger] s[i]).name@ != (#[trigger] s[j]).name@
}

/// Whether some sample of `samples` reports the name `n` with its up flag set.
pub open spec fn reported_up(samples: Seq<InterfaceSample>, n: Seq<char>) -> bool {
    exists|j: int| 0 <= j < samples.len() && (#[trigger] samples[j]).name@ == n && is_up_spec(samples[j].flags)
}

/// Whether a name belongs to a group.
pub open spec fn in_group_spec(n: Seq<char>, group: Group) -> bool {
    match group {
        Group::Physical => is_physical_spec(n),
        Group::Virtual => !is_physical_spec(n),
    }
}

/// Index of the state named `name`, if any.
pub fn find_state(states: &Vec<IfaceState>, name: &String) -> (r: Option<usize>)
    ensures
        r matches Some(i) ==> i < states@.len() && states@[i as int].name@ == name@,
        r is None ==> !has_state(states@, name@),
{
    let mut i: usize = 0;
    while i < states.len()
        invariant
            i <= states@.len(),
            forall|k: int| 0 <= k < i ==> (#[trigger] states@[k]).name@ != name@,
        decreases states@.len() - i,
    {
        if states[i].name == *name {
            return Some(i);
        }
        i = i + 1;
    }
    None
}

/// Whether `v` holds an entry equal to `name`.
pub fn contains_string(v: &Vec<String>, name: &String) -> (r: bool)
    ensures
        r == contains_name(v@, name@),
{
    let mut i: usize = 0;
    while i < v.len()
        invariant
            i <= v@.len(),
            forall|k: int| 0 <= k < i ==> (#[trigger] v@[k])@ != name@,
        decreases v@.len() - i,
    {
        if v[i] == *name {
            return true;
        }
        i = i + 1;
    }
    false
}

/// Adds `name` to a set of names kept as a vector without repeats.
pub fn insert_name(v: &mut Vec<String>, name: &String)
    requires
        names_distinct(old(v)@),
    ensures
        names_distinct(final(v)@),
        forall|n: Seq<char>|
            #[trigger] contains_name(final(v)@, n) <==> (contains_name(old(v)@, n) || n == name@),
{
    if !contains_string(v, name) {
        v.push(name.clone());
        assert forall|n: Seq<char>|
            contains_name(final(v)@, n) <==> (contains_name(old(v)@, n) || n == name@) by {
            if contains_name(old(v)@, n) {
                let i = choose|i: int| 0 <= i < old(v)@.len() && (#[trigger] old(v)@[i])@ == n;
                assert(final(v)@[i] == old(v)@[i]);
            }
            if n == name@ {
                assert(final(v)@[old(v)@.len() as int]@ == n);
            }
            if contains_name(final(v)@, n) {
                let i = choose|i: int| 0 <= i < final(v)@.len() && (#[trigger] final(v)@[i])@ == n;
                if i < old(v)@.len() {
                    assert(old(v)@[i] == final(v)@[i]);
                }
            }
        }
    }
}


/// Whether some sample of `samples` reports `name` with its up flag set.
pub fn is_reported_up(samples: &Vec<InterfaceSample>, name: &String) -> (r: bool)
    ensures
        r == reported_up(samples@, name@),
{
    let mut j: usize = 0;
    while j < samples.len()
        invariant
            j <= samples@.len(),
            forall|k: int|
                0 <= k < j ==> !((#[trigger] samples@[k]).name@ == name@ && is_up_spec(
                    samples@[k].flags,
                )),
        decreases samples@.len() - j,
    {
        if samples[j].name == *name && is_up(samples[j].flags) {
            return true;
        }
        j = j + 1;
    }
    false
}

pub open spec fn all_wf(s: Seq<IfaceState>) -> bool {
    forall|i: int| 0 <= i < s.len() ==> (#[trigger] s[i]).wf()
}

/// Whether `x` is one of the entries of `s` from index `lo` on.
pub open spec fn occurs_from(x: IfaceState, s: Seq<IfaceState>, lo: int) -> bool {
    exists|k: int| lo <= k < s.len() && s[k] == x
}

/// Drops the state of every interface that `samples` does not report up. The
/// states that stay are kept unchanged, in no particular order.
pub fn retain_reported(states: &mut Vec<IfaceState>, samples: &Vec<InterfaceSample>)
    requires
        all_wf(old(states)@),
        states_distinct(old(states)@),
    ensures
        all_wf(final(states)@),
        states_distinct(final(states)@),
        forall|n: Seq<char>|
            has_state(final(states)@, n) <==> (has_state(old(states)@, n) && reported_up(
                samples@,
                n,
            )),
        forall|i: int|
            0 <= i < final(states)@.len() ==> occurs_from(#[trigger] final(states)@[i], old(states)@, 0),
{
    let mut rest: Vec<IfaceState> = Vec::new();
    std::mem::swap(states, &mut rest);
    let ghost orig = rest@;
    while rest.len() > 0
        invariant
            all_wf(orig),
            states_distinct(orig),
            rest@.len() <= orig.len(),
            rest@ == orig.subrange(0, rest@.len() as int),
            states_distinct(states@),
            forall|a: int|
                0 <= a < states@.len() ==> occurs_from(#[trigger] states@[a], orig, rest@.len() as int),
            forall|n: Seq<char>|
                has_state(states@, n) <==> (exists|k: int|
                    rest@.len() <= k < orig.len() && (#[trigger] orig[k]).name@ == n
                        && reported_up(samples@, n)),
        decreases rest@.len(),
    {
        let ghost r1 = rest@.len() as int;
        let st = rest.pop().unwrap();
        let ghost r = rest@.len() as int;
        assert(r1 == r + 1);
        proof {
            assert(st == orig[r]);
            assert(rest@ =~= orig.subrange(0, r));
        }
        let ghost before = states@;
        if is_reported_up(samples, &st.name) {
            proof {
                assert forall|a: int| 0 <= a < before.len() implies before[a].name@ != st.name@ by {
                    assert(occurs_from(before[a], orig, r1));
                    let k = choose|k: int| r1 <= k < orig.len() && orig[k] == before[a];
                    assert(orig[k].name@ != orig[r].name@);
                }
            }
            states.push(st);
            proof {
                assert forall|a: int|
                    0 <= a < states@.len() implies occurs_from(#[trigger] states@[a], orig, r) by {
                    if a < before.len() {
                        assert(states@[a] == before[a]);
                        assert(occurs_from(before[a], orig, r1));
                        let k = choose|k: int| r1 <= k < orig.len() && orig[k] == before[a];
                        assert(orig[k] == states@[a]);
                    } else {
                        assert(states@[a] == orig[r]);
                        assert(orig[r] == states@[a]);
                    }
                }
                assert forall|n: Seq<char>|
                    has_state(states@, n) <==> (exists|k: int|
                        r <= k < orig.len() && (#[trigger] orig[k]).name@ == n && reported_up(
                            samples@,
                            n,
                        )) by {
                    if has_state(states@, n) {
                        let a = choose|a: int| 0 <= a < states@.len() && (#[trigger] states@[a]).name@ == n;
                        if a < before.len() {
                            assert(states@[a] == before[a]);
                            assert(has_state(before, n));
                        } else {
                            assert(orig[r].name@ == n);
                        }
                    }
                    if exists|k: int|
                        r <= k < orig.len() && (#[trigger] orig[k]).name@ == n && reported_up(
                            samples@,
                            n,
                        ) {
                        let k = choose|k: int|
                            r <= k < orig.len() && (#[trigger] orig[k]).name@ == n && reported_up(
                                samples@,
                                n,
                            );
                        if k == r {
                            assert(states@[before.len() as int].name@ == n);
                        } else {
                            assert(has_state(before, n));
                            let a = choose|a: int| 0 <= a < before.len() && (#[trigger] before[a]).name@ == n;
                            assert(states@[a] == before[a]);
                        }
                    }
                }
            }
        } else {
            proof {
                assert forall|n: Seq<char>|
                    has_state(states@, n) <==> (exists|k: int|
                        r <= k < orig.len() && (#[trigger] orig[k]).name@ == n && reported_up(
                            samples@,
                            n,
                        )) by {
                    if exists|k: int|
                        r <= k < orig.len() && (#[trigger] orig[k]).name@ == n && reported_up(
                            samples@,
                            n,
                        ) {
                        let k = choose|k: int|
                            r <= k < orig.len() && (#[trigger] orig[k]).name@ == n && reported_up(
                                samples@,
                                n,
                            );
                        if k == r {
                            assert(false);
                        } else {
                            assert(has_state(before, n));
                        }
                    }
                }
                assert forall|a: int|
                    0 <= a < states@.len() implies occurs_from(#[trigger] states@[a], orig, r) by {
                    assert(occurs_from(before[a], orig, r1));
                    let k = choose|k: int| r1 <= k < orig.len() && orig[k] == before[a];
                    assert(orig[k] == states@[a]);
                }
            }
        }
    }
    proof {
        assert forall|n: Seq<char>|
            has_state(states@, n) <==> (has_state(orig, n) && reported_up(samples@, n)) by {
            if has_state(orig, n) && reported_up(samples@, n) {
                let k = choose|k: int| 0 <= k < orig.len() && (#[trigger] orig[k]).name@ == n;
            }
        }
        assert forall|i: int| 0 <= i < states@.len() implies (#[trigger] states@[i]).wf() by {
            assert(occurs_from(states@[i], orig, 0));
            let k = choose|k: int| 0 <= k < orig.len() && orig[k] == states@[i];
            assert(orig[k].wf());
        }
    }
}


proof fn lemma_reported_take(samples: Seq<InterfaceSample>, j: int, n: Seq<char>)
    requires
        0 <= j < samples.len(),
    ensures
        reported_up(samples.take(j + 1), n) <==> (reported_up(samples.take(j), n) || (
        samples[j].name@ == n && is_up_spec(samples[j].flags))),
{
    if reported_up(samples.take(j + 1), n) {
        let k = choose|k: int|
            0 <= k < j + 1 && (#[trigger] samples.take(j + 1)[k]).name@ == n && is_up_spec(
                samples.take(j + 1)[k].flags,
            );
        if k < j {
            assert(samples.take(j)[k] == samples[k]);
        }
    }
    if reported_up(samples.take(j), n) {
        let k = choose|k: int|
            0 <= k < j && (#[trigger] samples.take(j)[k]).name@ == n && is_up_spec(
                samples.take(j)[k].flags,
            );
        assert(samples.take(j + 1)[k] == samples[k]);
    }
    if samples[j].name@ == n && is_up_spec(samples[j].flags) {
        assert(samples.take(j + 1)[j] == samples[j]);
    }
}

/// Whether the samples reported up have pairwise distinct names.
pub open spec fn up_names_distinct(samples: Seq<InterfaceSample>) -> bool {
    forall|a: int, b: int|
        0 <= a < samples.len() && 0 <= b < samples.len() && a != b && is_up_spec(
            samples[a].flags,
        ) && is_up_spec(samples[b].flags) ==> (#[trigger] samples[a]).name@ != (
        #[trigger] samples[b]).name@
}

/// Whether `st` is the state that `before` (the states at the start of the
/// tick) turns into when it takes sample `smp` over `micros` microseconds: its
/// counters are the sample's, its rates the deltas from the previous counters
/// (none for an interface new or never initialized), and each history has the
/// new rounded rate prepended.
pub open spec fn took_sample(
    st: IfaceState,
    before: Seq<IfaceState>,
    smp: InterfaceSample,
    micros: u64,
) -> bool {
    let n = st.name@;
    let known = has_state(before, n);
    let prev = state_named(before, n);
    let init = known && prev.initialized;
    &&& smp.name@ == n
    &&& is_up_spec(smp.flags)
    &&& st.rx_bytes == smp.rx_bytes
    &&& st.tx_bytes == smp.tx_bytes
    &&& st.rx_rate.bytes == observed_delta(init, prev.rx_bytes, smp.rx_bytes)
    &&& st.tx_rate.bytes == observed_delta(init, prev.tx_bytes, smp.tx_bytes)
    &&& st.rx_history@ == pushed_spec(
        if known {
            prev.rx_history@
        } else {
            Seq::empty()
        },
        history_value_spec(st.rx_rate.bytes as int, micros as int),
    )
    &&& st.tx_history@ == pushed_spec(
        if known {
            prev.tx_history@
        } else {
            Seq::empty()
        },
        history_value_spec(st.tx_rate.bytes as int, micros as int),
    )
}

/// Whether some sample of `samples` is the one `st` took this tick.
pub open spec fn took_some_sample(
    st: IfaceState,
    before: Seq<IfaceState>,
    samples: Seq<InterfaceSample>,
    micros: u64,
) -> bool {
    exists|k: int| 0 <= k < samples.len() && took_sample(st, before, #[trigger] samples[k], micros)
}

/// The set a name belongs in: the physical set for a physical name, else the
/// virtual one.
pub open spec fn visible_in_own_group(
    vis_physical: Seq<String>,
    vis_virtual: Seq<String>,
    n: Seq<char>,
) -> bool {
    if is_physical_spec(n) {
        contains_name(vis_physical, n)
    } else {
        contains_name(vis_virtual, n)
    }
}

/// Applies one tick's samples to the states: every sample reported up updates
/// (or first creates) the state of its name, and an interface found active is
/// added to the visible set of its group.
pub fn observe_all(
    states: &mut Vec<IfaceState>,
    vis_physical: &mut Vec<String>,
    vis_virtual: &mut Vec<String>,
    samples: &Vec<InterfaceSample>,
    micros: u64,
    tick: u64,
)
    requires
        micros >= 1,
        all_wf(old(states)@),
        states_distinct(old(states)@),
        names_distinct(old(vis_physical)@),
        names_distinct(old(vis_virtual)@),
        forall|n: Seq<char>| contains_name(old(vis_physical)@, n) ==> is_physical_spec(n),
        forall|n: Seq<char>| contains_name(old(vis_virtual)@, n) ==> !is_physical_spec(n),
    ensures
        all_wf(final(states)@),
        states_distinct(final(states)@),
        names_distinct(final(vis_physical)@),
        names_distinct(final(vis_virtual)@),
        forall|n: Seq<char>| contains_name(final(vis_physical)@, n) ==> is_physical_spec(n),
        forall|n: Seq<char>| contains_name(final(vis_virtual)@, n) ==> !is_physical_spec(n),
        forall|n: Seq<char>|
            has_state(final(states)@, n) <==> (has_state(old(states)@, n) || reported_up(
                samples@,
                n,
            )),
        forall|n: Seq<char>|
            contains_name(old(vis_physical)@, n) ==> contains_name(final(vis_physical)@, n),
        forall|n: Seq<char>|
            contains_name(old(vis_virtual)@, n) ==> contains_name(final(vis_virtual)@, n),
        forall|i: int|
            0 <= i < final(states)@.len() && reported_up(samples@, (#[trigger] final(states)@[i]).name@)
                ==> final(states)@[i].rx_rate.micros == micros && (is_active_spec(
                final(states)@[i].total_rate.bytes as int,
                micros as int,
            ) ==> visible_in_own_group(
                final(vis_physical)@,
                final(vis_virtual)@,
                final(states)@[i].name@,
            )),
        up_names_distinct(samples@) ==> forall|i: int|
            0 <= i < final(states)@.len() && reported_up(samples@, (#[trigger] final(states)@[i]).name@)
                ==> took_some_sample(final(states)@[i], old(states)@, samples@, micros),
{
    let mut j: usize = 0;
    while j < samples.len()
        invariant
            j <= samples@.len(),
            micros >= 1,
            all_wf(states@),
            states_distinct(states@),
            names_distinct(vis_physical@),
            names_distinct(vis_virtual@),
            forall|n: Seq<char>| contains_name(vis_physical@, n) ==> is_physical_spec(n),
            forall|n: Seq<char>| contains_name(vis_virtual@, n) ==> !is_physical_spec(n),
            forall|n: Seq<char>|
                has_state(states@, n) <==> (has_state(old(states)@, n) || reported_up(
                    samples@.take(j as int),
                    n,
                )),
            forall|n: Seq<char>|
                contains_name(old(vis_physical)@, n) ==> contains_name(vis_physical@, n),
            forall|n: Seq<char>|
                contains_name(old(vis_virtual)@, n) ==> contains_name(vis_virtual@, n),
            forall|i: int|
                0 <= i < states@.len() && reported_up(samples@.take(j as int), (#[trigger] states@[i]).name@)
                    ==> states@[i].rx_rate.micros == micros && (is_active_spec(
                    states@[i].total_rate.bytes as int,
                    micros as int,
                ) ==> visible_in_own_group(vis_physical@, vis_virtual@, states@[i].name@)),
            states@.len() >= old(states)@.len(),
            states_distinct(old(states)@),
            up_names_distinct(samples@) ==> forall|i: int|
                0 <= i < states@.len() ==> (reported_up(samples@.take(j as int), (#[trigger] states@[i]).name@)
                    ==> took_some_sample(states@[i], old(states)@, samples@, micros)) && (!reported_up(
                    samples@.take(j as int),
                    states@[i].name@,
                ) ==> i < old(states)@.len() && states@[i] == old(states)@[i]),
        decreases samples@.len() - j,
    {
        proof {
            assert forall|n: Seq<char>|
                reported_up(samples@.take(j + 1), n) <==> (reported_up(samples@.take(j as int), n) || (
                samples@[j as int].name@ == n && is_up_spec(samples@[j as int].flags))) by {
                lemma_reported_take(samples@, j as int, n);
            }
        }
        let sample = &samples[j];
        if is_up(sample.flags) {
            let ghost s0 = states@;
            let idx = match find_state(states, &sample.name) {
                Some(i) => i,
                None => {
                    let st = IfaceState::new(sample);
                    states.push(st);
                    proof {
                        assert forall|a: int, b: int|
                            0 <= a < states@.len() && 0 <= b < states@.len() && a != b
                            implies (#[trigger] states@[a]).name@ != (#[trigger] states@[b]).name@ by {
                            if a < s0.len() && b < s0.len() {
                                assert(states@[a] == s0[a] && states@[b] == s0[b]);
                            } else if a < s0.len() {
                                assert(states@[a] == s0[a]);
                                assert(has_state(s0, s0[a].name@));
                            } else {
                                assert(states@[b] == s0[b]);
                                assert(has_state(s0, s0[b].name@));
                            }
                        }
                        assert(forall|a: int| 0 <= a < s0.len() ==> states@[a] == s0[a]);
                    }
                    states.len() - 1
                },
            };
            let ghost s1 = states@;
            let active = states[idx].observe(sample, micros, tick);
            if active {
                if is_physical_interface(sample.name.as_str()) {
                    insert_name(vis_physical, &sample.name);
                } else {
                    insert_name(vis_virtual, &sample.name);
                }
            }
            proof {
                assert forall|i: int| 0 <= i < states@.len() implies (#[trigger] states@[i]).wf() by {
                    if i != idx {
                        assert(states@[i] == s1[i]);
                    }
                }
                assert forall|a: int, b: int|
                    0 <= a < states@.len() && 0 <= b < states@.len() && a != b
                    implies (#[trigger] states@[a]).name@ != (#[trigger] states@[b]).name@ by {
                    assert(s1[a].name == states@[a].name);
                    assert(s1[b].name == states@[b].name);
                }
                assert forall|n: Seq<char>|
                    has_state(states@, n) <==> (has_state(old(states)@, n) || reported_up(
                        samples@.take(j + 1),
                        n,
                    )) by {
                    if has_state(states@, n) {
                        let a = choose|a: int| 0 <= a < states@.len() && (#[trigger] states@[a]).name@ == n;
                        assert(s1[a].name == states@[a].name);
                        if a < s0.len() {
                            assert(s1[a] == s0[a]);
                            assert(has_state(s0, n));
                        }
                    }
                    if has_state(s1, n) {
                        let a = choose|a: int| 0 <= a < s1.len() && (#[trigger] s1[a]).name@ == n;
                        assert(s1[a].name == states@[a].name);
                    }
                    if has_state(s0, n) {
                        let a = choose|a: int| 0 <= a < s0.len() && (#[trigger] s0[a]).name@ == n;
                        assert(s1[a] == s0[a]);
                    }
                }
                assert forall|i: int|
                    0 <= i < states@.len() && reported_up(samples@.take(j + 1), (#[trigger] states@[i]).name@)
                        implies states@[i].rx_rate.micros == micros && (is_active_spec(
                        states@[i].total_rate.bytes as int,
                        micros as int,
                    ) ==> visible_in_own_group(vis_physical@, vis_virtual@, states@[i].name@)) by {
                    if i != idx {
                        assert(states@[i] == s1[i]);
                        assert(states@[i].name@ != sample.name@);
                        if i < s0.len() {
                            assert(s1[i] == s0[i]);
                        }
                    }
                }
                if up_names_distinct(samples@) {
                    assert(!reported_up(samples@.take(j as int), sample.name@)) by {
                        if reported_up(samples@.take(j as int), sample.name@) {
                            let k = choose|k: int|
                                0 <= k < j && (#[trigger] samples@.take(j as int)[k]).name@ == sample.name@
                                    && is_up_spec(samples@.take(j as int)[k].flags);
                            assert(samples@.take(j as int)[k] == samples@[k]);
                            assert(samples@[k].name@ != samples@[j as int].name@);
                        }
                    }
                    assert(took_sample(states@[idx as int], old(states)@, samples@[j as int], micros)) by {
                        let n = sample.name@;
                        if idx < s0.len() {
                            assert(s0[idx as int].name@ == n);
                            assert(s1[idx as int] == s0[idx as int]);
                            assert(s0[idx as int] == old(states)@[idx as int]);
                            assert(has_state(old(states)@, n));
                            let c = choose|c: int| 0 <= c < old(states)@.len() && (#[trigger] old(states)@[c]).name@ == n;
                            assert(c == idx);
                        } else {
                            assert(!has_state(s0, n));
                            assert(!has_state(old(states)@, n));
                            assert(!s1[idx as int].initialized);
                            assert(s1[idx as int].rx_history@ =~= Seq::<u64>::empty());
                            assert(s1[idx as int].tx_history@ =~= Seq::<u64>::empty());
                        }
                    }
                    assert forall|i: int| 0 <= i < states@.len() implies (reported_up(
                        samples@.take(j + 1),
                        (#[trigger] states@[i]).name@,
                    ) ==> took_some_sample(states@[i], old(states)@, samples@, micros)) && (!reported_up(
                        samples@.take(j + 1),
                        states@[i].name@,
                    ) ==> i < old(states)@.len() && states@[i] == old(states)@[i]) by {
                        if i == idx {
                            assert(took_sample(states@[i], old(states)@, samples@[j as int], micros));
                        } else {
                            assert(states@[i] == s1[i]);
                            assert(states@[i].name@ != sample.name@);
                            if i < s0.len() {
                                assert(s1[i] == s0[i]);
                            }
                        }
                    }
                }
            }
        } else {
            proof {
                assert forall|n: Seq<char>|
                    reported_up(samples@.take(j + 1), n) <==> reported_up(samples@.take(j as int), n) by {
                }
                assert(forall|i: int| 0 <= i < states@.len() ==> #[trigger] states@[i] == states@[i]);
            }
        }
        j = j + 1;
    }
    assert(samples@.take(samples@.len() as int) =~= samples@);
}


/// Whether an interface counts toward the aggregate.
pub open spec fn counted(s: IfaceState, show_loopback: bool) -> bool {
    show_loopback || !s.is_loopback
}

/// Sum of the receive deltas of the counted states.
pub open spec fn rx_total(s: Seq<IfaceState>, show_loopback: bool) -> int
    decreases s.len(),
{
    if s.len() == 0 {
        0
    } else {
        rx_total(s.drop_last(), show_loopback) + if counted(s.last(), show_loopback) {
            s.last().rx_rate.bytes as int
        } else {
            0
        }
    }
}

/// Sum of the transmit deltas of the counted states.
pub open spec fn tx_total(s: Seq<IfaceState>, show_loopback: bool) -> int
    decreases s.len(),
{
    if s.len() == 0 {
        0
    } else {
        tx_total(s.drop_last(), show_loopback) + if counted(s.last(), show_loopback) {
            s.last().tx_rate.bytes as int
        } else {
            0
        }
    }
}

/// The aggregate receive and transmit deltas over all tracked interfaces,
/// leaving loopback interfaces out unless `show_loopback` is set.
pub fn aggregate(states: &Vec<IfaceState>, show_loopback: bool) -> (r: (u128, u128))
    requires
        all_wf(states@),
    ensures
        r.0 == rx_total(states@, show_loopback),
        r.1 == tx_total(states@, show_loopback),
{
    let mut rx: u128 = 0;
    let mut tx: u128 = 0;
    let mut i: usize = 0;
    while i < states.len()
        invariant
            i <= states@.len(),
            all_wf(states@),
            rx == rx_total(states@.take(i as int), show_loopback),
            tx == tx_total(states@.take(i as int), show_loopback),
            rx <= i * (u64::MAX as int),
            tx <= i * (u64::MAX as int),
        decreases states@.len() - i,
    {
        proof {
            assert(states@.take(i + 1).drop_last() =~= states@.take(i as int));
            assert(states@[i as int].wf());
            assert((i + 1) * (u64::MAX as int) == i * (u64::MAX as int) + u64::MAX) by (nonlinear_arith);
            assert((i + 1) * (u64::MAX as int) <= u128::MAX) by (nonlinear_arith)
                requires
                    i < states@.len(),
                    states@.len() <= usize::MAX,
                    usize::MAX <= u64::MAX,
            ;
        }
        let st = &states[i];
        if show_loopback || !st.is_loopback {
            rx = rx + st.rx_rate.bytes;
            tx = tx + st.tx_rate.bytes;
        }
        i = i + 1;
    }
    assert(states@.take(states@.len() as int) =~= states@);
    (rx, tx)
}

} // verus!
