use vstd::prelude::*;
use vstd::string::*;
use crate::iface::IfaceState;
use crate::iface::contains_name;
use crate::iface::find_state;
use crate::iface::has_state;
use crate::iface::names_distinct;
use crate::iface::states_distinct;
use crate::visibility::state_named;
use crate::model::SortMode;

verus! {

/// Lexicographic order of two names, character by character.
pub open spec fn name_cmp(a: Seq<char>, b: Seq<char>) -> std::cmp::Ordering
    decreases a.len(),
{
    if a.len() == 0 {
        if b.len() == 0 {
            std::cmp::Ordering::Equal
        } else {
            std::cmp::Ordering::Less
        }
    } else if b.len() == 0 {
        std::cmp::Ordering::Greater
    } else if a[0] < b[0] {
        std::cmp::Ordering::Less
    } else if a[0] > b[0] {
        std::cmp::Ordering::Greater
    } else {
        name_cmp(a.skip(1), b.skip(1))
    }
}

proof fn lemma_name_cmp_prefix(a: Seq<char>, b: Seq<char>, i: int)
    requires
        0 <= i <= a.len(),
        i <= b.len(),
        forall|k: int| 0 <= k < i ==> a[k] == b[k],
    ensures
        name_cmp(a, b) == name_cmp(a.skip(i), b.skip(i)),
    decreases i,
{
    if i > 0 {
        lemma_name_cmp_prefix(a.skip(1), b.skip(1), i - 1);
        assert(a.skip(1).skip(i - 1) =~= a.skip(i));
        assert(b.skip(1).skip(i - 1) =~= b.skip(i));
    } else {
        assert(a.skip(0) =~= a);
        assert(b.skip(0) =~= b);
    }
}

proof fn lemma_name_cmp_equal(a: Seq<char>, b: Seq<char>)
    ensures
        name_cmp(a, b) == std::cmp::Ordering::Equal <==> a == b,
    decreases a.len(),
{
    if a.len() > 0 && b.len() > 0 && a[0] == b[0] {
        lemma_name_cmp_equal(a.skip(1), b.skip(1));
        if a.skip(1) == b.skip(1) {
            assert(a =~= seq![a[0]] + a.skip(1));
            assert(b =~= seq![b[0]] + b.skip(1));
        }
    }
    if a == b && a.len() > 0 {
        assert(a.skip(1) == b.skip(1));
    }
    if a.len() == 0 && b.len() == 0 {
        assert(a =~= b);
    }
}

proof fn lemma_name_cmp_flip(a: Seq<char>, b: Seq<char>)
    ensures
        name_cmp(a, b) == std::cmp::Ordering::Less <==> name_cmp(b, a) == std::cmp::Ordering::Greater,
    decreases a.len(),
{
    if a.len() > 0 && b.len() > 0 && a[0] == b[0] {
        lemma_name_cmp_flip(a.skip(1), b.skip(1));
    }
}

proof fn lemma_name_cmp_trans(a: Seq<char>, b: Seq<char>, c: Seq<char>)
    requires
        name_cmp(a, b) != std::cmp::Ordering::Greater,
        name_cmp(b, c) != std::cmp::Ordering::Greater,
    ensures
        name_cmp(a, c) != std::cmp::Ordering::Greater,
        name_cmp(a, b) == std::cmp::Ordering::Less || name_cmp(b, c) == std::cmp::Ordering::Less
            ==> name_cmp(a, c) == std::cmp::Ordering::Less,
    decreases a.len(),
{
    lemma_name_cmp_equal(a, b);
    lemma_name_cmp_equal(b, c);
    if a.len() > 0 && b.len() > 0 && c.len() > 0 && a[0] == b[0] && b[0] == c[0] {
        lemma_name_cmp_trans(a.skip(1), b.skip(1), c.skip(1));
    }
}

/// Whether `a` may stand before `b` in a layout ordered by `mode`.
pub open spec fn tile_le(a: IfaceState, b: IfaceState, mode: SortMode) -> bool {
    tile_cmp(a, b, mode) != std::cmp::Ordering::Greater
}

pub proof fn lemma_tile_total(a: IfaceState, b: IfaceState, mode: SortMode)
    ensures
        tile_cmp(a, b, mode) != std::cmp::Ordering::Less ==> tile_le(b, a, mode),
{
    lemma_name_cmp_flip(a.name@, b.name@);
    lemma_name_cmp_flip(b.name@, a.name@);
    lemma_name_cmp_equal(a.name@, b.name@);
    lemma_name_cmp_equal(b.name@, a.name@);
}

pub proof fn lemma_tile_trans(a: IfaceState, b: IfaceState, c: IfaceState, mode: SortMode)
    requires
        tile_cmp(a, b, mode) == std::cmp::Ordering::Less,
        tile_le(b, c, mode),
    ensures
        tile_cmp(a, c, mode) == std::cmp::Ordering::Less,
{
    match mode {
        SortMode::Name => {
            lemma_name_cmp_trans(a.name@, b.name@, c.name@);
        },
        SortMode::Bandwidth => {
            if a.total_rate.bytes == b.total_rate.bytes && b.total_rate.bytes == c.total_rate.bytes {
                lemma_name_cmp_trans(a.name@, b.name@, c.name@);
            }
        },
    }
}

/// Compares two names character by character.
pub fn compare_names(a: &str, b: &str) -> (r: std::cmp::Ordering)
    ensures
        r == name_cmp(a@, b@),
{
    let na = a.unicode_len();
    let nb = b.unicode_len();
    let mut i: usize = 0;
    while i < na && i < nb
        invariant
            i <= na,
            i <= nb,
            na == a@.len(),
            nb == b@.len(),
            forall|k: int| 0 <= k < i ==> a@[k] == b@[k],
        decreases na - i,
    {
        let ca = a.get_char(i);
        let cb = b.get_char(i);
        if ca < cb {
            proof {
                lemma_name_cmp_prefix(a@, b@, i as int);
            }
            return std::cmp::Ordering::Less;
        }
        if ca > cb {
            proof {
                lemma_name_cmp_prefix(a@, b@, i as int);
            }
            return std::cmp::Ordering::Greater;
        }
        proof {
            assert(ca == cb);
        }
        i = i + 1;
    }
    proof {
        lemma_name_cmp_prefix(a@, b@, i as int);
    }
    if i < nb {
        std::cmp::Ordering::Less
    } else if i < na {
        std::cmp::Ordering::Greater
    } else {
        std::cmp::Ordering::Equal
    }
}

/// Order of two tiles: by name, or by total rate (highest first, over the
/// same interval) with ties broken by name.
pub open spec fn tile_cmp(a: IfaceState, b: IfaceState, mode: SortMode) -> std::cmp::Ordering {
    match mode {
        SortMode::Name => name_cmp(a.name@, b.name@),
        SortMode::Bandwidth => if a.total_rate.bytes > b.total_rate.bytes {
            std::cmp::Ordering::Less
        } else if a.total_rate.bytes < b.total_rate.bytes {
            std::cmp::Ordering::Greater
        } else {
            name_cmp(a.name@, b.name@)
        },
    }
}

/// Compares two tiles for layout order under `mode`.
pub fn tile_order(a: &IfaceState, b: &IfaceState, mode: SortMode) -> (r: std::cmp::Ordering)
    ensures
        r == tile_cmp(*a, *b, mode),
{
    match mode {
        SortMode::Name => compare_names(a.name.as_str(), b.name.as_str()),
        SortMode::Bandwidth => {
            if a.total_rate.bytes > b.total_rate.bytes {
                std::cmp::Ordering::Less
            } else if a.total_rate.bytes < b.total_rate.bytes {
                std::cmp::Ordering::Greater
            } else {
                compare_names(a.name.as_str(), b.name.as_str())
            }
        },
    }
}


/// Whether the tiles named in `v` stand in layout order under `mode`.
pub open spec fn sorted_tiles(v: Seq<String>, states: Seq<IfaceState>, mode: SortMode) -> bool {
    forall|a: int, b: int|
        0 <= a < b < v.len() ==> tile_le(
            state_named(states, (#[trigger] v[a])@),
            state_named(states, (#[trigger] v[b])@),
            mode,
        )
}

/// The state named `name`, which must be tracked.
fn tile_of<'a>(states: &'a Vec<IfaceState>, name: &String) -> (r: &'a IfaceState)
    requires
        states_distinct(states@),
        has_state(states@, name@),
    ensures
        *r == state_named(states@, name@),
        r.name@ == name@,
{
    let i = find_state(states, name).unwrap();
    proof {
        let k = choose|k: int| 0 <= k < states@.len() && (#[trigger] states@[k]).name@ == name@;
        assert(k == i);
    }
    &states[i]
}

/// The names of `names` in layout order under `mode`.
pub fn sort_tiles(names: &Vec<String>, states: &Vec<IfaceState>, mode: SortMode) -> (r: Vec<String>)
    requires
        names_distinct(names@),
        states_distinct(states@),
        forall|n: Seq<char>| contains_name(names@, n) ==> has_state(states@, n),
    ensures
        names_distinct(r@),
        forall|n: Seq<char>| #[trigger] contains_name(r@, n) <==> contains_name(names@, n),
        sorted_tiles(r@, states@, mode),
{
    let mut out: Vec<String> = Vec::new();
    let mut i: usize = 0;
    while i < names.len()
        invariant
            i <= names@.len(),
            names_distinct(names@),
            states_distinct(states@),
            forall|n: Seq<char>| contains_name(names@, n) ==> has_state(states@, n),
            names_distinct(out@),
            sorted_tiles(out@, states@, mode),
            forall|n: Seq<char>|
                contains_name(out@, n) <==> (exists|k: int| 0 <= k < i && (#[trigger] names@[k])@ == n),
        decreases names@.len() - i,
    {
        let name = &names[i];
        assert(contains_name(names@, name@));
        let x = tile_of(states, name);
        let mut p: usize = 0;
        let mut placed = false;
        while p < out.len() && !placed
            invariant
                p <= out@.len(),
                i < names@.len(),
                *name == names@[i as int],
                *x == state_named(states@, name@),
                states_distinct(states@),
                forall|n: Seq<char>| contains_name(names@, n) ==> has_state(states@, n),
                forall|n: Seq<char>|
                    contains_name(out@, n) <==> (exists|k: int| 0 <= k < i && (#[trigger] names@[k])@ == n),
                placed ==> p < out@.len() && tile_cmp(
                    *x,
                    state_named(states@, out@[p as int]@),
                    mode,
                ) == std::cmp::Ordering::Less,
                forall|q: int|
                    0 <= q < p && !(placed && q == p) ==> tile_cmp(
                        *x,
                        state_named(states@, (#[trigger] out@[q])@),
                        mode,
                    ) != std::cmp::Ordering::Less,
            decreases out@.len() - p + if placed {
                0int
            } else {
                1int
            },
        {
            proof {
                assert(contains_name(out@, out@[p as int]@));
                let k = choose|k: int| 0 <= k < i && (#[trigger] names@[k])@ == out@[p as int]@;
                assert(contains_name(names@, names@[k]@));
            }
            let y = tile_of(states, &out[p]);
            match tile_order(x, y, mode) {
                std::cmp::Ordering::Less => {
                    placed = true;
                },
                _ => {
                    p = p + 1;
                },
            }
        }
        let ghost before = out@;
        proof {
            assert forall|a: int| 0 <= a < before.len() implies before[a]@ != name@ by {
                assert(contains_name(before, before[a]@));
                let k = choose|k: int| 0 <= k < i && (#[trigger] names@[k])@ == before[a]@;
                assert(names@[k]@ != names@[i as int]@);
            }
        }
        out.insert(p, name.clone());
        proof {
            assert(out@ == before.insert(p as int, *name));
            assert forall|a: int, b: int|
                0 <= a < out@.len() && 0 <= b < out@.len() && a != b implies (#[trigger] out@[a])@
                    != (#[trigger] out@[b])@ by {
                let oa = if a < p { a } else if a == p { -1 } else { a - 1 };
                let ob = if b < p { b } else if b == p { -1 } else { b - 1 };
                if oa >= 0 && ob >= 0 {
                    assert(out@[a] == before[oa]);
                    assert(out@[b] == before[ob]);
                } else if oa >= 0 {
                    assert(out@[a] == before[oa]);
                } else if ob >= 0 {
                    assert(out@[b] == before[ob]);
                }
            }
            assert forall|a: int, b: int|
                0 <= a < b < out@.len() implies tile_le(
                    state_named(states@, (#[trigger] out@[a])@),
                    state_named(states@, (#[trigger] out@[b])@),
                    mode,
                ) by {
                if a < p && b < p {
                    assert(out@[a] == before[a] && out@[b] == before[b]);
                } else if a < p && b == p {
                    assert(out@[a] == before[a]);
                    lemma_tile_total(*x, state_named(states@, before[a]@), mode);
                } else if a < p {
                    assert(out@[a] == before[a] && out@[b] == before[b - 1]);
                } else if a == p {
                    assert(out@[b] == before[b - 1]);
                    assert(placed);
                    if b - 1 > p {
                        assert(tile_le(
                            state_named(states@, before[p as int]@),
                            state_named(states@, before[b - 1]@),
                            mode,
                        ));
                        lemma_tile_trans(
                            *x,
                            state_named(states@, before[p as int]@),
                            state_named(states@, before[b - 1]@),
                            mode,
                        );
                    } else {
                        lemma_tile_total(state_named(states@, before[p as int]@), *x, mode);
                    }
                } else {
                    assert(out@[a] == before[a - 1] && out@[b] == before[b - 1]);
                }
            }
            assert forall|n: Seq<char>|
                contains_name(out@, n) <==> (exists|k: int| 0 <= k < i + 1 && (#[trigger] names@[k])@ == n) by {
                if contains_name(out@, n) {
                    let a = choose|a: int| 0 <= a < out@.len() && (#[trigger] out@[a])@ == n;
                    if a < p {
                        assert(out@[a] == before[a]);
                        assert(contains_name(before, n));
                    } else if a > p {
                        assert(out@[a] == before[a - 1]);
                        assert(contains_name(before, n));
                    }
                }
                if exists|k: int| 0 <= k < i + 1 && (#[trigger] names@[k])@ == n {
                    let k = choose|k: int| 0 <= k < i + 1 && (#[trigger] names@[k])@ == n;
                    if k < i {
                        assert(contains_name(before, n));
                        let a = choose|a: int| 0 <= a < before.len() && (#[trigger] before[a])@ == n;
                        if a < p {
                            assert(out@[a] == before[a]);
                        } else {
                            assert(out@[a + 1] == before[a]);
                        }
                    } else {
                        assert(out@[p as int]@ == n);
                    }
                }
            }
        }
        i = i + 1;
    }
    proof {
        assert forall|n: Seq<char>| #[trigger] contains_name(out@, n) <==> contains_name(names@, n) by {
            if contains_name(names@, n) {
                let k = choose|k: int| 0 <= k < names@.len() && (#[trigger] names@[k])@ == n;
            }
        }
    }
    out
}

} // verus!
