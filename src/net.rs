use vstd::prelude::*;
use vstd::string::*;

verus! {

/// One raw reading of an interface's counters, as the sampler reports it.
#[derive(Clone, Debug)]
pub struct InterfaceSample {
    pub name: String,
    pub rx_bytes: u64,
    pub tx_bytes: u64,
    pub flags: u32,
    pub is_loopback: bool,
}

/// Relies on libc::IFF_UP: the "interface is up" bit, 0x1 on every platform libc lists.
#[verifier::external_body]
fn iff_up() -> (r: u32)
    ensures
        r == 1,
{
    libc::IFF_UP as u32
}

pub open spec fn is_up_spec(flags: u32) -> bool {
    flags & 1 != 0
}

/// Whether the "up" bit is set in an interface's flag word.
pub fn is_up(flags: u32) -> (r: bool)
    ensures
        r == is_up_spec(flags),
{
    let up = iff_up();
    (flags & up) != 0
}

pub open spec fn is_ascii_digit_spec(c: char) -> bool {
    '0' <= c && c <= '9'
}

/// A physical interface is named `en` followed by one or more decimal digits.
pub open spec fn is_physical_spec(name: Seq<char>) -> bool {
    &&& name.len() > 2
    &&& name[0] == 'e'
    &&& name[1] == 'n'
    &&& forall|i: int| 2 <= i < name.len() ==> is_ascii_digit_spec(#[trigger] name[i])
}

pub fn is_physical_interface(name: &str) -> (r: bool)
    ensures
        r == is_physical_spec(name@),
{
    let n = name.unicode_len();
    if n <= 2 {
        return false;
    }
    if name.get_char(0) != 'e' || name.get_char(1) != 'n' {
        return false;
    }
    let mut i: usize = 2;
    while i < n
        invariant
            2 <= i <= n,
            n == name@.len(),
            forall|k: int| 2 <= k < i ==> is_ascii_digit_spec(#[trigger] name@[k]),
        decreases n - i,
    {
        let c = name.get_char(i);
        if !('0' <= c && c <= '9') {
            return false;
        }
        i = i + 1;
    }
    true
}


/// Whether `c` is white space in Unicode's sense (the White_Space property).
pub open spec fn is_white_spec(c: char) -> bool {
    let u = c as u32;
    (0x9 <= u && u <= 0xd) || u == 0x20 || u == 0x85 || u == 0xa0 || u == 0x1680 || (0x2000 <= u
        && u <= 0x200a) || u == 0x2028 || u == 0x2029 || u == 0x202f || u == 0x205f || u == 0x3000
}

/// Number of white-space characters at the start of `s`.
pub open spec fn lead_white(s: Seq<char>) -> nat
    decreases s.len(),
{
    if s.len() > 0 && is_white_spec(s[0]) {
        1 + lead_white(s.skip(1))
    } else {
        0
    }
}

/// Number of white-space characters at the end of `s`.
pub open spec fn trail_white(s: Seq<char>) -> nat
    decreases s.len(),
{
    if s.len() > 0 && is_white_spec(s.last()) {
        1 + trail_white(s.drop_last())
    } else {
        0
    }
}

/// `s` without its leading and trailing white space.
pub open spec fn trim_spec(s: Seq<char>) -> Seq<char> {
    let t = s.skip(lead_white(s) as int);
    t.take(t.len() - trail_white(t))
}

proof fn lemma_lead_white(s: Seq<char>)
    ensures
        lead_white(s) <= s.len(),
        forall|i: int| 0 <= i < lead_white(s) ==> is_white_spec(s[i]),
        lead_white(s) < s.len() ==> !is_white_spec(s[lead_white(s) as int]),
    decreases s.len(),
{
    if s.len() > 0 && is_white_spec(s[0]) {
        lemma_lead_white(s.skip(1));
        assert forall|i: int| 0 <= i < lead_white(s) implies is_white_spec(s[i]) by {
            if i > 0 {
                assert(s[i] == s.skip(1)[i - 1]);
            }
        }
    }
}

proof fn lemma_trail_white(s: Seq<char>)
    ensures
        trail_white(s) <= s.len(),
        forall|i: int| s.len() - trail_white(s) <= i < s.len() ==> is_white_spec(s[i]),
        trail_white(s) < s.len() ==> !is_white_spec(s[s.len() - trail_white(s) - 1]),
    decreases s.len(),
{
    if s.len() > 0 && is_white_spec(s.last()) {
        lemma_trail_white(s.drop_last());
        assert forall|i: int| s.len() - trail_white(s) <= i < s.len() implies is_white_spec(s[i]) by {
            if i < s.len() - 1 {
                assert(s[i] == s.drop_last()[i]);
            }
        }
        if trail_white(s) < s.len() {
            assert(s[s.len() - trail_white(s) - 1] == s.drop_last()[s.drop_last().len() - trail_white(s.drop_last()) - 1]);
        }
    }
}

fn is_white(c: char) -> (r: bool)
    ensures
        r == is_white_spec(c),
{
    let u = c as u32;
    (0x9 <= u && u <= 0xd) || u == 0x20 || u == 0x85 || u == 0xa0 || u == 0x1680 || (0x2000 <= u
        && u <= 0x200a) || u == 0x2028 || u == 0x2029 || u == 0x202f || u == 0x205f || u == 0x3000
}

/// `s` without its leading and trailing white space.
pub fn trim_chars(s: &str) -> (r: String)
    ensures
        r@ == trim_spec(s@),
{
    let n = s.unicode_len();
    proof {
        lemma_lead_white(s@);
    }
    let mut a: usize = 0;
    while a < n && is_white(s.get_char(a))
        invariant
            a <= lead_white(s@),
            n == s@.len(),
            lead_white(s@) <= s@.len(),
            forall|i: int| 0 <= i < lead_white(s@) ==> is_white_spec(s@[i]),
            lead_white(s@) < s@.len() ==> !is_white_spec(s@[lead_white(s@) as int]),
        decreases n - a,
    {
        a = a + 1;
    }
    assert(a == lead_white(s@)) by {
        if a < lead_white(s@) {
            assert(is_white_spec(s@[a as int]));
        }
    }
    let ghost t = s@.skip(a as int);
    proof {
        lemma_trail_white(t);
    }
    let mut b: usize = n;
    while b > a && is_white(s.get_char(b - 1))
        invariant
            a <= b <= n,
            n == s@.len(),
            t == s@.skip(a as int),
            b - a >= t.len() - trail_white(t),
            trail_white(t) <= t.len(),
            forall|i: int| t.len() - trail_white(t) <= i < t.len() ==> is_white_spec(t[i]),
            trail_white(t) < t.len() ==> !is_white_spec(t[t.len() - trail_white(t) - 1]),
        decreases b - a,
    {
        assert(s@[b - 1] == t[b - 1 - a]);
        b = b - 1;
    }
    assert(b - a == t.len() - trail_white(t)) by {
        if b - a > t.len() - trail_white(t) {
            assert(s@[b - 1] == t[b - 1 - a]);
        }
    }
    let r = s.substring_char(a, b).to_owned();
    assert(r@ =~= trim_spec(s@));
    r
}

/// Whether `s` begins with `p`.
pub open spec fn starts_with_spec(s: Seq<char>, p: Seq<char>) -> bool {
    p.len() <= s.len() && s.take(p.len() as int) == p
}

/// Whether `s` contains `t` as a contiguous run.
pub open spec fn has_infix(s: Seq<char>, t: Seq<char>) -> bool {
    exists|i: int| 0 <= i && i + t.len() <= s.len() && #[trigger] s.subrange(i, i + t.len()) == t
}

fn starts_with_at(s: &str, i: usize, p: &str) -> (r: bool)
    requires
        i <= s@.len(),
    ensures
        r == (i + p@.len() <= s@.len() && s@.subrange(i as int, i + p@.len()) == p@),
{
    let n = s.unicode_len();
    let m = p.unicode_len();
    if m > n - i {
        return false;
    }
    let mut k: usize = 0;
    while k < m
        invariant
            k <= m,
            m == p@.len(),
            n == s@.len(),
            i + m <= n,
            forall|j: int| 0 <= j < k ==> s@[i + j] == p@[j],
        decreases m - k,
    {
        if s.get_char(i + k) != p.get_char(k) {
            assert(s@.subrange(i as int, i + m)[k as int] != p@[k as int]);
            return false;
        }
        k = k + 1;
    }
    assert(s@.subrange(i as int, i + m) =~= p@);
    true
}

/// The label of a tile: the alias alone when it already is the device name or
/// names it in parentheses, else the alias followed by the device name in
/// parentheses.
pub open spec fn friendly_spec(alias: Seq<char>, bsd: Seq<char>) -> Seq<char> {
    let tagged = seq!['('] + bsd + seq![')'];
    if alias == bsd || has_infix(alias, tagged) {
        alias
    } else {
        alias + seq![' ', '('] + bsd + seq![')']
    }
}

pub fn friendly_name(alias: &str, bsd: &str) -> (r: String)
    ensures
        r@ == friendly_spec(alias@, bsd@),
{
    let mut tagged = String::from_str("(");
    tagged.append(bsd);
    tagged.append(")");
    proof {
        reveal_strlit("(");
        reveal_strlit(")");
        reveal_strlit(" (");
    }
    let t = tagged.as_str();
    let n = alias.unicode_len();
    let mut found = starts_with_at(alias, 0, bsd) && n == bsd.unicode_len();
    proof {
        if found {
            assert(alias@ =~= bsd@);
        }
        if alias@ == bsd@ {
            assert(alias@.subrange(0, bsd@.len() as int) =~= bsd@);
        }
    }
    let ghost eq = found;
    let m = t.unicode_len();
    if m <= n {
        let mut i: usize = 0;
        while i <= n - m && !found
            invariant
                i <= n - m + 1,
                m <= n,
                n == alias@.len(),
                m == t@.len(),
                t@ == seq!['('] + bsd@ + seq![')'],
                eq == (alias@ == bsd@),
                found ==> (eq || has_infix(alias@, t@)),
                !found ==> !eq && forall|j: int|
                    0 <= j < i && j + t@.len() <= alias@.len() ==> #[trigger] alias@.subrange(j, j + t@.len()) != t@,
            decreases n - m + 1 - i,
        {
            if starts_with_at(alias, i, t) {
                found = true;
            }
            i = i + 1;
        }
    }
    if found {
        let r = alias.to_owned();
        proof {
            if !eq {
                assert(has_infix(alias@, t@));
            }
        }
        r
    } else {
        proof {
            assert(!has_infix(alias@, t@)) by {
                if has_infix(alias@, t@) {
                    let j = choose|j: int|
                        0 <= j && j + t@.len() <= alias@.len() && #[trigger] alias@.subrange(j, j + t@.len()) == t@;
                }
            }
        }
        let mut r = alias.to_owned();
        r.append(" (");
        r.append(bsd);
        r.append(")");
        assert(r@ =~= friendly_spec(alias@, bsd@));
        r
    }
}


pub open spec fn port_tag() -> Seq<char> {
    seq!['H', 'a', 'r', 'd', 'w', 'a', 'r', 'e', ' ', 'P', 'o', 'r', 't', ':']
}

pub open spec fn device_tag() -> Seq<char> {
    seq!['D', 'e', 'v', 'i', 'c', 'e', ':']
}

/// A device-to-port table in which a later entry for a device replaces the
/// earlier one.
pub open spec fn upsert(
    pairs: Seq<(Seq<char>, Seq<char>)>,
    dev: Seq<char>,
    port: Seq<char>,
) -> Seq<(Seq<char>, Seq<char>)> {
    if exists|i: int| 0 <= i < pairs.len() && (#[trigger] pairs[i]).0 == dev {
        pairs.update(choose|i: int| 0 <= i < pairs.len() && (#[trigger] pairs[i]).0 == dev, (dev, port))
    } else {
        pairs.push((dev, port))
    }
}

/// One line of the hardware-port listing: a "Hardware Port:" line names the
/// port that the next non-empty "Device:" line is paired with; other lines are
/// ignored. Both are read after trimming white space.
pub open spec fn port_step(
    state: (Option<Seq<char>>, Seq<(Seq<char>, Seq<char>)>),
    line: Seq<char>,
) -> (Option<Seq<char>>, Seq<(Seq<char>, Seq<char>)>) {
    let t = trim_spec(line);
    if starts_with_spec(t, port_tag()) {
        (Some(trim_spec(t.skip(port_tag().len() as int))), state.1)
    } else if starts_with_spec(t, device_tag()) {
        let dev = trim_spec(t.skip(device_tag().len() as int));
        if dev.len() > 0 && state.0 is Some {
            (None, upsert(state.1, dev, state.0->Some_0))
        } else {
            state
        }
    } else {
        state
    }
}

pub open spec fn ports_after(lines: Seq<Seq<char>>) -> (
    Option<Seq<char>>,
    Seq<(Seq<char>, Seq<char>)>,
)
    decreases lines.len(),
{
    if lines.len() == 0 {
        (None, Seq::empty())
    } else {
        port_step(ports_after(lines.drop_last()), lines.last())
    }
}

pub open spec fn pairs_view(v: Seq<(String, String)>) -> Seq<(Seq<char>, Seq<char>)> {
    v.map_values(|p: (String, String)| (p.0@, p.1@))
}

pub open spec fn lines_view(v: Seq<String>) -> Seq<Seq<char>> {
    v.map_values(|l: String| l@)
}

pub open spec fn keys_distinct(v: Seq<(Seq<char>, Seq<char>)>) -> bool {
    forall|i: int, j: int|
        0 <= i < v.len() && 0 <= j < v.len() && i != j ==> (#[trigger] v[i]).0 != (#[trigger] v[j]).0
}

fn upsert_pair(pairs: &mut Vec<(String, String)>, dev: String, port: String)
    requires
        keys_distinct(pairs_view(old(pairs)@)),
    ensures
        keys_distinct(pairs_view(final(pairs)@)),
        pairs_view(final(pairs)@) == upsert(pairs_view(old(pairs)@), dev@, port@),
{
    let ghost pv = pairs_view(pairs@);
    assert(pv == pairs_view(old(pairs)@));
    let mut i: usize = 0;
    while i < pairs.len()
        invariant
            i <= pairs@.len(),
            pv == pairs_view(pairs@),
            pv == pairs_view(old(pairs)@),
            keys_distinct(pv),
            forall|k: int| 0 <= k < i ==> (#[trigger] pv[k]).0 != dev@,
        decreases pairs@.len() - i,
    {
        if pairs[i].0 == dev {
            proof {
                assert(pv[i as int].0 == dev@);
                let c = choose|c: int| 0 <= c < pv.len() && (#[trigger] pv[c]).0 == dev@;
                assert(c == i);
            }
            let _ = pairs.remove(i);
            pairs.insert(i, (dev, port));
            assert(pairs_view(pairs@) =~= upsert(pv, dev@, port@));
            proof {
                let nv = pairs_view(pairs@);
                assert forall|a: int, b: int|
                    0 <= a < nv.len() && 0 <= b < nv.len() && a != b implies (#[trigger] nv[a]).0
                        != (#[trigger] nv[b]).0 by {
                    assert(nv[a].0 == pv[a].0);
                    assert(nv[b].0 == pv[b].0);
                }
            }
            return;
        }
        i = i + 1;
    }
    pairs.push((dev, port));
    assert(pairs_view(pairs@) =~= upsert(pv, dev@, port@));
    proof {
        let nv = pairs_view(pairs@);
        assert forall|a: int, b: int|
            0 <= a < nv.len() && 0 <= b < nv.len() && a != b implies (#[trigger] nv[a]).0
                != (#[trigger] nv[b]).0 by {
            if a < pv.len() {
                assert(nv[a] == pv[a]);
            }
            if b < pv.len() {
                assert(nv[b] == pv[b]);
            }
        }
    }
}

/// Reads the device-to-port table from the lines of a hardware-port listing.
pub fn parse_hardware_ports(lines: &Vec<String>) -> (r: Vec<(String, String)>)
    ensures
        pairs_view(r@) == ports_after(lines_view(lines@)).1,
        keys_distinct(pairs_view(r@)),
{
    proof {
        reveal_strlit("Hardware Port:");
        reveal_strlit("Device:");
        assert("Hardware Port:"@ =~= port_tag());
        assert("Device:"@ =~= device_tag());
        assert(port_tag().len() == 14);
        assert(device_tag().len() == 7);
    }
    let mut pairs: Vec<(String, String)> = Vec::new();
    let mut current: Option<String> = None;
    let mut i: usize = 0;
    while i < lines.len()
        invariant
            i <= lines@.len(),
            "Hardware Port:"@ == port_tag(),
            "Device:"@ == device_tag(),
            port_tag().len() == 14,
            device_tag().len() == 7,
            keys_distinct(pairs_view(pairs@)),
            (match current {
                Some(c) => Some(c@),
                None => None,
            }, pairs_view(pairs@)) == ports_after(lines_view(lines@).take(i as int)),
        decreases lines@.len() - i,
    {
        proof {
            assert(lines_view(lines@).take(i + 1).drop_last() =~= lines_view(lines@).take(i as int));
            assert(lines_view(lines@).take(i + 1).last() == lines@[i as int]@);
        }
        let t = trim_chars(lines[i].as_str());
        let ts = t.as_str();
        let n = ts.unicode_len();
        if starts_with_at(ts, 0, "Hardware Port:") {
            proof {
                assert(ts@.take(14) =~= ts@.subrange(0, 14));
            }
            let rest = ts.substring_char(14, n);
            assert(rest@ =~= ts@.skip(14));
            current = Some(trim_chars(rest));
        } else if starts_with_at(ts, 0, "Device:") {
            proof {
                assert(ts@.take(7) =~= ts@.subrange(0, 7));
                assert(!starts_with_spec(ts@, port_tag())) by {
                    if starts_with_spec(ts@, port_tag()) {
                        assert(ts@.take(14) =~= ts@.subrange(0, 14));
                    }
                }
            }
            let rest = ts.substring_char(7, n);
            assert(rest@ =~= ts@.skip(7));
            let dev = trim_chars(rest);
            if dev.unicode_len() > 0 {
                match current {
                    Some(port) => {
                        upsert_pair(&mut pairs, dev, port);
                        current = None;
                    },
                    None => {},
                }
            }
        } else {
            proof {
                assert(!starts_with_spec(ts@, port_tag())) by {
                    if starts_with_spec(ts@, port_tag()) {
                        assert(ts@.take(14) =~= ts@.subrange(0, 14));
                    }
                }
                assert(!starts_with_spec(ts@, device_tag())) by {
                    if starts_with_spec(ts@, device_tag()) {
                        assert(ts@.take(7) =~= ts@.subrange(0, 7));
                    }
                }
            }
        }
        i = i + 1;
    }
    assert(lines_view(lines@).take(lines@.len() as int) =~= lines_view(lines@));
    pairs
}

} // verus!
