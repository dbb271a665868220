use vstd::prelude::*;
use vstd::string::*;

verus! {

/// A terminal color: the terminal's default, one of its named colors, or an
/// RGB triple.
#[derive(Clone, Copy, Debug, PartialEq, Eq, Structural)]
pub enum Color {
    Reset,
    Green,
    Yellow,
    Red,
    Blue,
    Magenta,
    Cyan,
    White,
    Rgb(u8, u8, u8),
}

/// Number of themes built on a single named color.
pub const SOLID_THEME_COUNT: usize = 7;

/// Number of themes in the table.
pub const THEME_COUNT: usize = 17;

/// The named color of solid theme `i`.
pub open spec fn solid_color_spec(i: int) -> Color {
    if i == 0 {
        Color::Green
    } else if i == 1 {
        Color::Yellow
    } else if i == 2 {
        Color::Red
    } else if i == 3 {
        Color::Blue
    } else if i == 4 {
        Color::Magenta
    } else if i == 5 {
        Color::Cyan
    } else {
        Color::White
    }
}

/// The name of theme `i` of the table.
pub open spec fn theme_name_spec(i: int) -> Seq<char> {
    if i == 0 {
        seq!['G', 'r', 'e', 'e', 'n']
    } else if i == 1 {
        seq!['Y', 'e', 'l', 'l', 'o', 'w']
    } else if i == 2 {
        seq!['R', 'e', 'd']
    } else if i == 3 {
        seq!['B', 'l', 'u', 'e']
    } else if i == 4 {
        seq!['M', 'a', 'g', 'e', 'n', 't', 'a']
    } else if i == 5 {
        seq!['C', 'y', 'a', 'n']
    } else if i == 6 {
        seq!['W', 'h', 'i', 't', 'e']
    } else if i == 7 {
        seq!['C', 'a', 't', 'p', 'p', 'u', 'c', 'c', 'i', 'n', ' ', 'L', 'a', 't', 't', 'e']
    } else if i == 8 {
        seq!['C', 'a', 't', 'p', 'p', 'u', 'c', 'c', 'i', 'n', ' ', 'F', 'r', 'a', 'p', 'p', 'e']
    } else if i == 9 {
        seq!['C', 'a', 't', 'p', 'p', 'u', 'c', 'c', 'i', 'n', ' ', 'M', 'a', 'c', 'c', 'h', 'i', 'a', 't', 'o']
    } else if i == 10 {
        seq!['C', 'a', 't', 'p', 'p', 'u', 'c', 'c', 'i', 'n', ' ', 'M', 'o', 'c', 'h', 'a']
    } else if i == 11 {
        seq!['D', 'r', 'a', 'c', 'u', 'l', 'a']
    } else if i == 12 {
        seq!['N', 'o', 'r', 'd']
    } else if i == 13 {
        seq!['T', 'o', 'k', 'y', 'o', ' ', 'N', 'i', 'g', 'h', 't']
    } else if i == 14 {
        seq!['T', 'o', 'k', 'y', 'o', ' ', 'S', 't', 'o', 'r', 'm']
    } else if i == 15 {
        seq!['T', 'o', 'k', 'y', 'o', ' ', 'M', 'o', 'o', 'n']
    } else {
        seq!['T', 'o', 'k', 'y', 'o', ' ', 'D', 'a', 'y']
    }
}

/// The colors of the three levels of border.
#[derive(Clone, Copy, Debug, PartialEq, Eq, Structural)]
pub struct BorderColors {
    pub outer: Color,
    pub pane: Color,
    pub tile: Color,
}

/// A named color scheme.
#[derive(Clone, Debug)]
pub struct Theme {
    pub name: String,
    pub outer: Color,
    pub pane: Color,
    pub graph: Color,
    pub background: Color,
}

/// The value of a hexadecimal digit, if `c` is one.
pub open spec fn hex_value_spec(c: char) -> Option<u8> {
    if '0' <= c && c <= '9' {
        Some((c as u32 - '0' as u32) as u8)
    } else if 'a' <= c && c <= 'f' {
        Some((c as u32 - 'a' as u32 + 10) as u8)
    } else if 'A' <= c && c <= 'F' {
        Some((c as u32 - 'A' as u32 + 10) as u8)
    } else {
        None
    }
}

/// A byte written as two hexadecimal digits, an optional `+` and one digit
/// accepted too; anything else reads as zero.
pub open spec fn hex_pair_spec(a: char, b: char) -> u8 {
    if a == '+' {
        match hex_value_spec(b) {
            Some(v) => v,
            None => 0,
        }
    } else {
        match (hex_value_spec(a), hex_value_spec(b)) {
            (Some(x), Some(y)) => (x * 16 + y) as u8,
            _ => 0,
        }
    }
}

/// Number of leading `#` characters of `s`.
pub open spec fn leading_hashes(s: Seq<char>) -> nat
    decreases s.len(),
{
    if s.len() > 0 && s[0] == '#' {
        1 + leading_hashes(s.skip(1))
    } else {
        0
    }
}

pub open spec fn rgb_spec(s: Seq<char>) -> Color {
    let k = leading_hashes(s) as int;
    Color::Rgb(
        hex_pair_spec(s[k], s[k + 1]),
        hex_pair_spec(s[k + 2], s[k + 3]),
        hex_pair_spec(s[k + 4], s[k + 5]),
    )
}

proof fn lemma_leading_hashes(s: Seq<char>)
    ensures
        leading_hashes(s) <= s.len(),
        forall|i: int| 0 <= i < leading_hashes(s) ==> s[i] == '#',
        leading_hashes(s) < s.len() ==> s[leading_hashes(s) as int] != '#',
    decreases s.len(),
{
    if s.len() > 0 && s[0] == '#' {
        lemma_leading_hashes(s.skip(1));
        assert forall|i: int| 0 <= i < leading_hashes(s) implies s[i] == '#' by {
            if i > 0 {
                assert(s[i] == s.skip(1)[i - 1]);
            }
        }
    }
}

fn hex_value(c: char) -> (r: Option<u8>)
    ensures
        r == hex_value_spec(c),
{
    if '0' <= c && c <= '9' {
        Some((c as u32 - '0' as u32) as u8)
    } else if 'a' <= c && c <= 'f' {
        Some((c as u32 - 'a' as u32 + 10) as u8)
    } else if 'A' <= c && c <= 'F' {
        Some((c as u32 - 'A' as u32 + 10) as u8)
    } else {
        None
    }
}

fn hex_pair(a: char, b: char) -> (r: u8)
    ensures
        r == hex_pair_spec(a, b),
{
    if a == '+' {
        match hex_value(b) {
            Some(v) => v,
            None => 0,
        }
    } else {
        match (hex_value(a), hex_value(b)) {
            (Some(x), Some(y)) => x * 16 + y,
            _ => 0,
        }
    }
}

/// Reads a color written `#rrggbb`; a pair that is not hexadecimal reads as zero.
pub fn rgb(hex: &str) -> (r: Color)
    requires
        hex@.len() >= leading_hashes(hex@) + 6,
        forall|i: int|
            leading_hashes(hex@) <= i < leading_hashes(hex@) + 6 ==> (#[trigger] hex@[i] as u32)
                < 128,
    ensures
        r == rgb_spec(hex@),
{
    proof {
        lemma_leading_hashes(hex@);
    }
    let n = hex.unicode_len();
    let mut k: usize = 0;
    while k < n && hex.get_char(k) == '#'
        invariant
            k <= leading_hashes(hex@),
            n == hex@.len(),
            forall|i: int| 0 <= i < leading_hashes(hex@) ==> hex@[i] == '#',
            leading_hashes(hex@) < hex@.len() ==> hex@[leading_hashes(hex@) as int] != '#',
            leading_hashes(hex@) <= hex@.len(),
        decreases n - k,
    {
        k = k + 1;
    }
    let r = hex_pair(hex.get_char(k), hex.get_char(k + 1));
    let g = hex_pair(hex.get_char(k + 2), hex.get_char(k + 3));
    let b = hex_pair(hex.get_char(k + 4), hex.get_char(k + 5));
    Color::Rgb(r, g, b)
}

/// The darker shade used for transmit bars under a solid theme.
pub open spec fn solid_tx_color_spec(color: Color) -> Color {
    match color {
        Color::Red => Color::Rgb(0xb2, 0x22, 0x22),
        Color::Green => Color::Rgb(0x22, 0x8b, 0x22),
        Color::Yellow => Color::Rgb(0xb8, 0x86, 0x0b),
        Color::Blue => Color::Rgb(0x1e, 0x3a, 0x8a),
        Color::Magenta => Color::Rgb(0x8b, 0x1c, 0x62),
        Color::Cyan => Color::Rgb(0x0f, 0x76, 0x6e),
        Color::White => Color::Rgb(0xa1, 0xa1, 0xaa),
        _ => color,
    }
}

pub fn solid_tx_color(color: Color) -> (r: Color)
    ensures
        r == solid_tx_color_spec(color),
{
    match color {
        Color::Red => Color::Rgb(0xb2, 0x22, 0x22),
        Color::Green => Color::Rgb(0x22, 0x8b, 0x22),
        Color::Yellow => Color::Rgb(0xb8, 0x86, 0x0b),
        Color::Blue => Color::Rgb(0x1e, 0x3a, 0x8a),
        Color::Magenta => Color::Rgb(0x8b, 0x1c, 0x62),
        Color::Cyan => Color::Rgb(0x0f, 0x76, 0x6e),
        Color::White => Color::Rgb(0xa1, 0xa1, 0xaa),
        _ => color,
    }
}

fn solid(name: String, color: Color) -> (r: Theme)
    ensures
        r.name == name,
        r.outer == color,
        r.pane == color,
        r.graph == color,
        r.background == Color::Reset,
{
    Theme { name, outer: color, pane: color, graph: color, background: Color::Reset }
}

fn advanced(name: String, outer: Color, pane: Color, graph: Color, background: Color) -> (r: Theme)
    ensures
        r.name == name,
        r.outer == outer,
        r.pane == pane,
        r.graph == graph,
        r.background == background,
{
    Theme { name, outer, pane, graph, background }
}

/// The theme table: first the solid themes, one per named color, on the
/// terminal's own background; then the themes with their own palette and
/// background.
pub fn build_themes() -> (r: Vec<Theme>)
    ensures
        r@.len() == THEME_COUNT,
        forall|i: int|
            0 <= i < SOLID_THEME_COUNT ==> {
                &&& (#[trigger] r@[i]).outer == solid_color_spec(i)
                &&& r@[i].pane == solid_color_spec(i)
                &&& r@[i].graph == solid_color_spec(i)
                &&& r@[i].background == Color::Reset
            },
        forall|i: int| SOLID_THEME_COUNT <= i < THEME_COUNT ==> (#[trigger] r@[i]).background is Rgb,
        forall|i: int| 0 <= i < THEME_COUNT ==> (#[trigger] r@[i]).name@ == theme_name_spec(i),
{
    proof {
        reveal_strlit("Green");
        reveal_strlit("Yellow");
        reveal_strlit("Red");
        reveal_strlit("Blue");
        reveal_strlit("Magenta");
        reveal_strlit("Cyan");
        reveal_strlit("White");
        reveal_strlit("Catppuccin Latte");
        reveal_strlit("Catppuccin Frappe");
        reveal_strlit("Catppuccin Macchiato");
        reveal_strlit("Catppuccin Mocha");
        reveal_strlit("Dracula");
        reveal_strlit("Nord");
        reveal_strlit("Tokyo Night");
        reveal_strlit("Tokyo Storm");
        reveal_strlit("Tokyo Moon");
        reveal_strlit("Tokyo Day");
    }
    let mut themes: Vec<Theme> = Vec::new();
    themes.push(solid("Green".to_owned(), Color::Green));
    themes.push(solid("Yellow".to_owned(), Color::Yellow));
    themes.push(solid("Red".to_owned(), Color::Red));
    themes.push(solid("Blue".to_owned(), Color::Blue));
    themes.push(solid("Magenta".to_owned(), Color::Magenta));
    themes.push(solid("Cyan".to_owned(), Color::Cyan));
    themes.push(solid("White".to_owned(), Color::White));
    themes.push(advanced("Catppuccin Latte".to_owned(), Color::Rgb(0x72, 0x87, 0xfd), Color::Rgb(0xea, 0x76, 0xcb), Color::Rgb(0x40, 0xa0, 0x2b), Color::Rgb(0xef, 0xf1, 0xf5)));
    themes.push(advanced("Catppuccin Frappe".to_owned(), Color::Rgb(0x8c, 0xaa, 0xee), Color::Rgb(0xf4, 0xb8, 0xe4), Color::Rgb(0xa6, 0xd1, 0x89), Color::Rgb(0x30, 0x34, 0x46)));
    themes.push(advanced("Catppuccin Macchiato".to_owned(), Color::Rgb(0x8a, 0xad, 0xf4), Color::Rgb(0xf5, 0xbd, 0xe6), Color::Rgb(0xa6, 0xda, 0x95), Color::Rgb(0x24, 0x27, 0x3a)));
    themes.push(advanced("Catppuccin Mocha".to_owned(), Color::Rgb(0x89, 0xb4, 0xfa), Color::Rgb(0xf5, 0xc2, 0xe7), Color::Rgb(0xa6, 0xe3, 0xa1), Color::Rgb(0x1e, 0x1e, 0x2e)));
    themes.push(advanced("Dracula".to_owned(), Color::Rgb(0xbd, 0x93, 0xf9), Color::Rgb(0xff, 0x79, 0xc6), Color::Rgb(0x50, 0xfa, 0x7b), Color::Rgb(0x28, 0x2a, 0x36)));
    themes.push(advanced("Nord".to_owned(), Color::Rgb(0x88, 0xc0, 0xd0), Color::Rgb(0x81, 0xa1, 0xc1), Color::Rgb(0xa3, 0xbe, 0x8c), Color::Rgb(0x2e, 0x34, 0x40)));
    themes.push(advanced("Tokyo Night".to_owned(), Color::Rgb(0x7a, 0xa2, 0xf7), Color::Rgb(0xbb, 0x9a, 0xf7), Color::Rgb(0x9e, 0xce, 0x6a), Color::Rgb(0x1a, 0x1b, 0x26)));
    themes.push(advanced("Tokyo Storm".to_owned(), Color::Rgb(0x7a, 0xa2, 0xf7), Color::Rgb(0xbb, 0x9a, 0xf7), Color::Rgb(0x9e, 0xce, 0x6a), Color::Rgb(0x24, 0x28, 0x3b)));
    themes.push(advanced("Tokyo Moon".to_owned(), Color::Rgb(0x82, 0xaa, 0xff), Color::Rgb(0xc0, 0x99, 0xff), Color::Rgb(0xc3, 0xe8, 0x8d), Color::Rgb(0x22, 0x24, 0x36)));
    themes.push(advanced("Tokyo Day".to_owned(), Color::Rgb(0x2e, 0x7d, 0xe9), Color::Rgb(0x98, 0x54, 0xf1), Color::Rgb(0x58, 0x75, 0x39), Color::Rgb(0xe1, 0xe2, 0xe7)));
    themes
}

} // verus!
