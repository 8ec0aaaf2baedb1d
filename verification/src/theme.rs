//! Colour themes: the two built-in palettes and custom themes read from a flat
//! `theme.yaml` of `key: "#rrggbb"` lines.
use vstd::prelude::*;
use vstd::utf8::is_char_boundary;
use vstd::string::StringSliceAdditionalSpecFns;
use crate::text::{chars_of, chars_equal_str, sub_chars, trim, trim_ws, trim_chars, trim_bounds,
    is_ws, is_whitespace_char, string_from_chars, Trim};
use crate::sorting::{sort_by_keys, is_stable_sort, keys_view};

verus! {

/// An sRGB colour with alpha.
#[derive(Clone, Copy, Debug, PartialEq, Eq, Structural)]
pub struct Color {
    pub red: u8,
    pub green: u8,
    pub blue: u8,
    pub alpha: u8,
}

impl Color {
    /// An opaque colour.
    pub fn rgb(red: u8, green: u8, blue: u8) -> (c: Color)
        ensures
            c == (Color { red, green, blue, alpha: 255 }),
    {
        Color { red, green, blue, alpha: 255 }
    }

    /// A colour with the given alpha.
    pub fn argb(alpha: u8, red: u8, green: u8, blue: u8) -> (c: Color)
        ensures
            c == (Color { red, green, blue, alpha }),
    {
        Color { red, green, blue, alpha }
    }

    pub fn red(&self) -> (r: u8)
        ensures
            r == self.red,
    {
        self.red
    }

    pub fn green(&self) -> (r: u8)
        ensures
            r == self.green,
    {
        self.green
    }

    pub fn blue(&self) -> (r: u8)
        ensures
            r == self.blue,
    {
        self.blue
    }

    pub fn alpha(&self) -> (r: u8)
        ensures
            r == self.alpha,
    {
        self.alpha
    }
}

/// The palette the window is drawn with.
#[derive(Clone, Copy, Debug, PartialEq, Eq, Structural)]
pub struct ThemeColors {
    pub background: Color,
    pub panel: Color,
    pub surface: Color,
    pub text: Color,
    pub muted: Color,
    pub accent: Color,
    pub border: Color,
    pub hover_surface: Color,
    pub selected_surface: Color,
    pub placeholder: Color,
    pub progress_track: Color,
    pub overlay: Color,
    pub modal: Color,
    pub danger: Color,
    pub danger_text: Color,
}

pub open spec fn opaque(red: u8, green: u8, blue: u8) -> Color {
    Color { red, green, blue, alpha: 255 }
}

/// The built-in "Default Dark" palette.
pub open spec fn dark_palette() -> ThemeColors {
    ThemeColors {
        background: opaque(16, 20, 25),
        panel: opaque(11, 15, 20),
        surface: opaque(23, 32, 43),
        text: opaque(246, 248, 251),
        muted: opaque(174, 184, 197),
        accent: opaque(47, 95, 143),
        border: opaque(40, 50, 65),
        hover_surface: opaque(32, 42, 55),
        selected_surface: opaque(40, 75, 114),
        placeholder: opaque(34, 43, 54),
        progress_track: opaque(32, 40, 50),
        overlay: opaque(5, 6, 7),
        modal: opaque(27, 34, 44),
        danger: opaque(214, 64, 64),
        danger_text: opaque(255, 90, 90),
    }
}

/// The built-in "Default Light" palette.
pub open spec fn light_palette() -> ThemeColors {
    ThemeColors {
        background: opaque(244, 247, 251),
        panel: opaque(29, 39, 52),
        surface: opaque(255, 255, 255),
        text: opaque(28, 36, 48),
        muted: opaque(95, 107, 123),
        accent: opaque(37, 109, 179),
        border: opaque(209, 218, 229),
        hover_surface: opaque(232, 239, 248),
        selected_surface: opaque(212, 231, 250),
        placeholder: opaque(226, 233, 242),
        progress_track: opaque(219, 226, 236),
        overlay: Color { red: 10, green: 14, blue: 20, alpha: 220 },
        modal: opaque(255, 255, 255),
        danger: opaque(196, 43, 43),
        danger_text: opaque(196, 43, 43),
    }
}

impl ThemeColors {
    /// The "Default Dark" palette (the palette custom themes start from).
    pub fn dark() -> (t: ThemeColors)
        ensures
            t == dark_palette(),
    {
        ThemeColors {
            background: Color::rgb(16, 20, 25),
            panel: Color::rgb(11, 15, 20),
            surface: Color::rgb(23, 32, 43),
            text: Color::rgb(246, 248, 251),
            muted: Color::rgb(174, 184, 197),
            accent: Color::rgb(47, 95, 143),
            border: Color::rgb(40, 50, 65),
            hover_surface: Color::rgb(32, 42, 55),
            selected_surface: Color::rgb(40, 75, 114),
            placeholder: Color::rgb(34, 43, 54),
            progress_track: Color::rgb(32, 40, 50),
            overlay: Color::rgb(5, 6, 7),
            modal: Color::rgb(27, 34, 44),
            danger: Color::rgb(214, 64, 64),
            danger_text: Color::rgb(255, 90, 90),
        }
    }

    /// The "Default Light" palette.
    pub fn light() -> (t: ThemeColors)
        ensures
            t == light_palette(),
    {
        ThemeColors {
            background: Color::rgb(244, 247, 251),
            panel: Color::rgb(29, 39, 52),
            surface: Color::rgb(255, 255, 255),
            text: Color::rgb(28, 36, 48),
            muted: Color::rgb(95, 107, 123),
            accent: Color::rgb(37, 109, 179),
            border: Color::rgb(209, 218, 229),
            hover_surface: Color::rgb(232, 239, 248),
            selected_surface: Color::rgb(212, 231, 250),
            placeholder: Color::rgb(226, 233, 242),
            progress_track: Color::rgb(219, 226, 236),
            overlay: Color::argb(220, 10, 14, 20),
            modal: Color::rgb(255, 255, 255),
            danger: Color::rgb(196, 43, 43),
            danger_text: Color::rgb(196, 43, 43),
        }
    }
}

impl Default for ThemeColors {
    fn default() -> (t: ThemeColors)
        ensures
            t == dark_palette(),
    {
        ThemeColors::dark()
    }
}

// ---------------------------------------------------------------------------------------
// Hex colours

pub open spec fn is_hex_digit(b: u8) -> bool {
    (0x30 <= b <= 0x39) || (0x61 <= b <= 0x66) || (0x41 <= b <= 0x46)
}

pub open spec fn hex_value(b: u8) -> u8 {
    if 0x30 <= b <= 0x39 {
        (b - 0x30) as u8
    } else if 0x61 <= b <= 0x66 {
        (b - 0x61 + 10) as u8
    } else {
        (b - 0x41 + 10) as u8
    }
}

/// One hex digit of a short `#rgb` colour, widened to a byte (`0xa` becomes `0xaa`).
pub open spec fn nibble_spec(b: u8) -> Option<u8> {
    if is_hex_digit(b) {
        Some((hex_value(b) * 17) as u8)
    } else {
        None
    }
}

/// `u8::from_str_radix(s, 16)` on the two bytes `bytes[i..i + 2]`: an optional `+` and
/// then hex digits.
pub open spec fn hex_pair(bytes: Seq<u8>, i: int) -> Option<u8> {
    let hi = bytes[i];
    let lo = bytes[i + 1];
    if is_hex_digit(hi) && is_hex_digit(lo) {
        Some((hex_value(hi) * 16 + hex_value(lo)) as u8)
    } else if hi == 0x2b && is_hex_digit(lo) {
        Some(hex_value(lo))
    } else {
        None
    }
}

/// The pairs `0 .. k` of a long colour all read (the pairs are read in order and reading
/// stops at the first that fails).
pub open spec fn pairs_read(bytes: Seq<u8>, k: int) -> bool {
    forall|q: int| 0 <= q < k ==> (#[trigger] hex_pair(bytes, 2 * q)) is Some
}

/// Reading a long colour slices `bytes[2q .. 2q + 2]` in turn; slicing panics where an end
/// falls inside a character.
pub open spec fn long_hex_panics(bytes: Seq<u8>) -> bool {
    exists|k: int|
        0 <= k < bytes.len() / 2 && pairs_read(bytes, k) && !is_char_boundary(bytes, 2 * k + 2)
}

/// The characters of a colour value after `#`, or `None` where it has no `#`.
pub open spec fn hex_part(value: Seq<char>) -> Option<Seq<char>> {
    let t = trim_ws(value);
    if t.len() > 0 && t[0] == '#' {
        Some(t.drop_first())
    } else {
        None
    }
}

/// Whether reading `value` as a colour panics.
pub open spec fn color_panics(value: Seq<char>) -> bool {
    match hex_part(value) {
        Some(hex) => {
            let bytes = vstd::utf8::encode_utf8(hex);
            (bytes.len() == 6 || bytes.len() == 8) && long_hex_panics(bytes)
        },
        None => false,
    }
}

/// The colour a value `#rgb`, `#rrggbb` or `#rrggbbaa` denotes (surrounding whitespace
/// allowed); `None` for anything else.
pub open spec fn parse_color_spec(value: Seq<char>) -> Option<Color> {
    match hex_part(value) {
        Some(hex) => {
            let b = vstd::utf8::encode_utf8(hex);
            if b.len() == 3 {
                if nibble_spec(b[0]) is Some && nibble_spec(b[1]) is Some && nibble_spec(b[2]) is Some {
                    Some(
                        Color {
                            red: nibble_spec(b[0])->0,
                            green: nibble_spec(b[1])->0,
                            blue: nibble_spec(b[2])->0,
                            alpha: 255,
                        },
                    )
                } else {
                    None
                }
            } else if b.len() == 6 {
                if pairs_read(b, 3) {
                    Some(
                        Color {
                            red: hex_pair(b, 0)->0,
                            green: hex_pair(b, 2)->0,
                            blue: hex_pair(b, 4)->0,
                            alpha: 255,
                        },
                    )
                } else {
                    None
                }
            } else if b.len() == 8 {
                if pairs_read(b, 4) {
                    Some(
                        Color {
                            red: hex_pair(b, 0)->0,
                            green: hex_pair(b, 2)->0,
                            blue: hex_pair(b, 4)->0,
                            alpha: hex_pair(b, 6)->0,
                        },
                    )
                } else {
                    None
                }
            } else {
                None
            }
        },
        None => None,
    }
}

fn is_hex_byte(b: u8) -> (r: bool)
    ensures
        r == is_hex_digit(b),
{
    (0x30 <= b && b <= 0x39) || (0x61 <= b && b <= 0x66) || (0x41 <= b && b <= 0x46)
}

fn hex_byte_value(b: u8) -> (r: u8)
    requires
        is_hex_digit(b),
    ensures
        r == hex_value(b),
        r < 16,
{
    if 0x30 <= b && b <= 0x39 {
        b - 0x30
    } else if 0x61 <= b && b <= 0x66 {
        b - 0x61 + 10
    } else {
        b - 0x41 + 10
    }
}

/// One hex digit widened to a byte: `b'a'` gives `0xaa`.
pub fn nibble(ch: u8) -> (r: Option<u8>)
    ensures
        r == nibble_spec(ch),
{
    if is_hex_byte(ch) {
        Some(hex_byte_value(ch) * 17)
    } else {
        None
    }
}

fn read_pair(bytes: &[u8], i: usize) -> (r: Option<u8>)
    requires
        i + 2 <= bytes@.len(),
    ensures
        r == hex_pair(bytes@, i as int),
{
    let hi = bytes[i];
    let lo = bytes[i + 1];
    if is_hex_byte(hi) && is_hex_byte(lo) {
        Some(hex_byte_value(hi) * 16 + hex_byte_value(lo))
    } else if hi == 0x2b && is_hex_byte(lo) {
        Some(hex_byte_value(lo))
    } else {
        None
    }
}

/// Reads `#rgb`, `#rrggbb` or `#rrggbbaa` (surrounding whitespace allowed).
pub fn parse_color_chars(value: &Vec<char>) -> (r: Option<Color>)
    requires
        !color_panics(value@),
    ensures
        r == parse_color_spec(value@),
{
    let t = trim_chars(value, Trim::Whitespace);
    if t.len() == 0 || t[0] != '#' {
        return None;
    }
    let hex_chars = sub_chars(&t, 1, t.len());
    assert(hex_chars@ == t@.drop_first());
    let hex = string_from_chars(&hex_chars);
    let hs = hex.as_str();
    let bytes = hs.as_bytes();
    let ghost b = bytes@;
    assert(b == vstd::utf8::encode_utf8(hex_chars@));
    let n = bytes.len();
    if n == 3 {
        let r = match nibble(bytes[0]) {
            Some(red) => match nibble(bytes[1]) {
                Some(green) => match nibble(bytes[2]) {
                    Some(blue) => Some(Color::rgb(red, green, blue)),
                    None => None,
                },
                None => None,
            },
            None => None,
        };
        r
    } else if n == 6 || n == 8 {
        proof {
            assert(!long_hex_panics(b));
        }
        if !hs.is_char_boundary(2) {
            proof {
                assert(pairs_read(b, 0));
            }
            return None;
        }
        let red = match read_pair(bytes, 0) {
            Some(v) => v,
            None => {
                assert(hex_pair(b, 2 * 0int) is None);
                assert(!pairs_read(b, 3) && !pairs_read(b, 4));
                return None;
            },
        };
        if !hs.is_char_boundary(4) {
            proof {
                assert(pairs_read(b, 1));
            }
            return None;
        }
        let green = match read_pair(bytes, 2) {
            Some(v) => v,
            None => {
                assert(hex_pair(b, 2 * 1int) is None);
                assert(!pairs_read(b, 3) && !pairs_read(b, 4));
                return None;
            },
        };
        if !hs.is_char_boundary(6) {
            proof {
                assert(pairs_read(b, 2));
            }
            return None;
        }
        let blue = match read_pair(bytes, 4) {
            Some(v) => v,
            None => {
                assert(hex_pair(b, 2 * 2int) is None);
                assert(!pairs_read(b, 3) && !pairs_read(b, 4));
                return None;
            },
        };
        if n == 6 {
            assert(pairs_read(b, 3));
            return Some(Color::rgb(red, green, blue));
        }
        if !hs.is_char_boundary(8) {
            proof {
                assert(pairs_read(b, 3));
            }
            return None;
        }
        let alpha = match read_pair(bytes, 6) {
            Some(v) => v,
            None => {
                assert(hex_pair(b, 2 * 3int) is None);
                assert(!pairs_read(b, 4));
                return None;
            },
        };
        assert(pairs_read(b, 4));
        if alpha == 255 {
            Some(Color::rgb(red, green, blue))
        } else {
            Some(Color::argb(alpha, red, green, blue))
        }
    } else {
        None
    }
}

} // verus!

verus! {

// ---------------------------------------------------------------------------------------
// theme.yaml

/// A value with one pair of matching surrounding quotes (`"` or `'`) removed.
pub open spec fn unquote_spec(v: Seq<char>) -> Seq<char> {
    if v.len() >= 2 && v[0] == '"' && v.last() == '"' {
        v.subrange(1, v.len() - 1)
    } else if v.len() >= 2 && v[0] == '\'' && v.last() == '\'' {
        v.subrange(1, v.len() - 1)
    } else {
        v
    }
}

/// The number of leading characters of `s` that are not whitespace.
pub open spec fn word_len(s: Seq<char>) -> nat
    decreases s.len(),
{
    if s.len() > 0 && !is_ws(s[0]) {
        1 + word_len(s.drop_first())
    } else {
        0
    }
}

/// The first whitespace-separated word of `v`, or `v` itself where it has none.
pub open spec fn first_word(v: Seq<char>) -> Seq<char> {
    let t = crate::text::trim_start(v, Trim::Whitespace);
    if t.len() == 0 {
        v
    } else {
        t.take(word_len(t) as int)
    }
}

/// The palette with the colour named by a theme key replaced.
pub open spec fn with_key(t: ThemeColors, key: Seq<char>, c: Color) -> ThemeColors {
    if key == "main-background"@ {
        ThemeColors { background: c, ..t }
    } else if key == "panel-background"@ {
        ThemeColors { panel: c, ..t }
    } else if key == "button-color"@ {
        ThemeColors { surface: c, ..t }
    } else if key == "button-hover-color"@ {
        ThemeColors { hover_surface: c, ..t }
    } else if key == "text-color"@ {
        ThemeColors { text: c, ..t }
    } else if key == "accent-color"@ {
        ThemeColors { accent: c, ..t }
    } else if key == "muted-text-color"@ {
        ThemeColors { muted: c, ..t }
    } else if key == "border-color"@ {
        ThemeColors { border: c, ..t }
    } else if key == "selected-surface-color"@ {
        ThemeColors { selected_surface: c, ..t }
    } else if key == "placeholder-color"@ {
        ThemeColors { placeholder: c, ..t }
    } else if key == "progress-track-color"@ {
        ThemeColors { progress_track: c, ..t }
    } else if key == "overlay-color"@ {
        ThemeColors { overlay: c, ..t }
    } else if key == "modal-color"@ {
        ThemeColors { modal: c, ..t }
    } else if key == "danger-color"@ {
        ThemeColors { danger: c, ..t }
    } else if key == "danger-text-color"@ {
        ThemeColors { danger_text: c, ..t }
    } else {
        t
    }
}

/// The colour token of a `key: value` line: the first word of the unquoted value.
pub open spec fn line_token(l: Seq<char>, colon: int) -> Seq<char> {
    first_word(unquote_spec(trim_ws(l.skip(colon + 1))))
}

/// Whether a line is a `key: value` setting (not blank, not a `#` comment, with a colon);
/// the position of its first colon.
pub open spec fn setting_colon(line: Seq<char>) -> Option<int> {
    let l = trim_ws(line);
    if l.len() == 0 || l[0] == '#' {
        None
    } else {
        crate::text::index_of(l, ':')
    }
}

/// The palette after one line of theme.yaml.
pub open spec fn apply_line(t: ThemeColors, line: Seq<char>) -> ThemeColors {
    let l = trim_ws(line);
    match setting_colon(line) {
        Some(i) => match parse_color_spec(line_token(l, i)) {
            Some(c) => with_key(t, trim_ws(l.take(i)), c),
            None => t,
        },
        None => t,
    }
}

/// Whether reading one line panics.
pub open spec fn line_panics(line: Seq<char>) -> bool {
    match setting_colon(line) {
        Some(i) => color_panics(line_token(trim_ws(line), i)),
        None => false,
    }
}

/// The palette after the lines of `s` (split at `'\n'`).
pub open spec fn apply_text(t: ThemeColors, s: Seq<char>) -> ThemeColors
    decreases s.len(),
{
    match crate::text::index_of(s, '\n') {
        Some(i) => {
            proof {
                crate::text::lemma_index_of_found(s, '\n');
            }
            apply_text(apply_line(t, s.take(i)), s.skip(i + 1))
        },
        None => apply_line(t, s),
    }
}

/// Whether reading some line of `s` panics.
pub open spec fn text_panics(s: Seq<char>) -> bool
    decreases s.len(),
{
    match crate::text::index_of(s, '\n') {
        Some(i) => {
            proof {
                crate::text::lemma_index_of_found(s, '\n');
            }
            line_panics(s.take(i)) || text_panics(s.skip(i + 1))
        },
        None => line_panics(s),
    }
}

/// The palette a theme.yaml file describes: the "Default Dark" palette with each recognised
/// `key: "#colour"` line applied in order.
pub open spec fn theme_from_yaml(text: Seq<char>) -> ThemeColors {
    apply_text(dark_palette(), text)
}

fn unquote_chars(v: &Vec<char>) -> (r: Vec<char>)
    ensures
        r@ == unquote_spec(v@),
{
    let n = v.len();
    if n >= 2 && v[0] == '"' && v[n - 1] == '"' {
        sub_chars(v, 1, n - 1)
    } else if n >= 2 && v[0] == '\'' && v[n - 1] == '\'' {
        sub_chars(v, 1, n - 1)
    } else {
        v.clone()
    }
}

/// Removes one pair of matching surrounding quotes.
pub fn unquote(value: &str) -> (r: String)
    ensures
        r@ == unquote_spec(value@),
{
    let v = chars_of(value);
    let u = unquote_chars(&v);
    string_from_chars(&u)
}

fn first_word_chars(v: &Vec<char>) -> (r: Vec<char>)
    ensures
        r@ == first_word(v@),
{
    let (a, b) = trim_bounds(v, Trim::Whitespace);
    // The end of the leading run of whitespace.
    let mut s: usize = 0;
    while s < v.len() && is_whitespace_char(v[s])
        invariant
            s <= v.len(),
            forall|k: int| 0 <= k < s ==> is_ws(#[trigger] v@[k]),
        decreases v.len() - s,
    {
        s += 1;
    }
    proof {
        crate::text::lemma_trim_start_skip_pub(v@, Trim::Whitespace, s as int);
    }
    let ghost t = v@.skip(s as int);
    assert(crate::text::trim_start(v@, Trim::Whitespace) == t);
    if s == v.len() {
        return v.clone();
    }
    let mut e = s;
    while e < v.len() && !is_whitespace_char(v[e])
        invariant
            s <= e <= v.len(),
            forall|k: int| s <= k < e ==> !is_ws(#[trigger] v@[k]),
            word_len(t) == (e - s) + word_len(v@.skip(e as int)),
        decreases v.len() - e,
    {
        assert(v@.skip(e as int).drop_first() =~= v@.skip(e + 1));
        e += 1;
    }
    assert(word_len(v@.skip(e as int)) == 0);
    let r = sub_chars(v, s, e);
    assert(r@ =~= t.take(word_len(t) as int));
    r
}

fn with_key_exec(t: ThemeColors, key: &Vec<char>, c: Color) -> (r: ThemeColors)
    ensures
        r == with_key(t, key@, c),
{
    if chars_equal_str(key, "main-background") {
        ThemeColors { background: c, ..t }
    } else if chars_equal_str(key, "panel-background") {
        ThemeColors { panel: c, ..t }
    } else if chars_equal_str(key, "button-color") {
        ThemeColors { surface: c, ..t }
    } else if chars_equal_str(key, "button-hover-color") {
        ThemeColors { hover_surface: c, ..t }
    } else if chars_equal_str(key, "text-color") {
        ThemeColors { text: c, ..t }
    } else if chars_equal_str(key, "accent-color") {
        ThemeColors { accent: c, ..t }
    } else if chars_equal_str(key, "muted-text-color") {
        ThemeColors { muted: c, ..t }
    } else if chars_equal_str(key, "border-color") {
        ThemeColors { border: c, ..t }
    } else if chars_equal_str(key, "selected-surface-color") {
        ThemeColors { selected_surface: c, ..t }
    } else if chars_equal_str(key, "placeholder-color") {
        ThemeColors { placeholder: c, ..t }
    } else if chars_equal_str(key, "progress-track-color") {
        ThemeColors { progress_track: c, ..t }
    } else if chars_equal_str(key, "overlay-color") {
        ThemeColors { overlay: c, ..t }
    } else if chars_equal_str(key, "modal-color") {
        ThemeColors { modal: c, ..t }
    } else if chars_equal_str(key, "danger-color") {
        ThemeColors { danger: c, ..t }
    } else if chars_equal_str(key, "danger-text-color") {
        ThemeColors { danger_text: c, ..t }
    } else {
        t
    }
}

fn apply_line_exec(t: ThemeColors, line: &Vec<char>) -> (r: ThemeColors)
    requires
        !line_panics(line@),
    ensures
        r == apply_line(t, line@),
{
    let l = trim_chars(line, Trim::Whitespace);
    if l.len() == 0 || l[0] == '#' {
        return t;
    }
    let colon = crate::text::find_char(&l, 0, ':');
    assert(l@.skip(0) =~= l@);
    if colon == l.len() {
        return t;
    }
    let key_raw = sub_chars(&l, 0, colon);
    let value_raw = sub_chars(&l, colon + 1, l.len());
    assert(key_raw@ =~= l@.take(colon as int));
    assert(value_raw@ =~= l@.skip(colon + 1));
    let value = trim_chars(&value_raw, Trim::Whitespace);
    let unquoted = unquote_chars(&value);
    let token = first_word_chars(&unquoted);
    match parse_color_chars(&token) {
        Some(c) => {
            let key = trim_chars(&key_raw, Trim::Whitespace);
            with_key_exec(t, &key, c)
        },
        None => t,
    }
}

/// Whether reading `value` as a colour would slice a character apart.
fn color_panics_chars(value: &Vec<char>) -> (r: bool)
    ensures
        r == color_panics(value@),
{
    let t = trim_chars(value, Trim::Whitespace);
    if t.len() == 0 || t[0] != '#' {
        return false;
    }
    let hex_chars = sub_chars(&t, 1, t.len());
    assert(hex_chars@ == t@.drop_first());
    let hex = string_from_chars(&hex_chars);
    let hs = hex.as_str();
    let bytes = hs.as_bytes();
    let ghost b = bytes@;
    assert(b == vstd::utf8::encode_utf8(hex_chars@));
    let n = bytes.len();
    if n != 6 && n != 8 {
        return false;
    }
    let mut k: usize = 0;
    while k < n / 2
        invariant
            k <= n / 2,
            n == b.len(),
            n == 6 || n == 8,
            b == bytes@,
            b == hs.spec_bytes(),
            b == vstd::utf8::encode_utf8(hex_chars@),
            hex_part(value@) == Some(hex_chars@),
            pairs_read(b, k as int),
            forall|j: int| 0 <= j < k ==> #[trigger] is_char_boundary(b, 2 * j + 2),
        decreases n / 2 - k,
    {
        if !hs.is_char_boundary(2 * k + 2) {
            assert(!is_char_boundary(b, 2 * (k as int) + 2));
            assert(long_hex_panics(b));
            return true;
        }
        assert(is_char_boundary(b, 2 * (k as int) + 2));
        let pair = read_pair(bytes, 2 * k);
        if pair.is_none() {
            assert(hex_pair(b, 2 * (k as int)) is None);
            assert forall|j: int| 0 <= j < b.len() / 2 && pairs_read(b, j) implies is_char_boundary(
                b,
                2 * j + 2,
            ) by {
                if j > k {
                    assert(hex_pair(b, 2 * (k as int)) is Some);
                } else if j == k {
                    assert(is_char_boundary(b, 2 * (k as int) + 2));
                } else {
                    assert(is_char_boundary(b, 2 * j + 2));
                }
            }
            return false;
        }
        assert(hex_pair(b, 2 * (k as int)) is Some);
        k += 1;
    }
    assert forall|j: int| 0 <= j < b.len() / 2 && pairs_read(b, j) implies is_char_boundary(
        b,
        2 * j + 2,
    ) by {
        assert(j < k);
        assert(is_char_boundary(b, 2 * j + 2));
    }
    false
}

fn line_panics_exec(line: &Vec<char>) -> (r: bool)
    ensures
        r == line_panics(line@),
{
    let l = trim_chars(line, Trim::Whitespace);
    if l.len() == 0 || l[0] == '#' {
        return false;
    }
    let colon = crate::text::find_char(&l, 0, ':');
    assert(l@.skip(0) =~= l@);
    if colon == l.len() {
        return false;
    }
    let value_raw = sub_chars(&l, colon + 1, l.len());
    assert(value_raw@ =~= l@.skip(colon + 1));
    let value = trim_chars(&value_raw, Trim::Whitespace);
    let unquoted = unquote_chars(&value);
    let token = first_word_chars(&unquoted);
    color_panics_chars(&token)
}

/// Whether reading the theme.yaml `text` would fail: a colour value of six or eight
/// bytes after `#` whose two-byte pairs cut through a multi-byte character.
pub fn theme_text_panics(text: &str) -> (r: bool)
    ensures
        r == text_panics(text@),
{
    let chars = chars_of(text);
    let mut start: usize = 0;
    assert(chars@.skip(0) =~= chars@);
    loop
        invariant
            start <= chars.len(),
            chars@ == text@,
            text_panics(text@) == text_panics(chars@.skip(start as int)),
        decreases chars.len() - start,
    {
        let end = crate::text::find_char(&chars, start, '\n');
        let line = sub_chars(&chars, start, end);
        let ghost rest = chars@.skip(start as int);
        assert(line@ =~= rest.take(end - start));
        if end == chars.len() {
            assert(line@ =~= rest);
            return line_panics_exec(&line);
        }
        assert(rest.skip(end - start + 1) =~= chars@.skip(end + 1));
        if line_panics_exec(&line) {
            return true;
        }
        start = end + 1;
    }
}

/// The theme the flat YAML `text` describes. A line is `key: value`; blank lines, `#`
/// comments, lines without a colon, unknown keys and values that are not colours are
/// skipped.
pub fn parse_theme_yaml(text: &str) -> (r: ThemeColors)
    requires
        !text_panics(text@),
    ensures
        r == theme_from_yaml(text@),
{
    let chars = chars_of(text);
    let mut colors = ThemeColors::dark();
    let mut start: usize = 0;
    assert(chars@.skip(0) =~= chars@);
    loop
        invariant
            start <= chars.len(),
            chars@ == text@,
            theme_from_yaml(text@) == apply_text(colors, chars@.skip(start as int)),
            !text_panics(chars@.skip(start as int)),
        decreases chars.len() - start,
    {
        let end = crate::text::find_char(&chars, start, '\n');
        let line = sub_chars(&chars, start, end);
        let ghost rest = chars@.skip(start as int);
        assert(line@ =~= rest.take(end - start));
        if end == chars.len() {
            assert(line@ =~= rest);
            colors = apply_line_exec(colors, &line);
            return colors;
        }
        assert(rest.skip(end - start + 1) =~= chars@.skip(end + 1));
        colors = apply_line_exec(colors, &line);
        start = end + 1;
    }
}

impl ThemeColors {
    /// The palette for a theme name: the two built-in names give their palettes; any other
    /// name is a custom theme whose theme.yaml text is `custom` (`None` where it could not
    /// be read, giving "Default Dark").
    pub fn named(name: &str, custom: Option<&str>) -> (r: ThemeColors)
        requires
            custom matches Some(text) ==> !text_panics(text@),
        ensures
            r == (if name@ == "Default Dark"@ {
                dark_palette()
            } else if name@ == "Default Light"@ {
                light_palette()
            } else {
                match custom {
                    Some(text) => theme_from_yaml(text@),
                    None => dark_palette(),
                }
            }),
    {
        let n = chars_of(name);
        if chars_equal_str(&n, "Default Dark") {
            ThemeColors::dark()
        } else if chars_equal_str(&n, "Default Light") {
            ThemeColors::light()
        } else {
            match custom {
                Some(text) => parse_theme_yaml(text),
                None => ThemeColors::dark(),
            }
        }
    }
}

/// Reads `value` as a colour: `#rgb`, `#rrggbb` or `#rrggbbaa`.
pub fn parse_color(value: &str) -> (r: Option<Color>)
    requires
        !color_panics(value@),
    ensures
        r == parse_color_spec(value@),
{
    let v = chars_of(value);
    parse_color_chars(&v)
}

/// The theme names offered: the two built-in ones, then the custom theme folder names in
/// ascending order.
pub fn theme_names(custom: Vec<String>) -> (r: Vec<String>)
    ensures
        r.len() == custom.len() + 2,
        r@[0]@ == "Default Dark"@,
        r@[1]@ == "Default Light"@,
        is_stable_sort(r@.skip(2), custom@, crate::ops::names_view(custom@)),
{
    let mut keys: Vec<Vec<char>> = Vec::new();
    let mut i: usize = 0;
    while i < custom.len()
        invariant
            i <= custom.len(),
            keys.len() == i,
            forall|k: int| 0 <= k < i ==> #[trigger] keys@[k]@ == custom@[k]@,
        decreases custom.len() - i,
    {
        keys.push(chars_of(custom[i].as_str()));
        i += 1;
    }
    assert(keys_view(keys@) =~= crate::ops::names_view(custom@));
    let sorted = sort_by_keys(custom, keys);
    let mut r: Vec<String> = Vec::new();
    r.push("Default Dark".to_owned());
    r.push("Default Light".to_owned());
    let mut sorted = sorted;
    let ghost sorted_view = sorted@;
    // Move the sorted names after the two built-in ones.
    r.append(&mut sorted);
    assert(r@.skip(2) =~= sorted_view);
    r
}

proof fn lemma_apply_text_append(t: ThemeColors, s: Seq<char>, line: Seq<char>)
    requires
        forall|k: int| 0 <= k < line.len() ==> line[k] != '\n',
    ensures
        apply_text(t, s + seq!['\n'] + line) == apply_line(apply_text(t, s), line),
    decreases s.len(),
{
    let w = s + seq!['\n'] + line;
    crate::text::lemma_index_of_found(s, '\n');
    crate::text::lemma_index_of_at(line, '\n', line.len() as int);
    match crate::text::index_of(s, '\n') {
        Some(i) => {
            crate::text::lemma_index_of_at(w, '\n', i);
            assert(w.take(i) =~= s.take(i));
            assert(w.skip(i + 1) =~= s.skip(i + 1) + seq!['\n'] + line);
            lemma_apply_text_append(apply_line(t, s.take(i)), s.skip(i + 1), line);
            assert(apply_text(t, w) == apply_text(apply_line(t, w.take(i)), w.skip(i + 1)));
            assert(apply_text(t, s) == apply_text(apply_line(t, s.take(i)), s.skip(i + 1)));
        },
        None => {
            crate::text::lemma_index_of_at(w, '\n', s.len() as int);
            assert(w.take(s.len() as int) =~= s);
            assert(w.skip(s.len() as int + 1) =~= line);
            let t1 = apply_line(t, s);
            assert(apply_text(t, w) == apply_text(apply_line(t, w.take(s.len() as int)), w.skip(s.len() as int + 1)));
            assert(apply_text(t1, line) == apply_line(t1, line));
            assert(apply_text(t, s) == t1);
        },
    }
}

/// A line added at the end of a theme file changes only what that line sets. The palette
/// `parse_theme_yaml` gives for `text + "\n" + line` (its result is `theme_from_yaml` of
/// the text, where neither text makes it panic) is the palette of `text` with, for a
/// `key: value` line whose key is one of the fifteen theme keys and whose value is a
/// colour, that key's field set to the colour and every other field unchanged
/// (`with_key`); for any other line (blank, a comment, without a colon, an unknown key or
/// no colour) it is the palette of `text` unchanged.
pub proof fn lemma_appended_line(text: Seq<char>, line: Seq<char>)
    requires
        forall|k: int| 0 <= k < line.len() ==> line[k] != '\n',
    ensures
        theme_from_yaml(text + seq!['\n'] + line) == match setting_colon(line) {
            Some(i) => match parse_color_spec(line_token(trim_ws(line), i)) {
                Some(c) => with_key(theme_from_yaml(text), trim_ws(trim_ws(line).take(i)), c),
                None => theme_from_yaml(text),
            },
            None => theme_from_yaml(text),
        },
{
    lemma_apply_text_append(dark_palette(), text, line);
}

proof fn lemma_word_len_all(s: Seq<char>)
    requires
        forall|i: int| 0 <= i < s.len() ==> !is_ws(#[trigger] s[i]),
    ensures
        word_len(s) == s.len(),
    decreases s.len(),
{
    if s.len() > 0 {
        lemma_word_len_all(s.drop_first());
    }
}

/// A file of the one line `key:value` (no whitespace; the value starting with `#`) gives
/// Default Dark with that key applied where the value is a colour.
proof fn lemma_one_setting(key: Seq<char>, value: Seq<char>)
    requires
        key.len() > 0,
        key[0] != '#',
        forall|i: int| 0 <= i < key.len() ==> !is_ws(#[trigger] key[i]) && key[i] != ':',
        value.len() > 0,
        value[0] == '#',
        forall|i: int| 0 <= i < value.len() ==> !is_ws(#[trigger] value[i]),
    ensures
        theme_from_yaml(key + seq![':'] + value) == match parse_color_spec(value) {
            Some(c) => with_key(dark_palette(), key, c),
            None => dark_palette(),
        },
{
    let line = key + seq![':'] + value;
    assert forall|i: int| 0 <= i < line.len() implies !is_ws(#[trigger] line[i]) by {
        if i < key.len() {
            assert(line[i] == key[i]);
        } else if i > key.len() {
            assert(line[i] == value[i - key.len() - 1]);
        }
    }
    assert forall|i: int| 0 <= i < line.len() implies #[trigger] line[i] != '\n' by {
        assert(!is_ws(line[i]));
    }
    crate::text::lemma_index_of_at(line, '\n', line.len() as int);
    assert(apply_text(dark_palette(), line) == apply_line(dark_palette(), line));
    lemma_no_ws_trim(line);
    lemma_no_ws_trim(key);
    lemma_no_ws_trim(value);
    assert(line[0] == key[0]);
    assert forall|i: int| 0 <= i < key.len() implies #[trigger] line[i] != ':' by {
        assert(line[i] == key[i]);
    }
    crate::text::lemma_index_of_at(line, ':', key.len() as int);
    assert(setting_colon(line) == Some(key.len() as int));
    assert(line.skip(key.len() as int + 1) =~= value);
    assert(line.take(key.len() as int) =~= key);
    assert(unquote_spec(value) == value);
    crate::text::lemma_trim_start_skip_pub(value, Trim::Whitespace, 0);
    assert(value.subrange(0, value.len() as int) =~= value);
    lemma_word_len_all(value);
    assert(value.take(value.len() as int) =~= value);
    assert(first_word(value) == value);
    assert(line_token(line, key.len() as int) == value);
}

/// Each of the fifteen theme keys sets its own colour and only it: a theme.yaml holding
/// just `key:#colour` gives the Default Dark palette with exactly that key's field (as
/// documented: main-background the background, panel-background the panel, button-color
/// the surface, ...) set to the colour.
#[verifier::spinoff_prover]
#[verifier::rlimit(60)]
pub proof fn lemma_theme_keys_set_their_fields(value: Seq<char>, c: Color)
    requires
        value.len() > 0,
        value[0] == '#',
        forall|i: int| 0 <= i < value.len() ==> !is_ws(#[trigger] value[i]),
        parse_color_spec(value) == Some(c),
    ensures
        theme_from_yaml("main-background"@ + seq![':'] + value) == (ThemeColors { background: c, ..dark_palette() }),
        theme_from_yaml("panel-background"@ + seq![':'] + value) == (ThemeColors { panel: c, ..dark_palette() }),
        theme_from_yaml("button-color"@ + seq![':'] + value) == (ThemeColors { surface: c, ..dark_palette() }),
        theme_from_yaml("button-hover-color"@ + seq![':'] + value) == (ThemeColors { hover_surface: c, ..dark_palette() }),
        theme_from_yaml("text-color"@ + seq![':'] + value) == (ThemeColors { text: c, ..dark_palette() }),
        theme_from_yaml("accent-color"@ + seq![':'] + value) == (ThemeColors { accent: c, ..dark_palette() }),
        theme_from_yaml("muted-text-color"@ + seq![':'] + value) == (ThemeColors { muted: c, ..dark_palette() }),
        theme_from_yaml("border-color"@ + seq![':'] + value) == (ThemeColors { border: c, ..dark_palette() }),
        theme_from_yaml("selected-surface-color"@ + seq![':'] + value) == (ThemeColors { selected_surface: c, ..dark_palette() }),
        theme_from_yaml("placeholder-color"@ + seq![':'] + value) == (ThemeColors { placeholder: c, ..dark_palette() }),
        theme_from_yaml("progress-track-color"@ + seq![':'] + value) == (ThemeColors { progress_track: c, ..dark_palette() }),
        theme_from_yaml("overlay-color"@ + seq![':'] + value) == (ThemeColors { overlay: c, ..dark_palette() }),
        theme_from_yaml("modal-color"@ + seq![':'] + value) == (ThemeColors { modal: c, ..dark_palette() }),
        theme_from_yaml("danger-color"@ + seq![':'] + value) == (ThemeColors { danger: c, ..dark_palette() }),
        theme_from_yaml("danger-text-color"@ + seq![':'] + value) == (ThemeColors { danger_text: c, ..dark_palette() }),
{
    assert(theme_from_yaml("main-background"@ + seq![':'] + value) == (ThemeColors { background: c, ..dark_palette() })) by {
        reveal_strlit("main-background");
        lemma_one_setting("main-background"@, value);
    }
    assert(theme_from_yaml("panel-background"@ + seq![':'] + value) == (ThemeColors { panel: c, ..dark_palette() })) by {
        reveal_strlit("main-background");
        reveal_strlit("panel-background");
        assert("panel-background"@.len() != "main-background"@.len());
        lemma_one_setting("panel-background"@, value);
    }
    assert(theme_from_yaml("button-color"@ + seq![':'] + value) == (ThemeColors { surface: c, ..dark_palette() })) by {
        reveal_strlit("main-background");
        reveal_strlit("panel-background");
        reveal_strlit("button-color");
        assert("button-color"@.len() != "main-background"@.len());
        assert("button-color"@.len() != "panel-background"@.len());
        lemma_one_setting("button-color"@, value);
    }
    assert(theme_from_yaml("button-hover-color"@ + seq![':'] + value) == (ThemeColors { hover_surface: c, ..dark_palette() })) by {
        reveal_strlit("main-background");
        reveal_strlit("panel-background");
        reveal_strlit("button-color");
        reveal_strlit("button-hover-color");
        assert("button-hover-color"@.len() != "main-background"@.len());
        assert("button-hover-color"@.len() != "panel-background"@.len());
        assert("button-hover-color"@.len() != "button-color"@.len());
        lemma_one_setting("button-hover-color"@, value);
    }
    assert(theme_from_yaml("text-color"@ + seq![':'] + value) == (ThemeColors { text: c, ..dark_palette() })) by {
        reveal_strlit("main-background");
        reveal_strlit("panel-background");
        reveal_strlit("button-color");
        reveal_strlit("button-hover-color");
        reveal_strlit("text-color");
        assert("text-color"@.len() != "main-background"@.len());
        assert("text-color"@.len() != "panel-background"@.len());
        assert("text-color"@.len() != "button-color"@.len());
        assert("text-color"@.len() != "button-hover-color"@.len());
        lemma_one_setting("text-color"@, value);
    }
    assert(theme_from_yaml("accent-color"@ + seq![':'] + value) == (ThemeColors { accent: c, ..dark_palette() })) by {
        reveal_strlit("main-background");
        reveal_strlit("panel-background");
        reveal_strlit("button-color");
        reveal_strlit("button-hover-color");
        reveal_strlit("text-color");
        reveal_strlit("accent-color");
        assert("accent-color"@.len() != "main-background"@.len());
        assert("accent-color"@.len() != "panel-background"@.len());
        assert("accent-color"@[0] != "button-color"@[0]);
        assert("accent-color"@.len() != "button-hover-color"@.len());
        assert("accent-color"@.len() != "text-color"@.len());
        lemma_one_setting("accent-color"@, value);
    }
    assert(theme_from_yaml("muted-text-color"@ + seq![':'] + value) == (ThemeColors { muted: c, ..dark_palette() })) by {
        reveal_strlit("main-background");
        reveal_strlit("panel-background");
        reveal_strlit("button-color");
        reveal_strlit("button-hover-color");
        reveal_strlit("text-color");
        reveal_strlit("accent-color");
        reveal_strlit("muted-text-color");
        assert("muted-text-color"@.len() != "main-background"@.len());
        assert("muted-text-color"@[0] != "panel-background"@[0]);
        assert("muted-text-color"@.len() != "button-color"@.len());
        assert("muted-text-color"@.len() != "button-hover-color"@.len());
        assert("muted-text-color"@.len() != "text-color"@.len());
        assert("muted-text-color"@.len() != "accent-color"@.len());
        lemma_one_setting("muted-text-color"@, value);
    }
    assert(theme_from_yaml("border-color"@ + seq![':'] + value) == (ThemeColors { border: c, ..dark_palette() })) by {
        reveal_strlit("main-background");
        reveal_strlit("panel-background");
        reveal_strlit("button-color");
        reveal_strlit("button-hover-color");
        reveal_strlit("text-color");
        reveal_strlit("accent-color");
        reveal_strlit("muted-text-color");
        reveal_strlit("border-color");
        assert("border-color"@.len() != "main-background"@.len());
        assert("border-color"@.len() != "panel-background"@.len());
        assert("border-color"@[1] != "button-color"@[1]);
        assert("border-color"@.len() != "button-hover-color"@.len());
        assert("border-color"@.len() != "text-color"@.len());
        assert("border-color"@[0] != "accent-color"@[0]);
        assert("border-color"@.len() != "muted-text-color"@.len());
        lemma_one_setting("border-color"@, value);
    }
    assert(theme_from_yaml("selected-surface-color"@ + seq![':'] + value) == (ThemeColors { selected_surface: c, ..dark_palette() })) by {
        reveal_strlit("main-background");
        reveal_strlit("panel-background");
        reveal_strlit("button-color");
        reveal_strlit("button-hover-color");
        reveal_strlit("text-color");
        reveal_strlit("accent-color");
        reveal_strlit("muted-text-color");
        reveal_strlit("border-color");
        reveal_strlit("selected-surface-color");
        assert("selected-surface-color"@.len() != "main-background"@.len());
        assert("selected-surface-color"@.len() != "panel-background"@.len());
        assert("selected-surface-color"@.len() != "button-color"@.len());
        assert("selected-surface-color"@.len() != "button-hover-color"@.len());
        assert("selected-surface-color"@.len() != "text-color"@.len());
        assert("selected-surface-color"@.len() != "accent-color"@.len());
        assert("selected-surface-color"@.len() != "muted-text-color"@.len());
        assert("selected-surface-color"@.len() != "border-color"@.len());
        lemma_one_setting("selected-surface-color"@, value);
    }
    assert(theme_from_yaml("placeholder-color"@ + seq![':'] + value) == (ThemeColors { placeholder: c, ..dark_palette() })) by {
        reveal_strlit("main-background");
        reveal_strlit("panel-background");
        reveal_strlit("button-color");
        reveal_strlit("button-hover-color");
        reveal_strlit("text-color");
        reveal_strlit("accent-color");
        reveal_strlit("muted-text-color");
        reveal_strlit("border-color");
        reveal_strlit("selected-surface-color");
        reveal_strlit("placeholder-color");
        assert("placeholder-color"@.len() != "main-background"@.len());
        assert("placeholder-color"@.len() != "panel-background"@.len());
        assert("placeholder-color"@.len() != "button-color"@.len());
        assert("placeholder-color"@.len() != "button-hover-color"@.len());
        assert("placeholder-color"@.len() != "text-color"@.len());
        assert("placeholder-color"@.len() != "accent-color"@.len());
        assert("placeholder-color"@.len() != "muted-text-color"@.len());
        assert("placeholder-color"@.len() != "border-color"@.len());
        assert("placeholder-color"@.len() != "selected-surface-color"@.len());
        lemma_one_setting("placeholder-color"@, value);
    }
    assert(theme_from_yaml("progress-track-color"@ + seq![':'] + value) == (ThemeColors { progress_track: c, ..dark_palette() })) by {
        reveal_strlit("main-background");
        reveal_strlit("panel-background");
        reveal_strlit("button-color");
        reveal_strlit("button-hover-color");
        reveal_strlit("text-color");
        reveal_strlit("accent-color");
        reveal_strlit("muted-text-color");
        reveal_strlit("border-color");
        reveal_strlit("selected-surface-color");
        reveal_strlit("placeholder-color");
        reveal_strlit("progress-track-color");
        assert("progress-track-color"@.len() != "main-background"@.len());
        assert("progress-track-color"@.len() != "panel-background"@.len());
        assert("progress-track-color"@.len() != "button-color"@.len());
        assert("progress-track-color"@.len() != "button-hover-color"@.len());
        assert("progress-track-color"@.len() != "text-color"@.len());
        assert("progress-track-color"@.len() != "accent-color"@.len());
        assert("progress-track-color"@.len() != "muted-text-color"@.len());
        assert("progress-track-color"@.len() != "border-color"@.len());
        assert("progress-track-color"@.len() != "selected-surface-color"@.len());
        assert("progress-track-color"@.len() != "placeholder-color"@.len());
        lemma_one_setting("progress-track-color"@, value);
    }
    assert(theme_from_yaml("overlay-color"@ + seq![':'] + value) == (ThemeColors { overlay: c, ..dark_palette() })) by {
        reveal_strlit("main-background");
        reveal_strlit("panel-background");
        reveal_strlit("button-color");
        reveal_strlit("button-hover-color");
        reveal_strlit("text-color");
        reveal_strlit("accent-color");
        reveal_strlit("muted-text-color");
        reveal_strlit("border-color");
        reveal_strlit("selected-surface-color");
        reveal_strlit("placeholder-color");
        reveal_strlit("progress-track-color");
        reveal_strlit("overlay-color");
        assert("overlay-color"@.len() != "main-background"@.len());
        assert("overlay-color"@.len() != "panel-background"@.len());
        assert("overlay-color"@.len() != "button-color"@.len());
        assert("overlay-color"@.len() != "button-hover-color"@.len());
        assert("overlay-color"@.len() != "text-color"@.len());
        assert("overlay-color"@.len() != "accent-color"@.len());
        assert("overlay-color"@.len() != "muted-text-color"@.len());
        assert("overlay-color"@.len() != "border-color"@.len());
        assert("overlay-color"@.len() != "selected-surface-color"@.len());
        assert("overlay-color"@.len() != "placeholder-color"@.len());
        assert("overlay-color"@.len() != "progress-track-color"@.len());
        lemma_one_setting("overlay-color"@, value);
    }
    assert(theme_from_yaml("modal-color"@ + seq![':'] + value) == (ThemeColors { modal: c, ..dark_palette() })) by {
        reveal_strlit("main-background");
        reveal_strlit("panel-background");
        reveal_strlit("button-color");
        reveal_strlit("button-hover-color");
        reveal_strlit("text-color");
        reveal_strlit("accent-color");
        reveal_strlit("muted-text-color");
        reveal_strlit("border-color");
        reveal_strlit("selected-surface-color");
        reveal_strlit("placeholder-color");
        reveal_strlit("progress-track-color");
        reveal_strlit("overlay-color");
        reveal_strlit("modal-color");
        assert("modal-color"@.len() != "main-background"@.len());
        assert("modal-color"@.len() != "panel-background"@.len());
        assert("modal-color"@.len() != "button-color"@.len());
        assert("modal-color"@.len() != "button-hover-color"@.len());
        assert("modal-color"@.len() != "text-color"@.len());
        assert("modal-color"@.len() != "accent-color"@.len());
        assert("modal-color"@.len() != "muted-text-color"@.len());
        assert("modal-color"@.len() != "border-color"@.len());
        assert("modal-color"@.len() != "selected-surface-color"@.len());
        assert("modal-color"@.len() != "placeholder-color"@.len());
        assert("modal-color"@.len() != "progress-track-color"@.len());
        assert("modal-color"@.len() != "overlay-color"@.len());
        lemma_one_setting("modal-color"@, value);
    }
    assert(theme_from_yaml("danger-color"@ + seq![':'] + value) == (ThemeColors { danger: c, ..dark_palette() })) by {
        reveal_strlit("main-background");
        reveal_strlit("panel-background");
        reveal_strlit("button-color");
        reveal_strlit("button-hover-color");
        reveal_strlit("text-color");
        reveal_strlit("accent-color");
        reveal_strlit("muted-text-color");
        reveal_strlit("border-color");
        reveal_strlit("selected-surface-color");
        reveal_strlit("placeholder-color");
        reveal_strlit("progress-track-color");
        reveal_strlit("overlay-color");
        reveal_strlit("modal-color");
        reveal_strlit("danger-color");
        assert("danger-color"@.len() != "main-background"@.len());
        assert("danger-color"@.len() != "panel-background"@.len());
        assert("danger-color"@[0] != "button-color"@[0]);
        assert("danger-color"@.len() != "button-hover-color"@.len());
        assert("danger-color"@.len() != "text-color"@.len());
        assert("danger-color"@[0] != "accent-color"@[0]);
        assert("danger-color"@.len() != "muted-text-color"@.len());
        assert("danger-color"@[0] != "border-color"@[0]);
        assert("danger-color"@.len() != "selected-surface-color"@.len());
        assert("danger-color"@.len() != "placeholder-color"@.len());
        assert("danger-color"@.len() != "progress-track-color"@.len());
        assert("danger-color"@.len() != "overlay-color"@.len());
        assert("danger-color"@.len() != "modal-color"@.len());
        lemma_one_setting("danger-color"@, value);
    }
    assert(theme_from_yaml("danger-text-color"@ + seq![':'] + value) == (ThemeColors { danger_text: c, ..dark_palette() })) by {
        reveal_strlit("main-background");
        reveal_strlit("panel-background");
        reveal_strlit("button-color");
        reveal_strlit("button-hover-color");
        reveal_strlit("text-color");
        reveal_strlit("accent-color");
        reveal_strlit("muted-text-color");
        reveal_strlit("border-color");
        reveal_strlit("selected-surface-color");
        reveal_strlit("placeholder-color");
        reveal_strlit("progress-track-color");
        reveal_strlit("overlay-color");
        reveal_strlit("modal-color");
        reveal_strlit("danger-color");
        reveal_strlit("danger-text-color");
        assert("danger-text-color"@.len() != "main-background"@.len());
        assert("danger-text-color"@.len() != "panel-background"@.len());
        assert("danger-text-color"@.len() != "button-color"@.len());
        assert("danger-text-color"@.len() != "button-hover-color"@.len());
        assert("danger-text-color"@.len() != "text-color"@.len());
        assert("danger-text-color"@.len() != "accent-color"@.len());
        assert("danger-text-color"@.len() != "muted-text-color"@.len());
        assert("danger-text-color"@.len() != "border-color"@.len());
        assert("danger-text-color"@.len() != "selected-surface-color"@.len());
        assert("danger-text-color"@[0] != "placeholder-color"@[0]);
        assert("danger-text-color"@.len() != "progress-track-color"@.len());
        assert("danger-text-color"@.len() != "overlay-color"@.len());
        assert("danger-text-color"@.len() != "modal-color"@.len());
        assert("danger-text-color"@.len() != "danger-color"@.len());
        lemma_one_setting("danger-text-color"@, value);
    }
}

/// A short colour `#rgb` is the long colour with each digit doubled: `#abc` is `#aabbcc`.
pub proof fn lemma_short_hex_doubles(r: char, g: char, b: char)
    requires
        r <= '\u{7f}' && crate::theme::is_hex_digit(r as u8),
        g <= '\u{7f}' && crate::theme::is_hex_digit(g as u8),
        b <= '\u{7f}' && crate::theme::is_hex_digit(b as u8),
    ensures
        parse_color_spec(seq!['#', r, g, b]) is Some,
        parse_color_spec(seq!['#', r, g, b]) == parse_color_spec(seq!['#', r, r, g, g, b, b]),
{
    let short = seq!['#', r, g, b];
    let long = seq!['#', r, r, g, g, b, b];
    lemma_no_ws_trim(short);
    lemma_no_ws_trim(long);
    let hs = short.drop_first();
    let hl = long.drop_first();
    lemma_ascii_bytes(hs);
    lemma_ascii_bytes(hl);
    let bs = vstd::utf8::encode_utf8(hs);
    let bl = vstd::utf8::encode_utf8(hl);
    assert(bs.len() == 3 && bl.len() == 6);
    assert(bs[0] == r as u8 && bs[1] == g as u8 && bs[2] == b as u8);
    assert(bl[0] == r as u8 && bl[1] == r as u8 && bl[2] == g as u8 && bl[3] == g as u8 && bl[4] == b as u8 && bl[5] == b as u8);
    assert(pairs_read(bl, 3)) by {
        assert forall|q: int| 0 <= q < 3 implies (#[trigger] hex_pair(bl, 2 * q)) is Some by {}
    }
}

proof fn lemma_no_ws_trim(s: Seq<char>)
    requires
        s.len() > 0,
        forall|i: int| 0 <= i < s.len() ==> !is_ws(#[trigger] s[i]),
    ensures
        trim_ws(s) == s,
{
    crate::text::lemma_trim_start_skip_pub(s, Trim::Whitespace, 0);
    assert(s.subrange(0, s.len() as int) =~= s);
    assert(crate::text::trim_end(s, Trim::Whitespace) == s);
}

proof fn lemma_ascii_bytes(s: Seq<char>)
    requires
        forall|i: int| 0 <= i < s.len() ==> '\0' <= #[trigger] s[i] <= '\u{7f}',
    ensures
        vstd::utf8::encode_utf8(s) =~= Seq::new(s.len(), |i: int| s[i] as u8),
{
    assert(vstd::utf8::is_ascii_chars(s));
    vstd::utf8::is_ascii_chars_encode_utf8(s);
}

} // verus!
