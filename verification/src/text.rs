//! Character classes, trimming, decimal rendering, ordering and small string utilities.
//!
//! Strings are modelled by their character sequences (`Seq<char>`), the view that vstd
//! gives `str` and `String`.
use vstd::prelude::*;

verus! {

/// Calls `String::push`, which std documents as appending `c` to the end of the string;
/// the contract claims that the characters afterwards are the old ones followed by `c`.
#[verifier::external_body]
fn push_char(s: &mut String, c: char)
    ensures
        final(s)@ == old(s)@.push(c),
{
    s.push(c);
}

/// The characters of a string slice, in order.
pub fn chars_of(s: &str) -> (v: Vec<char>)
    ensures
        v@ == s@,
{
    let mut v: Vec<char> = Vec::new();
    for c in it: s.chars()
        invariant
            v@ == it.seq().take(it.index() as int),
            it.seq() == s@,
    {
        v.push(c);
    }
    v
}

/// Builds a string from a sequence of characters.
pub fn string_from_chars(v: &Vec<char>) -> (s: String)
    ensures
        s@ == v@,
{
    let mut s = String::new();
    let mut i: usize = 0;
    while i < v.len()
        invariant
            i <= v.len(),
            s@ == v@.take(i as int),
        decreases v.len() - i,
    {
        push_char(&mut s, v[i]);
        i += 1;
        assert(v@.take(i as int) == v@.take(i - 1).push(v@[i - 1]));
    }
    assert(v@.take(v.len() as int) == v@);
    s
}

/// Appends the characters of `v` to `out`.
pub fn extend_chars(out: &mut Vec<char>, v: &Vec<char>)
    ensures
        final(out)@ == old(out)@ + v@,
{
    let mut i: usize = 0;
    while i < v.len()
        invariant
            i <= v.len(),
            out@ == old(out)@ + v@.take(i as int),
        decreases v.len() - i,
    {
        out.push(v[i]);
        i += 1;
        assert(v@.take(i as int) == v@.take(i - 1).push(v@[i - 1]));
    }
    assert(v@.take(v.len() as int) == v@);
}

/// Appends the characters of a string slice to `out`.
pub fn extend_str(out: &mut Vec<char>, s: &str)
    ensures
        final(out)@ == old(out)@ + s@,
{
    let v = chars_of(s);
    extend_chars(out, &v);
}

/// The characters `v[a..b]`.
pub fn sub_chars(v: &Vec<char>, a: usize, b: usize) -> (r: Vec<char>)
    requires
        a <= b <= v.len(),
    ensures
        r@ == v@.subrange(a as int, b as int),
{
    let mut r: Vec<char> = Vec::new();
    let mut i: usize = a;
    while i < b
        invariant
            a <= i <= b <= v.len(),
            r@ == v@.subrange(a as int, i as int),
        decreases b - i,
    {
        r.push(v[i]);
        i += 1;
        assert(v@.subrange(a as int, i as int) == v@.subrange(a as int, i - 1).push(v@[i - 1]));
    }
    r
}

/// Whether two character vectors are equal.
pub fn chars_equal(a: &Vec<char>, b: &Vec<char>) -> (r: bool)
    ensures
        r == (a@ == b@),
{
    if a.len() != b.len() {
        return false;
    }
    let mut i: usize = 0;
    while i < a.len()
        invariant
            a.len() == b.len(),
            i <= a.len(),
            forall|j: int| 0 <= j < i ==> a@[j] == b@[j],
        decreases a.len() - i,
    {
        if a[i] != b[i] {
            return false;
        }
        i += 1;
    }
    assert(a@ =~= b@);
    true
}

/// Whether the characters equal those of a string slice.
pub fn chars_equal_str(a: &Vec<char>, s: &str) -> (r: bool)
    ensures
        r == (a@ == s@),
{
    let b = chars_of(s);
    chars_equal(a, &b)
}

/// The position of the first `c` in `s`.
pub open spec fn index_of(s: Seq<char>, c: char) -> Option<int>
    decreases s.len(),
{
    if s.len() == 0 {
        None
    } else if s[0] == c {
        Some(0)
    } else {
        match index_of(s.drop_first(), c) {
            Some(i) => Some(i + 1),
            None => None,
        }
    }
}

pub proof fn lemma_index_of_found(s: Seq<char>, c: char)
    ensures
        index_of(s, c) matches Some(i) ==> 0 <= i < s.len() && s[i] == c && forall|k: int|
            0 <= k < i ==> s[k] != c,
        index_of(s, c) is None ==> forall|k: int| 0 <= k < s.len() ==> s[k] != c,
    decreases s.len(),
{
    if s.len() > 0 {
        lemma_index_of_found(s.drop_first(), c);
        if s[0] != c {
            assert forall|k: int| 1 <= k < s.len() implies s[k] == s.drop_first()[k - 1] by {}
        }
    }
}

pub proof fn lemma_index_of_at(s: Seq<char>, c: char, i: int)
    requires
        0 <= i <= s.len(),
        forall|k: int| 0 <= k < i ==> s[k] != c,
        i < s.len() ==> s[i] == c,
    ensures
        index_of(s, c) == if i < s.len() { Some(i) } else { None::<int> },
    decreases i,
{
    if i > 0 {
        lemma_index_of_at(s.drop_first(), c, i - 1);
    }
}

/// The position of the first `c` in `v[from..]`, or `v.len()`.
pub fn find_char(v: &Vec<char>, from: usize, c: char) -> (r: usize)
    requires
        from <= v.len(),
    ensures
        from <= r <= v.len(),
        index_of(v@.skip(from as int), c) == if r < v.len() { Some(r - from) } else { None::<int> },
{
    let mut i = from;
    while i < v.len() && v[i] != c
        invariant
            from <= i <= v.len(),
            forall|k: int| from <= k < i ==> v@[k] != c,
        decreases v.len() - i,
    {
        i += 1;
    }
    proof {
        lemma_index_of_at(v@.skip(from as int), c, i - from);
    }
    i
}

/// Unicode `White_Space`, as `char::is_whitespace` documents it.
pub open spec fn is_ws(c: char) -> bool {
    ||| '\t' <= c <= '\r'
    ||| c == ' '
    ||| c == '\u{85}'
    ||| c == '\u{a0}'
    ||| c == '\u{1680}'
    ||| '\u{2000}' <= c <= '\u{200a}'
    ||| c == '\u{2028}'
    ||| c == '\u{2029}'
    ||| c == '\u{202f}'
    ||| c == '\u{205f}'
    ||| c == '\u{3000}'
}

/// General category `Cc`, as `char::is_control` documents it.
pub open spec fn is_ctrl(c: char) -> bool {
    c <= '\u{1f}' || ('\u{7f}' <= c <= '\u{9f}')
}

pub fn is_whitespace_char(c: char) -> (r: bool)
    ensures
        r == is_ws(c),
{
    ('\t' <= c && c <= '\r') || c == ' ' || c == '\u{85}' || c == '\u{a0}' || c == '\u{1680}'
        || ('\u{2000}' <= c && c <= '\u{200a}') || c == '\u{2028}' || c == '\u{2029}'
        || c == '\u{202f}' || c == '\u{205f}' || c == '\u{3000}'
}

pub fn is_control_char(c: char) -> (r: bool)
    ensures
        r == is_ctrl(c),
{
    c <= '\u{1f}' || ('\u{7f}' <= c && c <= '\u{9f}')
}

/// Which characters a trim removes.
#[derive(Clone, Copy)]
pub enum Trim {
    /// Unicode whitespace (`str::trim`).
    Whitespace,
    /// One given character (`str::trim_matches`).
    Exactly(char),
}

pub open spec fn trimmed_by(t: Trim, c: char) -> bool {
    match t {
        Trim::Whitespace => is_ws(c),
        Trim::Exactly(d) => c == d,
    }
}

/// `s` without its leading characters that `t` removes.
pub open spec fn trim_start(s: Seq<char>, t: Trim) -> Seq<char>
    decreases s.len(),
{
    if s.len() > 0 && trimmed_by(t, s[0]) {
        trim_start(s.drop_first(), t)
    } else {
        s
    }
}

/// `s` without its trailing characters that `t` removes.
pub open spec fn trim_end(s: Seq<char>, t: Trim) -> Seq<char>
    decreases s.len(),
{
    if s.len() > 0 && trimmed_by(t, s.last()) {
        trim_end(s.drop_last(), t)
    } else {
        s
    }
}

/// `s` without the leading and trailing characters that `t` removes.
pub open spec fn trim(s: Seq<char>, t: Trim) -> Seq<char> {
    trim_end(trim_start(s, t), t)
}

/// `str::trim`: no leading or trailing Unicode whitespace.
pub open spec fn trim_ws(s: Seq<char>) -> Seq<char> {
    trim(s, Trim::Whitespace)
}

fn trims(t: Trim, c: char) -> (r: bool)
    ensures
        r == trimmed_by(t, c),
{
    match t {
        Trim::Whitespace => is_whitespace_char(c),
        Trim::Exactly(d) => c == d,
    }
}

proof fn lemma_trim_start_skip(s: Seq<char>, t: Trim, i: int)
    requires
        0 <= i <= s.len(),
        forall|j: int| 0 <= j < i ==> trimmed_by(t, #[trigger] s[j]),
    ensures
        trim_start(s, t) == trim_start(s.subrange(i, s.len() as int), t),
    decreases i,
{
    if i > 0 {
        assert(trimmed_by(t, s[0]));
        lemma_trim_start_skip(s.drop_first(), t, i - 1);
        assert(s.drop_first().subrange(i - 1, s.drop_first().len() as int) =~= s.subrange(
            i,
            s.len() as int,
        ));
    } else {
        assert(s.subrange(0, s.len() as int) =~= s);
    }
}

pub proof fn lemma_trim_start_skip_pub(s: Seq<char>, t: Trim, i: int)
    requires
        0 <= i <= s.len(),
        forall|j: int| 0 <= j < i ==> trimmed_by(t, #[trigger] s[j]),
        i == s.len() || !trimmed_by(t, s[i]),
    ensures
        trim_start(s, t) == s.subrange(i, s.len() as int),
{
    lemma_trim_start_skip(s, t, i);
}

proof fn lemma_trim_end_skip(s: Seq<char>, t: Trim, i: int)
    requires
        0 <= i <= s.len(),
        forall|j: int| i <= j < s.len() ==> trimmed_by(t, #[trigger] s[j]),
    ensures
        trim_end(s, t) == trim_end(s.subrange(0, i), t),
    decreases s.len() - i,
{
    if i < s.len() {
        assert(trimmed_by(t, s.last()));
        lemma_trim_end_skip(s.drop_last(), t, i);
        assert(s.drop_last().subrange(0, i) =~= s.subrange(0, i));
    } else {
        assert(s.subrange(0, i) =~= s);
    }
}

/// A trimmed text is a contiguous part of the text, and its ends are not trimmed
/// characters.
pub proof fn lemma_trim_is_infix(s: Seq<char>, t: Trim) -> (j: int)
    ensures
        0 <= j,
        j + trim(s, t).len() <= s.len(),
        trim(s, t) =~= s.subrange(j, j + trim(s, t).len()),
        trim(s, t).len() > 0 ==> !trimmed_by(t, trim(s, t)[0]) && !trimmed_by(t, trim(s, t).last()),
{
    lemma_trim_start_infix(s, t);
    let a = trim_start(s, t);
    lemma_trim_end_prefix(a, t);
    let j = s.len() - a.len();
    assert(trim(s, t) =~= s.subrange(j, j + trim(s, t).len()));
    j
}

proof fn lemma_trim_start_infix(s: Seq<char>, t: Trim)
    ensures
        trim_start(s, t).len() <= s.len(),
        trim_start(s, t) =~= s.subrange(s.len() - trim_start(s, t).len(), s.len() as int),
        trim_start(s, t).len() > 0 ==> !trimmed_by(t, trim_start(s, t)[0]),
    decreases s.len(),
{
    if s.len() > 0 && trimmed_by(t, s[0]) {
        lemma_trim_start_infix(s.drop_first(), t);
        let r = trim_start(s, t);
        assert(s.drop_first().subrange(s.drop_first().len() - r.len(), s.drop_first().len() as int)
            =~= s.subrange(s.len() - r.len(), s.len() as int));
    } else {
        assert(s.subrange(0, s.len() as int) =~= s);
    }
}

proof fn lemma_trim_end_prefix(s: Seq<char>, t: Trim)
    ensures
        trim_end(s, t).len() <= s.len(),
        trim_end(s, t) =~= s.subrange(0, trim_end(s, t).len() as int),
        trim_end(s, t).len() > 0 ==> !trimmed_by(t, trim_end(s, t).last()),
        trim_end(s, t).len() > 0 && s.len() > 0 && !trimmed_by(t, s[0]) ==> !trimmed_by(t, trim_end(s, t)[0]),
        s.len() > 0 && !trimmed_by(t, s[0]) ==> trim_end(s, t).len() > 0,
    decreases s.len(),
{
    if s.len() > 0 && trimmed_by(t, s.last()) {
        lemma_trim_end_prefix(s.drop_last(), t);
        let r = trim_end(s, t);
        assert(s.drop_last().subrange(0, r.len() as int) =~= s.subrange(0, r.len() as int));
        if r.len() > 0 {
            assert(r[0] == s.drop_last()[0]);
        }
    } else {
        assert(s.subrange(0, s.len() as int) =~= s);
    }
}

/// The bounds `(a, b)` of `trim(v, t)` inside `v`.
pub fn trim_bounds(v: &Vec<char>, t: Trim) -> (r: (usize, usize))
    ensures
        r.0 <= r.1 <= v.len(),
        v@.subrange(r.0 as int, r.1 as int) == trim(v@, t),
{
    let mut a: usize = 0;
    while a < v.len() && trims(t, v[a])
        invariant
            a <= v.len(),
            forall|j: int| 0 <= j < a ==> trimmed_by(t, #[trigger] v@[j]),
        decreases v.len() - a,
    {
        a += 1;
    }
    proof {
        lemma_trim_start_skip(v@, t, a as int);
    }
    let ghost rest = v@.subrange(a as int, v.len() as int);
    assert(trim_start(rest, t) == rest);
    let mut b: usize = v.len();
    while b > a && trims(t, v[b - 1])
        invariant
            a <= b <= v.len(),
            forall|j: int| b <= j < v.len() ==> trimmed_by(t, #[trigger] v@[j]),
        decreases b,
    {
        b -= 1;
    }
    proof {
        let k = b - a;
        assert forall|j: int| k <= j < rest.len() implies trimmed_by(t, #[trigger] rest[j]) by {
            assert(rest[j] == v@[a + j]);
        }
        lemma_trim_end_skip(rest, t, k);
        assert(rest.subrange(0, k) =~= v@.subrange(a as int, b as int));
    }
    (a, b)
}

/// `trim(v, t)` as a new vector.
pub fn trim_chars(v: &Vec<char>, t: Trim) -> (r: Vec<char>)
    ensures
        r@ == trim(v@, t),
{
    let (a, b) = trim_bounds(v, t);
    sub_chars(v, a, b)
}

/// The decimal digit for `d < 10`.
pub open spec fn digit(d: nat) -> char {
    if d == 0 { '0' }
    else if d == 1 { '1' }
    else if d == 2 { '2' }
    else if d == 3 { '3' }
    else if d == 4 { '4' }
    else if d == 5 { '5' }
    else if d == 6 { '6' }
    else if d == 7 { '7' }
    else if d == 8 { '8' }
    else { '9' }
}

/// The decimal representation of `n`, without leading zeros (`0` is `"0"`).
pub open spec fn decimal(n: nat) -> Seq<char>
    decreases n,
{
    if n < 10 {
        seq![digit(n)]
    } else {
        decimal(n / 10).push(digit(n % 10))
    }
}

/// `s` left-padded with `'0'` to at least `width` characters.
pub open spec fn zero_pad(s: Seq<char>, width: nat) -> Seq<char> {
    if s.len() >= width {
        s
    } else {
        Seq::new((width - s.len()) as nat, |i: int| '0') + s
    }
}

fn digit_char(d: u64) -> (c: char)
    requires
        d < 10,
    ensures
        c == digit(d as nat),
{
    if d == 0 { '0' }
    else if d == 1 { '1' }
    else if d == 2 { '2' }
    else if d == 3 { '3' }
    else if d == 4 { '4' }
    else if d == 5 { '5' }
    else if d == 6 { '6' }
    else if d == 7 { '7' }
    else if d == 8 { '8' }
    else { '9' }
}

pub open spec fn pow10(k: nat) -> nat
    decreases k,
{
    if k == 0 { 1 } else { 10 * pow10((k - 1) as nat) }
}

pub proof fn lemma_decimal_nonempty(n: nat)
    ensures
        decimal(n).len() >= 1,
    decreases n,
{
    if n >= 10 {
        lemma_decimal_nonempty(n / 10);
    }
}

pub proof fn lemma_decimal_len(n: nat, k: nat)
    requires
        1 <= k,
        n < pow10(k),
    ensures
        1 <= decimal(n).len() <= k,
    decreases n,
{
    if n >= 10 {
        if k == 1 {
            assert(pow10(1) == 10) by {
                reveal_with_fuel(pow10, 2);
            }
        }
        assert(k >= 2);
        assert(n / 10 < pow10((k - 1) as nat));
        lemma_decimal_len(n / 10, (k - 1) as nat);
    }
}

/// Appends the decimal representation of `n` to `out`.
pub fn push_decimal(out: &mut Vec<char>, n: u64)
    ensures
        final(out)@ == old(out)@ + decimal(n as nat),
    decreases n,
{
    if n < 10 {
        out.push(digit_char(n));
        assert(decimal(n as nat) =~= seq![digit(n as nat)]);
    } else {
        push_decimal(out, n / 10);
        out.push(digit_char(n % 10));
        assert(old(out)@ + decimal(n as nat) =~= old(out)@ + decimal((n / 10) as nat) + seq![
            digit((n % 10) as nat),
        ]);
    }
}

/// Appends `decimal(n)` left-padded with zeros to `width` characters.
pub fn push_decimal_padded(out: &mut Vec<char>, n: u64, width: usize)
    requires
        width <= 20,
    ensures
        final(out)@ == old(out)@ + zero_pad(decimal(n as nat), width as nat),
{
    let mut digits: Vec<char> = Vec::new();
    push_decimal(&mut digits, n);
    assert(digits@ =~= decimal(n as nat));
    proof {
        reveal_with_fuel(pow10, 21);
        assert(pow10(20) == 100_000_000_000_000_000_000nat);
        lemma_decimal_len(n as nat, 20);
    }
    let mut pad: Vec<char> = Vec::new();
    if digits.len() < width {
        let missing = width - digits.len();
        let mut i: usize = 0;
        while i < missing
            invariant
                i <= missing,
                pad@ == Seq::new(i as nat, |j: int| '0'),
            decreases missing - i,
        {
            pad.push('0');
            i += 1;
            assert(pad@ =~= Seq::new(i as nat, |j: int| '0'));
        }
    }
    extend_chars(out, &pad);
    extend_chars(out, &digits);
    assert(old(out)@ + pad@ + digits@ =~= old(out)@ + zero_pad(decimal(n as nat), width as nat));
}

/// The decimal representation of `n` as a string (`u64::to_string`).
pub fn u64_to_string(n: u64) -> (s: String)
    ensures
        s@ == decimal(n as nat),
{
    let mut v: Vec<char> = Vec::new();
    push_decimal(&mut v, n);
    assert(v@ =~= decimal(n as nat));
    string_from_chars(&v)
}

/// `char::to_ascii_lowercase`.
pub open spec fn ascii_lower(c: char) -> char {
    if 'A' <= c <= 'Z' {
        ((c as u32) + 32) as char
    } else {
        c
    }
}

/// `str::to_ascii_lowercase`.
pub open spec fn ascii_lowercase(s: Seq<char>) -> Seq<char> {
    s.map_values(|c: char| ascii_lower(c))
}

pub fn ascii_lower_char(c: char) -> (r: char)
    ensures
        r == ascii_lower(c),
{
    if 'A' <= c && c <= 'Z' {
        let u = (c as u8) + 32;
        u as char
    } else {
        c
    }
}

pub fn ascii_lowercase_chars(v: &Vec<char>) -> (r: Vec<char>)
    ensures
        r@ == ascii_lowercase(v@),
{
    let mut r: Vec<char> = Vec::new();
    let mut i: usize = 0;
    while i < v.len()
        invariant
            i <= v.len(),
            r@ == ascii_lowercase(v@.take(i as int)),
        decreases v.len() - i,
    {
        r.push(ascii_lower_char(v[i]));
        i += 1;
        assert(ascii_lowercase(v@.take(i as int)) =~= ascii_lowercase(v@.take(i - 1)).push(
            ascii_lower(v@[i - 1]),
        ));
    }
    assert(v@.take(v.len() as int) =~= v@);
    r
}

/// `ascii_lower` ignoring case differences: equal for two spellings of one word.
pub open spec fn eq_ignore_ascii_case(a: Seq<char>, b: Seq<char>) -> bool {
    ascii_lowercase(a) == ascii_lowercase(b)
}

/// `str::eq_ignore_ascii_case`.
pub fn chars_eq_ignore_ascii_case(a: &Vec<char>, b: &Vec<char>) -> (r: bool)
    ensures
        r == eq_ignore_ascii_case(a@, b@),
{
    let la = ascii_lowercase_chars(a);
    let lb = ascii_lowercase_chars(b);
    chars_equal(&la, &lb)
}

/// Lexicographic order on character sequences by code point, which is the order of
/// `str`'s `Ord` (UTF-8 byte order and code point order agree).
pub open spec fn seq_less(a: Seq<char>, b: Seq<char>) -> bool
    decreases a.len(),
{
    if a.len() == 0 {
        b.len() > 0
    } else if b.len() == 0 {
        false
    } else if a[0] != b[0] {
        a[0] < b[0]
    } else {
        seq_less(a.drop_first(), b.drop_first())
    }
}

pub proof fn lemma_seq_less_irreflexive(a: Seq<char>)
    ensures
        !seq_less(a, a),
    decreases a.len(),
{
    if a.len() > 0 {
        lemma_seq_less_irreflexive(a.drop_first());
    }
}

pub proof fn lemma_seq_less_total(a: Seq<char>, b: Seq<char>)
    ensures
        seq_less(a, b) || a == b || seq_less(b, a),
    decreases a.len(),
{
    if a.len() > 0 && b.len() > 0 && a[0] == b[0] {
        lemma_seq_less_total(a.drop_first(), b.drop_first());
        if a.drop_first() == b.drop_first() {
            assert(a =~= seq![a[0]] + a.drop_first());
            assert(b =~= seq![b[0]] + b.drop_first());
        }
    } else if a.len() == 0 && b.len() == 0 {
        assert(a =~= b);
    }
}

pub proof fn lemma_seq_less_asymmetric(a: Seq<char>, b: Seq<char>)
    ensures
        !(seq_less(a, b) && seq_less(b, a)),
    decreases a.len(),
{
    if a.len() > 0 && b.len() > 0 && a[0] == b[0] {
        lemma_seq_less_asymmetric(a.drop_first(), b.drop_first());
    }
}

pub proof fn lemma_seq_less_transitive(a: Seq<char>, b: Seq<char>, c: Seq<char>)
    requires
        seq_less(a, b),
        seq_less(b, c),
    ensures
        seq_less(a, c),
    decreases a.len(),
{
    if a.len() > 0 && b.len() > 0 && c.len() > 0 && a[0] == b[0] && b[0] == c[0] {
        lemma_seq_less_transitive(a.drop_first(), b.drop_first(), c.drop_first());
    }
}

/// Whether `a` sorts strictly before `b` (`seq_less`).
pub fn chars_less(a: &Vec<char>, b: &Vec<char>) -> (r: bool)
    ensures
        r == seq_less(a@, b@),
{
    let mut i: usize = 0;
    assert(a@.skip(0) =~= a@);
    assert(b@.skip(0) =~= b@);
    while i < a.len() && i < b.len() && a[i] == b[i]
        invariant
            i <= a.len(),
            i <= b.len(),
            forall|j: int| 0 <= j < i ==> a@[j] == b@[j],
            seq_less(a@, b@) == seq_less(a@.skip(i as int), b@.skip(i as int)),
        decreases a.len() - i,
    {
        assert(a@.skip(i as int).drop_first() =~= a@.skip(i + 1));
        assert(b@.skip(i as int).drop_first() =~= b@.skip(i + 1));
        i += 1;
    }
    if i == a.len() {
        i < b.len()
    } else if i == b.len() {
        false
    } else {
        a[i] < b[i]
    }
}

} // verus!
