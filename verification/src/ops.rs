//! Library operations: folder names for downloaded apps, the executables and library
//! listings, the error log, and file-name tests.
use vstd::prelude::*;
use vstd::set_lib::{set_int_range, lemma_int_range, lemma_len_subset};
use crate::calendar::{format_rfc3339, is_rfc3339_of};
use crate::net::{file_name_from_url, url_file_name};
use crate::sorting::{sort_by_keys, is_stable_sort, keys_view};
use crate::state::{Config, ErrorEntry, ExecutableChoice, LibraryEntry, Paths, path_components,
    components_of, path_starts_with, native_path, native_path_string, Platform,
    path_join, join_path, opt_string_view};
use crate::text::{chars_of, chars_equal, chars_equal_str, extend_str, extend_chars, sub_chars, ascii_lowercase,
    ascii_lowercase_chars, eq_ignore_ascii_case, chars_eq_ignore_ascii_case, string_from_chars, trim, trim_chars, is_ctrl, is_control_char, decimal, digit, push_decimal, lemma_decimal_nonempty, Trim};

verus! {

/// Characters that `sanitize_name` replaces by `'_'`: those that Windows forbids in file
/// names, and control characters.
pub open spec fn is_illegal_name_char(c: char) -> bool {
    c == '<' || c == '>' || c == ':' || c == '"' || c == '/' || c == '\\' || c == '|' || c == '?'
        || c == '*' || is_ctrl(c)
}

pub open spec fn sanitize_char(c: char) -> char {
    if is_illegal_name_char(c) { '_' } else { c }
}

/// The folder name for an app called `name`: illegal characters replaced by `'_'`,
/// surrounding whitespace and then surrounding dots removed, and `"Application"` where
/// nothing is left.
pub open spec fn sanitized(name: Seq<char>) -> Seq<char> {
    let t = trim(trim(name.map_values(|c: char| sanitize_char(c)), Trim::Whitespace), Trim::Exactly('.'));
    if t.len() == 0 {
        "Application"@
    } else {
        t
    }
}

/// Turns an app name into a folder name that is safe on every desktop platform.
pub fn sanitize_name(name: &str) -> (r: String)
    ensures
        r@ == sanitized(name@),
{
    let chars = chars_of(name);
    let mut mapped: Vec<char> = Vec::new();
    let mut i: usize = 0;
    while i < chars.len()
        invariant
            i <= chars.len(),
            mapped@ == chars@.take(i as int).map_values(|c: char| sanitize_char(c)),
        decreases chars.len() - i,
    {
        let c = chars[i];
        let illegal = c == '<' || c == '>' || c == ':' || c == '"' || c == '/' || c == '\\'
            || c == '|' || c == '?' || c == '*' || is_control_char(c);
        mapped.push(if illegal { '_' } else { c });
        i += 1;
        assert(chars@.take(i as int).map_values(|c: char| sanitize_char(c)) =~= chars@.take(
            i - 1,
        ).map_values(|c: char| sanitize_char(c)).push(sanitize_char(chars@[i - 1])));
    }
    assert(chars@.take(chars.len() as int) =~= chars@);
    let spaced = trim_chars(&mapped, Trim::Whitespace);
    let dotted = trim_chars(&spaced, Trim::Exactly('.'));
    if dotted.len() == 0 {
        "Application".to_owned()
    } else {
        string_from_chars(&dotted)
    }
}

/// The candidate folder name `"{base} {index}"`.
pub open spec fn numbered_name(base: Seq<char>, index: nat) -> Seq<char> {
    base + seq![' '] + decimal(index)
}

/// The character views of a list of strings.
pub open spec fn names_view(names: Seq<String>) -> Seq<Seq<char>> {
    names.map_values(|s: String| s@)
}

/// What `unique_app_name(existing, base)` returns: the sanitized base name when no existing
/// folder has it, else the first `"{name} {k}"` with `k >= 2` that no existing folder has.
pub open spec fn is_unique_name_for(r: Seq<char>, existing: Seq<Seq<char>>, base: Seq<char>) -> bool {
    let name = sanitized(base);
    if !existing.contains(name) {
        r == name
    } else {
        exists|k: nat|
            {
                &&& k >= 2
                &&& r == numbered_name(name, k)
                &&& !existing.contains(r)
                &&& forall|j: nat| 2 <= j < k ==> existing.contains(#[trigger] numbered_name(name, j))
            }
    }
}

proof fn lemma_digit_injective(a: nat, b: nat)
    requires
        a < 10,
        b < 10,
        digit(a) == digit(b),
    ensures
        a == b,
{
}

pub proof fn lemma_decimal_injective(a: nat, b: nat)
    requires
        decimal(a) == decimal(b),
    ensures
        a == b,
    decreases a,
{
    if a >= 10 {
        lemma_decimal_nonempty(a / 10);
    }
    if b >= 10 {
        lemma_decimal_nonempty(b / 10);
    }
    if a < 10 && b < 10 {
        assert(decimal(a)[0] == digit(a));
        assert(decimal(b)[0] == digit(b));
        lemma_digit_injective(a, b);
    } else if a >= 10 && b >= 10 {
        assert(decimal(a).last() == digit(a % 10));
        assert(decimal(b).last() == digit(b % 10));
        lemma_digit_injective(a % 10, b % 10);
        assert(decimal(a).drop_last() =~= decimal(a / 10));
        assert(decimal(b).drop_last() =~= decimal(b / 10));
        lemma_decimal_injective(a / 10, b / 10);
        assert(a == 10 * (a / 10) + a % 10);
        assert(b == 10 * (b / 10) + b % 10);
    } else if a < 10 {
        assert(decimal(a).len() == 1);
        assert(decimal(b).len() == decimal(b / 10).len() + 1);
    } else {
        assert(decimal(b).len() == 1);
        assert(decimal(a).len() == decimal(a / 10).len() + 1);
    }
}

proof fn lemma_numbered_injective(base: Seq<char>, a: nat, b: nat)
    requires
        numbered_name(base, a) == numbered_name(base, b),
    ensures
        a == b,
{
    let na = numbered_name(base, a);
    let nb = numbered_name(base, b);
    assert(na.len() == nb.len());
    assert(decimal(a) =~= na.subrange(base.len() + 1int, na.len() as int));
    assert(decimal(b) =~= nb.subrange(base.len() + 1int, nb.len() as int));
    lemma_decimal_injective(a, b);
}

/// Whether `name` is one of `existing`.
pub(crate) fn contains_name(existing: &Vec<String>, name: &Vec<char>) -> (r: bool)
    ensures
        r == names_view(existing@).contains(name@),
{
    let mut i: usize = 0;
    while i < existing.len()
        invariant
            i <= existing.len(),
            forall|j: int| 0 <= j < i ==> existing@[j]@ != name@,
        decreases existing.len() - i,
    {
        let other = chars_of(existing[i].as_str());
        if chars_equal(&other, name) {
            assert(names_view(existing@)[i as int] == name@);
            return true;
        }
        i += 1;
    }
    proof {
        if names_view(existing@).contains(name@) {
            let j = choose|j: int| 0 <= j < names_view(existing@).len() && names_view(existing@)[j] == name@;
            assert(existing@[j]@ == name@);
        }
    }
    false
}

/// Indices of `names` holding the taken numbered names `2 .. m`, one per number.
proof fn lemma_taken_indices(names: Seq<Seq<char>>, base: Seq<char>, m: nat) -> (used: Set<int>)
    requires
        m >= 2,
        forall|j: nat| 2 <= j < m ==> names.contains(#[trigger] numbered_name(base, j)),
    ensures
        used.finite(),
        used.len() == m - 2,
        used.subset_of(set_int_range(0, names.len() as int)),
        forall|i: int| used.contains(i) ==> exists|j: nat| 2 <= j < m && names[i] == numbered_name(base, j),
    decreases m,
{
    if m == 2 {
        Set::empty()
    } else {
        let k = (m - 1) as nat;
        let used = lemma_taken_indices(names, base, k);
        assert(names.contains(numbered_name(base, k)));
        let i = choose|i: int| 0 <= i < names.len() && names[i] == numbered_name(base, k);
        if used.contains(i) {
            let j = choose|j: nat| 2 <= j < k && names[i] == numbered_name(base, j);
            lemma_numbered_injective(base, j, k);
        }
        let used2 = used.insert(i);
        assert forall|i2: int| used2.contains(i2) implies exists|j: nat| 2 <= j < m && names[i2] == numbered_name(base, j) by {
            if i2 == i {
                assert(names[i2] == numbered_name(base, k));
            } else {
                let j = choose|j: nat| 2 <= j < k && names[i2] == numbered_name(base, j);
                assert(2 <= j < m);
            }
        }
        used2
    }
}

/// Among `"{base} 2"` ..= `"{base} {n + 2}"` (`n` the number of existing names) at least one
/// is free.
pub proof fn lemma_free_numbered_name(names: Seq<Seq<char>>, base: Seq<char>)
    ensures
        exists|j: nat| 2 <= j <= names.len() + 2 && !names.contains(#[trigger] numbered_name(base, j)),
{
    let m = (names.len() + 3) as nat;
    if forall|j: nat| 2 <= j < m ==> names.contains(#[trigger] numbered_name(base, j)) {
        let used = lemma_taken_indices(names, base, m);
        lemma_int_range(0, names.len() as int);
        lemma_len_subset(used, set_int_range(0, names.len() as int));
        assert(false);
    }
}

/// A free folder name can be found for `base`: the sanitized base name is free, or some
/// `"{name} N"` with `2 <= N <= i32::MAX` is (the numbers the search counts through).
pub open spec fn has_free_numbered_name(existing: Seq<Seq<char>>, base: Seq<char>) -> bool {
    !existing.contains(sanitized(base)) || exists|j: nat|
        2 <= j <= 2147483647 && !existing.contains(#[trigger] numbered_name(sanitized(base), j))
}

/// Holds whenever fewer than `2147483646` names exist.
pub proof fn lemma_has_free_numbered_name(existing: Seq<Seq<char>>, base: Seq<char>)
    requires
        existing.len() < 2147483646,
    ensures
        has_free_numbered_name(existing, base),
{
    lemma_free_numbered_name(existing, sanitized(base));
}

/// Whether a free folder name can be found for `base_name` among `existing` (what
/// `unique_app_name` needs).
pub fn has_free_name(existing: &Vec<String>, base_name: &str) -> (r: bool)
    ensures
        r == has_free_numbered_name(names_view(existing@), base_name@),
{
    let base = sanitize_name(base_name);
    let base_chars = chars_of(base.as_str());
    if !contains_name(existing, &base_chars) {
        return true;
    }
    if existing.len() < 2147483646 {
        proof {
            lemma_has_free_numbered_name(names_view(existing@), base_name@);
        }
        return true;
    }
    let ghost names = names_view(existing@);
    let mut k: u64 = 2;
    while k <= 2147483647
        invariant
            2 <= k <= 2147483648,
            names == names_view(existing@),
            base_chars@ == sanitized(base_name@),
            names.contains(base_chars@),
            forall|j: nat| 2 <= j < k ==> names.contains(#[trigger] numbered_name(base_chars@, j)),
        decreases 2147483648 - k,
    {
        let mut candidate = base_chars.clone();
        candidate.push(' ');
        push_decimal(&mut candidate, k);
        assert(candidate@ =~= numbered_name(base_chars@, k as nat));
        if !contains_name(existing, &candidate) {
            assert(!names.contains(numbered_name(sanitized(base_name@), k as nat)));
            return true;
        }
        assert forall|j: nat| 2 <= j < k + 1 implies names.contains(#[trigger] numbered_name(base_chars@, j)) by {
            if j == k {
                assert(numbered_name(base_chars@, j) == candidate@);
            }
        }
        k += 1;
    }
    assert(!has_free_numbered_name(names, base_name@)) by {
        if exists|j: nat| 2 <= j <= 2147483647 && !names.contains(#[trigger] numbered_name(sanitized(base_name@), j)) {
            let j = choose|j: nat| 2 <= j <= 2147483647 && !names.contains(#[trigger] numbered_name(sanitized(base_name@), j));
            assert(names.contains(numbered_name(base_chars@, j)));
        }
    }
    false
}

/// A folder name for a new app that no folder in `existing` (the names under the
/// applications folder) has: the sanitized `base_name`, or failing that
/// `"{name} 2"`, `"{name} 3"`, ... the first that is free.
pub fn unique_app_name(existing: &Vec<String>, base_name: &str) -> (r: String)
    requires
        has_free_numbered_name(names_view(existing@), base_name@),
    ensures
        is_unique_name_for(r@, names_view(existing@), base_name@),
{
    let base = sanitize_name(base_name);
    let base_chars = chars_of(base.as_str());
    if !contains_name(existing, &base_chars) {
        return base;
    }
    let ghost names = names_view(existing@);
    let ghost free = choose|j: nat|
        2 <= j <= 2147483647 && !names.contains(#[trigger] numbered_name(base_chars@, j));
    let mut k: u64 = 2;
    loop
        invariant
            2 <= k <= free <= 2147483647,
            names == names_view(existing@),
            !names.contains(numbered_name(base_chars@, free)),
            names.contains(base_chars@),
            base_chars@ == sanitized(base_name@),
            forall|j: nat| 2 <= j < k ==> names.contains(#[trigger] numbered_name(base_chars@, j)),
        decreases free - k,
    {
        let mut candidate = base_chars.clone();
        candidate.push(' ');
        push_decimal(&mut candidate, k);
        assert(candidate@ =~= numbered_name(base_chars@, k as nat));
        if !contains_name(existing, &candidate) {
            let r = string_from_chars(&candidate);
            assert(is_unique_name_for(r@, names, base_name@));
            return r;
        }
        assert forall|j: nat| 2 <= j < k + 1 implies names.contains(#[trigger] numbered_name(base_chars@, j)) by {
            if j == k {
                assert(numbered_name(base_chars@, j) == candidate@);
            }
        }
        k += 1;
    }
}

// ---------------------------------------------------------------------------------------
// File names

/// The position of the last `c` in `s`.
pub open spec fn last_index_of(s: Seq<char>, c: char) -> Option<int>
    decreases s.len(),
{
    if s.len() == 0 {
        None
    } else if s.last() == c {
        Some(s.len() - 1)
    } else {
        last_index_of(s.drop_last(), c)
    }
}

proof fn lemma_last_index_of(s: Seq<char>, c: char, i: int)
    requires
        -1 <= i < s.len(),
        forall|k: int| i < k < s.len() ==> s[k] != c,
        i >= 0 ==> s[i] == c,
    ensures
        last_index_of(s, c) == if i >= 0 { Some(i) } else { None::<int> },
    decreases s.len(),
{
    if s.len() > 0 && i < s.len() - 1 {
        lemma_last_index_of(s.drop_last(), c, i);
    }
}

pub proof fn lemma_last_index_of_pub(s: Seq<char>, c: char, i: int)
    requires
        -1 <= i < s.len(),
        forall|k: int| i < k < s.len() ==> s[k] != c,
        i >= 0 ==> s[i] == c,
    ensures
        last_index_of(s, c) == if i >= 0 { Some(i) } else { None::<int> },
{
    lemma_last_index_of(s, c, i);
}

/// `Path::file_name` on POSIX paths: the last component when it is a name.
pub open spec fn file_name(path: Seq<char>) -> Option<Seq<char>> {
    let c = path_components(path);
    if c.len() > 0 && c.last() != "/"@ && c.last() != "."@ && c.last() != ".."@ {
        Some(c.last())
    } else {
        None
    }
}

/// `Path::extension`: what follows the last dot of the file name, where that dot is not its
/// first character.
pub open spec fn path_extension(path: Seq<char>) -> Option<Seq<char>> {
    match file_name(path) {
        Some(name) => match last_index_of(name, '.') {
            Some(i) => if i > 0 {
                Some(name.skip(i + 1))
            } else {
                None
            },
            None => None,
        },
        None => None,
    }
}

fn file_name_chars(path: &str) -> (r: Option<Vec<char>>)
    ensures
        r matches Some(v) ==> file_name(path@) == Some(v@),
        r is None ==> file_name(path@) is None,
{
    let parts = crate::state::components_of(path);
    let n = parts.len();
    if n == 0 {
        return None;
    }
    let last = &parts[n - 1];
    assert(keys_view(parts@)[n - 1] == last@);
    if chars_equal_str(last, "/") || chars_equal_str(last, ".") || chars_equal_str(last, "..") {
        None
    } else {
        Some(last.clone())
    }
}

fn extension_chars(path: &str) -> (r: Option<Vec<char>>)
    ensures
        r matches Some(v) ==> path_extension(path@) == Some(v@),
        r is None ==> path_extension(path@) is None,
{
    match file_name_chars(path) {
        Some(name) => {
            let mut i = name.len();
            while i > 0 && name[i - 1] != '.'
                invariant
                    i <= name.len(),
                    forall|k: int| i <= k < name.len() ==> name@[k] != '.',
                decreases i,
            {
                i -= 1;
            }
            proof {
                lemma_last_index_of(name@, '.', i - 1);
            }
            if i <= 1 {
                None
            } else {
                Some(sub_chars(&name, i, name.len()))
            }
        },
        None => None,
    }
}

/// The extension of a path, if it has one.
pub fn extension_of(path: &str) -> (r: Option<String>)
    ensures
        opt_string_view(r) == path_extension(path@),
{
    match extension_chars(path) {
        Some(e) => Some(string_from_chars(&e)),
        None => None,
    }
}

fn extension_is(path: &str, a: &str, b: &str) -> (r: bool)
    ensures
        r == (path_extension(path@) matches Some(e) && (eq_ignore_ascii_case(e, a@)
            || eq_ignore_ascii_case(e, b@))),
{
    match extension_chars(path) {
        Some(e) => {
            let av = chars_of(a);
            let bv = chars_of(b);
            chars_eq_ignore_ascii_case(&e, &av) || chars_eq_ignore_ascii_case(&e, &bv)
        },
        None => false,
    }
}

/// Whether the path names a zip archive (extension `zip`, any letter case).
pub fn is_zip_file(path: &str) -> (r: bool)
    ensures
        r == (path_extension(path@) matches Some(e) && eq_ignore_ascii_case(e, "zip"@)),
{
    extension_is(path, "zip", "zip")
}

/// Whether the path names a web page (extension `html` or `htm`, any letter case).
pub fn is_html_file(path: &str) -> (r: bool)
    ensures
        r == (path_extension(path@) matches Some(e) && (eq_ignore_ascii_case(e, "html"@)
            || eq_ignore_ascii_case(e, "htm"@))),
{
    extension_is(path, "html", "htm")
}

// ---------------------------------------------------------------------------------------
// Executables and the library

/// Extensions of files that launch an app.
pub open spec fn is_launcher_extension(e: Seq<char>) -> bool {
    e == "exe"@ || e == "bat"@ || e == "cmd"@ || e == "sh"@ || e == "appimage"@
}

/// The launcher extensions are exactly exe, bat, cmd, sh and appimage.
pub proof fn lemma_launcher_extensions()
    ensures
        forall|e: Seq<char>| #[trigger] is_launcher_extension(e) <==> (e == "exe"@ || e == "bat"@ || e == "cmd"@
            || e == "sh"@ || e == "appimage"@),
{
}

/// How the executables scan treats a folder entry.
pub struct EntryKind {
    /// The entry is offered as an executable.
    pub executable: bool,
    /// The scan looks inside the entry.
    pub descend: bool,
}

/// The lower-cased extension of a path.
pub open spec fn lower_extension(path: Seq<char>) -> Option<Seq<char>> {
    match path_extension(path) {
        Some(e) => Some(ascii_lowercase(e)),
        None => None,
    }
}

/// An executable is a macOS `.app` bundle folder, or a file with a launcher extension
/// (any letter case); every other folder is scanned in turn.
pub fn executable_kind(path: &str, is_dir: bool, platform: Platform) -> (k: EntryKind)
    ensures
        k.executable == (if is_dir {
            lower_extension(native_path(path@, platform)) == Some("app"@)
        } else {
            lower_extension(native_path(path@, platform)) matches Some(e) && is_launcher_extension(e)
        }),
        k.descend == (is_dir && lower_extension(native_path(path@, platform)) != Some("app"@)),
        !is_dir ==> (k.executable <==> (lower_extension(native_path(path@, platform)) matches Some(e) && (
        e == "exe"@ || e == "bat"@ || e == "cmd"@ || e == "sh"@ || e == "appimage"@))),
{
    proof {
        lemma_launcher_extensions();
    }
    let native = native_path_string(path, platform);
    let ext = match extension_chars(native.as_str()) {
        Some(e) => Some(ascii_lowercase_chars(&e)),
        None => None,
    };
    let is_app = match &ext {
        Some(e) => chars_equal_str(e, "app"),
        None => false,
    };
    let launcher = match &ext {
        Some(e) => chars_equal_str(e, "exe") || chars_equal_str(e, "bat") || chars_equal_str(
            e,
            "cmd",
        ) || chars_equal_str(e, "sh") || chars_equal_str(e, "appimage"),
        None => false,
    };
    EntryKind { executable: if is_dir { is_app } else { launcher }, descend: is_dir && !is_app }
}

/// The executable choice for a path: shown by its file name (after the last of the
/// platform's separators), or "Executable" where it has none.
pub fn executable_choice(path: &str, platform: Platform) -> (c: ExecutableChoice)
    ensures
        c.path@ == path@,
        c.display@ == (match file_name(native_path(path@, platform)) {
            Some(n) => n,
            None => "Executable"@,
        }),
{
    let native = native_path_string(path, platform);
    let display = match file_name_chars(native.as_str()) {
        Some(n) => string_from_chars(&n),
        None => "Executable".to_owned(),
    };
    ExecutableChoice { display, path: path.to_owned() }
}

/// The lower-cased display names of executable choices.
pub open spec fn choice_keys(choices: Seq<ExecutableChoice>) -> Seq<Seq<char>> {
    choices.map_values(|c: ExecutableChoice| ascii_lowercase(c.display@))
}

/// The executables found in an app folder, ordered by display name ignoring ASCII case
/// (entries that compare equal keep the order they were found in).
pub fn scan_executables(found: Vec<ExecutableChoice>) -> (r: Vec<ExecutableChoice>)
    ensures
        is_stable_sort(r@, found@, choice_keys(found@)),
{
    let mut keys: Vec<Vec<char>> = Vec::new();
    let mut i: usize = 0;
    while i < found.len()
        invariant
            i <= found.len(),
            keys.len() == i,
            forall|k: int| 0 <= k < i ==> #[trigger] keys@[k]@ == ascii_lowercase(found@[k].display@),
        decreases found.len() - i,
    {
        let d = chars_of(found[i].display.as_str());
        keys.push(ascii_lowercase_chars(&d));
        i += 1;
    }
    assert(keys_view(keys@) =~= choice_keys(found@));
    sort_by_keys(found, keys)
}

/// The executable configured for app `name`.
pub open spec fn configured_executable(config: Map<Seq<char>, crate::state::AppConfig>, name: Seq<char>) -> Option<String> {
    if config.contains_key(name) {
        config[name].executable
    } else {
        None
    }
}

/// The library entries for the app folder names `names`, before ordering.
pub open spec fn library_entries(names: Seq<String>, config: Map<Seq<char>, crate::state::AppConfig>) -> Seq<LibraryEntry> {
    names.map_values(|n: String| LibraryEntry { name: n, executable: configured_executable(config, n@) })
}

/// The library: one entry per app folder name with its configured executable, ordered by
/// name ignoring ASCII case.
pub fn load_library(names: Vec<String>, config: &Config) -> (r: Vec<LibraryEntry>)
    ensures
        is_stable_sort(r@, library_entries(names@, config@), choice_name_keys(library_entries(names@, config@))),
{
    let ghost built = library_entries(names@, config@);
    let mut entries: Vec<LibraryEntry> = Vec::new();
    let mut keys: Vec<Vec<char>> = Vec::new();
    let mut names = names;
    let ghost all = names@;
    let mut rev: Vec<String> = Vec::new();
    // Take the names in order.
    while names.len() > 0
        invariant
            names@ == all.take(names.len() as int),
            rev.len() + names.len() == all.len(),
            forall|k: int| 0 <= k < rev.len() ==> #[trigger] rev@[k] == all[all.len() - 1 - k],
        decreases names.len(),
    {
        let ghost before = names@;
        let n = names.pop().unwrap();
        rev.push(n);
        assert(names@ =~= all.take(names.len() as int));
    }
    while rev.len() > 0
        invariant
            entries.len() == keys.len(),
            entries.len() + rev.len() == all.len(),
            forall|k: int| 0 <= k < rev.len() ==> #[trigger] rev@[k] == all[all.len() - 1 - k],
            forall|k: int| 0 <= k < entries.len() ==> #[trigger] entries@[k] == built[k],
            forall|k: int| 0 <= k < entries.len() ==> #[trigger] keys@[k]@ == ascii_lowercase(built[k].name@),
            built == library_entries(all, config@),
        decreases rev.len(),
    {
        let name = rev.pop().unwrap();
        let executable = match config.get(name.as_str()) {
            Some(c) => c.executable,
            None => None,
        };
        let lower = ascii_lowercase_chars(&chars_of(name.as_str()));
        let k = entries.len();
        assert(name == all[k as int]);
        entries.push(LibraryEntry { name, executable });
        keys.push(lower);
    }
    assert(entries@ =~= built);
    assert(keys_view(keys@) =~= choice_name_keys(built));
    sort_by_keys(entries, keys)
}

/// The lower-cased names of library entries.
pub open spec fn choice_name_keys(entries: Seq<LibraryEntry>) -> Seq<Seq<char>> {
    entries.map_values(|e: LibraryEntry| ascii_lowercase(e.name@))
}

// ---------------------------------------------------------------------------------------
// Artwork files

/// The image file extensions artwork is stored with, in the order they are looked for.
pub open spec fn image_extensions() -> Seq<Seq<char>> {
    seq!["png"@, "jpg"@, "jpeg"@, "webp"@, "gif"@, "bmp"@]
}

/// The image file extensions artwork is stored with, in the order they are looked for.
pub fn image_extensions_list() -> (r: Vec<&'static str>)
    ensures
        r@.len() == 6,
        forall|i: int| 0 <= i < 6 ==> #[trigger] r@[i]@ == image_extensions()[i],
{
    let r = vec!["png", "jpg", "jpeg", "webp", "gif", "bmp"];
    assert(r@[0]@ == "png"@);
    r
}

/// The file that would hold the artwork of app `app_name` with extension `ext`.
pub open spec fn artwork_file(artwork: Seq<char>, app_name: Seq<char>, ext: Seq<char>) -> Seq<char> {
    path_join(artwork, app_name + seq!['.'] + ext)
}

/// The files the artwork of app `app_name` may be stored in, in the order they are looked
/// for; the first that is a file is the app's artwork.
pub fn artwork_candidates(paths: &Paths, app_name: &str) -> (r: Vec<String>)
    ensures
        r@.len() == 6,
        forall|i: int| 0 <= i < 6 ==> #[trigger] r@[i]@ == artwork_file(paths.artwork@, app_name@, image_extensions()[i]),
{
    let exts = image_extensions_list();
    let mut r: Vec<String> = Vec::new();
    let mut i: usize = 0;
    while i < exts.len()
        invariant
            i <= 6,
            exts@.len() == 6,
            forall|k: int| 0 <= k < 6 ==> #[trigger] exts@[k]@ == image_extensions()[k],
            r@.len() == i,
            forall|k: int| 0 <= k < i ==> #[trigger] r@[k]@ == artwork_file(paths.artwork@, app_name@, image_extensions()[k]),
        decreases 6 - i,
    {
        let mut name: Vec<char> = chars_of(app_name);
        name.push('.');
        extend_str(&mut name, exts[i]);
        let file = string_from_chars(&name);
        r.push(join_path(paths.artwork.as_str(), file.as_str()));
        i += 1;
    }
    r
}

/// The position of the first `true` in `flags`.
pub open spec fn first_set(flags: Seq<bool>) -> Option<int> {
    if exists|i: int| 0 <= i < flags.len() && flags[i] {
        Some(choose|i: int| 0 <= i < flags.len() && flags[i] && forall|j: int| 0 <= j < i ==> !flags[j])
    } else {
        None
    }
}

/// The artwork stored for app `app_name`: the first of its candidate files (in the order
/// of `artwork_candidates`) that is a file, where `is_file[i]` tells whether candidate `i`
/// is one.
pub fn find_artwork_path(paths: &Paths, app_name: &str, is_file: &Vec<bool>) -> (r: Option<String>)
    requires
        is_file@.len() == 6,
    ensures
        match first_set(is_file@) {
            Some(i) => r matches Some(p) && p@ == artwork_file(paths.artwork@, app_name@, image_extensions()[i]),
            None => r is None,
        },
{
    let candidates = artwork_candidates(paths, app_name);
    let mut i: usize = 0;
    while i < 6
        invariant
            i <= 6,
            is_file@.len() == 6,
            candidates@.len() == 6,
            forall|k: int| 0 <= k < 6 ==> #[trigger] candidates@[k]@ == artwork_file(paths.artwork@, app_name@, image_extensions()[k]),
            forall|j: int| 0 <= j < i ==> !is_file@[j],
        decreases 6 - i,
    {
        if is_file[i] {
            let ghost w = choose|k: int| 0 <= k < is_file@.len() && is_file@[k] && forall|j: int| 0 <= j < k ==> !is_file@[j];
            assert(0 <= i < is_file@.len() && is_file@[i as int] && forall|j: int| 0 <= j < i ==> !is_file@[j]);
            assert(w == i) by {
                if w < i {
                    assert(!is_file@[w]);
                } else if w > i {
                    assert(!is_file@[i as int]);
                }
            }
            return Some(candidates[i].clone());
        }
        i += 1;
    }
    None
}

// ---------------------------------------------------------------------------------------
// Where downloads go

/// Characters that would make a saved name more than one path entry: the separators
/// `/` and `\\`, and `:`, which starts a drive prefix on Windows.
pub open spec fn is_path_syntax(c: char) -> bool {
    c == '/' || c == '\\' || c == ':'
}

pub open spec fn saved_char(c: char) -> char {
    if is_path_syntax(c) { '_' } else { c }
}

/// The name a download is saved under in its app folder: the file name from the URL with
/// `/`, `\\` and `:` turned into `_`, and `download.bin` where that leaves `.` or `..`.
pub open spec fn saved_file_name(name: Seq<char>) -> Seq<char> {
    let m = name.map_values(|c: char| saved_char(c));
    if m.len() == 0 || m == "."@ || m == ".."@ {
        "download.bin"@
    } else {
        m
    }
}

/// The folder downloads of app `app_name` go to: `applications/<app>/<app>`.
pub open spec fn app_folder(applications: Seq<char>, app_name: Seq<char>) -> Seq<char> {
    path_join(path_join(applications, app_name), app_name)
}

fn saved_chars(v: &Vec<char>) -> (r: Vec<char>)
    ensures
        r@ == v@.map_values(|c: char| saved_char(c)),
{
    let mut r: Vec<char> = Vec::new();
    let mut i: usize = 0;
    while i < v.len()
        invariant
            i <= v.len(),
            r@ == v@.take(i as int).map_values(|c: char| saved_char(c)),
        decreases v.len() - i,
    {
        let c = v[i];
        r.push(if c == '/' || c == '\\' || c == ':' { '_' } else { c });
        i += 1;
        assert(v@.take(i as int).map_values(|c: char| saved_char(c)) =~= v@.take(i - 1).map_values(
            |c: char| saved_char(c),
        ).push(saved_char(v@[i - 1])));
    }
    assert(v@.take(v.len() as int) =~= v@);
    r
}

/// The folder that the downloads of app `app_name` are saved in.
pub fn download_folder(paths: &Paths, app_name: &str) -> (r: String)
    ensures
        r@ == app_folder(paths.applications@, app_name@),
{
    let dir = paths.app_dir(app_name);
    join_path(dir.as_str(), app_name)
}

/// The file a download from `url` for app `app_name` is saved as: one entry directly in
/// the app's download folder, whatever the URL holds.
pub fn download_target(paths: &Paths, app_name: &str, url: &str) -> (r: String)
    ensures
        r@ == path_join(app_folder(paths.applications@, app_name@), saved_file_name(url_file_name(url@))),
        path_components(r@) == path_components(app_folder(paths.applications@, app_name@)) + seq![
            saved_file_name(url_file_name(url@)),
        ],
        path_starts_with(r@, app_folder(paths.applications@, app_name@)),
{
    let folder = download_folder(paths, app_name);
    let name = file_name_from_url(url);
    let m = saved_chars(&chars_of(name.as_str()));
    let saved = if m.len() == 0 || chars_equal_str(&m, ".") || chars_equal_str(&m, "..") {
        "download.bin".to_owned()
    } else {
        string_from_chars(&m)
    };
    proof {
        lemma_saved_name_is_one_component(url_file_name(url@));
    }
    join_path(folder.as_str(), saved.as_str())
}

/// A saved download name is a single plain entry: not empty, not `.` or `..`, and free of
/// `/`, `\\` and `:`, so joined to the app folder it stays directly inside it.
pub proof fn lemma_saved_name_is_one_component(name: Seq<char>)
    ensures
        saved_file_name(name).len() > 0,
        saved_file_name(name) != "."@,
        saved_file_name(name) != ".."@,
        forall|i: int| 0 <= i < saved_file_name(name).len() ==> {
            let c = #[trigger] saved_file_name(name)[i];
            c != '/' && c != '\\' && c != ':'
        },
        forall|folder: Seq<char>| #[trigger] path_components(path_join(folder, saved_file_name(name)))
            == path_components(folder) + seq![saved_file_name(name)],
{
    reveal_strlit("download.bin");
    reveal_strlit(".");
    reveal_strlit("..");
    let s = saved_file_name(name);
    assert(s.len() > 0);
    assert(s != "."@) by {
        if s == "."@ {
            assert(s.len() == 1);
        }
    }
    assert(s != ".."@);
    assert forall|i: int| 0 <= i < s.len() implies ({
        let c = #[trigger] s[i];
        c != '/' && c != '\\' && c != ':'
    }) by {}
    assert forall|folder: Seq<char>| #[trigger] path_components(path_join(folder, s)) == path_components(folder)
        + seq![s] by {
        crate::state::lemma_join_one_component(folder, s);
    }
}

// ---------------------------------------------------------------------------------------
// Launching

/// Why a library entry cannot be launched.
#[derive(Debug, PartialEq, Eq, Structural)]
pub enum LaunchError {
    /// No executable was chosen for the app.
    NoExecutable,
    /// The chosen executable is not there any more.
    Missing,
}

/// The process to start: `program` with `args`, in `working_dir` where one is given.
#[derive(Debug)]
pub struct LaunchCommand {
    pub program: String,
    pub args: Vec<String>,
    pub working_dir: Option<String>,
}

/// Path components written back as a path, a `/` between two parts (none after the root).
pub open spec fn join_parts(parts: Seq<Seq<char>>) -> Seq<char>
    decreases parts.len(),
{
    if parts.len() == 0 {
        seq![]
    } else {
        let b = join_parts(parts.drop_last());
        if b.len() > 0 && b.last() != '/' {
            b + seq!['/'] + parts.last()
        } else {
            b + parts.last()
        }
    }
}

/// `Path::parent` on POSIX paths: the path without its last component, `None` for the
/// root alone and for the empty path. (Written with single separators, it is the same
/// path as `Path::parent` gives, component for component.)
pub open spec fn path_parent(path: Seq<char>) -> Option<Seq<char>> {
    let c = path_components(path);
    if c.len() == 0 || (c.len() == 1 && c[0] == "/"@) {
        None
    } else {
        Some(join_parts(c.drop_last()))
    }
}

/// The folder an executable runs in: its parent, or `.` where it has none.
pub open spec fn parent_or_dot(path: Seq<char>) -> Seq<char> {
    match path_parent(path) {
        Some(p) => p,
        None => "."@,
    }
}

/// A drive name such as `C:`.
pub open spec fn is_drive(p: Seq<char>) -> bool {
    p.len() == 2 && p[1] == ':' && (('a' <= p[0] <= 'z') || ('A' <= p[0] <= 'Z'))
}

/// The folder an executable runs in on `platform`: its parent, split at the platform's
/// separators (written `/`), or `.` where it has none; on Windows the root of a drive is
/// `C:/`, not the drive's current folder `C:`.
pub open spec fn working_dir(path: Seq<char>, platform: Platform) -> Seq<char> {
    let p = parent_or_dot(native_path(path, platform));
    if platform == Platform::Windows && is_drive(p) {
        p + seq!['/']
    } else {
        p
    }
}

fn working_dir_exec(path: &str, platform: Platform) -> (r: String)
    ensures
        r@ == working_dir(path@, platform),
{
    let native = native_path_string(path, platform);
    let p = parent_or_dot_exec(native.as_str());
    let v = chars_of(p.as_str());
    if platform == Platform::Windows && v.len() == 2 && v[1] == ':' && (('a' <= v[0] && v[0] <= 'z') || ('A' <= v[0] && v[0] <= 'Z')) {
        let mut w = v;
        w.push('/');
        string_from_chars(&w)
    } else {
        p
    }
}

/// `.bat` or `.cmd` in any letter case: a script run through `cmd /C` on Windows.
pub open spec fn is_windows_script(path: Seq<char>) -> bool {
    lower_extension(path) matches Some(x) && (x == "bat"@ || x == "cmd"@)
}

fn join_parts_exec(parts: &Vec<Vec<char>>, n: usize) -> (r: Vec<char>)
    requires
        n <= parts@.len(),
    ensures
        r@ == join_parts(keys_view(parts@).take(n as int)),
{
    let mut out: Vec<char> = Vec::new();
    let mut k: usize = 0;
    assert(keys_view(parts@).take(0) =~= Seq::<Seq<char>>::empty());
    while k < n
        invariant
            k <= n <= parts@.len(),
            out@ == join_parts(keys_view(parts@).take(k as int)),
        decreases n - k,
    {
        let ghost before = keys_view(parts@).take(k as int);
        let ghost after = keys_view(parts@).take(k + 1);
        assert(after.drop_last() =~= before);
        assert(after.last() == parts@[k as int]@);
        if out.len() > 0 && out[out.len() - 1] != '/' {
            out.push('/');
        }
        extend_chars(&mut out, &parts[k]);
        k += 1;
        assert(out@ =~= join_parts(after));
    }
    out
}

fn parent_or_dot_exec(path: &str) -> (r: String)
    ensures
        r@ == parent_or_dot(path@),
{
    let parts = components_of(path);
    let n = parts.len();
    assert(keys_view(parts@) == path_components(path@));
    if n == 0 {
        return ".".to_owned();
    }
    if n == 1 && chars_equal_str(&parts[0], "/") {
        assert(path_components(path@)[0] == parts@[0]@);
        return ".".to_owned();
    }
    assert(n == 1 ==> path_components(path@)[0] == parts@[0]@);
    let joined = join_parts_exec(&parts, n - 1);
    assert(keys_view(parts@).take(n - 1) =~= path_components(path@).drop_last());
    string_from_chars(&joined)
}

/// How a library entry is started: nothing without a chosen executable or where the file
/// is missing (`exists` tells whether it is there); on Windows a `.bat` or `.cmd` script
/// (any letter case) through `cmd /C`; on macOS an `.app` bundle through `open`, with no
/// working folder; anything else run itself. Scripts and programs run in the folder of
/// the executable (see `working_dir`).
pub fn launch_command(executable: Option<&str>, exists: bool, platform: Platform) -> (r: Result<LaunchCommand, LaunchError>)
    ensures
        match executable {
            None => r == Err::<LaunchCommand, LaunchError>(LaunchError::NoExecutable),
            Some(e) => if !exists {
                r == Err::<LaunchCommand, LaunchError>(LaunchError::Missing)
            } else {
                r matches Ok(c) && if platform == Platform::Windows && is_windows_script(native_path(e@, platform)) {
                    &&& c.program@ == "cmd"@
                    &&& c.args@.len() == 2
                    &&& c.args@[0]@ == "/C"@
                    &&& c.args@[1]@ == e@
                    &&& opt_string_view(c.working_dir) == Some(working_dir(e@, platform))
                } else if platform == Platform::MacOs && path_extension(e@) == Some("app"@) {
                    &&& c.program@ == "open"@
                    &&& c.args@.len() == 1
                    &&& c.args@[0]@ == e@
                    &&& c.working_dir is None
                } else {
                    &&& c.program@ == e@
                    &&& c.args@.len() == 0
                    &&& opt_string_view(c.working_dir) == Some(working_dir(e@, platform))
                }
            },
        },
{
    let e = match executable {
        Some(e) => e,
        None => {
            return Err(LaunchError::NoExecutable);
        },
    };
    if !exists {
        return Err(LaunchError::Missing);
    }
    let native = native_path_string(e, platform);
    let ext = match extension_chars(native.as_str()) {
        Some(x) => Some(x),
        None => None,
    };
    let is_script = match &ext {
        Some(x) => {
            let l = ascii_lowercase_chars(x);
            chars_equal_str(&l, "bat") || chars_equal_str(&l, "cmd")
        },
        None => false,
    };
    let is_bundle = match &ext {
        Some(x) => chars_equal_str(x, "app"),
        None => false,
    };
    match platform {
        Platform::Windows => {
            if is_script {
                let mut args: Vec<String> = Vec::new();
                args.push("/C".to_owned());
                args.push(e.to_owned());
                return Ok(LaunchCommand { program: "cmd".to_owned(), args, working_dir: Some(working_dir_exec(e, platform)) });
            }
        },
        Platform::MacOs => {
            if is_bundle {
                let mut args: Vec<String> = Vec::new();
                args.push(e.to_owned());
                return Ok(LaunchCommand { program: "open".to_owned(), args, working_dir: None });
            }
        },
        Platform::OtherUnix => {},
    }
    Ok(LaunchCommand { program: e.to_owned(), args: Vec::new(), working_dir: Some(working_dir_exec(e, platform)) })
}

// ---------------------------------------------------------------------------------------
// Permissions and the error log

/// The permission bits to give a file before launching it: `mode | 0o755` when no execute
/// bit is set, `None` (leave it) otherwise.
pub fn executable_mode(mode: u32) -> (r: Option<u32>)
    ensures
        r == (if mode & 0o111 == 0 { Some(mode | 0o755) } else { None::<u32> }),
        r matches Some(m) ==> m & 0o111 == 0o111 && m & mode == mode,
{
    if mode & 0o111 == 0 {
        let m = mode | 0o755;
        assert((mode | 0o755) & 0o111 == 0o111 && (mode | 0o755) & mode == mode) by (bit_vector);
        Some(m)
    } else {
        None
    }
}

/// The most entries the error log keeps.
pub const MAX_ERROR_LOG: usize = 200;

/// Appends an error, stamped with the time `unix`, to the log, keeping only the newest
/// `MAX_ERROR_LOG` entries.
pub fn log_error(errors: &mut Vec<ErrorEntry>, error: &str, unix: u64)
    ensures
        ({
            let all = old(errors)@.len() + 1;
            let dropped = if all > 200 { all - 200 } else { 0 };
            &&& final(errors)@.len() == all - dropped
            &&& forall|i: int| 0 <= i < final(errors)@.len() - 1 ==> #[trigger] final(errors)@[i] == old(errors)@[i + dropped]
        }),
        final(errors)@.last().error@ == error@,
        is_rfc3339_of(final(errors)@.last().timestamp@, unix as nat),
{
    errors.push(ErrorEntry { error: error.to_owned(), timestamp: format_rfc3339(unix) });
    let extra = if errors.len() > MAX_ERROR_LOG { errors.len() - MAX_ERROR_LOG } else { 0 };
    if extra > 0 {
        let kept = errors.split_off(extra);
        *errors = kept;
    }
}

} // verus!

verus! {

/// A folder name from `sanitize_name` is never empty, holds no character Windows forbids
/// in file names and no control character, and neither starts nor ends with a dot.
pub proof fn lemma_sanitized_is_safe(name: Seq<char>)
    ensures
        sanitized(name).len() > 0,
        forall|i: int| 0 <= i < sanitized(name).len() ==> !is_illegal_name_char(#[trigger] sanitized(name)[i]),
        sanitized(name)[0] != '.',
        sanitized(name).last() != '.',
{
    let m = name.map_values(|c: char| sanitize_char(c));
    let t1 = trim(m, Trim::Whitespace);
    let t = trim(t1, Trim::Exactly('.'));
    let k = crate::text::lemma_trim_is_infix(m, Trim::Whitespace);
    let j = crate::text::lemma_trim_is_infix(t1, Trim::Exactly('.'));
    if t.len() == 0 {
        reveal_strlit("Application");
        assert forall|i: int| 0 <= i < sanitized(name).len() implies !is_illegal_name_char(#[trigger] sanitized(name)[i]) by {
            assert("Application"@[i] == "Application"@[i]);
        }
    } else {
        assert forall|i: int| 0 <= i < t.len() implies !is_illegal_name_char(#[trigger] t[i]) by {
            assert(t[i] == t1[j + i]);
            assert(t1[j + i] == m[k + j + i]);
        }
    }
}

/// The name `unique_app_name` returns is not among the existing folder names.
pub proof fn lemma_unique_name_is_free(r: Seq<char>, existing: Seq<Seq<char>>, base: Seq<char>)
    requires
        is_unique_name_for(r, existing, base),
    ensures
        !existing.contains(r),
{
}

/// The folder of an app named by `sanitize_name` lies inside the applications folder, so
/// deleting it cannot reach anything else.
pub proof fn lemma_app_dir_inside(applications: Seq<char>, name: Seq<char>)
    ensures
        crate::state::path_starts_with(path_join(applications, sanitized(name)), applications),
{
    lemma_sanitized_is_safe(name);
    let n = sanitized(name);
    assert forall|i: int| 0 <= i < n.len() implies n[i] != '/' by {
        assert(!is_illegal_name_char(n[i]));
    }
    crate::state::lemma_join_plain_name(applications, n);
}

} // verus!
