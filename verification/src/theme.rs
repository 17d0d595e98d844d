//! The theme resolver.
//!
//! Named themes live under two configuration roots — a legacy one and the
//! current one — each with a dark and a light variant directory.  A
//! theme's identity is its file name alone.  The catalog of names is the
//! sorted, deduplicated union over roots and variants; resolution walks
//! the four locations in the fixed precedence order legacy/dark,
//! legacy/light, current/dark, current/light and decodes the first file
//! found.  Theme decoding is strict, unlike the tolerant cache loader:
//! one malformed line fails the whole theme.

use crate::bytes::{
    bytes_eq, clone_bytes, lemma_lex_transitive, lemma_lex_trichotomy, lex_less, lex_lt, push_all,
    views_of,
};
use crate::hex::{hex_digit_value, hex_val, is_hex_digit, is_hex_digit_byte};
use crate::lines::{lines_spec, split_lines};
use vstd::prelude::*;

verus! {

/// Whether any theme directory is present: either root counts.
pub fn theme_exists(current_root_present: bool, legacy_root_present: bool) -> (r: bool)
    ensures
        r == (current_root_present || legacy_root_present),
{
    current_root_present || legacy_root_present
}

/// The theme names visible under one variant: the union of the two
/// roots' listings, as a set — a name present in both roots appears
/// once, and nothing records which root it came from.  A root whose
/// directory is missing simply contributes an empty list.
pub fn collect_themes(legacy_entries: &Vec<Vec<u8>>, current_entries: &Vec<Vec<u8>>) -> (r: Vec<
    Vec<u8>,
>)
    ensures
        sorted_names(views_of(r@)),
        forall|x: Seq<u8>|
            views_of(r@).contains(x) <==> (views_of(legacy_entries@).contains(x) || views_of(
                current_entries@,
            ).contains(x)),
{
    sorted_union(legacy_entries, current_entries)
}

/// Strictly sorted in the lexicographic order: no duplicates.
pub open spec fn sorted_names(s: Seq<Seq<u8>>) -> bool {
    forall|i: int, j: int| 0 <= i < j < s.len() ==> lex_lt(s[i], s[j])
}

/// Inserts a name into a strictly sorted list, keeping it strictly
/// sorted; a name already present is dropped.
fn insert_name(out: &mut Vec<Vec<u8>>, name: Vec<u8>)
    requires
        sorted_names(views_of(old(out)@)),
    ensures
        sorted_names(views_of(final(out)@)),
        forall|x: Seq<u8>|
            views_of(final(out)@).contains(x) <==> (views_of(old(out)@).contains(x) || x
                == name@),
{
    let ghost old_v = views_of(old(out)@);
    let mut i: usize = 0;
    while i < out.len() && lex_less(&out[i], &name)
        invariant
            i <= out@.len(),
            out@ == old(out)@,
            forall|j: int| 0 <= j < i ==> lex_lt(views_of(out@)[j], name@),
        decreases out@.len() - i,
    {
        i = i + 1;
    }
    if i < out.len() {
        if bytes_eq(&out[i], &name) {
            proof {
                assert(old_v[i as int] == name@);
                assert(old_v.contains(name@));
            }
            return ;
        }
    }
    proof {
        if i < out@.len() {
            lemma_lex_trichotomy(old_v[i as int], name@);
            assert(lex_lt(name@, old_v[i as int]));
        }
    }
    out.insert(i, name);
    let ghost new_v = views_of(out@);
    proof {
        assert(new_v =~= old_v.insert(i as int, name@));
        assert forall|a: int, b: int| 0 <= a < b < new_v.len() implies lex_lt(
            new_v[a],
            new_v[b],
        ) by {
            if b < i {
                assert(new_v[a] == old_v[a] && new_v[b] == old_v[b]);
            } else if a < i && b == i {
                assert(new_v[a] == old_v[a] && new_v[b] == name@);
            } else if a < i && b > i {
                assert(new_v[a] == old_v[a] && new_v[b] == old_v[b - 1]);
                assert(a < b - 1);
            } else if a == i {
                assert(new_v[a] == name@ && new_v[b] == old_v[b - 1]);
                assert(lex_lt(name@, old_v[i as int]));
                if b - 1 > i {
                    lemma_lex_transitive(name@, old_v[i as int], old_v[b - 1]);
                }
            } else {
                assert(new_v[a] == old_v[a - 1] && new_v[b] == old_v[b - 1]);
            }
        }
        assert forall|x: Seq<u8>|
            new_v.contains(x) <==> (old_v.contains(x) || x == name@) by {
            if new_v.contains(x) {
                let j = choose|j: int| 0 <= j < new_v.len() && new_v[j] == x;
                if j < i {
                    assert(old_v[j] == x);
                    assert(old_v.contains(x));
                } else if j > i {
                    assert(old_v[j - 1] == x);
                    assert(old_v.contains(x));
                }
            }
            if old_v.contains(x) {
                let j = choose|j: int| 0 <= j < old_v.len() && old_v[j] == x;
                if j < i {
                    assert(new_v[j] == x);
                    assert(new_v.contains(x));
                } else {
                    assert(new_v[j + 1] == x);
                    assert(new_v.contains(x));
                }
            }
            if x == name@ {
                assert(new_v[i as int] == x);
                assert(new_v.contains(x));
            }
        }
    }
}

/// The sorted, deduplicated union of two name listings.
fn sorted_union(dark: &Vec<Vec<u8>>, light: &Vec<Vec<u8>>) -> (r: Vec<Vec<u8>>)
    ensures
        sorted_names(views_of(r@)),
        forall|x: Seq<u8>|
            views_of(r@).contains(x) <==> (views_of(dark@).contains(x) || views_of(
                light@,
            ).contains(x)),
{
    let mut out: Vec<Vec<u8>> = Vec::new();
    let mut j: usize = 0;
    while j < dark.len()
        invariant
            j <= dark@.len(),
            sorted_names(views_of(out@)),
            forall|x: Seq<u8>|
                views_of(out@).contains(x) <==> views_of(dark@).take(j as int).contains(x),
        decreases dark@.len() - j,
    {
        let ghost pre = views_of(out@);
        insert_name(&mut out, clone_bytes(&dark[j]));
        j = j + 1;
        proof {
            let taken = views_of(dark@).take(j as int);
            assert forall|x: Seq<u8>|
                views_of(out@).contains(x) <==> taken.contains(x) by {
                if views_of(out@).contains(x) {
                    if pre.contains(x) {
                        let k = choose|k: int|
                            0 <= k < j - 1 && #[trigger] views_of(dark@).take(j as int - 1)[k]
                                == x;
                        assert(taken[k] == x);
                    } else {
                        assert(taken[j - 1] == x);
                    }
                }
                if taken.contains(x) {
                    let k = choose|k: int| 0 <= k < j && taken[k] == x;
                    if k < j - 1 {
                        assert(views_of(dark@).take(j as int - 1)[k] == x);
                        assert(views_of(dark@).take(j as int - 1).contains(x));
                    }
                }
            }
        }
    }
    proof {
        assert(views_of(dark@).take(dark@.len() as int) =~= views_of(dark@));
    }
    let mut k: usize = 0;
    while k < light.len()
        invariant
            k <= light@.len(),
            sorted_names(views_of(out@)),
            forall|x: Seq<u8>|
                views_of(out@).contains(x) <==> (views_of(dark@).contains(x) || views_of(
                    light@,
                ).take(k as int).contains(x)),
        decreases light@.len() - k,
    {
        let ghost pre = views_of(out@);
        insert_name(&mut out, clone_bytes(&light[k]));
        k = k + 1;
        proof {
            let taken = views_of(light@).take(k as int);
            assert forall|x: Seq<u8>|
                (views_of(out@).contains(x) <==> (views_of(dark@).contains(x) || taken.contains(
                    x,
                ))) by {
                if views_of(out@).contains(x) && !views_of(dark@).contains(x) {
                    if views_of(light@).take(k as int - 1).contains(x) {
                        let m = choose|m: int|
                            0 <= m < k - 1 && #[trigger] views_of(light@).take(k as int - 1)[m]
                                == x;
                        assert(taken[m] == x);
                    } else {
                        assert(taken[k - 1] == x);
                    }
                }
                if taken.contains(x) {
                    let m = choose|m: int| 0 <= m < k && taken[m] == x;
                    if m < k - 1 {
                        assert(views_of(light@).take(k as int - 1)[m] == x);
                        assert(views_of(light@).take(k as int - 1).contains(x));
                    }
                }
            }
        }
    }
    proof {
        assert(views_of(light@).take(light@.len() as int) =~= views_of(light@));
    }
    out
}


/// The full catalog: the union of the dark and light name lists, sorted
/// lexicographically with duplicates collapsed.  The result is fully
/// determined by the set of names seen — which is the catalog's
/// determinism guarantee.
pub fn list_all_themes(dark: &Vec<Vec<u8>>, light: &Vec<Vec<u8>>) -> (r: Vec<Vec<u8>>)
    ensures
        sorted_names(views_of(r@)),
        forall|x: Seq<u8>|
            views_of(r@).contains(x) <==> (views_of(dark@).contains(x) || views_of(
                light@,
            ).contains(x)),
{
    sorted_union(dark, light)
}

/// Two strictly sorted catalogs over the same set of names are the same
/// sequence: the catalog is determined by which names exist, not by the
/// order or multiplicity in which the directories reported them.
pub proof fn lemma_catalog_unique(a: Seq<Seq<u8>>, b: Seq<Seq<u8>>)
    requires
        sorted_names(a),
        sorted_names(b),
        forall|x: Seq<u8>| a.contains(x) <==> b.contains(x),
    ensures
        a == b,
    decreases a.len(),
{
    if a.len() == 0 {
        if b.len() > 0 {
            assert(b.contains(b[0]));
            assert(a.contains(b[0]));
            assert(false);
        }
        assert(a =~= b);
    } else {
        assert(a.contains(a[0]));
        assert(b.contains(b[0]));
        assert(b.contains(a[0]));
        assert(a.contains(b[0]));
        let j = choose|j: int| 0 <= j < b.len() && b[j] == a[0];
        let k = choose|k: int| 0 <= k < a.len() && a[k] == b[0];
        if j > 0 && k > 0 {
            assert(lex_lt(b[0], b[j]));
            assert(lex_lt(a[0], a[k]));
            lemma_lex_trichotomy(a[0], b[0]);
            assert(false);
        }
        assert(a[0] == b[0]);
        let at = a.drop_first();
        let bt = b.drop_first();
        assert(sorted_names(at)) by {
            assert(forall|i: int, j: int|
                0 <= i < j < at.len() ==> at[i] == a[i + 1] && at[j] == a[j + 1]);
        }
        assert(sorted_names(bt)) by {
            assert(forall|i: int, j: int|
                0 <= i < j < bt.len() ==> bt[i] == b[i + 1] && bt[j] == b[j + 1]);
        }
        assert forall|x: Seq<u8>| at.contains(x) <==> bt.contains(x) by {
            if at.contains(x) {
                let m = choose|m: int| 0 <= m < at.len() && at[m] == x;
                assert(a[m + 1] == x);
                assert(lex_lt(a[0], x));
                assert(a.contains(x));
                assert(b.contains(x));
                let n = choose|n: int| 0 <= n < b.len() && b[n] == x;
                if n == 0 {
                    lemma_lex_trichotomy(a[0], x);
                    assert(false);
                }
                assert(bt[n - 1] == x);
                assert(bt.contains(x));
            }
            if bt.contains(x) {
                let m = choose|m: int| 0 <= m < bt.len() && bt[m] == x;
                assert(b[m + 1] == x);
                assert(lex_lt(b[0], x));
                assert(b.contains(x));
                assert(a.contains(x));
                let n = choose|n: int| 0 <= n < a.len() && a[n] == x;
                if n == 0 {
                    lemma_lex_trichotomy(b[0], x);
                    assert(false);
                }
                assert(at[n - 1] == x);
                assert(at.contains(x));
            }
        }
        lemma_catalog_unique(at, bt);
        assert forall|i: int| 0 <= i < a.len() implies a[i] == b[i] by {
            if i > 0 {
                assert(a[i] == at[i - 1]);
                assert(b[i] == bt[i - 1]);
            }
        }
        assert(a =~= b);
    }
}

/// Membership of a name in a list.
pub fn contains_name(list: &Vec<Vec<u8>>, name: &Vec<u8>) -> (r: bool)
    ensures
        r == views_of(list@).contains(name@),
{
    let mut i: usize = 0;
    while i < list.len()
        invariant
            i <= list@.len(),
            forall|j: int| 0 <= j < i ==> views_of(list@)[j] != name@,
        decreases list@.len() - i,
    {
        if bytes_eq(&list[i], name) {
            assert(views_of(list@)[i as int] == name@);
            return true;
        }
        i = i + 1;
    }
    false
}

/// The numeric value of a big-endian string of hex digits.
pub open spec fn hex_seq_val(l: Seq<u8>) -> nat
    decreases l.len(),
{
    if l.len() == 0 {
        0
    } else {
        hex_seq_val(l.drop_last()) * 16 + hex_val(l.last())
    }
}

/// A valid theme line: at least one hex digit, nothing else, and a value
/// that fits an unsigned 32-bit integer.
pub open spec fn theme_line_ok(l: Seq<u8>) -> bool {
    l.len() >= 1 && (forall|i: int| 0 <= i < l.len() ==> is_hex_digit(#[trigger] l[i]))
        && hex_seq_val(l) < 0x100000000
}

/// The color in the low 24 bits of a value.
pub open spec fn rgb_of_val(v: nat) -> (u8, u8, u8) {
    ((((v / 65536) % 256) as u8), (((v / 256) % 256) as u8), ((v % 256) as u8))
}

/// Every line of a theme file must be valid.
pub open spec fn all_theme_lines_ok(ls: Seq<Seq<u8>>) -> bool {
    forall|i: int| 0 <= i < ls.len() ==> theme_line_ok(#[trigger] ls[i])
}

/// The palette of a well-formed theme file.
pub open spec fn decode_theme_spec(ls: Seq<Seq<u8>>) -> Seq<(u8, u8, u8)> {
    ls.map_values(|l: Seq<u8>| rgb_of_val(hex_seq_val(l)))
}

/// A prefix of a hex string never exceeds the whole string's value.
proof fn lemma_hex_prefix_le(l: Seq<u8>, k: int)
    requires
        0 <= k <= l.len(),
    ensures
        hex_seq_val(l.take(k)) <= hex_seq_val(l),
    decreases l.len() - k,
{
    if k == l.len() {
        assert(l.take(k) =~= l);
    } else {
        assert(l.take(k + 1).drop_last() =~= l.take(k));
        assert(l.take(k + 1).last() == l[k]);
        assert(hex_seq_val(l.take(k + 1)) == hex_seq_val(l.take(k)) * 16 + hex_val(l[k]));
        lemma_hex_prefix_le(l, k + 1);
    }
}

/// Parses one theme line as a bare hex number.
fn parse_theme_line(l: &Vec<u8>) -> (r: Option<u32>)
    ensures
        theme_line_ok(l@) ==> (r matches Some(v) && v as nat == hex_seq_val(l@)),
        !theme_line_ok(l@) ==> r is None,
{
    let mut acc: u64 = 0;
    let mut k: usize = 0;
    proof {
        assert(l@.take(0) =~= Seq::<u8>::empty());
    }
    while k < l.len()
        invariant
            k <= l@.len(),
            forall|j: int| 0 <= j < k ==> is_hex_digit(#[trigger] l@[j]),
            acc as nat == hex_seq_val(l@.take(k as int)),
            acc <= 0xFFFFFFFF,
        decreases l@.len() - k,
    {
        let b = l[k];
        if !is_hex_digit_byte(b) {
            return None;
        }
        let d = hex_digit_value(b);
        acc = acc * 16 + d as u64;
        proof {
            assert(l@.take(k as int + 1).drop_last() =~= l@.take(k as int));
            assert(l@.take(k as int + 1).last() == l@[k as int]);
        }
        k = k + 1;
        if acc > 0xFFFFFFFF {
            proof {
                lemma_hex_prefix_le(l@, k as int);
            }
            return None;
        }
    }
    if l.len() == 0 {
        return None;
    }
    proof {
        assert(l@.take(l@.len() as int) =~= l@);
    }
    Some(acc as u32)
}

/// Decodes a theme file's lines strictly: each line is a bare hex
/// number whose low 24 bits are the color.  One malformed line fails
/// the entire decode.
pub fn hex_to_rgb(file: &Vec<Vec<u8>>) -> (r: Option<Vec<(u8, u8, u8)>>)
    ensures
        all_theme_lines_ok(views_of(file@)) ==> (r matches Some(v) && v@ == decode_theme_spec(
            views_of(file@),
        )),
        !all_theme_lines_ok(views_of(file@)) ==> r is None,
{
    let mut acc: Vec<(u8, u8, u8)> = Vec::new();
    let mut i: usize = 0;
    while i < file.len()
        invariant
            i <= file@.len(),
            forall|j: int| 0 <= j < i ==> theme_line_ok(#[trigger] views_of(file@)[j]),
            acc@ == decode_theme_spec(views_of(file@).take(i as int)),
        decreases file@.len() - i,
    {
        let line = &file[i];
        match parse_theme_line(line) {
            None => {
                assert(!theme_line_ok(views_of(file@)[i as int]));
                return None;
            },
            Some(v) => {
                let r0 = ((v / 65536) % 256) as u8;
                let g0 = ((v / 256) % 256) as u8;
                let b0 = (v % 256) as u8;
                acc.push((r0, g0, b0));
                assert(acc@ =~= decode_theme_spec(views_of(file@).take(i as int + 1)));
            },
        }
        i = i + 1;
    }
    proof {
        assert(views_of(file@).take(file@.len() as int) =~= views_of(file@));
    }
    Some(acc)
}

/// Why a theme could not be resolved.
#[derive(Clone, Copy, Debug, PartialEq, Eq, Structural)]
pub enum ThemeError {
    /// The name is not in the catalog.
    NotFound,
    /// The name is cataloged but none of the four locations yielded a file.
    Unreadable,
    /// The first file found has a line that is not a bare hex number.
    BadLine,
}

/// The contents of the four candidate theme files for one name, in the
/// fixed precedence order.  A missing or unreadable file is `None`.
pub struct ThemeSources {
    pub legacy_dark: Option<Vec<u8>>,
    pub legacy_light: Option<Vec<u8>>,
    pub current_dark: Option<Vec<u8>>,
    pub current_light: Option<Vec<u8>>,
}

impl ThemeSources {
    /// The first file found in precedence order: legacy/dark, then
    /// legacy/light, then current/dark, then current/light.
    pub open spec fn first_found(self) -> Option<Seq<u8>> {
        if self.legacy_dark is Some {
            Some(self.legacy_dark->0@)
        } else if self.legacy_light is Some {
            Some(self.legacy_light->0@)
        } else if self.current_dark is Some {
            Some(self.current_dark->0@)
        } else if self.current_light is Some {
            Some(self.current_light->0@)
        } else {
            None
        }
    }
}

/// Resolves a theme name against the catalog and the four candidate
/// files.  The name must be cataloged; the first candidate in precedence
/// order wins — so a legacy/dark file shadows a current/dark one — and
/// its lines are decoded strictly.
pub fn resolve_theme(name: &Vec<u8>, catalog: &Vec<Vec<u8>>, sources: &ThemeSources) -> (r: Result<
    Vec<(u8, u8, u8)>,
    ThemeError,
>)
    ensures
        !views_of(catalog@).contains(name@) ==> r == Err::<Vec<(u8, u8, u8)>, ThemeError>(
            ThemeError::NotFound,
        ),
        views_of(catalog@).contains(name@) && sources.first_found() is None ==> r == Err::<
            Vec<(u8, u8, u8)>,
            ThemeError,
        >(ThemeError::Unreadable),
        (views_of(catalog@).contains(name@) && sources.first_found() is Some) ==> (
        if all_theme_lines_ok(lines_spec(sources.first_found()->0)) {
            r matches Ok(v) && v@ == decode_theme_spec(lines_spec(sources.first_found()->0))
        } else {
            r == Err::<Vec<(u8, u8, u8)>, ThemeError>(ThemeError::BadLine)
        }),
{
    if !contains_name(catalog, name) {
        return Err(ThemeError::NotFound);
    }
    let content: &Vec<u8> = if let Some(c) = &sources.legacy_dark {
        c
    } else if let Some(c) = &sources.legacy_light {
        c
    } else if let Some(c) = &sources.current_dark {
        c
    } else if let Some(c) = &sources.current_light {
        c
    } else {
        return Err(ThemeError::Unreadable);
    };
    assert(sources.first_found() == Some(content@));
    let file = split_lines(content);
    match hex_to_rgb(&file) {
        Some(palette) => Ok(palette),
        None => Err(ThemeError::BadLine),
    }
}

/// The banner above the dark group of the theme listing:
/// `[Dark]` with the name in yellow, then a newline.
pub open spec fn dark_header() -> Seq<u8> {
    seq![91u8, 27u8, 91u8, 51u8, 51u8, 109u8, 68u8, 97u8, 114u8, 107u8, 27u8, 91u8, 48u8, 109u8, 93u8, 10u8]
}

/// The banner above the light group of the theme listing.
pub open spec fn light_header() -> Seq<u8> {
    seq![91u8, 27u8, 91u8, 51u8, 51u8, 109u8, 76u8, 105u8, 103u8, 104u8, 116u8, 27u8, 91u8, 48u8, 109u8, 93u8, 10u8]
}

/// One listing entry: four spaces, a dash, the name, a newline.
pub open spec fn entry_line(name: Seq<u8>) -> Seq<u8> {
    seq![32u8, 32u8, 32u8, 32u8, 45u8] + name + seq![10u8]
}

/// The listing entries for a group of names, in order.
pub open spec fn entries_spec(names: Seq<Seq<u8>>) -> Seq<u8>
    decreases names.len(),
{
    if names.len() == 0 {
        Seq::<u8>::empty()
    } else {
        entry_line(names[0]) + entries_spec(names.drop_first())
    }
}

/// The listing printed for the two variants: each group keeps its own
/// names, so a theme in both variants shows under both banners.
pub open spec fn listing_spec(dark: Seq<Seq<u8>>, light: Seq<Seq<u8>>) -> Seq<u8> {
    dark_header() + entries_spec(dark) + light_header() + entries_spec(light)
}

/// Appending a name appends its entry line.
proof fn lemma_entries_snoc(names: Seq<Seq<u8>>, n: Seq<u8>)
    ensures
        entries_spec(names.push(n)) == entries_spec(names) + entry_line(n),
    decreases names.len(),
{
    if names.len() == 0 {
        assert(names.push(n)[0] == n);
        assert(names.push(n).drop_first() =~= Seq::<Seq<u8>>::empty());
        assert(entries_spec(names.push(n).drop_first()) == Seq::<u8>::empty());
        assert(entries_spec(names) == Seq::<u8>::empty());
        assert(entries_spec(names.push(n)) =~= entries_spec(names) + entry_line(n));
    } else {
        assert(names.push(n).drop_first() =~= names.drop_first().push(n));
        lemma_entries_snoc(names.drop_first(), n);
        assert(entries_spec(names.push(n)) =~= entries_spec(names) + entry_line(n));
    }
}

/// Appends the entry lines of a group of names.
fn push_entries(out: &mut Vec<u8>, names: &Vec<Vec<u8>>)
    ensures
        final(out)@ == old(out)@ + entries_spec(views_of(names@)),
{
    let mut i: usize = 0;
    proof {
        assert(views_of(names@).take(0) =~= Seq::<Seq<u8>>::empty());
        assert(old(out)@ + Seq::<u8>::empty() =~= old(out)@);
    }
    while i < names.len()
        invariant
            i <= names@.len(),
            out@ == old(out)@ + entries_spec(views_of(names@).take(i as int)),
        decreases names@.len() - i,
    {
        let ghost prev = out@;
        proof {
            lemma_entries_snoc(views_of(names@).take(i as int), names@[i as int]@);
            assert(views_of(names@).take(i as int).push(names@[i as int]@) =~= views_of(
                names@,
            ).take(i as int + 1));
        }
        out.push(32);
        out.push(32);
        out.push(32);
        out.push(32);
        out.push(45);
        push_all(out, &names[i]);
        out.push(10);
        assert(out@ =~= prev + entry_line(names@[i as int]@));
        i = i + 1;
    }
    assert(views_of(names@).take(names@.len() as int) =~= views_of(names@));
}

/// Renders the theme listing shown to the user: the dark group's names,
/// then the light group's, each under its colored banner.
pub fn theme_listing(dark: &Vec<Vec<u8>>, light: &Vec<Vec<u8>>) -> (r: Vec<u8>)
    ensures
        r@ == listing_spec(views_of(dark@), views_of(light@)),
{
    let mut out: Vec<u8> = Vec::new();
    out.push(91);
    out.push(27);
    out.push(91);
    out.push(51);
    out.push(51);
    out.push(109);
    out.push(68);
    out.push(97);
    out.push(114);
    out.push(107);
    out.push(27);
    out.push(91);
    out.push(48);
    out.push(109);
    out.push(93);
    out.push(10);
    assert(out@ =~= dark_header());
    push_entries(&mut out, dark);
    let ghost mid = out@;
    out.push(91);
    out.push(27);
    out.push(91);
    out.push(51);
    out.push(51);
    out.push(109);
    out.push(76);
    out.push(105);
    out.push(103);
    out.push(104);
    out.push(116);
    out.push(27);
    out.push(91);
    out.push(48);
    out.push(109);
    out.push(93);
    out.push(10);
    assert(out@ =~= mid + light_header());
    push_entries(&mut out, light);
    assert(out@ =~= listing_spec(views_of(dark@), views_of(light@)));
    out
}

} // verus!
