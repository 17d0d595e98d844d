//! The palette cache store.
//!
//! A palette is persisted as one `#rrggbb` line per color.  Loading is
//! tolerant: lines that do not parse are skipped, and fewer than sixteen
//! valid lines degrade to a cache miss.  The cache file location is a pure
//! function of the image path: the key is the path with its leading
//! separators stripped and every `/` or `.` replaced by `_`.  That mapping
//! is deliberately not injective — distinct image paths such as `/a.b` and
//! `/a/b` collapse to the same key, a quirk kept for on-disk compatibility.

use crate::bytes::{push_all, views_of};
use crate::hex::{
    hex2, hex_digit_value, hex_val, is_hex_digit, is_hex_digit_byte, lemma_hex2_roundtrip,
    lemma_hex_digit_roundtrip, push_hex2,
};
use crate::lines::{
    lemma_raw_lines_no_nl, lemma_raw_lines_step, lines_spec, raw_lines, split_lines, strip_cr,
};
use vstd::prelude::*;

verus! {

/// The sanitized byte of a cache key: path and extension separators
/// become the filler `_`, everything else is kept.
pub open spec fn sanitize_byte(b: u8) -> u8 {
    if b == 47 || b == 46 {
        95u8
    } else {
        b
    }
}

/// `s` without its leading `/` bytes.
pub open spec fn drop_leading_slashes(s: Seq<u8>) -> Seq<u8>
    decreases s.len(),
{
    if s.len() > 0 && s[0] == 47 {
        drop_leading_slashes(s.drop_first())
    } else {
        s
    }
}

/// The cache key of an image path.
pub open spec fn sanitize_spec(s: Seq<u8>) -> Seq<u8> {
    drop_leading_slashes(s).map_values(|b: u8| sanitize_byte(b))
}

/// Derives the cache key from an image path: leading path separators are
/// stripped, and every path or extension separator becomes `_`.
pub fn sanitize_path(image_path: &Vec<u8>) -> (r: Vec<u8>)
    ensures
        r@ == sanitize_spec(image_path@),
{
    let s = image_path;
    let mut lo: usize = 0;
    assert(s@.skip(0) =~= s@);
    while lo < s.len() && s[lo] == 47
        invariant
            lo <= s@.len(),
            drop_leading_slashes(s@) == drop_leading_slashes(s@.skip(lo as int)),
        decreases s@.len() - lo,
    {
        assert(s@.skip(lo as int).drop_first() =~= s@.skip(lo as int + 1));
        lo = lo + 1;
    }
    assert(drop_leading_slashes(s@) == s@.skip(lo as int));
    let mut r: Vec<u8> = Vec::new();
    let mut j: usize = lo;
    while j < s.len()
        invariant
            lo <= j <= s@.len(),
            r@ == s@.subrange(lo as int, j as int).map_values(|b: u8| sanitize_byte(b)),
        decreases s@.len() - j,
    {
        let b = s[j];
        if b == 47 || b == 46 {
            r.push(95);
        } else {
            r.push(b);
        }
        j = j + 1;
        assert(r@ =~= s@.subrange(lo as int, j as int).map_values(|b: u8| sanitize_byte(b)));
    }
    assert(s@.subrange(lo as int, s@.len() as int) =~= s@.skip(lo as int));
    r
}

/// The fixed directory fragment between the cache root and the key.
pub open spec fn cache_subdir() -> Seq<u8> {
    seq![47u8, 119u8, 97u8, 108u8, 47u8, 99u8, 97u8, 99u8, 104u8, 101u8, 47u8]
}

/// The location of the palette cache file for an image path: the cache
/// root, the `wal/cache` subdirectory, and the sanitized key.  Purely a
/// path computation; nothing is touched on disk.
pub fn get_cache_path(cache_root: &Vec<u8>, image_path: &Vec<u8>) -> (r: Vec<u8>)
    ensures
        r@ == cache_root@ + cache_subdir() + sanitize_spec(image_path@),
{
    let mut r: Vec<u8> = Vec::new();
    push_all(&mut r, cache_root);
    let mut sub: Vec<u8> = Vec::new();
    sub.push(47);
    sub.push(119);
    sub.push(97);
    sub.push(108);
    sub.push(47);
    sub.push(99);
    sub.push(97);
    sub.push(99);
    sub.push(104);
    sub.push(101);
    sub.push(47);
    assert(sub@ =~= cache_subdir());
    push_all(&mut r, &sub);
    let key = sanitize_path(image_path);
    push_all(&mut r, &key);
    assert(r@ =~= cache_root@ + cache_subdir() + sanitize_spec(image_path@));
    r
}

/// The cache file line for one color: `#` and six lowercase hex digits.
pub open spec fn cache_line(c: (u8, u8, u8)) -> Seq<u8> {
    seq![35u8] + hex2(c.0) + hex2(c.1) + hex2(c.2)
}

/// The full cache file for a palette: one line per color, joined with
/// newlines and no trailing newline.
pub open spec fn render_cache_spec(cs: Seq<(u8, u8, u8)>) -> Seq<u8>
    decreases cs.len(),
{
    if cs.len() == 0 {
        Seq::<u8>::empty()
    } else if cs.len() == 1 {
        cache_line(cs[0])
    } else {
        cache_line(cs[0]) + seq![10u8] + render_cache_spec(cs.drop_first())
    }
}

/// A line is accepted by the cache loader when it starts with the `#`
/// marker and at least six hex digits follow; trailing bytes are ignored.
pub open spec fn cache_line_ok(l: Seq<u8>) -> bool {
    l.len() >= 7 && l[0] == 35 && (forall|i: int| 1 <= i < 7 ==> is_hex_digit(#[trigger] l[i]))
}

/// The color encoded by an accepted cache line.
pub open spec fn line_triple(l: Seq<u8>) -> (u8, u8, u8)
    recommends
        cache_line_ok(l),
{
    (
        (hex_val(l[1]) * 16 + hex_val(l[2])) as u8,
        (hex_val(l[3]) * 16 + hex_val(l[4])) as u8,
        (hex_val(l[5]) * 16 + hex_val(l[6])) as u8,
    )
}

/// The colors of the accepted lines, in file order; rejected lines are
/// skipped silently.
pub open spec fn parse_lines(ls: Seq<Seq<u8>>) -> Seq<(u8, u8, u8)>
    decreases ls.len(),
{
    if ls.len() == 0 {
        Seq::<(u8, u8, u8)>::empty()
    } else {
        (if cache_line_ok(ls[0]) {
            seq![line_triple(ls[0])]
        } else {
            Seq::<(u8, u8, u8)>::empty()
        }) + parse_lines(ls.drop_first())
    }
}

/// The palette parsed from a cache file's bytes.
pub open spec fn parse_cache_spec(content: Seq<u8>) -> Seq<(u8, u8, u8)> {
    parse_lines(lines_spec(content))
}

/// Extending the line list by one line appends its color, or nothing.
proof fn lemma_parse_lines_snoc(ls: Seq<Seq<u8>>, l: Seq<u8>)
    ensures
        parse_lines(ls.push(l)) == parse_lines(ls) + (if cache_line_ok(l) {
            seq![line_triple(l)]
        } else {
            Seq::<(u8, u8, u8)>::empty()
        }),
    decreases ls.len(),
{
    if ls.len() == 0 {
        assert(ls.push(l)[0] == l);
        assert(ls.push(l).drop_first() =~= Seq::<Seq<u8>>::empty());
        assert(parse_lines(ls.push(l).drop_first()) == Seq::<(u8, u8, u8)>::empty());
        assert(parse_lines(ls) == Seq::<(u8, u8, u8)>::empty());
        assert(parse_lines(ls.push(l)) =~= parse_lines(ls) + (if cache_line_ok(l) {
            seq![line_triple(l)]
        } else {
            Seq::<(u8, u8, u8)>::empty()
        }));
    } else {
        assert(ls.push(l).drop_first() =~= ls.drop_first().push(l));
        lemma_parse_lines_snoc(ls.drop_first(), l);
        assert(parse_lines(ls.push(l)) =~= parse_lines(ls) + (if cache_line_ok(l) {
            seq![line_triple(l)]
        } else {
            Seq::<(u8, u8, u8)>::empty()
        }));
    }
}

/// Reads a palette out of a cache file's bytes.  Lines that do not carry
/// `#` and six hex digits are skipped; fewer than sixteen surviving lines
/// are a cache miss, reported as `None`.
pub fn load_cached_colors(content: &Vec<u8>) -> (r: Option<Vec<(u8, u8, u8)>>)
    ensures
        parse_cache_spec(content@).len() >= 16 ==> (match r {
            Some(v) => v@ == parse_cache_spec(content@),
            None => false,
        }),
        parse_cache_spec(content@).len() < 16 ==> r is None,
{
    let ls = split_lines(content);
    let mut acc: Vec<(u8, u8, u8)> = Vec::new();
    let mut i: usize = 0;
    proof {
        assert(views_of(ls@).take(0) =~= Seq::<Seq<u8>>::empty());
    }
    while i < ls.len()
        invariant
            i <= ls@.len(),
            views_of(ls@) == lines_spec(content@),
            acc@ == parse_lines(views_of(ls@).take(i as int)),
        decreases ls@.len() - i,
    {
        let ghost prev = acc@;
        let line = &ls[i];
        proof {
            lemma_parse_lines_snoc(views_of(ls@).take(i as int), line@);
            assert(views_of(ls@).take(i as int).push(line@) =~= views_of(ls@).take(i as int + 1));
        }
        if line.len() >= 7 && line[0] == 35 {
            let mut all_hex = true;
            let mut k: usize = 1;
            while k < 7
                invariant
                    1 <= k <= 7,
                    line@.len() >= 7,
                    all_hex == (forall|j: int| 1 <= j < k ==> is_hex_digit(#[trigger] line@[j])),
                decreases 7 - k,
            {
                if !is_hex_digit_byte(line[k]) {
                    all_hex = false;
                }
                k = k + 1;
            }
            if all_hex {
                let r0 = hex_digit_value(line[1]) * 16 + hex_digit_value(line[2]);
                let g0 = hex_digit_value(line[3]) * 16 + hex_digit_value(line[4]);
                let b0 = hex_digit_value(line[5]) * 16 + hex_digit_value(line[6]);
                acc.push((r0, g0, b0));
                assert(acc@ =~= prev + seq![line_triple(line@)]);
            } else {
                assert(acc@ =~= prev + Seq::<(u8, u8, u8)>::empty());
            }
        } else {
            assert(acc@ =~= prev + Seq::<(u8, u8, u8)>::empty());
        }
        i = i + 1;
    }
    proof {
        assert(views_of(ls@).take(ls@.len() as int) =~= views_of(ls@));
    }
    if acc.len() >= 16 {
        Some(acc)
    } else {
        None
    }
}

/// Serializes a palette to the cache file format: one `#rrggbb` line per
/// color, lowercase, newline-separated.  The caller writes the bytes out;
/// write failures are the caller's to swallow, the cache being disposable.
pub fn render_cache_content(colors: &Vec<(u8, u8, u8)>) -> (r: Vec<u8>)
    ensures
        r@ == render_cache_spec(colors@),
{
    let mut out: Vec<u8> = Vec::new();
    let mut i: usize = 0;
    proof {
        assert(colors@.take(0) =~= Seq::<(u8, u8, u8)>::empty());
    }
    while i < colors.len()
        invariant
            i <= colors@.len(),
            out@ == render_cache_spec(colors@.take(i as int)),
        decreases colors@.len() - i,
    {
        let ghost prev = out@;
        proof {
            lemma_render_snoc(colors@.take(i as int), colors@[i as int]);
            assert(colors@.take(i as int).push(colors@[i as int]) =~= colors@.take(i as int + 1));
        }
        if i > 0 {
            out.push(10);
        }
        let c = colors[i];
        out.push(35);
        push_hex2(&mut out, c.0);
        push_hex2(&mut out, c.1);
        push_hex2(&mut out, c.2);
        proof {
            if i == 0 {
                assert(out@ =~= cache_line(colors@[0]));
            } else {
                assert(out@ =~= prev + seq![10u8] + cache_line(colors@[i as int]));
            }
        }
        i = i + 1;
    }
    assert(colors@.take(colors@.len() as int) =~= colors@);
    out
}

/// Appending a color to a palette appends its line to the rendering.
proof fn lemma_render_snoc(cs: Seq<(u8, u8, u8)>, c: (u8, u8, u8))
    ensures
        cs.len() == 0 ==> render_cache_spec(cs.push(c)) == cache_line(c),
        cs.len() > 0 ==> render_cache_spec(cs.push(c)) == render_cache_spec(cs) + seq![10u8]
            + cache_line(c),
    decreases cs.len(),
{
    if cs.len() == 0 {
        assert(cs.push(c)[0] == c);
    } else {
        assert(cs.push(c).drop_first() =~= cs.drop_first().push(c));
        lemma_render_snoc(cs.drop_first(), c);
        if cs.len() == 1 {
            assert(render_cache_spec(cs.push(c)) =~= render_cache_spec(cs) + seq![10u8]
                + cache_line(c));
        } else {
            assert(render_cache_spec(cs.push(c)) =~= render_cache_spec(cs) + seq![10u8]
                + cache_line(c));
        }
    }
}

/// Every byte of a rendered line is a marker or hex digit: never a
/// newline or carriage return, and the line decodes back to its color.
proof fn lemma_cache_line_facts(c: (u8, u8, u8))
    ensures
        cache_line(c).len() == 7,
        forall|i: int| 0 <= i < 7 ==> cache_line(c)[i] != 10,
        cache_line(c).last() != 13,
        cache_line_ok(cache_line(c)),
        line_triple(cache_line(c)) == c,
{
    let l = cache_line(c);
    lemma_hex2_roundtrip(c.0);
    lemma_hex2_roundtrip(c.1);
    lemma_hex2_roundtrip(c.2);
    lemma_hex_digit_roundtrip((c.0 / 16) as nat);
    lemma_hex_digit_roundtrip((c.0 % 16) as nat);
    lemma_hex_digit_roundtrip((c.1 / 16) as nat);
    lemma_hex_digit_roundtrip((c.1 % 16) as nat);
    lemma_hex_digit_roundtrip((c.2 / 16) as nat);
    lemma_hex_digit_roundtrip((c.2 % 16) as nat);
    assert(l[0] == 35 && l[1] == hex2(c.0)[0] && l[2] == hex2(c.0)[1] && l[3] == hex2(c.1)[0]
        && l[4] == hex2(c.1)[1] && l[5] == hex2(c.2)[0] && l[6] == hex2(c.2)[1]);
}

/// The rendering splits back into exactly the per-color lines.
proof fn lemma_lines_of_render(cs: Seq<(u8, u8, u8)>)
    ensures
        lines_spec(render_cache_spec(cs)) == cs.map_values(|c: (u8, u8, u8)| cache_line(c)),
    decreases cs.len(),
{
    let strip = |l: Seq<u8>| strip_cr(l);
    let to_line = |c: (u8, u8, u8)| cache_line(c);
    if cs.len() == 0 {
        assert(lines_spec(render_cache_spec(cs)) =~= cs.map_values(to_line));
    } else if cs.len() == 1 {
        lemma_cache_line_facts(cs[0]);
        lemma_raw_lines_no_nl(cache_line(cs[0]));
        assert(raw_lines(render_cache_spec(cs)) == seq![cache_line(cs[0])]);
        assert(strip_cr(cache_line(cs[0])) == cache_line(cs[0]));
        assert(lines_spec(render_cache_spec(cs)) =~= cs.map_values(to_line));
    } else {
        lemma_cache_line_facts(cs[0]);
        lemma_raw_lines_step(cache_line(cs[0]), render_cache_spec(cs.drop_first()));
        lemma_lines_of_render(cs.drop_first());
        let rest = raw_lines(render_cache_spec(cs.drop_first()));
        assert(raw_lines(render_cache_spec(cs)) == seq![cache_line(cs[0])] + rest);
        assert(strip_cr(cache_line(cs[0])) == cache_line(cs[0]));
        assert((seq![cache_line(cs[0])] + rest).map_values(strip) =~= seq![cache_line(cs[0])]
            + rest.map_values(strip));
        assert(rest.map_values(strip) == cs.drop_first().map_values(to_line));
        assert(seq![cache_line(cs[0])] + cs.drop_first().map_values(to_line) =~= cs.map_values(
            to_line,
        ));
    }
}

/// Parsing the per-color lines of a palette recovers the palette.
proof fn lemma_parse_of_lines(cs: Seq<(u8, u8, u8)>)
    ensures
        parse_lines(cs.map_values(|c: (u8, u8, u8)| cache_line(c))) == cs,
    decreases cs.len(),
{
    let to_line = |c: (u8, u8, u8)| cache_line(c);
    if cs.len() == 0 {
        assert(parse_lines(cs.map_values(to_line)) =~= cs);
    } else {
        lemma_cache_line_facts(cs[0]);
        assert(cs.map_values(to_line).drop_first() =~= cs.drop_first().map_values(to_line));
        lemma_parse_of_lines(cs.drop_first());
        assert(parse_lines(cs.map_values(to_line)) =~= cs);
    }
}

/// Round trip: a palette serialized by `render_cache_content` is read
/// back verbatim by `load_cached_colors` — and is a hit, not a miss,
/// whenever it holds at least sixteen colors.
pub proof fn lemma_cache_round_trip(cs: Seq<(u8, u8, u8)>)
    ensures
        parse_cache_spec(render_cache_spec(cs)) == cs,
{
    lemma_lines_of_render(cs);
    lemma_parse_of_lines(cs);
}

} // verus!
