//! The terminal color broadcast protocol.
//!
//! A palette of at least sixteen colors is pushed to a pseudo-terminal by
//! writing OSC escape sequences: one `ESC ] 4 ; i ; #rrggbb ESC \` per
//! base slot `0..16`, in index order — later writes for the same index
//! win, so order is part of the protocol — followed by four fixed
//! mappings: OSC 10 (foreground) from slot 7, OSC 11 (background) from
//! slot 0, OSC 12 (cursor) from slot 15 and OSC 708 (border) from slot 5.
//! The byte payload is identical for every device; attempts are made per
//! device and are independent.  A device that cannot be opened is
//! skipped silently; one whose write fails draws a warning for that
//! device alone.

use crate::bytes::{clone_bytes, views_of};
use crate::hex::{dec_rep, hex2, push_dec, push_hex2};
use vstd::prelude::*;

verus! {

/// A decimal digit byte.
pub open spec fn is_dec_digit(b: u8) -> bool {
    48 <= b <= 57
}

/// An entry of the terminal device directory that names a live terminal:
/// a plain non-negative integer.  The multiplexer control node and
/// anything else non-numeric is excluded.
pub open spec fn device_name_spec(name: Seq<u8>) -> bool {
    name.len() > 0 && (forall|i: int| 0 <= i < name.len() ==> is_dec_digit(#[trigger] name[i]))
}

/// Decides whether a directory entry names a broadcast target.
pub fn is_terminal_device_name(name: &Vec<u8>) -> (r: bool)
    ensures
        r == device_name_spec(name@),
{
    if name.len() == 0 {
        return false;
    }
    let mut i: usize = 0;
    while i < name.len()
        invariant
            i <= name@.len(),
            forall|j: int| 0 <= j < i ==> is_dec_digit(#[trigger] name@[j]),
        decreases name@.len() - i,
    {
        let b = name[i];
        if b < 48 || b > 57 {
            return false;
        }
        i = i + 1;
    }
    true
}

/// The six hex digits of one color.
pub open spec fn color_hex(c: (u8, u8, u8)) -> Seq<u8> {
    hex2(c.0) + hex2(c.1) + hex2(c.2)
}

/// `ESC ] 4 ; {slot} ; #{rrggbb} ESC \` — sets one base color slot.
pub open spec fn osc4_seq(slot: nat, c: (u8, u8, u8)) -> Seq<u8> {
    seq![27u8, 93u8, 52u8, 59u8] + dec_rep(slot) + seq![59u8, 35u8] + color_hex(c) + seq![
        27u8,
        92u8,
    ]
}

/// `ESC ] {code} ; #{rrggbb} ESC \` — sets one fixed mapping.
pub open spec fn osc_code_seq(code: nat, c: (u8, u8, u8)) -> Seq<u8> {
    seq![27u8, 93u8] + dec_rep(code) + seq![59u8, 35u8] + color_hex(c) + seq![27u8, 92u8]
}

/// The concatenation of the base sequences for slots `0..n`.
pub open spec fn base_sequences(p: Seq<(u8, u8, u8)>, n: int) -> Seq<u8>
    decreases n,
{
    if n <= 0 {
        Seq::<u8>::empty()
    } else {
        base_sequences(p, n - 1) + osc4_seq((n - 1) as nat, p[n - 1])
    }
}

/// The whole per-device payload: the sixteen base sequences in index
/// order, then the four fixed mappings from slots 7, 0, 15 and 5.
pub open spec fn payload_spec(p: Seq<(u8, u8, u8)>) -> Seq<u8>
    recommends
        p.len() >= 16,
{
    base_sequences(p, 16) + osc_code_seq(10, p[7]) + osc_code_seq(11, p[0]) + osc_code_seq(
        12,
        p[15],
    ) + osc_code_seq(708, p[5])
}

/// Appends one base color sequence to `out`.
fn push_osc4(out: &mut Vec<u8>, slot: u32, c: (u8, u8, u8))
    ensures
        final(out)@ == old(out)@ + osc4_seq(slot as nat, c),
{
    out.push(27);
    out.push(93);
    out.push(52);
    out.push(59);
    push_dec(out, slot);
    out.push(59);
    out.push(35);
    push_hex2(out, c.0);
    push_hex2(out, c.1);
    push_hex2(out, c.2);
    out.push(27);
    out.push(92);
    assert(out@ =~= old(out)@ + osc4_seq(slot as nat, c));
}

/// Appends one fixed-mapping sequence to `out`.
fn push_osc_code(out: &mut Vec<u8>, code: u32, c: (u8, u8, u8))
    ensures
        final(out)@ == old(out)@ + osc_code_seq(code as nat, c),
{
    out.push(27);
    out.push(93);
    push_dec(out, code);
    out.push(59);
    out.push(35);
    push_hex2(out, c.0);
    push_hex2(out, c.1);
    push_hex2(out, c.2);
    out.push(27);
    out.push(92);
    assert(out@ =~= old(out)@ + osc_code_seq(code as nat, c));
}

/// Renders the escape-sequence payload written to one device for a
/// palette: slots `0..16` in order, then the four fixed mappings.
/// Entries beyond the sixteenth are ignored.
pub fn device_payload(palette: &Vec<(u8, u8, u8)>) -> (r: Vec<u8>)
    requires
        palette@.len() >= 16,
    ensures
        r@ == payload_spec(palette@),
{
    let mut out: Vec<u8> = Vec::new();
    let mut i: usize = 0;
    while i < 16
        invariant
            i <= 16,
            palette@.len() >= 16,
            out@ == base_sequences(palette@, i as int),
        decreases 16 - i,
    {
        let ghost prev = out@;
        push_osc4(&mut out, i as u32, palette[i]);
        i = i + 1;
        assert(out@ == base_sequences(palette@, i as int));
    }
    push_osc_code(&mut out, 10, palette[7]);
    push_osc_code(&mut out, 11, palette[0]);
    push_osc_code(&mut out, 12, palette[15]);
    push_osc_code(&mut out, 708, palette[5]);
    out
}

/// How the attempt to serve one device ended.  Opening and writing are
/// distinguished on purpose: a device that cannot even be opened — gone,
/// or not ours — is skipped in silence, while a device that accepted the
/// open but failed the write draws a warning.
#[derive(Clone, Copy, Debug, PartialEq, Eq, Structural)]
pub enum DeviceOutcome {
    /// The device could not be opened for writing: skipped silently.
    OpenFailed,
    /// The device opened but the payload write failed: warned about.
    WriteFailed,
    /// The whole payload was written.
    Written,
}

/// The names of the devices whose write failed, in attempt order.
pub open spec fn failed_names(s: Seq<(Vec<u8>, DeviceOutcome)>) -> Seq<Seq<u8>>
    decreases s.len(),
{
    if s.len() == 0 {
        Seq::<Seq<u8>>::empty()
    } else {
        (if s[0].1 is WriteFailed {
            seq![s[0].0@]
        } else {
            Seq::<Seq<u8>>::empty()
        }) + failed_names(s.drop_first())
    }
}

/// Appending one attempt appends its name exactly when its write failed.
proof fn lemma_failed_names_snoc(s: Seq<(Vec<u8>, DeviceOutcome)>, a: (Vec<u8>, DeviceOutcome))
    ensures
        failed_names(s.push(a)) == failed_names(s) + (if a.1 is WriteFailed {
            seq![a.0@]
        } else {
            Seq::<Seq<u8>>::empty()
        }),
    decreases s.len(),
{
    if s.len() == 0 {
        assert(s.push(a)[0] == a);
        assert(s.push(a).drop_first() =~= Seq::<(Vec<u8>, DeviceOutcome)>::empty());
        assert(failed_names(s.push(a).drop_first()) == Seq::<Seq<u8>>::empty());
        assert(failed_names(s) == Seq::<Seq<u8>>::empty());
        assert(failed_names(s.push(a)) =~= failed_names(s) + (if a.1 is WriteFailed {
            seq![a.0@]
        } else {
            Seq::<Seq<u8>>::empty()
        }));
    } else {
        assert(s.push(a).drop_first() =~= s.drop_first().push(a));
        lemma_failed_names_snoc(s.drop_first(), a);
        assert(failed_names(s.push(a)) =~= failed_names(s) + (if a.1 is WriteFailed {
            seq![a.0@]
        } else {
            Seq::<Seq<u8>>::empty()
        }));
    }
}

/// Partial-failure tolerance: a broadcast warns about a device exactly
/// when its write failed.  A device that was served in full, or whose
/// open already failed, is never in the warning list — so one bad device
/// leaves every other device's full payload untouched and unreported.
pub proof fn lemma_warned_iff_write_failed(s: Seq<(Vec<u8>, DeviceOutcome)>)
    ensures
        forall|n: Seq<u8>|
            failed_names(s).contains(n) <==> (exists|j: int|
                0 <= j < s.len() && (#[trigger] s[j]).1 is WriteFailed && s[j].0@ == n),
    decreases s.len(),
{
    if s.len() > 0 {
        lemma_warned_iff_write_failed(s.drop_first());
        let head: Seq<Seq<u8>> = if s[0].1 is WriteFailed {
            seq![s[0].0@]
        } else {
            Seq::<Seq<u8>>::empty()
        };
        let tail = failed_names(s.drop_first());
        assert(failed_names(s) == head + tail);
        assert forall|n: Seq<u8>|
            failed_names(s).contains(n) <==> (exists|j: int|
                0 <= j < s.len() && (#[trigger] s[j]).1 is WriteFailed && s[j].0@ == n) by {
            if failed_names(s).contains(n) {
                let i = choose|i: int| 0 <= i < failed_names(s).len() && failed_names(s)[i] == n;
                if i < head.len() {
                    assert((s[0]).1 is WriteFailed && s[0].0@ == n);
                } else {
                    assert(tail[i - head.len()] == n);
                    assert(tail.contains(n));
                    let j = choose|j: int|
                        0 <= j < s.drop_first().len() && (#[trigger] s.drop_first()[j]).1
                            is WriteFailed && s.drop_first()[j].0@ == n;
                    assert((s[j + 1]).1 is WriteFailed && s[j + 1].0@ == n);
                }
            }
            if exists|j: int|
                0 <= j < s.len() && (#[trigger] s[j]).1 is WriteFailed && s[j].0@ == n {
                let j = choose|j: int|
                    0 <= j < s.len() && (#[trigger] s[j]).1 is WriteFailed && s[j].0@ == n;
                if j == 0 {
                    assert(failed_names(s)[0] == n);
                } else {
                    assert((s.drop_first()[j - 1]).1 is WriteFailed && s.drop_first()[j - 1].0@
                        == n);
                    assert(tail.contains(n));
                    let i = choose|i: int| 0 <= i < tail.len() && tail[i] == n;
                    assert(failed_names(s)[head.len() + i] == n);
                }
                assert(failed_names(s).contains(n));
            }
        }
    }
}

/// Aggregates per-device attempts into the warning list: exactly the
/// devices whose write failed, in attempt order.  Failed opens are
/// skipped silently, and a failure on one device never blocks another —
/// the attempts are already independent — so a broadcast with one bad
/// device still fully serves the others.
pub fn broadcast_warnings(results: &Vec<(Vec<u8>, DeviceOutcome)>) -> (r: Vec<Vec<u8>>)
    ensures
        views_of(r@) == failed_names(results@),
{
    let mut out: Vec<Vec<u8>> = Vec::new();
    let mut i: usize = 0;
    proof {
        assert(results@.take(0) =~= Seq::<(Vec<u8>, DeviceOutcome)>::empty());
        assert(views_of(out@) =~= Seq::<Seq<u8>>::empty());
    }
    while i < results.len()
        invariant
            i <= results@.len(),
            views_of(out@) == failed_names(results@.take(i as int)),
        decreases results@.len() - i,
    {
        let ghost prev = views_of(out@);
        proof {
            lemma_failed_names_snoc(results@.take(i as int), results@[i as int]);
            assert(results@.take(i as int).push(results@[i as int]) =~= results@.take(
                i as int + 1,
            ));
        }
        if matches!(results[i].1, DeviceOutcome::WriteFailed) {
            out.push(clone_bytes(&results[i].0));
            assert(views_of(out@) =~= prev + seq![results@[i as int].0@]);
        } else {
            assert(views_of(out@) =~= prev + Seq::<Seq<u8>>::empty());
        }
        i = i + 1;
    }
    proof {
        assert(results@.take(results@.len() as int) =~= results@);
    }
    out
}

} // verus!
