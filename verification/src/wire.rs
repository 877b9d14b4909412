//! The canonical byte encoding of the vault's plaintext contents — what gets
//! sealed.  Every field is length-prefixed: integers are eight bytes
//! little-endian, strings are a length followed by their UTF-8 bytes,
//! options are a one-byte tag, lists are a count followed by the items.
//! Decoding is the exact inverse of encoding, proved below; trailing bytes
//! make decoding fail.

use vstd::prelude::*;

use vstd::bytes::{spec_u64_from_le_bytes, spec_u64_to_le_bytes, u64_from_le_bytes, u64_to_le_bytes};
use vstd::string::{StringExecFns, StringSliceAdditionalSpecFns};
use vstd::utf8::{decode_utf8, encode_utf8, valid_utf8};

use crate::byteops::append_bytes;
use crate::models::{Entry, EntryView, HistoryView, PasswordHistory};

verus! {

// ---------------------------------------------------------------------------
// Spec-level encoders.
// ---------------------------------------------------------------------------
/// An integer: eight bytes, little-endian.
pub open spec fn spec_enc_u64(x: u64) -> Seq<u8> {
    spec_u64_to_le_bytes(x)
}

/// A string: the byte length of its UTF-8 form, then those bytes.
pub open spec fn spec_enc_str(s: Seq<char>) -> Seq<u8> {
    spec_enc_u64(encode_utf8(s).len() as u64) + encode_utf8(s)
}

/// An optional string: a tag byte, then the string if present.
pub open spec fn spec_enc_opt_str(o: Option<Seq<char>>) -> Seq<u8> {
    match o {
        None => seq![0u8],
        Some(s) => seq![1u8] + spec_enc_str(s),
    }
}

/// A history record: the password, then the change timestamp.
pub open spec fn spec_enc_hist(h: HistoryView) -> Seq<u8> {
    spec_enc_str(h.password) + spec_enc_u64(h.changed_at)
}

/// The items of a string list, in order.
pub open spec fn spec_enc_str_items(ts: Seq<Seq<char>>) -> Seq<u8>
    decreases ts.len(),
{
    if ts.len() == 0 {
        Seq::empty()
    } else {
        spec_enc_str(ts[0]) + spec_enc_str_items(ts.drop_first())
    }
}

/// A string list: a count, then the items.
pub open spec fn spec_enc_strs(ts: Seq<Seq<char>>) -> Seq<u8> {
    spec_enc_u64(ts.len() as u64) + spec_enc_str_items(ts)
}

/// The items of a history list, in order.
pub open spec fn spec_enc_hist_items(hs: Seq<HistoryView>) -> Seq<u8>
    decreases hs.len(),
{
    if hs.len() == 0 {
        Seq::empty()
    } else {
        spec_enc_hist(hs[0]) + spec_enc_hist_items(hs.drop_first())
    }
}

/// A history list: a count, then the items.
pub open spec fn spec_enc_hists(hs: Seq<HistoryView>) -> Seq<u8> {
    spec_enc_u64(hs.len() as u64) + spec_enc_hist_items(hs)
}

/// An entry: its fields, in declaration order.
pub open spec fn spec_enc_entry(e: EntryView) -> Seq<u8> {
    spec_enc_str(e.id) + spec_enc_str(e.n) + spec_enc_str(e.u) + spec_enc_str(e.p)
        + spec_enc_opt_str(e.url) + spec_enc_opt_str(e.nt) + spec_enc_u64(e.t) + spec_enc_strs(
        e.tags,
    ) + spec_enc_hists(e.history) + spec_enc_u64(e.last_modified)
}

/// The items of an entry list, in order.
pub open spec fn spec_enc_entry_items(es: Seq<EntryView>) -> Seq<u8>
    decreases es.len(),
{
    if es.len() == 0 {
        Seq::empty()
    } else {
        spec_enc_entry(es[0]) + spec_enc_entry_items(es.drop_first())
    }
}

/// The whole payload: the entry count, then the entries.
pub open spec fn spec_enc_payload(es: Seq<EntryView>) -> Seq<u8> {
    spec_enc_u64(es.len() as u64) + spec_enc_entry_items(es)
}

// ---------------------------------------------------------------------------
// Encodability: what the length prefixes can express.  Every value built
// from real vectors and strings satisfies these, and the exec encoders
// prove them as they go.
// ---------------------------------------------------------------------------
/// The string's UTF-8 form fits a machine word.
pub open spec fn str_ok(s: Seq<char>) -> bool {
    encode_utf8(s).len() <= usize::MAX
}

/// The option's string, if any, is expressible.
pub open spec fn opt_str_ok(o: Option<Seq<char>>) -> bool {
    match o {
        None => true,
        Some(s) => str_ok(s),
    }
}

/// The history record's password is expressible.
pub open spec fn hist_ok(h: HistoryView) -> bool {
    str_ok(h.password)
}

/// The list's count and every item are expressible.
pub open spec fn strs_ok(ts: Seq<Seq<char>>) -> bool {
    ts.len() <= usize::MAX && forall|i: int| 0 <= i < ts.len() ==> str_ok(#[trigger] ts[i])
}

/// The list's count and every item are expressible.
pub open spec fn hists_ok(hs: Seq<HistoryView>) -> bool {
    hs.len() <= usize::MAX && forall|i: int| 0 <= i < hs.len() ==> hist_ok(#[trigger] hs[i])
}

/// Every field of the entry is expressible.
pub open spec fn entry_ok(e: EntryView) -> bool {
    str_ok(e.id) && str_ok(e.n) && str_ok(e.u) && str_ok(e.p) && opt_str_ok(e.url) && opt_str_ok(
        e.nt,
    ) && strs_ok(e.tags) && hists_ok(e.history)
}

/// The entry count and every entry are expressible.
pub open spec fn entries_ok(es: Seq<EntryView>) -> bool {
    es.len() <= usize::MAX && forall|i: int| 0 <= i < es.len() ==> entry_ok(#[trigger] es[i])
}

// ---------------------------------------------------------------------------
// Exec encoders.
// ---------------------------------------------------------------------------
/// Appends an integer.
fn emit_u64(out: &mut Vec<u8>, x: u64)
    ensures
        final(out)@ == old(out)@ + spec_enc_u64(x),
{
    let b = u64_to_le_bytes(x);
    append_bytes(out, b.as_slice());
}

/// Appends a string.
fn emit_str(out: &mut Vec<u8>, s: &str)
    ensures
        final(out)@ == old(out)@ + spec_enc_str(s@),
        str_ok(s@),
{
    let bytes = s.as_bytes();
    let n = bytes.len();
    proof {
        assert(bytes@.len() == n);
    }
    emit_u64(out, n as u64);
    append_bytes(out, bytes);
    proof {
        assert(out@ =~= old(out)@ + spec_enc_str(s@));
    }
}

/// Appends an optional string.
fn emit_opt_str(out: &mut Vec<u8>, o: &Option<String>)
    ensures
        final(out)@ == old(out)@ + spec_enc_opt_str(
            match o {
                Some(s) => Some(s@),
                None => None,
            },
        ),
        opt_str_ok(
            match o {
                Some(s) => Some(s@),
                None => None,
            },
        ),
{
    match o {
        None => {
            out.push(0u8);
            proof {
                assert(out@ =~= old(out)@ + seq![0u8]);
            }
        },
        Some(s) => {
            out.push(1u8);
            proof {
                assert(out@ =~= old(out)@ + seq![1u8]);
            }
            emit_str(out, s.as_str());
            proof {
                assert(out@ =~= old(out)@ + (seq![1u8] + spec_enc_str(s@)));
            }
        },
    }
}

/// Appends a history record.
fn emit_hist(out: &mut Vec<u8>, h: &PasswordHistory)
    ensures
        final(out)@ == old(out)@ + spec_enc_hist(h@),
        hist_ok(h@),
{
    emit_str(out, h.password.as_str());
    emit_u64(out, h.changed_at);
    proof {
        assert(out@ =~= old(out)@ + spec_enc_hist(h@));
    }
}

/// Extending a list extends its item encoding.
proof fn lemma_enc_str_items_push(ts: Seq<Seq<char>>, x: Seq<char>)
    ensures
        spec_enc_str_items(ts.push(x)) == spec_enc_str_items(ts) + spec_enc_str(x),
    decreases ts.len(),
{
    let p = ts.push(x);
    if ts.len() == 0 {
        assert(p.len() == 1);
        assert(p[0] == x);
        assert(p.drop_first() =~= Seq::<Seq<char>>::empty());
        assert(spec_enc_str_items(p.drop_first()) == Seq::<u8>::empty());
        assert(spec_enc_str_items(p) == spec_enc_str(x) + Seq::<u8>::empty());
        assert(spec_enc_str_items(ts) == Seq::<u8>::empty());
        assert(spec_enc_str(x) + Seq::<u8>::empty() =~= Seq::<u8>::empty() + spec_enc_str(x));
    } else {
        lemma_enc_str_items_push(ts.drop_first(), x);
        assert(p.drop_first() =~= ts.drop_first().push(x));
        assert(p[0] == ts[0]);
        assert(spec_enc_str_items(p) == spec_enc_str(ts[0]) + (spec_enc_str_items(ts.drop_first()) + spec_enc_str(x)));
        assert(spec_enc_str_items(ts) == spec_enc_str(ts[0]) + spec_enc_str_items(ts.drop_first()));
        assert(spec_enc_str(ts[0]) + (spec_enc_str_items(ts.drop_first()) + spec_enc_str(x)) =~= (spec_enc_str(ts[0]) + spec_enc_str_items(ts.drop_first())) + spec_enc_str(x));
    }
}

/// Extending a list extends its item encoding.
proof fn lemma_enc_hist_items_push(hs: Seq<HistoryView>, x: HistoryView)
    ensures
        spec_enc_hist_items(hs.push(x)) == spec_enc_hist_items(hs) + spec_enc_hist(x),
    decreases hs.len(),
{
    let p = hs.push(x);
    if hs.len() == 0 {
        assert(p.len() == 1);
        assert(p[0] == x);
        assert(p.drop_first() =~= Seq::<HistoryView>::empty());
        assert(spec_enc_hist_items(p.drop_first()) == Seq::<u8>::empty());
        assert(spec_enc_hist_items(p) == spec_enc_hist(x) + Seq::<u8>::empty());
        assert(spec_enc_hist_items(hs) == Seq::<u8>::empty());
        assert(spec_enc_hist(x) + Seq::<u8>::empty() =~= Seq::<u8>::empty() + spec_enc_hist(x));
    } else {
        lemma_enc_hist_items_push(hs.drop_first(), x);
        assert(p.drop_first() =~= hs.drop_first().push(x));
        assert(p[0] == hs[0]);
        assert(spec_enc_hist_items(p) == spec_enc_hist(hs[0]) + (spec_enc_hist_items(hs.drop_first()) + spec_enc_hist(x)));
        assert(spec_enc_hist_items(hs) == spec_enc_hist(hs[0]) + spec_enc_hist_items(hs.drop_first()));
        assert(spec_enc_hist(hs[0]) + (spec_enc_hist_items(hs.drop_first()) + spec_enc_hist(x)) =~= (spec_enc_hist(hs[0]) + spec_enc_hist_items(hs.drop_first())) + spec_enc_hist(x));
    }
}

/// Extending a list extends its item encoding.
proof fn lemma_enc_entry_items_push(es: Seq<EntryView>, x: EntryView)
    ensures
        spec_enc_entry_items(es.push(x)) == spec_enc_entry_items(es) + spec_enc_entry(x),
    decreases es.len(),
{
    let p = es.push(x);
    if es.len() == 0 {
        assert(p.len() == 1);
        assert(p[0] == x);
        assert(p.drop_first() =~= Seq::<EntryView>::empty());
        assert(spec_enc_entry_items(p.drop_first()) == Seq::<u8>::empty());
        assert(spec_enc_entry_items(p) == spec_enc_entry(x) + Seq::<u8>::empty());
        assert(spec_enc_entry_items(es) == Seq::<u8>::empty());
        assert(spec_enc_entry(x) + Seq::<u8>::empty() =~= Seq::<u8>::empty() + spec_enc_entry(x));
    } else {
        lemma_enc_entry_items_push(es.drop_first(), x);
        assert(p.drop_first() =~= es.drop_first().push(x));
        assert(p[0] == es[0]);
        assert(spec_enc_entry_items(p) == spec_enc_entry(es[0]) + (spec_enc_entry_items(es.drop_first()) + spec_enc_entry(x)));
        assert(spec_enc_entry_items(es) == spec_enc_entry(es[0]) + spec_enc_entry_items(es.drop_first()));
        assert(spec_enc_entry(es[0]) + (spec_enc_entry_items(es.drop_first()) + spec_enc_entry(x)) =~= (spec_enc_entry(es[0]) + spec_enc_entry_items(es.drop_first())) + spec_enc_entry(x));
    }
}

/// Appends a string list.
fn emit_strs(out: &mut Vec<u8>, ts: &Vec<String>)
    ensures
        final(out)@ == old(out)@ + spec_enc_strs(ts.deep_view()),
        strs_ok(ts.deep_view()),
{
    emit_u64(out, ts.len() as u64);
    let ghost base = out@;
    let mut i: usize = 0;
    proof {
        assert(ts.deep_view().take(0) =~= Seq::<Seq<char>>::empty());
    }
    while i < ts.len()
        invariant
            i <= ts.len(),
            ts.deep_view().len() == ts.len(),
            out@ == base + spec_enc_str_items(ts.deep_view().take(i as int)),
            forall|j: int| 0 <= j < i ==> str_ok(#[trigger] ts.deep_view()[j]),
        decreases ts.len() - i,
    {
        let ghost pre = ts.deep_view().take(i as int);
        emit_str(out, ts[i].as_str());
        proof {
            assert(ts[i as int]@ == ts.deep_view()[i as int]);
            lemma_enc_str_items_push(pre, ts.deep_view()[i as int]);
            assert(ts.deep_view().take(i + 1) =~= pre.push(ts.deep_view()[i as int]));
            assert(out@ =~= base + spec_enc_str_items(ts.deep_view().take(i + 1)));
        }
        i = i + 1;
    }
    proof {
        assert(ts.deep_view().take(ts.len() as int) =~= ts.deep_view());
        assert(out@ =~= old(out)@ + spec_enc_strs(ts.deep_view()));
    }
}

/// Appends a history list.
fn emit_hists(out: &mut Vec<u8>, hs: &Vec<PasswordHistory>)
    ensures
        final(out)@ == old(out)@ + spec_enc_hists(hs.deep_view()),
        hists_ok(hs.deep_view()),
{
    emit_u64(out, hs.len() as u64);
    let ghost base = out@;
    let mut i: usize = 0;
    proof {
        assert(hs.deep_view().take(0) =~= Seq::<HistoryView>::empty());
    }
    while i < hs.len()
        invariant
            i <= hs.len(),
            hs.deep_view().len() == hs.len(),
            out@ == base + spec_enc_hist_items(hs.deep_view().take(i as int)),
            forall|j: int| 0 <= j < i ==> hist_ok(#[trigger] hs.deep_view()[j]),
        decreases hs.len() - i,
    {
        let ghost pre = hs.deep_view().take(i as int);
        emit_hist(out, &hs[i]);
        proof {
            assert(hs[i as int]@ == hs.deep_view()[i as int]);
            lemma_enc_hist_items_push(pre, hs.deep_view()[i as int]);
            assert(hs.deep_view().take(i + 1) =~= pre.push(hs.deep_view()[i as int]));
            assert(out@ =~= base + spec_enc_hist_items(hs.deep_view().take(i + 1)));
        }
        i = i + 1;
    }
    proof {
        assert(hs.deep_view().take(hs.len() as int) =~= hs.deep_view());
        assert(out@ =~= old(out)@ + spec_enc_hists(hs.deep_view()));
    }
}

/// Appends an entry.
fn emit_entry(out: &mut Vec<u8>, e: &Entry)
    ensures
        final(out)@ == old(out)@ + spec_enc_entry(e@),
        entry_ok(e@),
{
    emit_str(out, e.id.as_str());
    emit_str(out, e.n.as_str());
    emit_str(out, e.u.as_str());
    emit_str(out, e.p.as_str());
    emit_opt_str(out, &e.url);
    emit_opt_str(out, &e.nt);
    emit_u64(out, e.t);
    emit_strs(out, &e.tags);
    emit_hists(out, &e.history);
    emit_u64(out, e.last_modified);
    proof {
        assert(out@ =~= old(out)@ + spec_enc_entry(e@));
    }
}

/// Serializes the entries of a vault to the canonical payload.
pub fn encode_payload(entries: &Vec<Entry>) -> (r: Vec<u8>)
    ensures
        r@ == spec_enc_payload(entries.deep_view()),
        entries_ok(entries.deep_view()),
{
    let mut out: Vec<u8> = Vec::new();
    emit_u64(&mut out, entries.len() as u64);
    let ghost base = out@;
    let mut i: usize = 0;
    proof {
        assert(entries.deep_view().take(0) =~= Seq::<EntryView>::empty());
    }
    while i < entries.len()
        invariant
            i <= entries.len(),
            entries.deep_view().len() == entries.len(),
            out@ == base + spec_enc_entry_items(entries.deep_view().take(i as int)),
            forall|j: int| 0 <= j < i ==> entry_ok(#[trigger] entries.deep_view()[j]),
        decreases entries.len() - i,
    {
        let ghost pre = entries.deep_view().take(i as int);
        emit_entry(&mut out, &entries[i]);
        proof {
            assert(entries[i as int]@ == entries.deep_view()[i as int]);
            lemma_enc_entry_items_push(pre, entries.deep_view()[i as int]);
            assert(entries.deep_view().take(i + 1) =~= pre.push(entries.deep_view()[i as int]));
            assert(out@ =~= base + spec_enc_entry_items(entries.deep_view().take(i + 1)));
        }
        i = i + 1;
    }
    proof {
        assert(entries.deep_view().take(entries.len() as int) =~= entries.deep_view());
        assert(out@ =~= spec_enc_payload(entries.deep_view()));
    }
    out
}

// ---------------------------------------------------------------------------
// Spec-level decoders.  Total functions of the byte sequence and position;
// the exec decoders below return exactly what these yield.
// ---------------------------------------------------------------------------
/// Reads an integer.
pub open spec fn spec_dec_u64(bs: Seq<u8>, pos: int) -> Option<(u64, int)> {
    if 0 <= pos && pos + 8 <= bs.len() {
        Some((spec_u64_from_le_bytes(bs.subrange(pos, pos + 8)), pos + 8))
    } else {
        None
    }
}

/// Reads a string: a byte length, then that many bytes of valid UTF-8.
pub open spec fn spec_dec_str(bs: Seq<u8>, pos: int) -> Option<(Seq<char>, int)> {
    match spec_dec_u64(bs, pos) {
        None => None,
        Some((n, p1)) => if p1 + n <= bs.len() {
            if valid_utf8(bs.subrange(p1, p1 + n)) {
                Some((decode_utf8(bs.subrange(p1, p1 + n)), p1 + n))
            } else {
                None
            }
        } else {
            None
        },
    }
}

/// Reads an optional string: a tag byte, then the string if the tag says so.
pub open spec fn spec_dec_opt_str(bs: Seq<u8>, pos: int) -> Option<(Option<Seq<char>>, int)> {
    if 0 <= pos && pos + 1 <= bs.len() {
        if bs[pos] == 0u8 {
            Some((None, pos + 1))
        } else if bs[pos] == 1u8 {
            match spec_dec_str(bs, pos + 1) {
                Some((s, p)) => Some((Some(s), p)),
                None => None,
            }
        } else {
            None
        }
    } else {
        None
    }
}

/// Reads a history record.
pub open spec fn spec_dec_hist(bs: Seq<u8>, pos: int) -> Option<(HistoryView, int)> {
    match spec_dec_str(bs, pos) {
        Some((pw, p1)) => match spec_dec_u64(bs, p1) {
            Some((t, p2)) => Some((HistoryView { password: pw, changed_at: t }, p2)),
            None => None,
        },
        None => None,
    }
}

/// Reads `n` strings.
pub open spec fn spec_dec_str_items(bs: Seq<u8>, pos: int, n: nat) -> Option<(Seq<Seq<char>>, int)>
    decreases n,
{
    if n == 0 {
        Some((Seq::empty(), pos))
    } else {
        match spec_dec_str(bs, pos) {
            Some((s, p1)) => match spec_dec_str_items(bs, p1, (n - 1) as nat) {
                Some((rest, p2)) => Some((seq![s] + rest, p2)),
                None => None,
            },
            None => None,
        }
    }
}

/// Reads a string list: a count, then that many strings.
pub open spec fn spec_dec_strs(bs: Seq<u8>, pos: int) -> Option<(Seq<Seq<char>>, int)> {
    match spec_dec_u64(bs, pos) {
        Some((n, p1)) => spec_dec_str_items(bs, p1, n as nat),
        None => None,
    }
}

/// Reads `n` history records.
pub open spec fn spec_dec_hist_items(bs: Seq<u8>, pos: int, n: nat) -> Option<
    (Seq<HistoryView>, int),
>
    decreases n,
{
    if n == 0 {
        Some((Seq::empty(), pos))
    } else {
        match spec_dec_hist(bs, pos) {
            Some((h, p1)) => match spec_dec_hist_items(bs, p1, (n - 1) as nat) {
                Some((rest, p2)) => Some((seq![h] + rest, p2)),
                None => None,
            },
            None => None,
        }
    }
}

/// Reads a history list: a count, then that many records.
pub open spec fn spec_dec_hists(bs: Seq<u8>, pos: int) -> Option<(Seq<HistoryView>, int)> {
    match spec_dec_u64(bs, pos) {
        Some((n, p1)) => spec_dec_hist_items(bs, p1, n as nat),
        None => None,
    }
}

/// Reads an entry: its fields, in declaration order.
pub open spec fn spec_dec_entry(bs: Seq<u8>, pos: int) -> Option<(EntryView, int)> {
    match spec_dec_str(bs, pos) {
        None => None,
        Some((id, p1)) => match spec_dec_str(bs, p1) {
            None => None,
            Some((n, p2)) => match spec_dec_str(bs, p2) {
                None => None,
                Some((u, p3)) => match spec_dec_str(bs, p3) {
                    None => None,
                    Some((p, p4)) => match spec_dec_opt_str(bs, p4) {
                        None => None,
                        Some((url, p5)) => match spec_dec_opt_str(bs, p5) {
                            None => None,
                            Some((nt, p6)) => match spec_dec_u64(bs, p6) {
                                None => None,
                                Some((t, p7)) => match spec_dec_strs(bs, p7) {
                                    None => None,
                                    Some((tags, p8)) => match spec_dec_hists(bs, p8) {
                                        None => None,
                                        Some((history, p9)) => match spec_dec_u64(bs, p9) {
                                            None => None,
                                            Some((last_modified, p10)) => Some(
                                                (
                                                    EntryView {
                                                        id,
                                                        n,
                                                        u,
                                                        p,
                                                        url,
                                                        nt,
                                                        t,
                                                        tags,
                                                        history,
                                                        last_modified,
                                                    },
                                                    p10,
                                                ),
                                            ),
                                        },
                                    },
                                },
                            },
                        },
                    },
                },
            },
        },
    }
}

/// Reads `n` entries.
pub open spec fn spec_dec_entry_items(bs: Seq<u8>, pos: int, n: nat) -> Option<
    (Seq<EntryView>, int),
>
    decreases n,
{
    if n == 0 {
        Some((Seq::empty(), pos))
    } else {
        match spec_dec_entry(bs, pos) {
            Some((e, p1)) => match spec_dec_entry_items(bs, p1, (n - 1) as nat) {
                Some((rest, p2)) => Some((seq![e] + rest, p2)),
                None => None,
            },
            None => None,
        }
    }
}

/// Reads a whole payload: the entry count, the entries, nothing after them.
pub open spec fn spec_dec_payload(bs: Seq<u8>) -> Option<Seq<EntryView>> {
    match spec_dec_u64(bs, 0) {
        Some((n, p1)) => match spec_dec_entry_items(bs, p1, n as nat) {
            Some((es, p2)) => if p2 == bs.len() {
                Some(es)
            } else {
                None
            },
            None => None,
        },
        None => None,
    }
}

// ---------------------------------------------------------------------------
// Exec decoders.
// ---------------------------------------------------------------------------
/// Relies on `core::str::from_utf8` (std): returns the string viewing
/// exactly the given bytes when they are valid UTF-8, and fails exactly
/// otherwise.
#[verifier::external_body]
fn bytes_to_str<'a>(v: &'a [u8]) -> (r: Option<&'a str>)
    ensures
        match r {
            Some(s) => valid_utf8(v@) && s.spec_bytes() == v@,
            None => !valid_utf8(v@),
        },
{
    match core::str::from_utf8(v) {
        Ok(s) => Some(s),
        Err(_) => None,
    }
}

/// Reads an integer.
fn read_u64(buf: &[u8], pos: usize) -> (r: Option<(u64, usize)>)
    requires
        pos <= buf@.len(),
    ensures
        match r {
            Some((x, p)) => spec_dec_u64(buf@, pos as int) == Some((x, p as int)) && pos < p
                <= buf@.len(),
            None => spec_dec_u64(buf@, pos as int) is None,
        },
{
    if buf.len() - pos < 8 {
        return None;
    }
    let sub = vstd::slice::slice_subrange(buf, pos, pos + 8);
    let x = u64_from_le_bytes(sub);
    Some((x, pos + 8))
}

/// Reads a string.
fn read_str(buf: &[u8], pos: usize) -> (r: Option<(String, usize)>)
    requires
        pos <= buf@.len(),
    ensures
        match r {
            Some((s, p)) => spec_dec_str(buf@, pos as int) == Some((s@, p as int)) && pos < p
                <= buf@.len(),
            None => spec_dec_str(buf@, pos as int) is None,
        },
{
    let (n, p1) = match read_u64(buf, pos) {
        Some(v) => v,
        None => {
            return None;
        },
    };
    if n > (buf.len() - p1) as u64 {
        return None;
    }
    let nn = n as usize;
    proof {
        assert(nn == n);
        assert(p1 + n <= buf@.len());
    }
    let sub = vstd::slice::slice_subrange(buf, p1, p1 + nn);
    match bytes_to_str(sub) {
        Some(s) => {
            let owned = String::from_str(s);
            proof {
                vstd::utf8::decode_utf8_encode_utf8(sub@);
                assert(encode_utf8(s@) == sub@);
                assert(decode_utf8(sub@) == s@) by {
                    vstd::utf8::encode_utf8_decode_utf8(s@);
                }
            }
            Some((owned, p1 + nn))
        },
        None => None,
    }
}

/// Reads an optional string.
fn read_opt_str(buf: &[u8], pos: usize) -> (r: Option<(Option<String>, usize)>)
    requires
        pos <= buf@.len(),
    ensures
        match r {
            Some((o, p)) => spec_dec_opt_str(buf@, pos as int) == Some(
                (
                    match o {
                        Some(s) => Some(s@),
                        None => None,
                    },
                    p as int,
                ),
            ) && pos < p <= buf@.len(),
            None => spec_dec_opt_str(buf@, pos as int) is None,
        },
{
    if buf.len() - pos < 1 {
        return None;
    }
    let tag = *vstd::slice::slice_index_get(buf, pos);
    if tag == 0 {
        Some((None, pos + 1))
    } else if tag == 1 {
        match read_str(buf, pos + 1) {
            Some((s, p)) => Some((Some(s), p)),
            None => None,
        }
    } else {
        None
    }
}

/// Reads a history record.
fn read_hist(buf: &[u8], pos: usize) -> (r: Option<(PasswordHistory, usize)>)
    requires
        pos <= buf@.len(),
    ensures
        match r {
            Some((h, p)) => spec_dec_hist(buf@, pos as int) == Some((h@, p as int)) && pos < p
                <= buf@.len(),
            None => spec_dec_hist(buf@, pos as int) is None,
        },
{
    let (pw, p1) = match read_str(buf, pos) {
        Some(v) => v,
        None => {
            return None;
        },
    };
    let (t, p2) = match read_u64(buf, p1) {
        Some(v) => v,
        None => {
            return None;
        },
    };
    Some((PasswordHistory { password: pw, changed_at: t }, p2))
}

/// Reads a string list.
fn read_strs(buf: &[u8], pos: usize) -> (r: Option<(Vec<String>, usize)>)
    requires
        pos <= buf@.len(),
    ensures
        match r {
            Some((v, p)) => spec_dec_strs(buf@, pos as int) == Some((v.deep_view(), p as int))
                && pos < p <= buf@.len(),
            None => spec_dec_strs(buf@, pos as int) is None,
        },
{
    let (n, p1) = match read_u64(buf, pos) {
        Some(v) => v,
        None => {
            return None;
        },
    };
    let mut acc: Vec<String> = Vec::new();
    let mut p: usize = p1;
    let mut i: u64 = 0;
    proof {
        assert(acc.deep_view() =~= Seq::<Seq<char>>::empty());
    }
    proof {
        assert(Seq::<Seq<char>>::empty() + (spec_dec_str_items(buf@, p1 as int, n as nat)->0).0
            =~= (spec_dec_str_items(buf@, p1 as int, n as nat)->0).0);
    }
    while i < n
        invariant
            i <= n,
            spec_dec_u64(buf@, pos as int) == Some((n, p1 as int)),
            pos < p1 <= p <= buf@.len(),
            acc.deep_view().len() == i,
            match spec_dec_str_items(buf@, p as int, (n - i) as nat) {
                Some((rest, pend)) => spec_dec_str_items(buf@, p1 as int, n as nat) == Some(
                    (acc.deep_view() + rest, pend),
                ),
                None => spec_dec_str_items(buf@, p1 as int, n as nat) is None,
            },
        decreases n - i,
    {
        let ghost pre = acc.deep_view();
        let (s, p2) = match read_str(buf, p) {
            Some(v) => v,
            None => {
                return None;
            },
        };
        acc.push(s);
        proof {
            assert(acc.deep_view() =~= pre.push(s@));
            let tail = spec_dec_str_items(buf@, p2 as int, (n - i - 1) as nat);
            if tail is Some {
                let rest2 = (tail->0).0;
                assert(pre + (seq![s@] + rest2) =~= pre.push(s@) + rest2);
            }
        }
        p = p2;
        i = i + 1;
    }
    proof {
        assert(spec_dec_str_items(buf@, p as int, 0) == Some(
            (Seq::<Seq<char>>::empty(), p as int),
        ));
        assert(acc.deep_view() + Seq::<Seq<char>>::empty() =~= acc.deep_view());
    }
    Some((acc, p))
}

/// Reads a history list.
fn read_hists(buf: &[u8], pos: usize) -> (r: Option<(Vec<PasswordHistory>, usize)>)
    requires
        pos <= buf@.len(),
    ensures
        match r {
            Some((v, p)) => spec_dec_hists(buf@, pos as int) == Some((v.deep_view(), p as int))
                && pos < p <= buf@.len(),
            None => spec_dec_hists(buf@, pos as int) is None,
        },
{
    let (n, p1) = match read_u64(buf, pos) {
        Some(v) => v,
        None => {
            return None;
        },
    };
    let mut acc: Vec<PasswordHistory> = Vec::new();
    let mut p: usize = p1;
    let mut i: u64 = 0;
    proof {
        assert(acc.deep_view() =~= Seq::<HistoryView>::empty());
    }
    proof {
        assert(Seq::<HistoryView>::empty() + (spec_dec_hist_items(buf@, p1 as int, n as nat)->0).0
            =~= (spec_dec_hist_items(buf@, p1 as int, n as nat)->0).0);
    }
    while i < n
        invariant
            i <= n,
            spec_dec_u64(buf@, pos as int) == Some((n, p1 as int)),
            pos < p1 <= p <= buf@.len(),
            acc.deep_view().len() == i,
            match spec_dec_hist_items(buf@, p as int, (n - i) as nat) {
                Some((rest, pend)) => spec_dec_hist_items(buf@, p1 as int, n as nat) == Some(
                    (acc.deep_view() + rest, pend),
                ),
                None => spec_dec_hist_items(buf@, p1 as int, n as nat) is None,
            },
        decreases n - i,
    {
        let ghost pre = acc.deep_view();
        let (h, p2) = match read_hist(buf, p) {
            Some(v) => v,
            None => {
                return None;
            },
        };
        acc.push(h);
        proof {
            assert(acc.deep_view() =~= pre.push(h@));
            let tail = spec_dec_hist_items(buf@, p2 as int, (n - i - 1) as nat);
            if tail is Some {
                let rest2 = (tail->0).0;
                assert(pre + (seq![h@] + rest2) =~= pre.push(h@) + rest2);
            }
        }
        p = p2;
        i = i + 1;
    }
    proof {
        assert(spec_dec_hist_items(buf@, p as int, 0) == Some(
            (Seq::<HistoryView>::empty(), p as int),
        ));
        assert(acc.deep_view() + Seq::<HistoryView>::empty() =~= acc.deep_view());
    }
    Some((acc, p))
}

/// Reads an entry.
fn read_entry(buf: &[u8], pos: usize) -> (r: Option<(Entry, usize)>)
    requires
        pos <= buf@.len(),
    ensures
        match r {
            Some((e, p)) => spec_dec_entry(buf@, pos as int) == Some((e@, p as int)) && pos < p
                <= buf@.len(),
            None => spec_dec_entry(buf@, pos as int) is None,
        },
{
    let (id, p1) = match read_str(buf, pos) {
        Some(v) => v,
        None => {
            return None;
        },
    };
    let (n, p2) = match read_str(buf, p1) {
        Some(v) => v,
        None => {
            return None;
        },
    };
    let (u, p3) = match read_str(buf, p2) {
        Some(v) => v,
        None => {
            return None;
        },
    };
    let (pw, p4) = match read_str(buf, p3) {
        Some(v) => v,
        None => {
            return None;
        },
    };
    let (url, p5) = match read_opt_str(buf, p4) {
        Some(v) => v,
        None => {
            return None;
        },
    };
    let (nt, p6) = match read_opt_str(buf, p5) {
        Some(v) => v,
        None => {
            return None;
        },
    };
    let (t, p7) = match read_u64(buf, p6) {
        Some(v) => v,
        None => {
            return None;
        },
    };
    let (tags, p8) = match read_strs(buf, p7) {
        Some(v) => v,
        None => {
            return None;
        },
    };
    let (history, p9) = match read_hists(buf, p8) {
        Some(v) => v,
        None => {
            return None;
        },
    };
    let (last_modified, p10) = match read_u64(buf, p9) {
        Some(v) => v,
        None => {
            return None;
        },
    };
    Some((Entry { id, n, u, p: pw, url, nt, t, tags, history, last_modified }, p10))
}

/// Deserializes a canonical payload back into entries.  Fails on any
/// malformed input, trailing bytes included.
#[verifier::rlimit(50)]
pub fn decode_payload(buf: &[u8]) -> (r: Option<Vec<Entry>>)
    ensures
        match r {
            Some(v) => spec_dec_payload(buf@) == Some(v.deep_view()),
            None => spec_dec_payload(buf@) is None,
        },
{
    let (n, p1) = match read_u64(buf, 0) {
        Some(v) => v,
        None => {
            return None;
        },
    };
    let mut acc: Vec<Entry> = Vec::new();
    let mut p: usize = p1;
    let mut i: u64 = 0;
    proof {
        assert(acc.deep_view() =~= Seq::<EntryView>::empty());
    }
    proof {
        assert(Seq::<EntryView>::empty() + (spec_dec_entry_items(buf@, p1 as int, n as nat)->0).0
            =~= (spec_dec_entry_items(buf@, p1 as int, n as nat)->0).0);
    }
    while i < n
        invariant
            i <= n,
            spec_dec_u64(buf@, 0) == Some((n, p1 as int)),
            0 < p1 <= p <= buf@.len(),
            acc.deep_view().len() == i,
            match spec_dec_entry_items(buf@, p as int, (n - i) as nat) {
                Some((rest, pend)) => spec_dec_entry_items(buf@, p1 as int, n as nat) == Some(
                    (acc.deep_view() + rest, pend),
                ),
                None => spec_dec_entry_items(buf@, p1 as int, n as nat) is None,
            },
        decreases n - i,
    {
        let ghost pre = acc.deep_view();
        let (e, p2) = match read_entry(buf, p) {
            Some(v) => v,
            None => {
                return None;
            },
        };
        acc.push(e);
        proof {
            assert(acc.deep_view() =~= pre.push(e@));
            let tail = spec_dec_entry_items(buf@, p2 as int, (n - i - 1) as nat);
            if tail is Some {
                let rest2 = (tail->0).0;
                assert(pre + (seq![e@] + rest2) =~= pre.push(e@) + rest2);
            }
        }
        p = p2;
        i = i + 1;
    }
    proof {
        assert(spec_dec_entry_items(buf@, p as int, 0) == Some(
            (Seq::<EntryView>::empty(), p as int),
        ));
        assert(acc.deep_view() + Seq::<EntryView>::empty() =~= acc.deep_view());
    }
    if p != buf.len() {
        return None;
    }
    Some(acc)
}

// ---------------------------------------------------------------------------
// Round trip: decoding is the exact inverse of encoding.
// ---------------------------------------------------------------------------
/// Splits knowledge of a two-part subrange into its parts.
proof fn lemma_subrange_split(bs: Seq<u8>, pos: int, a: Seq<u8>, b: Seq<u8>)
    requires
        0 <= pos,
        pos + a.len() + b.len() <= bs.len(),
        bs.subrange(pos, pos + a.len() + b.len()) == a + b,
    ensures
        bs.subrange(pos, pos + a.len()) == a,
        bs.subrange(pos + a.len(), pos + a.len() + b.len()) == b,
{
    assert(a.len() <= (a + b).len());
    assert forall|k: int| 0 <= k < a.len() implies bs.subrange(pos, pos + a.len())[k] == a[k] by {
        assert(bs.subrange(pos, pos + a.len() + b.len())[k] == (a + b)[k]);
        assert((a + b)[k] == a[k]);
        assert(bs.subrange(pos, pos + a.len() + b.len())[k] == bs[pos + k]);
        assert(bs.subrange(pos, pos + a.len())[k] == bs[pos + k]);
    }
    assert(bs.subrange(pos, pos + a.len()) =~= a);
    assert forall|k: int| 0 <= k < b.len() implies bs.subrange(
        pos + a.len(),
        pos + a.len() + b.len(),
    )[k] == b[k] by {
        assert(bs.subrange(pos, pos + a.len() + b.len())[a.len() + k] == (a + b)[a.len() + k]);
        assert((a + b)[a.len() + k] == b[k]);
        assert(bs.subrange(pos, pos + a.len() + b.len())[a.len() + k] == bs[pos + a.len() + k]);
        assert(bs.subrange(pos + a.len(), pos + a.len() + b.len())[k] == bs[pos + a.len() + k]);
    }
    assert(bs.subrange(pos + a.len(), pos + a.len() + b.len()) =~= b);
}

/// An encoded integer reads back as itself.
proof fn lemma_dec_u64_at(bs: Seq<u8>, pos: int, x: u64)
    requires
        0 <= pos,
        pos + 8 <= bs.len(),
        bs.subrange(pos, pos + 8) == spec_enc_u64(x),
    ensures
        spec_dec_u64(bs, pos) == Some((x, pos + 8)),
{
    vstd::bytes::lemma_auto_spec_u64_to_from_le_bytes();
}

/// An encoded string reads back as itself.
proof fn lemma_dec_str_at(bs: Seq<u8>, pos: int, s: Seq<char>)
    requires
        str_ok(s),
        0 <= pos,
        pos + spec_enc_str(s).len() <= bs.len(),
        bs.subrange(pos, pos + spec_enc_str(s).len()) == spec_enc_str(s),
    ensures
        spec_dec_str(bs, pos) == Some((s, pos + spec_enc_str(s).len())),
{
    let utf8 = encode_utf8(s);
    let l: int = utf8.len() as int;
    assert(usize::MAX <= u64::MAX);
    assert((l as u64) as int == l);
    vstd::bytes::lemma_auto_spec_u64_to_from_le_bytes();
    assert(spec_enc_u64(l as u64).len() == 8);
    lemma_subrange_split(bs, pos, spec_enc_u64(l as u64), utf8);
    lemma_dec_u64_at(bs, pos, l as u64);
    vstd::utf8::encode_utf8_valid_utf8(s);
    vstd::utf8::encode_utf8_decode_utf8(s);
    assert(bs.subrange(pos + 8, pos + 8 + l) == utf8);
}

/// An encoded optional string reads back as itself.
proof fn lemma_dec_opt_str_at(bs: Seq<u8>, pos: int, o: Option<Seq<char>>)
    requires
        opt_str_ok(o),
        0 <= pos,
        pos + spec_enc_opt_str(o).len() <= bs.len(),
        bs.subrange(pos, pos + spec_enc_opt_str(o).len()) == spec_enc_opt_str(o),
    ensures
        spec_dec_opt_str(bs, pos) == Some((o, pos + spec_enc_opt_str(o).len())),
{
    match o {
        None => {
            assert(bs[pos] == spec_enc_opt_str(o)[0]);
            assert(bs[pos] == 0u8);
        },
        Some(s) => {
            lemma_subrange_split(bs, pos, seq![1u8], spec_enc_str(s));
            assert(bs[pos] == seq![1u8][0]);
            lemma_dec_str_at(bs, pos + 1, s);
        },
    }
}

/// An encoded history record reads back as itself.
proof fn lemma_dec_hist_at(bs: Seq<u8>, pos: int, h: HistoryView)
    requires
        hist_ok(h),
        0 <= pos,
        pos + spec_enc_hist(h).len() <= bs.len(),
        bs.subrange(pos, pos + spec_enc_hist(h).len()) == spec_enc_hist(h),
    ensures
        spec_dec_hist(bs, pos) == Some((h, pos + spec_enc_hist(h).len())),
{
    vstd::bytes::lemma_auto_spec_u64_to_from_le_bytes();
    lemma_subrange_split(bs, pos, spec_enc_str(h.password), spec_enc_u64(h.changed_at));
    lemma_dec_str_at(bs, pos, h.password);
    lemma_dec_u64_at(bs, pos + spec_enc_str(h.password).len(), h.changed_at);
}

/// Encoded string items read back as themselves.
proof fn lemma_dec_str_items_at(bs: Seq<u8>, pos: int, ts: Seq<Seq<char>>)
    requires
        forall|i: int| 0 <= i < ts.len() ==> str_ok(#[trigger] ts[i]),
        0 <= pos,
        pos + spec_enc_str_items(ts).len() <= bs.len(),
        bs.subrange(pos, pos + spec_enc_str_items(ts).len()) == spec_enc_str_items(ts),
    ensures
        spec_dec_str_items(bs, pos, ts.len()) == Some((ts, pos + spec_enc_str_items(ts).len())),
    decreases ts.len(),
{
    if ts.len() == 0 {
        assert(ts =~= Seq::<Seq<char>>::empty());
    } else {
        let head = spec_enc_str(ts[0]);
        let rest = ts.drop_first();
        lemma_subrange_split(bs, pos, head, spec_enc_str_items(rest));
        lemma_dec_str_at(bs, pos, ts[0]);
        assert(forall|i: int| 0 <= i < rest.len() ==> str_ok(#[trigger] rest[i]));
        lemma_dec_str_items_at(bs, pos + head.len(), rest);
        assert(seq![ts[0]] + rest =~= ts);
    }
}

/// An encoded string list reads back as itself.
proof fn lemma_dec_strs_at(bs: Seq<u8>, pos: int, ts: Seq<Seq<char>>)
    requires
        strs_ok(ts),
        0 <= pos,
        pos + spec_enc_strs(ts).len() <= bs.len(),
        bs.subrange(pos, pos + spec_enc_strs(ts).len()) == spec_enc_strs(ts),
    ensures
        spec_dec_strs(bs, pos) == Some((ts, pos + spec_enc_strs(ts).len())),
{
    vstd::bytes::lemma_auto_spec_u64_to_from_le_bytes();
    assert(usize::MAX <= u64::MAX);
    assert((ts.len() as u64) as int == ts.len() as int);
    lemma_subrange_split(bs, pos, spec_enc_u64(ts.len() as u64), spec_enc_str_items(ts));
    lemma_dec_u64_at(bs, pos, ts.len() as u64);
    lemma_dec_str_items_at(bs, pos + 8, ts);
}

/// Encoded history items read back as themselves.
proof fn lemma_dec_hist_items_at(bs: Seq<u8>, pos: int, hs: Seq<HistoryView>)
    requires
        forall|i: int| 0 <= i < hs.len() ==> hist_ok(#[trigger] hs[i]),
        0 <= pos,
        pos + spec_enc_hist_items(hs).len() <= bs.len(),
        bs.subrange(pos, pos + spec_enc_hist_items(hs).len()) == spec_enc_hist_items(hs),
    ensures
        spec_dec_hist_items(bs, pos, hs.len()) == Some((hs, pos + spec_enc_hist_items(hs).len())),
    decreases hs.len(),
{
    if hs.len() == 0 {
        assert(hs =~= Seq::<HistoryView>::empty());
    } else {
        let head = spec_enc_hist(hs[0]);
        let rest = hs.drop_first();
        lemma_subrange_split(bs, pos, head, spec_enc_hist_items(rest));
        lemma_dec_hist_at(bs, pos, hs[0]);
        assert(forall|i: int| 0 <= i < rest.len() ==> hist_ok(#[trigger] rest[i]));
        lemma_dec_hist_items_at(bs, pos + head.len(), rest);
        assert(seq![hs[0]] + rest =~= hs);
    }
}

/// An encoded history list reads back as itself.
proof fn lemma_dec_hists_at(bs: Seq<u8>, pos: int, hs: Seq<HistoryView>)
    requires
        hists_ok(hs),
        0 <= pos,
        pos + spec_enc_hists(hs).len() <= bs.len(),
        bs.subrange(pos, pos + spec_enc_hists(hs).len()) == spec_enc_hists(hs),
    ensures
        spec_dec_hists(bs, pos) == Some((hs, pos + spec_enc_hists(hs).len())),
{
    vstd::bytes::lemma_auto_spec_u64_to_from_le_bytes();
    assert(usize::MAX <= u64::MAX);
    assert((hs.len() as u64) as int == hs.len() as int);
    lemma_subrange_split(bs, pos, spec_enc_u64(hs.len() as u64), spec_enc_hist_items(hs));
    lemma_dec_u64_at(bs, pos, hs.len() as u64);
    lemma_dec_hist_items_at(bs, pos + 8, hs);
}

/// An encoded entry reads back as itself.
#[verifier::rlimit(100)]
proof fn lemma_dec_entry_at(bs: Seq<u8>, pos: int, e: EntryView)
    requires
        entry_ok(e),
        0 <= pos,
        pos + spec_enc_entry(e).len() <= bs.len(),
        bs.subrange(pos, pos + spec_enc_entry(e).len()) == spec_enc_entry(e),
    ensures
        spec_dec_entry(bs, pos) == Some((e, pos + spec_enc_entry(e).len())),
{
    vstd::bytes::lemma_auto_spec_u64_to_from_le_bytes();
    let f1 = spec_enc_str(e.id);
    let f2 = spec_enc_str(e.n);
    let f3 = spec_enc_str(e.u);
    let f4 = spec_enc_str(e.p);
    let f5 = spec_enc_opt_str(e.url);
    let f6 = spec_enc_opt_str(e.nt);
    let f7 = spec_enc_u64(e.t);
    let f8 = spec_enc_strs(e.tags);
    let f9 = spec_enc_hists(e.history);
    let f10 = spec_enc_u64(e.last_modified);
    let r9 = f10;
    let r8 = f9 + r9;
    let r7 = f8 + r8;
    let r6 = f7 + r7;
    let r5 = f6 + r6;
    let r4 = f5 + r5;
    let r3 = f4 + r4;
    let r2 = f3 + r3;
    let r1 = f2 + r2;
    assert(spec_enc_entry(e) =~= f1 + r1);
    let p0 = pos;
    lemma_subrange_split(bs, p0, f1, r1);
    lemma_dec_str_at(bs, p0, e.id);
    let p1 = p0 + f1.len();
    assert(bs.subrange(p1, p1 + r1.len()) =~= f2 + r2);
    lemma_subrange_split(bs, p1, f2, r2);
    lemma_dec_str_at(bs, p1, e.n);
    let p2 = p1 + f2.len();
    assert(bs.subrange(p2, p2 + r2.len()) =~= f3 + r3);
    lemma_subrange_split(bs, p2, f3, r3);
    lemma_dec_str_at(bs, p2, e.u);
    let p3 = p2 + f3.len();
    assert(bs.subrange(p3, p3 + r3.len()) =~= f4 + r4);
    lemma_subrange_split(bs, p3, f4, r4);
    lemma_dec_str_at(bs, p3, e.p);
    let p4 = p3 + f4.len();
    assert(bs.subrange(p4, p4 + r4.len()) =~= f5 + r5);
    lemma_subrange_split(bs, p4, f5, r5);
    lemma_dec_opt_str_at(bs, p4, e.url);
    let p5 = p4 + f5.len();
    assert(bs.subrange(p5, p5 + r5.len()) =~= f6 + r6);
    lemma_subrange_split(bs, p5, f6, r6);
    lemma_dec_opt_str_at(bs, p5, e.nt);
    let p6 = p5 + f6.len();
    assert(bs.subrange(p6, p6 + r6.len()) =~= f7 + r7);
    lemma_subrange_split(bs, p6, f7, r7);
    lemma_dec_u64_at(bs, p6, e.t);
    let p7 = p6 + f7.len();
    assert(bs.subrange(p7, p7 + r7.len()) =~= f8 + r8);
    lemma_subrange_split(bs, p7, f8, r8);
    lemma_dec_strs_at(bs, p7, e.tags);
    let p8 = p7 + f8.len();
    assert(bs.subrange(p8, p8 + r8.len()) =~= f9 + r9);
    lemma_subrange_split(bs, p8, f9, r9);
    lemma_dec_hists_at(bs, p8, e.history);
    let p9 = p8 + f9.len();
    lemma_dec_u64_at(bs, p9, e.last_modified);
    let p10 = p9 + f10.len();
    assert(p10 == pos + spec_enc_entry(e).len());
}

/// Encoded entry items read back as themselves.
proof fn lemma_dec_entry_items_at(bs: Seq<u8>, pos: int, es: Seq<EntryView>)
    requires
        forall|i: int| 0 <= i < es.len() ==> entry_ok(#[trigger] es[i]),
        0 <= pos,
        pos + spec_enc_entry_items(es).len() <= bs.len(),
        bs.subrange(pos, pos + spec_enc_entry_items(es).len()) == spec_enc_entry_items(es),
    ensures
        spec_dec_entry_items(bs, pos, es.len()) == Some(
            (es, pos + spec_enc_entry_items(es).len()),
        ),
    decreases es.len(),
{
    if es.len() == 0 {
        assert(es =~= Seq::<EntryView>::empty());
    } else {
        let head = spec_enc_entry(es[0]);
        let rest = es.drop_first();
        lemma_subrange_split(bs, pos, head, spec_enc_entry_items(rest));
        lemma_dec_entry_at(bs, pos, es[0]);
        assert(forall|i: int| 0 <= i < rest.len() ==> entry_ok(#[trigger] rest[i]));
        lemma_dec_entry_items_at(bs, pos + head.len(), rest);
        assert(seq![es[0]] + rest =~= es);
    }
}

/// Decoding a canonical payload gives back exactly the entries that were
/// encoded.
pub proof fn lemma_payload_round_trip(es: Seq<EntryView>)
    requires
        entries_ok(es),
    ensures
        spec_dec_payload(spec_enc_payload(es)) == Some(es),
{
    let bs = spec_enc_payload(es);
    vstd::bytes::lemma_auto_spec_u64_to_from_le_bytes();
    assert(usize::MAX <= u64::MAX);
    assert((es.len() as u64) as int == es.len() as int);
    assert(bs.subrange(0, bs.len() as int) =~= bs);
    lemma_subrange_split(bs, 0, spec_enc_u64(es.len() as u64), spec_enc_entry_items(es));
    lemma_dec_u64_at(bs, 0, es.len() as u64);
    lemma_dec_entry_items_at(bs, 8, es);
}

} // verus!
