use vstd::prelude::*;
use vstd::bytes::{
    lemma_auto_spec_u64_to_from_le_bytes, spec_u64_from_le_bytes, spec_u64_to_le_bytes,
    u64_from_le_bytes, u64_to_le_bytes,
};
use vstd::slice::{slice_subrange, slice_to_vec};
use vstd::string::StringSliceAdditionalSpecFns;
use vstd::utf8::{
    decode_utf8, decode_utf8_encode_utf8, encode_utf8, encode_utf8_decode_utf8,
    encode_utf8_valid_utf8, valid_utf8,
};
use crate::url_entry::{EntryModel, UrlEntry};

verus! {

// A snapshot is laid out as: the number of entries as a little-endian u64,
// then each entry. An entry is its location as a string, then a tag byte
// (0: no date, 1: a date follows) and, after tag 1, the date as a string.
// A string is the length of its UTF-8 form as a little-endian u64, then
// that UTF-8 form.

/// The encoding of one string.
pub open spec fn enc_str(s: Seq<char>) -> Seq<u8> {
    spec_u64_to_le_bytes(encode_utf8(s).len() as u64) + encode_utf8(s)
}

/// The encoding of an optional string.
pub open spec fn enc_opt(o: Option<Seq<char>>) -> Seq<u8> {
    match o {
        None => seq![0u8],
        Some(s) => seq![1u8] + enc_str(s),
    }
}

/// The encoding of one entry.
pub open spec fn enc_entry(e: EntryModel) -> Seq<u8> {
    enc_str(e.0) + enc_opt(e.1)
}

/// The encodings of a sequence of entries, one after the other.
pub open spec fn enc_entries(es: Seq<EntryModel>) -> Seq<u8>
    decreases es.len(),
{
    if es.len() == 0 {
        Seq::empty()
    } else {
        enc_entries(es.drop_last()) + enc_entry(es.last())
    }
}

/// The bytes of a snapshot holding `es`, in order.
pub open spec fn encode_snapshot(es: Seq<EntryModel>) -> Seq<u8> {
    spec_u64_to_le_bytes(es.len() as u64) + enc_entries(es)
}

/// A string whose UTF-8 form has a length that fits the length field.
pub open spec fn str_fits(s: Seq<char>) -> bool {
    encode_utf8(s).len() <= u64::MAX
}

/// Every length that the encoding of `e` writes fits its field.
pub open spec fn entry_fits(e: EntryModel) -> bool {
    str_fits(e.0) && match e.1 {
        Some(d) => str_fits(d),
        None => true,
    }
}

/// Every length that the encoding of `es` writes fits its field.
pub open spec fn entries_fit(es: Seq<EntryModel>) -> bool {
    &&& es.len() <= u64::MAX
    &&& forall|i: int| 0 <= i < es.len() ==> entry_fits(#[trigger] es[i])
}

/// The models of a sequence of entries.
pub open spec fn entries_view(v: Seq<UrlEntry>) -> Seq<EntryModel> {
    v.map_values(|e: UrlEntry| e@)
}

/// Appends the encoding of `x` to `out`.
fn push_u64(out: &mut Vec<u8>, x: u64)
    ensures
        final(out)@ == old(out)@ + spec_u64_to_le_bytes(x),
{
    let mut b = u64_to_le_bytes(x);
    out.append(&mut b);
}

/// Appends the encoding of `s` to `out`.
fn push_str(out: &mut Vec<u8>, s: &str)
    ensures
        final(out)@ == old(out)@ + enc_str(s@),
{
    let mut b = s.as_bytes_vec();
    push_u64(out, b.len() as u64);
    out.append(&mut b);
    assert(final(out)@ =~= old(out)@ + enc_str(s@));
}

/// Serializes `entries`, in order, into the bytes of a snapshot.
pub fn encode_entries(entries: &Vec<UrlEntry>) -> (r: Vec<u8>)
    ensures
        r@ == encode_snapshot(entries_view(entries@)),
{
    let mut out: Vec<u8> = Vec::new();
    push_u64(&mut out, entries.len() as u64);
    let mut i: usize = 0;
    while i < entries.len()
        invariant
            i <= entries@.len(),
            out@ == spec_u64_to_le_bytes(entries@.len() as u64) + enc_entries(
                entries_view(entries@).take(i as int),
            ),
        decreases entries@.len() - i,
    {
        let e = &entries[i];
        let ghost before = out@;
        push_str(&mut out, e.loc.as_str());
        match &e.lastmod {
            None => {
                out.push(0u8);
            },
            Some(d) => {
                out.push(1u8);
                push_str(&mut out, d.as_str());
            },
        }
        proof {
            let vs = entries_view(entries@);
            assert(vs.take(i + 1).drop_last() =~= vs.take(i as int));
            assert(vs.take(i + 1).last() == e@);
            assert(out@ =~= before + enc_entry(e@));
        }
        i = i + 1;
    }
    assert(entries_view(entries@).take(entries@.len() as int) =~= entries_view(entries@));
    out
}

/// Relies on String::from_utf8: it succeeds exactly on valid UTF-8, and the
/// string then holds the characters that the bytes encode.
#[verifier::external_body]
fn string_from_utf8(b: Vec<u8>) -> (r: Option<String>)
    ensures
        r is Some <==> valid_utf8(b@),
        r matches Some(s) ==> s@ == decode_utf8(b@),
{
    String::from_utf8(b).ok()
}

/// The encoding of a sequence of entries splits at any index.
pub proof fn lemma_enc_entries_append(a: Seq<EntryModel>, b: Seq<EntryModel>)
    ensures
        enc_entries(a + b) == enc_entries(a) + enc_entries(b),
    decreases b.len(),
{
    if b.len() == 0 {
        assert(a + b =~= a);
        assert(enc_entries(a) + enc_entries(b) =~= enc_entries(a));
    } else {
        assert((a + b).drop_last() =~= a + b.drop_last());
        lemma_enc_entries_append(a, b.drop_last());
        assert(enc_entries(a + b) =~= enc_entries(a) + enc_entries(b));
    }
}

/// Reads the u64 stored at `pos`.
fn read_u64(b: &Vec<u8>, pos: usize) -> (r: Option<u64>)
    ensures
        pos + 8 <= b@.len() ==> r == Some(spec_u64_from_le_bytes(b@.subrange(pos as int, pos + 8))),
        pos + 8 > b@.len() ==> r is None,
{
    if pos > b.len() || b.len() - pos < 8 {
        None
    } else {
        let s = slice_subrange(b.as_slice(), pos, pos + 8);
        Some(u64_from_le_bytes(s))
    }
}

/// Reads the string stored at `pos`, and the position that follows it.
fn read_str(b: &Vec<u8>, pos: usize) -> (r: Option<(String, usize)>)
    ensures
        r matches Some((s, next)) ==> pos <= next <= b@.len() && b@.subrange(pos as int, next as int)
            == enc_str(s@),
        forall|s: Seq<char>|
            str_fits(s) && pos + enc_str(s).len() <= b@.len() && #[trigger] enc_str(s) == b@.subrange(
                pos as int,
                pos + enc_str(s).len(),
            ) ==> (r matches Some((t, next)) && t@ == s && next == pos + enc_str(s).len()),
{
    proof {
        lemma_auto_spec_u64_to_from_le_bytes();
    }
    let n = match read_u64(b, pos) {
        Some(n) => n,
        None => {
            assert forall|s: Seq<char>|
                str_fits(s) && pos + enc_str(s).len() <= b@.len() implies #[trigger] enc_str(s)
                != b@.subrange(pos as int, pos + enc_str(s).len()) by {}
            return None;
        },
    };
    assert(pos + 8 <= b.len());
    let start = pos + 8;
    if n > (b.len() - start) as u64 {
        assert forall|s: Seq<char>|
            str_fits(s) && pos + enc_str(s).len() <= b@.len() implies #[trigger] enc_str(s)
            != b@.subrange(pos as int, pos + enc_str(s).len()) by {
            if enc_str(s) == b@.subrange(pos as int, pos + enc_str(s).len()) {
                assert(b@.subrange(pos as int, pos + 8) =~= enc_str(s).subrange(0, 8));
                assert(enc_str(s).subrange(0, 8) =~= spec_u64_to_le_bytes(encode_utf8(s).len() as u64));
            }
        }
        return None;
    }
    let end = start + n as usize;
    let bytes = slice_to_vec(slice_subrange(b.as_slice(), start, end));
    let ghost hdr = b@.subrange(pos as int, pos + 8);
    let ghost body = b@.subrange(start as int, end as int);
    assert(bytes@ =~= body);
    match string_from_utf8(bytes) {
        Some(t) => {
            proof {
                decode_utf8_encode_utf8(body);
                assert(spec_u64_to_le_bytes(spec_u64_from_le_bytes(hdr)) == hdr);
                assert(b@.subrange(pos as int, end as int) =~= enc_str(t@));
                assert forall|s: Seq<char>|
                    str_fits(s) && pos + enc_str(s).len() <= b@.len() && #[trigger] enc_str(s)
                        == b@.subrange(pos as int, pos + enc_str(s).len()) implies t@ == s
                    && end == pos + enc_str(s).len() by {
                    assert(hdr =~= enc_str(s).subrange(0, 8));
                    assert(enc_str(s).subrange(0, 8) =~= spec_u64_to_le_bytes(encode_utf8(s).len() as u64));
                    assert(body =~= enc_str(s).subrange(8, enc_str(s).len() as int));
                    assert(enc_str(s).subrange(8, enc_str(s).len() as int) =~= encode_utf8(s));
                    encode_utf8_decode_utf8(s);
                }
            }
            Some((t, end))
        },
        None => {
            assert forall|s: Seq<char>|
                str_fits(s) && pos + enc_str(s).len() <= b@.len() implies #[trigger] enc_str(s)
                != b@.subrange(pos as int, pos + enc_str(s).len()) by {
                if enc_str(s) == b@.subrange(pos as int, pos + enc_str(s).len()) {
                    assert(hdr =~= enc_str(s).subrange(0, 8));
                    assert(enc_str(s).subrange(0, 8) =~= spec_u64_to_le_bytes(encode_utf8(s).len() as u64));
                    assert(body =~= enc_str(s).subrange(8, enc_str(s).len() as int));
                    assert(enc_str(s).subrange(8, enc_str(s).len() as int) =~= encode_utf8(s));
                    encode_utf8_valid_utf8(s);
                }
            }
            None
        },
    }
}

/// Reads the entry stored at `pos`, and the position that follows it.
fn read_entry(b: &Vec<u8>, pos: usize) -> (r: Option<(UrlEntry, usize)>)
    ensures
        r matches Some((e, next)) ==> pos <= next <= b@.len() && b@.subrange(pos as int, next as int)
            == enc_entry(e@),
        forall|e: EntryModel|
            entry_fits(e) && pos + enc_entry(e).len() <= b@.len() && #[trigger] enc_entry(e)
                == b@.subrange(pos as int, pos + enc_entry(e).len()) ==> (r matches Some((t, next))
                && t@ == e && next == pos + enc_entry(e).len()),
{
    let (loc, after_loc) = match read_str(b, pos) {
        Some(x) => x,
        None => {
            assert forall|e: EntryModel|
                entry_fits(e) && pos + enc_entry(e).len() <= b@.len() implies #[trigger] enc_entry(e)
                != b@.subrange(pos as int, pos + enc_entry(e).len()) by {
                if enc_entry(e) == b@.subrange(pos as int, pos + enc_entry(e).len()) {
                    assert(enc_str(e.0) =~= b@.subrange(pos as int, pos + enc_str(e.0).len()));
                }
            }
            return None;
        },
    };
    proof {
        assert forall|e: EntryModel|
            entry_fits(e) && pos + enc_entry(e).len() <= b@.len() && #[trigger] enc_entry(e)
                == b@.subrange(pos as int, pos + enc_entry(e).len()) implies loc@ == e.0 && after_loc == pos
            + enc_str(e.0).len() && b@.subrange(after_loc as int, pos + enc_entry(e).len()) == enc_opt(e.1) by {
            assert(enc_str(e.0) =~= b@.subrange(pos as int, pos + enc_str(e.0).len()));
            assert(b@.subrange(after_loc as int, pos + enc_entry(e).len()) =~= enc_entry(e).subrange(
                enc_str(e.0).len() as int,
                enc_entry(e).len() as int,
            ));
            assert(enc_entry(e).subrange(enc_str(e.0).len() as int, enc_entry(e).len() as int)
                =~= enc_opt(e.1));
        }
    }
    if after_loc >= b.len() {
        return None;
    }
    let tag = b[after_loc];
    if tag == 0 {
        let next = after_loc + 1;
        let r = UrlEntry { loc, lastmod: None };
        assert(b@.subrange(pos as int, next as int) =~= enc_entry(r@));
        proof {
            assert forall|e: EntryModel|
                entry_fits(e) && pos + enc_entry(e).len() <= b@.len() && #[trigger] enc_entry(e)
                    == b@.subrange(pos as int, pos + enc_entry(e).len()) implies r@ == e && next
                == pos + enc_entry(e).len() by {
                let o = b@.subrange(after_loc as int, pos + enc_entry(e).len());
                assert(o[0] == tag);
                assert(enc_opt(e.1)[0] == tag);
            }
        }
        Some((r, next))
    } else if tag == 1 {
        let after_tag = after_loc + 1;
        match read_str(b, after_tag) {
            Some((d, next)) => {
                let r = UrlEntry { loc, lastmod: Some(d) };
                assert(b@.subrange(pos as int, next as int) =~= enc_entry(r@));
                proof {
                    assert forall|e: EntryModel|
                        entry_fits(e) && pos + enc_entry(e).len() <= b@.len() && #[trigger] enc_entry(e)
                            == b@.subrange(pos as int, pos + enc_entry(e).len()) implies r@ == e && next
                        == pos + enc_entry(e).len() by {
                        let o = b@.subrange(after_loc as int, pos + enc_entry(e).len());
                        assert(o[0] == tag);
                        assert(enc_opt(e.1)[0] == tag);
                        let dd = e.1.unwrap();
                        assert(o.subrange(1, o.len() as int) =~= enc_str(dd));
                        assert(enc_str(dd) =~= b@.subrange(after_tag as int, after_tag + enc_str(dd).len()));
                    }
                }
                Some((r, next))
            },
            None => {
                assert forall|e: EntryModel|
                    entry_fits(e) && pos + enc_entry(e).len() <= b@.len() implies #[trigger] enc_entry(e)
                    != b@.subrange(pos as int, pos + enc_entry(e).len()) by {
                    if enc_entry(e) == b@.subrange(pos as int, pos + enc_entry(e).len()) {
                        let o = b@.subrange(after_loc as int, pos + enc_entry(e).len());
                        assert(o[0] == tag);
                        assert(enc_opt(e.1)[0] == tag);
                        let dd = e.1.unwrap();
                        assert(o.subrange(1, o.len() as int) =~= enc_str(dd));
                        assert(enc_str(dd) =~= b@.subrange(after_tag as int, after_tag + enc_str(dd).len()));
                    }
                }
                None
            },
        }
    } else {
        assert forall|e: EntryModel|
            entry_fits(e) && pos + enc_entry(e).len() <= b@.len() implies #[trigger] enc_entry(e)
            != b@.subrange(pos as int, pos + enc_entry(e).len()) by {
            if enc_entry(e) == b@.subrange(pos as int, pos + enc_entry(e).len()) {
                let o = b@.subrange(after_loc as int, pos + enc_entry(e).len());
                assert(o[0] == tag);
            }
        }
        None
    }
}

/// Reads a whole snapshot. It succeeds exactly on the bytes that
/// `encode_entries` writes, and then gives back the entries that were written,
/// in the same order: decoding an encoding is the identity, for any number of
/// entries, none included.
pub fn decode_entries(b: &Vec<u8>) -> (r: Option<Vec<UrlEntry>>)
    ensures
        r matches Some(v) ==> b@ == encode_snapshot(entries_view(v@)),
        forall|es: Seq<EntryModel>|
            entries_fit(es) && #[trigger] encode_snapshot(es) == b@ ==> (r matches Some(v)
                && entries_view(v@) == es),
{
    proof {
        lemma_auto_spec_u64_to_from_le_bytes();
    }
    let count = match read_u64(b, 0) {
        Some(c) => c,
        None => {
            assert forall|es: Seq<EntryModel>|
                entries_fit(es) implies #[trigger] encode_snapshot(es) != b@ by {}
            return None;
        },
    };
    let ghost hdr = b@.subrange(0, 8);
    proof {
        assert(spec_u64_to_le_bytes(count) == hdr);
        assert forall|es: Seq<EntryModel>|
            entries_fit(es) && #[trigger] encode_snapshot(es) == b@ implies count == es.len() by {
            assert(hdr =~= encode_snapshot(es).subrange(0, 8));
            assert(encode_snapshot(es).subrange(0, 8) =~= spec_u64_to_le_bytes(es.len() as u64));
        }
    }
    let mut out: Vec<UrlEntry> = Vec::new();
    let mut pos: usize = 8;
    let mut i: u64 = 0;
    assert(entries_view(out@) =~= Seq::<EntryModel>::empty());
    assert(b@.subrange(0, 8) =~= spec_u64_to_le_bytes(count) + enc_entries(entries_view(out@)));
    while i < count
        invariant
            8 <= pos <= b@.len(),
            i <= count,
            out@.len() == i,
            b@.subrange(0, pos as int) == spec_u64_to_le_bytes(count) + enc_entries(entries_view(out@)),
            forall|es: Seq<EntryModel>|
                entries_fit(es) && #[trigger] encode_snapshot(es) == b@ ==> count == es.len()
                    && entries_view(out@) == es.take(i as int),
        decreases count - i,
    {
        let ghost old_out = out@;
        let ghost old_pos = pos;
        proof {
            assert forall|es: Seq<EntryModel>|
                entries_fit(es) && #[trigger] encode_snapshot(es) == b@ implies pos + enc_entry(es[i as int]).len() <= b@.len()
                    && enc_entry(es[i as int]) == b@.subrange(pos as int, pos + enc_entry(es[i as int]).len())
                    && entry_fits(es[i as int]) by {
                let a = es.take(i as int);
                let c = es.skip(i as int + 1);
                let x = seq![es[i as int]];
                assert(es =~= a + x + c);
                lemma_enc_entries_append(a + x, c);
                lemma_enc_entries_append(a, x);
                assert(x.drop_last() =~= Seq::<EntryModel>::empty());
                assert(enc_entries(x.drop_last()) =~= Seq::<u8>::empty());
                assert(x.last() == es[i as int]);
                assert(enc_entries(x) =~= enc_entries(x.drop_last()) + enc_entry(x.last()));
                assert(enc_entries(x) =~= enc_entry(es[i as int]));
                let pre = spec_u64_to_le_bytes(count) + enc_entries(a);
                assert(b@ =~= pre + enc_entry(es[i as int]) + enc_entries(c));
                assert(pre.len() == pos);
                assert(b@.subrange(pos as int, pos + enc_entry(es[i as int]).len()) =~= enc_entry(es[i as int]));
            }
        }
        let (e, next) = match read_entry(b, pos) {
            Some(x) => x,
            None => {
                assert forall|es: Seq<EntryModel>|
                    entries_fit(es) implies #[trigger] encode_snapshot(es) != b@ by {
                    if encode_snapshot(es) == b@ {
                        assert(entry_fits(es[i as int]));
                    }
                }
                return None;
            },
        };
        out.push(e);
        pos = next;
        i = i + 1;
        proof {
            assert(entries_view(out@) =~= entries_view(old_out).push(e@));
            assert(entries_view(out@).drop_last() =~= entries_view(old_out));
            assert(b@.subrange(0, pos as int) =~= b@.subrange(0, old_pos as int) + b@.subrange(
                old_pos as int,
                pos as int,
            ));
            assert forall|es: Seq<EntryModel>|
                entries_fit(es) && #[trigger] encode_snapshot(es) == b@ implies entries_view(out@)
                == es.take(i as int) by {
                assert(entry_fits(es[i - 1]));
                assert(es.take(i as int) =~= es.take(i - 1).push(es[i - 1]));
            }
        }
    }
    if pos != b.len() {
        assert forall|es: Seq<EntryModel>|
            entries_fit(es) implies #[trigger] encode_snapshot(es) != b@ by {
            if encode_snapshot(es) == b@ {
                assert(es.take(count as int) =~= es);
                assert(b@.subrange(0, pos as int).len() == b@.len());
            }
        }
        return None;
    }
    proof {
        assert(b@.subrange(0, pos as int) =~= b@);
        assert forall|es: Seq<EntryModel>|
            entries_fit(es) && #[trigger] encode_snapshot(es) == b@ implies entries_view(out@)
            == es by {
            assert(es.take(count as int) =~= es);
        }
    }
    Some(out)
}

} // verus!
