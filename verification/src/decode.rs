//! The decoder: scanning an archive stream back into its entry list.
//!
//! `spec_parse_entries` is the mathematical reading of the box grammar;
//! `decode_archive` follows it exactly, so a stream decodes successfully
//! if and only if it parses, and the decoded entries re-encode to the
//! very same bytes.

use crate::archive::{ArchiveError, Entry, EntryModel, entries_wf, entry_wf,
    lemma_entries_bytes_push, spec_archive_bytes, spec_data_box, spec_entries_bytes,
    spec_entry_bytes, spec_path_box, views_of};
use crate::format::{lemma_u16_from_be_round_trip, lemma_u64_from_be_round_trip, read_u16_be,
    read_u64_be, spec_data_tag, spec_identifier, spec_path_tag, spec_u16_be, spec_u16_from_be,
    spec_u64_be, spec_u64_from_be};
use vstd::prelude::*;

verus! {

/// The entry lists carried by a stream of box pairs: `Some` entries when
/// the stream is a seamless sequence of path-box/data-box pairs ending at
/// the end of the stream, `None` otherwise.
pub open spec fn spec_parse_entries(b: Seq<u8>) -> Option<Seq<EntryModel>>
    decreases b.len(),
{
    if b.len() == 0 {
        Some(Seq::empty())
    } else if b.len() < 5 {
        None
    } else if b.subrange(0, 3) != spec_path_tag() {
        None
    } else {
        let plen = spec_u16_from_be(b[3], b[4]) as int;
        if b.len() < 5 + plen {
            None
        } else {
            let path = b.subrange(5, 5 + plen);
            let r1 = b.subrange(5 + plen, b.len() as int);
            if r1.len() < 11 {
                None
            } else if r1.subrange(0, 3) != spec_data_tag() {
                None
            } else {
                let dlen = spec_u64_from_be(r1.subrange(3, 11)) as int;
                if r1.len() < 11 + dlen {
                    None
                } else {
                    let data = r1.subrange(11, 11 + dlen);
                    let rest = r1.subrange(11 + dlen, r1.len() as int);
                    match spec_parse_entries(rest) {
                        Some(tail) => Some(seq![EntryModel { path, data }] + tail),
                        None => None,
                    }
                }
            }
        }
    }
}

/// The entry lists carried by a whole archive stream: the identifier,
/// then the box pairs.
pub open spec fn spec_parse_archive(b: Seq<u8>) -> Option<Seq<EntryModel>> {
    if b.len() >= 8 && b.subrange(0, 8) == spec_identifier() {
        spec_parse_entries(b.subrange(8, b.len() as int))
    } else {
        None
    }
}

/// The entries already read, prepended to whatever the remaining bytes
/// carry; `None` when the remaining bytes carry nothing.
pub open spec fn spec_parse_prepend(es: Seq<EntryModel>, rest: Seq<u8>) -> Option<Seq<EntryModel>> {
    match spec_parse_entries(rest) {
        Some(tail) => Some(es + tail),
        None => None,
    }
}

/// Reading one entry shifts it from the remaining bytes onto the list
/// already read.
proof fn lemma_prepend_shift(es: Seq<EntryModel>, e: EntryModel, rest: Seq<u8>, rest2: Seq<u8>)
    requires
        spec_parse_entries(rest) == spec_parse_prepend(seq![e], rest2),
    ensures
        spec_parse_prepend(es, rest) == spec_parse_prepend(es.push(e), rest2),
{
    match spec_parse_entries(rest2) {
        Some(tail) => {
            assert(es + (seq![e] + tail) =~= es.push(e) + tail);
        },
        None => {},
    }
}

/// A stream that opens with a complete path box and a complete data box
/// parses as that entry followed by whatever the remaining bytes carry,
/// and the bytes consumed are exactly the entry's encoding.
proof fn lemma_parse_one_entry(b: Seq<u8>, plen: u16, dlen: u64)
    requires
        b.subrange(0, 3) == spec_path_tag(),
        plen == spec_u16_from_be(b[3], b[4]),
        b.subrange(5 + plen as int, 8 + plen as int) == spec_data_tag(),
        dlen == spec_u64_from_be(b.subrange(8 + plen as int, 16 + plen as int)),
        16 + plen + dlen <= b.len(),
    ensures
        ({
            let path = b.subrange(5, 5 + plen as int);
            let data = b.subrange(16 + plen as int, 16 + plen as int + dlen as int);
            let em = EntryModel { path, data };
            &&& spec_parse_entries(b) == spec_parse_prepend(
                seq![em],
                b.subrange(16 + plen as int + dlen as int, b.len() as int),
            )
            &&& b.subrange(0, 16 + plen as int + dlen as int) == spec_entry_bytes(em)
            &&& entry_wf(em)
        }),
{
    let plen_i = plen as int;
    let dlen_i = dlen as int;
    let path = b.subrange(5, 5 + plen_i);
    let data = b.subrange(16 + plen_i, 16 + plen_i + dlen_i);
    let em = EntryModel { path, data };
    let r1 = b.subrange(5 + plen_i, b.len() as int);
    let rest = b.subrange(16 + plen_i + dlen_i, b.len() as int);
    assert(r1.subrange(0, 3) =~= b.subrange(5 + plen_i, 8 + plen_i));
    assert(r1.subrange(3, 11) =~= b.subrange(8 + plen_i, 16 + plen_i));
    assert(r1.subrange(11, 11 + dlen_i) =~= data);
    assert(r1.subrange(11 + dlen_i, r1.len() as int) =~= rest);
    match spec_parse_entries(rest) {
        Some(tail) => {
            assert(spec_parse_entries(b) == Some(seq![em] + tail));
        },
        None => {
            assert(spec_parse_entries(b) is None);
        },
    }
    lemma_u16_from_be_round_trip(b[3], b[4]);
    lemma_u64_from_be_round_trip(b.subrange(8 + plen_i, 16 + plen_i));
    assert(b.subrange(3, 5) =~= seq![b[3], b[4]]);
    assert(spec_path_box(path) == b.subrange(0, 3) + b.subrange(3, 5) + path);
    assert(spec_data_box(data) == b.subrange(5 + plen_i, 8 + plen_i) + b.subrange(
        8 + plen_i,
        16 + plen_i,
    ) + data);
    assert(b.subrange(0, 16 + plen_i + dlen_i) =~= spec_path_box(path) + spec_data_box(data));
}

/// Parsing a stream that opens with the encoding of a well-formed entry
/// list reads exactly that list, then whatever the remaining bytes carry.
#[verifier::rlimit(100)]
pub proof fn lemma_parse_entries_append(es: Seq<EntryModel>, suffix: Seq<u8>)
    requires
        entries_wf(es),
    ensures
        spec_parse_entries(spec_entries_bytes(es) + suffix) == spec_parse_prepend(es, suffix),
    decreases es.len(),
{
    if es.len() == 0 {
        assert(spec_entries_bytes(es) + suffix =~= suffix);
        match spec_parse_entries(suffix) {
            Some(tail) => {
                assert(es + tail =~= tail);
            },
            None => {},
        }
    } else {
        let e = es[0];
        let tail = es.skip(1);
        let plen = e.path.len() as u16;
        let dlen = e.data.len() as u64;
        let plen_i = plen as int;
        let dlen_i = dlen as int;
        let b = spec_entries_bytes(es) + suffix;
        let tb = spec_entries_bytes(tail) + suffix;
        assert(entry_wf(e));
        assert(b =~= spec_entry_bytes(e) + tb);
        assert(b.subrange(0, 3) =~= spec_path_tag());
        assert(b.subrange(3, 5) =~= spec_u16_be(plen));
        crate::format::lemma_u16_be_round_trip(plen);
        assert(spec_u16_from_be(b[3], b[4]) == plen);
        assert(b.subrange(5 + plen_i, 8 + plen_i) =~= spec_data_tag());
        assert(b.subrange(8 + plen_i, 16 + plen_i) =~= spec_u64_be(dlen));
        crate::format::lemma_u64_be_round_trip(dlen);
        assert(spec_u64_from_be(b.subrange(8 + plen_i, 16 + plen_i)) == dlen);
        lemma_parse_one_entry(b, plen, dlen);
        assert(b.subrange(5, 5 + plen_i) =~= e.path);
        assert(b.subrange(16 + plen_i, 16 + plen_i + dlen_i) =~= e.data);
        assert(b.subrange(16 + plen_i + dlen_i, b.len() as int) =~= tb);
        assert(forall|i: int| 0 <= i < tail.len() ==> entry_wf(#[trigger] tail[i]));
        lemma_parse_entries_append(tail, suffix);
        match spec_parse_entries(suffix) {
            Some(t) => {
                assert(seq![e] + (tail + t) =~= es + t);
            },
            None => {},
        }
    }
}

/// Whether the stream opens with the eight identifier bytes.
pub fn check_archive_identifier(bytes: &Vec<u8>) -> (r: bool)
    ensures
        r <==> (bytes@.len() >= 8 && bytes@.subrange(0, 8) == spec_identifier()),
{
    if bytes.len() < 8 {
        return false;
    }
    let ok = bytes[0] == 0x3C && bytes[1] == 0x21 && bytes[2] == 0x42 && bytes[3] == 0x4B
        && bytes[4] == 0x41 && bytes[5] == 0x52 && bytes[6] == 0x21 && bytes[7] == 0x3E;
    proof {
        let sub = bytes@.subrange(0, 8);
        if ok {
            assert(sub =~= spec_identifier());
        } else {
            if sub == spec_identifier() {
                assert(sub[0] == 0x3C && sub[1] == 0x21 && sub[2] == 0x42 && sub[3] == 0x4B
                    && sub[4] == 0x41 && sub[5] == 0x52 && sub[6] == 0x21 && sub[7] == 0x3E);
            }
        }
    }
    ok
}

/// Whether the three bytes at `pos` are the path-box tag.
pub fn check_path_header(bytes: &Vec<u8>, pos: usize) -> (r: bool)
    requires
        pos + 3 <= bytes.len(),
    ensures
        r <==> bytes@.subrange(pos as int, pos as int + 3) == spec_path_tag(),
{
    let ok = bytes[pos] == 0x50 && bytes[pos + 1] == 0x54 && bytes[pos + 2] == 0x48;
    proof {
        let sub = bytes@.subrange(pos as int, pos as int + 3);
        if ok {
            assert(sub =~= spec_path_tag());
        } else {
            if sub == spec_path_tag() {
                assert(sub[0] == 0x50 && sub[1] == 0x54 && sub[2] == 0x48);
            }
        }
    }
    ok
}

/// Whether the three bytes at `pos` are the data-box tag.
pub fn check_data_header(bytes: &Vec<u8>, pos: usize) -> (r: bool)
    requires
        pos + 3 <= bytes.len(),
    ensures
        r <==> bytes@.subrange(pos as int, pos as int + 3) == spec_data_tag(),
{
    let ok = bytes[pos] == 0x44 && bytes[pos + 1] == 0x41 && bytes[pos + 2] == 0x54;
    proof {
        let sub = bytes@.subrange(pos as int, pos as int + 3);
        if ok {
            assert(sub =~= spec_data_tag());
        } else {
            if sub == spec_data_tag() {
                assert(sub[0] == 0x44 && sub[1] == 0x41 && sub[2] == 0x54);
            }
        }
    }
    ok
}

/// Copies out exactly the `n` bytes at `pos`.
pub fn read_exact(bytes: &Vec<u8>, pos: usize, n: usize) -> (r: Vec<u8>)
    requires
        pos + n <= bytes.len(),
    ensures
        r@ == bytes@.subrange(pos as int, pos as int + n),
{
    let mut r: Vec<u8> = Vec::new();
    let mut i: usize = 0;
    while i < n
        invariant
            i <= n,
            pos + n <= bytes.len(),
            r@ == bytes@.subrange(pos as int, pos as int + i),
        decreases n - i,
    {
        r.push(bytes[pos + i]);
        i = i + 1;
        assert(r@ =~= bytes@.subrange(pos as int, pos as int + i));
    }
    r
}

/// Reads the path box and data box that must stand at `pos`, which is
/// strictly before the end of the stream. On success the bytes from `pos`
/// to the returned position are exactly the entry's encoding; on failure
/// nothing at `pos` parses.
#[verifier::rlimit(50)]
fn read_entry(bytes: &Vec<u8>, pos: usize) -> (r: Result<(Entry, usize), ArchiveError>)
    requires
        pos < bytes@.len(),
    ensures
        r matches Ok((e, npos)) ==> pos < npos <= bytes@.len() && entry_wf(e@)
            && bytes@.subrange(pos as int, npos as int) == spec_entry_bytes(e@)
            && spec_parse_entries(bytes@.subrange(pos as int, bytes@.len() as int))
            == spec_parse_prepend(seq![e@], bytes@.subrange(npos as int, bytes@.len() as int)),
        r is Err ==> r == Err::<(Entry, usize), ArchiveError>(ArchiveError::InvalidArchive)
            && spec_parse_entries(bytes@.subrange(pos as int, bytes@.len() as int)) is None,
{
    let len = bytes.len();
    let ghost rest = bytes@.subrange(pos as int, len as int);
    // Path box: tag, two-byte length, path bytes.
    if len - pos < 5 {
        assert(spec_parse_entries(rest) is None);
        return Err(ArchiveError::InvalidArchive);
    }
    assert(rest.subrange(0, 3) =~= bytes@.subrange(pos as int, pos as int + 3));
    if !check_path_header(bytes, pos) {
        assert(spec_parse_entries(rest) is None);
        return Err(ArchiveError::InvalidArchive);
    }
    let plen = read_u16_be(bytes, pos + 3);
    assert(rest[3] == bytes@[pos as int + 3] && rest[4] == bytes@[pos as int + 4]);
    if len - pos - 5 < plen as usize {
        assert(spec_parse_entries(rest) is None);
        return Err(ArchiveError::InvalidArchive);
    }
    let path = read_exact(bytes, pos + 5, plen as usize);
    let pos2 = pos + 5 + plen as usize;
    let ghost r1 = rest.subrange(5 + plen as int, rest.len() as int);
    assert(path@ =~= rest.subrange(5, 5 + plen as int));
    assert(r1 =~= bytes@.subrange(pos2 as int, len as int));
    // Data box: tag, eight-byte length, contents.
    if len - pos2 < 11 {
        assert(spec_parse_entries(rest) is None);
        return Err(ArchiveError::InvalidArchive);
    }
    assert(r1.subrange(0, 3) =~= bytes@.subrange(pos2 as int, pos2 as int + 3));
    if !check_data_header(bytes, pos2) {
        assert(spec_parse_entries(rest) is None);
        return Err(ArchiveError::InvalidArchive);
    }
    let dlen = read_u64_be(bytes, pos2 + 3);
    assert(r1.subrange(3, 11) =~= bytes@.subrange(pos2 as int + 3, pos2 as int + 11));
    let avail: u64 = (len - pos2 - 11) as u64;
    if avail < dlen {
        assert(spec_parse_entries(rest) is None);
        return Err(ArchiveError::InvalidArchive);
    }
    let data = read_exact(bytes, pos2 + 11, dlen as usize);
    let pos3 = pos2 + 11 + dlen as usize;
    let ghost rest2 = bytes@.subrange(pos3 as int, len as int);
    assert(data@ =~= r1.subrange(11, 11 + dlen as int));
    assert(rest2 =~= r1.subrange(11 + dlen as int, r1.len() as int));
    let ghost em = EntryModel { path: path@, data: data@ };
    proof {
        assert(rest.subrange(5 + plen as int, 8 + plen as int) =~= bytes@.subrange(
            pos2 as int,
            pos2 as int + 3,
        ));
        assert(rest.subrange(8 + plen as int, 16 + plen as int) =~= bytes@.subrange(
            pos2 as int + 3,
            pos2 as int + 11,
        ));
        lemma_parse_one_entry(rest, plen, dlen);
        assert(rest.subrange(16 + plen as int, 16 + plen as int + dlen as int) =~= data@);
        assert(rest.subrange(16 + plen as int + dlen as int, rest.len() as int) =~= rest2);
        assert(rest.subrange(0, 16 + plen as int + dlen as int) =~= bytes@.subrange(
            pos as int,
            pos3 as int,
        ));
    }
    Ok((Entry { path, data }, pos3))
}

/// Decodes a whole archive stream. Succeeds exactly on the streams the
/// box grammar admits, and then returns the one entry list whose encoding
/// is the given bytes; any other stream — wrong identifier, an unexpected
/// tag, or a box cut short — is rejected as `InvalidArchive`.
pub fn decode_archive(bytes: &Vec<u8>) -> (r: Result<Vec<Entry>, ArchiveError>)
    ensures
        r matches Ok(es) ==> entries_wf(views_of(es@)) && bytes@ == spec_archive_bytes(
            views_of(es@),
        ) && spec_parse_archive(bytes@) == Some(views_of(es@)),
        r is Err ==> r == Err::<Vec<Entry>, ArchiveError>(ArchiveError::InvalidArchive)
            && spec_parse_archive(bytes@) is None,
        bytes@.len() < 8 || bytes@.subrange(0, 8) != spec_identifier() ==> r == Err::<
            Vec<Entry>,
            ArchiveError,
        >(ArchiveError::InvalidArchive),
{
    if !check_archive_identifier(bytes) {
        return Err(ArchiveError::InvalidArchive);
    }
    let len = bytes.len();
    let ghost tail0 = bytes@.subrange(8, len as int);
    let mut entries: Vec<Entry> = Vec::new();
    let mut pos: usize = 8;
    loop
        invariant
            8 <= pos <= len,
            len == bytes@.len(),
            bytes@.subrange(0, 8) == spec_identifier(),
            tail0 == bytes@.subrange(8, len as int),
            bytes@.subrange(8, pos as int) == spec_entries_bytes(views_of(entries@)),
            entries_wf(views_of(entries@)),
            spec_parse_entries(tail0) == spec_parse_prepend(
                views_of(entries@),
                bytes@.subrange(pos as int, len as int),
            ),
        ensures
            pos == len,
            spec_parse_entries(tail0) == Some(views_of(entries@)),
            bytes@.subrange(8, len as int) == spec_entries_bytes(views_of(entries@)),
        decreases len - pos,
    {
        let ghost rest = bytes@.subrange(pos as int, len as int);
        if pos == len {
            // A clean end of stream at a box boundary: the only valid exit.
            assert(rest.len() == 0);
            assert(spec_parse_entries(rest) == Some(Seq::<EntryModel>::empty()));
            assert(views_of(entries@) + Seq::<EntryModel>::empty() =~= views_of(entries@));
            break;
        }
        match read_entry(bytes, pos) {
            Err(_) => {
                return Err(ArchiveError::InvalidArchive);
            },
            Ok((entry, npos)) => {
                let ghost old_views = views_of(entries@);
                let ghost old_pos = pos;
                proof {
                    lemma_prepend_shift(
                        old_views,
                        entry@,
                        rest,
                        bytes@.subrange(npos as int, len as int),
                    );
                    lemma_entries_bytes_push(old_views, entry@);
                    assert(bytes@.subrange(8, npos as int) =~= bytes@.subrange(8, old_pos as int)
                        + bytes@.subrange(old_pos as int, npos as int));
                }
                entries.push(entry);
                pos = npos;
                proof {
                    assert(views_of(entries@) =~= old_views.push(entries@[entries@.len() - 1]@));
                }
            },
        }
    }
    proof {
        assert(bytes@ =~= bytes@.subrange(0, 8) + bytes@.subrange(8, len as int));
    }
    Ok(entries)
}

} // verus!
