//! The format's guarantees, stated and proved once over the models that
//! the encoder's and decoder's contracts use.

use crate::archive::{EntryModel, entries_wf, spec_archive_bytes, spec_entries_bytes,
    spec_path_box};
use crate::decode::{lemma_parse_entries_append, spec_parse_archive, spec_parse_entries};
use crate::format::{spec_data_tag, spec_identifier, spec_u64_be};
use vstd::prelude::*;

verus! {

/// Round trip: parsing the encoding of any well-formed entry list yields
/// exactly that list, so extraction reverses archiving entry for entry
/// and byte for byte.
pub proof fn lemma_archive_round_trip(es: Seq<EntryModel>)
    requires
        entries_wf(es),
    ensures
        spec_parse_archive(spec_archive_bytes(es)) == Some(es),
{
    let b = spec_archive_bytes(es);
    assert(b.subrange(0, 8) =~= spec_identifier());
    assert(b.subrange(8, b.len() as int) =~= spec_entries_bytes(es) + Seq::<u8>::empty());
    lemma_parse_entries_append(es, Seq::empty());
    assert(spec_parse_entries(Seq::<u8>::empty()) == Some(Seq::<EntryModel>::empty()));
    assert(es + Seq::<EntryModel>::empty() =~= es);
}

/// No two well-formed entry lists share an encoding: an archive stream
/// determines its tree, so extracting the same stream twice yields the
/// same entries.
pub proof fn lemma_archive_bytes_injective(es1: Seq<EntryModel>, es2: Seq<EntryModel>)
    requires
        entries_wf(es1),
        entries_wf(es2),
        spec_archive_bytes(es1) == spec_archive_bytes(es2),
    ensures
        es1 == es2,
{
    lemma_archive_round_trip(es1);
    lemma_archive_round_trip(es2);
}

/// A stream the parser rejects is the encoding of no well-formed entry
/// list at all: decoding fails only on streams no archiver could have
/// written.
pub proof fn lemma_rejected_stream_has_no_encoding(b: Seq<u8>)
    requires
        spec_parse_archive(b) is None,
    ensures
        forall|es: Seq<EntryModel>| entries_wf(es) ==> spec_archive_bytes(es) != b,
{
    assert forall|es: Seq<EntryModel>| entries_wf(es) implies spec_archive_bytes(es) != b by {
        if spec_archive_bytes(es) == b {
            lemma_archive_round_trip(es);
        }
    }
}

/// Truncation: an archive whose final data box announces `dlen` bytes but
/// carries fewer does not parse, however many complete entries precede it.
pub proof fn lemma_truncated_data_box_rejected(
    es: Seq<EntryModel>,
    path: Seq<u8>,
    data: Seq<u8>,
    dlen: u64,
)
    requires
        entries_wf(es),
        path.len() <= u16::MAX,
        data.len() < dlen,
    ensures
        spec_parse_archive(
            spec_identifier() + (spec_entries_bytes(es) + (spec_path_box(path) + (spec_data_tag()
                + spec_u64_be(dlen) + data))),
        ) is None,
{
    let cut = spec_path_box(path) + (spec_data_tag() + spec_u64_be(dlen) + data);
    lemma_parse_cut_entry(path, data, dlen);
    lemma_parse_entries_append(es, cut);
    let b = spec_identifier() + (spec_entries_bytes(es) + cut);
    assert(b.subrange(0, 8) =~= spec_identifier());
    assert(b.subrange(8, b.len() as int) =~= spec_entries_bytes(es) + cut);
}

/// A lone path box followed by a data box whose contents fall short of
/// its announced length does not parse.
proof fn lemma_parse_cut_entry(path: Seq<u8>, data: Seq<u8>, dlen: u64)
    requires
        path.len() <= u16::MAX,
        data.len() < dlen,
    ensures
        spec_parse_entries(
            spec_path_box(path) + (spec_data_tag() + spec_u64_be(dlen) + data),
        ) is None,
{
    let plen = path.len() as u16;
    let plen_i = plen as int;
    let b = spec_path_box(path) + (spec_data_tag() + spec_u64_be(dlen) + data);
    assert(b.len() == 16 + plen_i + data.len());
    assert(b.subrange(0, 3) =~= crate::format::spec_path_tag());
    assert(b.subrange(3, 5) =~= crate::format::spec_u16_be(plen));
    crate::format::lemma_u16_be_round_trip(plen);
    assert(crate::format::spec_u16_from_be(b[3], b[4]) == plen);
    let r1 = b.subrange(5 + plen_i, b.len() as int);
    assert(r1 =~= spec_data_tag() + spec_u64_be(dlen) + data);
    assert(r1.subrange(0, 3) =~= spec_data_tag());
    assert(r1.subrange(3, 11) =~= spec_u64_be(dlen));
    crate::format::lemma_u64_be_round_trip(dlen);
    assert(crate::format::spec_u64_from_be(r1.subrange(3, 11)) == dlen);
    assert(r1.len() == 11 + data.len() < 11 + dlen);
}

} // verus!
