//! The archive model and the encoder: an archive is the identifier followed
//! by one path box and one data box per entry, in entry order.

use crate::format::{push_u16_be, push_u64_be, spec_data_tag, spec_identifier, spec_path_tag,
    spec_u16_be, spec_u64_be};
use vstd::prelude::*;

verus! {

/// The largest path, in bytes, that a path box may carry.
pub const PATH_MAX: usize = 4096;

/// One archived file: its path relative to the archive root, as UTF-8
/// bytes, and its raw contents.
#[derive(Debug, PartialEq, Eq)]
pub struct Entry {
    pub path: Vec<u8>,
    pub data: Vec<u8>,
}

/// The mathematical model of an entry.
pub ghost struct EntryModel {
    pub path: Seq<u8>,
    pub data: Seq<u8>,
}

impl View for Entry {
    type V = EntryModel;

    open spec fn view(&self) -> EntryModel {
        EntryModel { path: self.path@, data: self.data@ }
    }
}

/// Why an operation failed. Every failure aborts the whole operation.
#[derive(Clone, Copy, Debug, PartialEq, Eq, Structural)]
pub enum ArchiveError {
    /// The stream is not an archive: wrong identifier, an unexpected tag,
    /// or a box cut short.
    InvalidArchive,
    /// A path exceeds the fixed capacity of a path box.
    PathTooLarge,
    /// The surrounding filesystem failed; nothing in this crate raises it.
    FilesystemError,
}

/// An entry the wire format can carry at all: its path length fits the
/// two-byte field and its data length the eight-byte field.
pub open spec fn entry_wf(e: EntryModel) -> bool {
    e.path.len() <= u16::MAX && e.data.len() <= u64::MAX
}

/// Every entry fits the wire format.
pub open spec fn entries_wf(es: Seq<EntryModel>) -> bool {
    forall|i: int| 0 <= i < es.len() ==> entry_wf(#[trigger] es[i])
}

/// The models of a vector of entries, in order.
pub open spec fn views_of(entries: Seq<Entry>) -> Seq<EntryModel> {
    entries.map_values(|e: Entry| e@)
}

/// The bytes of a path box: tag, two-byte length, path.
pub open spec fn spec_path_box(path: Seq<u8>) -> Seq<u8>
    recommends
        path.len() <= u16::MAX,
{
    spec_path_tag() + spec_u16_be(path.len() as u16) + path
}

/// The bytes of a data box: tag, eight-byte length, contents.
pub open spec fn spec_data_box(data: Seq<u8>) -> Seq<u8>
    recommends
        data.len() <= u64::MAX,
{
    spec_data_tag() + spec_u64_be(data.len() as u64) + data
}

/// The bytes of one entry: its path box followed by its data box.
pub open spec fn spec_entry_bytes(e: EntryModel) -> Seq<u8>
    recommends
        entry_wf(e),
{
    spec_path_box(e.path) + spec_data_box(e.data)
}

/// The bytes of an entry list, in order.
pub open spec fn spec_entries_bytes(es: Seq<EntryModel>) -> Seq<u8>
    decreases es.len(),
{
    if es.len() == 0 {
        Seq::empty()
    } else {
        spec_entry_bytes(es[0]) + spec_entries_bytes(es.skip(1))
    }
}

/// The bytes of a whole archive: identifier, then the entries.
pub open spec fn spec_archive_bytes(es: Seq<EntryModel>) -> Seq<u8>
    recommends
        entries_wf(es),
{
    spec_identifier() + spec_entries_bytes(es)
}

/// Appending one entry to a list appends its bytes to the stream.
pub proof fn lemma_entries_bytes_push(es: Seq<EntryModel>, e: EntryModel)
    ensures
        spec_entries_bytes(es.push(e)) == spec_entries_bytes(es) + spec_entry_bytes(e),
    decreases es.len(),
{
    if es.len() == 0 {
        assert(es.push(e)[0] == e);
        assert(es.push(e).skip(1).len() == 0);
        assert(spec_entries_bytes(es.push(e).skip(1)) == Seq::<u8>::empty());
        assert(spec_entries_bytes(es.push(e)) =~= spec_entries_bytes(es) + spec_entry_bytes(e));
    } else {
        assert(es.push(e)[0] == es[0]);
        assert(es.push(e).skip(1) =~= es.skip(1).push(e));
        lemma_entries_bytes_push(es.skip(1), e);
        assert(spec_entries_bytes(es.push(e)) =~= spec_entries_bytes(es) + spec_entry_bytes(e));
    }
}

/// Writes the eight identifier bytes that open every archive.
pub fn write_archive_identifier(out: &mut Vec<u8>)
    ensures
        final(out)@ == old(out)@ + spec_identifier(),
{
    out.push(0x3C);  // '<'
    out.push(0x21);  // '!'
    out.push(0x42);  // 'B'
    out.push(0x4B);  // 'K'
    out.push(0x41);  // 'A'
    out.push(0x52);  // 'R'
    out.push(0x21);  // '!'
    out.push(0x3E);  // '>'
    assert(out@ =~= old(out)@ + spec_identifier());
}

/// Appends one byte slice to another.
fn push_all(out: &mut Vec<u8>, bytes: &Vec<u8>)
    ensures
        final(out)@ == old(out)@ + bytes@,
{
    let mut i: usize = 0;
    while i < bytes.len()
        invariant
            i <= bytes@.len(),
            out@ == old(out)@ + bytes@.subrange(0, i as int),
        decreases bytes@.len() - i,
    {
        out.push(bytes[i]);
        i = i + 1;
        assert(out@ =~= old(out)@ + bytes@.subrange(0, i as int));
    }
    assert(out@ =~= old(out)@ + bytes@);
}

/// Writes a path box: tag, two-byte big-endian length, path bytes.
/// Fails, writing nothing, when the path exceeds the format's capacity.
pub fn write_path_box(out: &mut Vec<u8>, path: &Vec<u8>) -> (r: Result<(), ArchiveError>)
    ensures
        r is Ok <==> path@.len() <= PATH_MAX,
        r is Ok ==> final(out)@ == old(out)@ + spec_path_box(path@),
        r is Err ==> final(out)@ == old(out)@ && r == Err::<(), ArchiveError>(
            ArchiveError::PathTooLarge,
        ),
{
    if path.len() > PATH_MAX {
        return Err(ArchiveError::PathTooLarge);
    }
    out.push(0x50);  // 'P'
    out.push(0x54);  // 'T'
    out.push(0x48);  // 'H'
    assert(out@ =~= old(out)@ + spec_path_tag());
    push_u16_be(out, path.len() as u16);
    push_all(out, path);
    assert(out@ =~= old(out)@ + spec_path_box(path@));
    Ok(())
}

/// Writes a data box: tag, eight-byte big-endian length, contents.
pub fn write_data_box(out: &mut Vec<u8>, data: &Vec<u8>)
    ensures
        final(out)@ == old(out)@ + spec_data_box(data@),
{
    out.push(0x44);  // 'D'
    out.push(0x41);  // 'A'
    out.push(0x54);  // 'T'
    assert(out@ =~= old(out)@ + spec_data_tag());
    push_u64_be(out, data.len() as u64);
    push_all(out, data);
    assert(out@ =~= old(out)@ + spec_data_box(data@));
}

/// Encodes an entry list as one archive stream: the identifier, then each
/// entry's path box and data box in the given order. Fails with
/// `PathTooLarge`, if and only if some path exceeds the format's capacity.
pub fn encode_archive(entries: &Vec<Entry>) -> (r: Result<Vec<u8>, ArchiveError>)
    ensures
        r is Ok <==> (forall|i: int|
            0 <= i < entries@.len() ==> (#[trigger] entries@[i])@.path.len() <= PATH_MAX),
        r matches Ok(v) ==> v@ == spec_archive_bytes(views_of(entries@)),
        r is Err ==> r == Err::<Vec<u8>, ArchiveError>(ArchiveError::PathTooLarge),
{
    let mut out: Vec<u8> = Vec::new();
    write_archive_identifier(&mut out);
    let mut i: usize = 0;
    while i < entries.len()
        invariant
            i <= entries@.len(),
            out@ == spec_identifier() + spec_entries_bytes(views_of(entries@.subrange(0, i as int))),
            forall|j: int| 0 <= j < i ==> (#[trigger] entries@[j])@.path.len() <= PATH_MAX,
        decreases entries@.len() - i,
    {
        let ghost prefix = views_of(entries@.subrange(0, i as int));
        let entry = &entries[i];
        match write_path_box(&mut out, &entry.path) {
            Ok(()) => {},
            Err(e) => {
                return Err(e);
            },
        }
        write_data_box(&mut out, &entry.data);
        i = i + 1;
        proof {
            lemma_entries_bytes_push(prefix, entries@[i - 1]@);
            assert(views_of(entries@.subrange(0, i as int)) =~= prefix.push(entries@[i - 1]@));
        }
    }
    assert(entries@.subrange(0, entries@.len() as int) =~= entries@);
    Ok(out)
}

} // verus!
