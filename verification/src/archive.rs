//! Putting an archive together: the entries of a tree in depth-first order,
//! each as its header and its padded content, and the end-of-archive marker.

use vstd::prelude::*;
use crate::files::Element;
use crate::files::FileData;
use crate::header::HeaderError;
use crate::files::TypeFlag;

verus! {

/// Why an archive cannot be put together.
#[derive(Clone, Copy, Debug, PartialEq, Eq, Structural)]
pub enum AssembleError {
    /// There is not one content for each entry of the tree.
    ContentCount { expected: usize, actual: usize },
    /// The entry at `index` of the depth-first order has no header.
    Header { index: usize, error: HeaderError },
    /// The content handed in for the entry at `index` has not the length
    /// that the entry carries.
    ContentLength { index: usize, expected: u64, actual: usize },
}

/// `n` NUL bytes.
pub open spec fn zeros(n: nat) -> Seq<u8> {
    Seq::new(n, |i: int| 0u8)
}

/// How many NUL bytes follow a content of `len` bytes, so that the next
/// header starts at a multiple of 512.
pub open spec fn padding(len: nat) -> nat {
    ((512 - len % 512) % 512) as nat
}

/// How many bytes of content follow the header of an entry: its size for a
/// normal file, nothing for any other kind.
pub open spec fn payload_len(data: FileData) -> nat {
    if data.type_flag == TypeFlag::T0 {
        data.file_size as nat
    } else {
        0
    }
}

/// One entry as it stands in the archive: the header, the content, and NUL
/// bytes up to the next multiple of 512.
pub open spec fn record_bytes(data: FileData, content: Seq<u8>) -> Seq<u8> {
    data.header() + content + zeros(padding(content.len()))
}

/// Why the entry at `index` cannot be written with this content, if it
/// cannot: a value that does not fit its field, or else a content of the
/// wrong length.
pub open spec fn record_fault(data: FileData, content: Seq<u8>, index: nat) -> Option<
    AssembleError,
> {
    match data.fault() {
        Some(error) => Some(AssembleError::Header { index: index as usize, error }),
        None => if content.len() != payload_len(data) {
            Some(
                AssembleError::ContentLength {
                    index: index as usize,
                    expected: payload_len(data) as u64,
                    actual: content.len() as usize,
                },
            )
        } else {
            None
        },
    }
}

/// The entries of the tree under `element` in depth-first order: a
/// directory first, then what it holds.
pub open spec fn preorder(element: Element) -> Seq<FileData>
    decreases element, 0nat,
{
    match element {
        Element::File(data) => seq![*data],
        Element::Dir(children, data) => seq![*data] + preorder_from(children@, 0),
    }
}

/// The entries of the trees `entries[from..]` in depth-first order.
pub open spec fn preorder_from(entries: Seq<Element>, from: nat) -> Seq<FileData>
    decreases entries, entries.len() - from,
{
    if from >= entries.len() {
        Seq::empty()
    } else {
        preorder(entries[from as int]) + preorder_from(entries, from + 1)
    }
}

/// The entries of a sequence of trees in depth-first order.
pub open spec fn preorder_all(entries: Seq<Element>) -> Seq<FileData> {
    preorder_from(entries, 0)
}

/// The first `upto` records, one after the other.
pub open spec fn body(records: Seq<FileData>, contents: Seq<Seq<u8>>, upto: nat) -> Seq<u8>
    decreases upto,
{
    if upto == 0 {
        Seq::empty()
    } else {
        body(records, contents, (upto - 1) as nat) + record_bytes(
            records[upto - 1],
            contents[upto - 1],
        )
    }
}

/// The first fault among the records from `from` on.
pub open spec fn records_fault_from(
    records: Seq<FileData>,
    contents: Seq<Seq<u8>>,
    from: nat,
) -> Option<AssembleError>
    decreases records.len() - from,
{
    if from >= records.len() {
        None
    } else {
        match record_fault(records[from as int], contents[from as int], from) {
            Some(e) => Some(e),
            None => records_fault_from(records, contents, from + 1),
        }
    }
}

/// Why these records have no archive with these contents: their numbers
/// differ, or else the first record that cannot be written.
pub open spec fn records_fault(records: Seq<FileData>, contents: Seq<Seq<u8>>) -> Option<
    AssembleError,
> {
    if contents.len() != records.len() {
        Some(
            AssembleError::ContentCount {
                expected: records.len() as usize,
                actual: contents.len() as usize,
            },
        )
    } else {
        records_fault_from(records, contents, 0)
    }
}

/// The archive of these records: every record in order, then two blocks of
/// NUL bytes that mark the end.
pub open spec fn archive_bytes(records: Seq<FileData>, contents: Seq<Seq<u8>>) -> Seq<u8> {
    body(records, contents, records.len()) + zeros(1024)
}

/// The values behind a sequence of references.
pub open spec fn values(records: Seq<&FileData>) -> Seq<FileData> {
    Seq::new(records.len(), |i: int| *records[i])
}

/// The contents as sequences of bytes.
pub open spec fn content_views(contents: Seq<Vec<u8>>) -> Seq<Seq<u8>> {
    Seq::new(contents.len(), |i: int| contents[i]@)
}

/// How many NUL bytes follow a content of `len` bytes.
pub fn content_padding(len: usize) -> (pad: usize)
    ensures
        pad == padding(len as nat),
        pad < 512,
        (len + pad) % 512 == 0,
{
    (512 - len % 512) % 512
}

/// Appends `bytes` to `out`.
fn append_bytes(out: &mut Vec<u8>, bytes: &[u8])
    ensures
        final(out)@ == old(out)@ + bytes@,
{
    let mut i: usize = 0;
    while i < bytes.len()
        invariant
            i <= bytes@.len(),
            out@ == old(out)@ + bytes@.subrange(0, i as int),
        decreases bytes@.len() - i,
    {
        out.push(bytes[i]);
        proof {
            assert(bytes@.subrange(0, i as int).push(bytes@[i as int]) =~= bytes@.subrange(
                0,
                i + 1,
            ));
        }
        i = i + 1;
    }
    proof {
        assert(bytes@.subrange(0, bytes@.len() as int) =~= bytes@);
    }
}

/// Appends `n` NUL bytes to `out`.
fn append_zeros(out: &mut Vec<u8>, n: usize)
    ensures
        final(out)@ == old(out)@ + zeros(n as nat),
{
    let mut i: usize = 0;
    while i < n
        invariant
            i <= n,
            out@ =~= old(out)@ + zeros(i as nat),
        decreases n - i,
    {
        out.push(0);
        i = i + 1;
    }
}

/// Appends the entries of the tree under `element`, in depth-first order.
fn push_preorder<'a>(element: &'a Element, out: &mut Vec<&'a FileData>)
    ensures
        values(final(out)@) == values(old(out)@) + preorder(*element),
    decreases element, 0nat,
{
    match element {
        Element::File(data) => {
            out.push(&**data);
            proof {
                assert(values(out@) =~= values(old(out)@) + preorder(*element));
            }
        },
        Element::Dir(children, data) => {
            out.push(&**data);
            let ghost own = out@;
            push_preorder_all(children, out);
            proof {
                assert(values(own) =~= values(old(out)@) + seq![**data]);
                assert(values(out@) =~= values(old(out)@) + preorder(*element));
            }
        },
    }
}

/// Appends the entries of the trees `entries`, in depth-first order.
fn push_preorder_all<'a>(entries: &'a Vec<Element>, out: &mut Vec<&'a FileData>)
    ensures
        values(final(out)@) == values(old(out)@) + preorder_all(entries@),
    decreases entries, 1nat,
{
    let mut i: usize = 0;
    while i < entries.len()
        invariant
            i <= entries@.len(),
            values(out@) + preorder_from(entries@, i as nat) == values(old(out)@) + preorder_all(
                entries@,
            ),
        decreases entries@.len() - i,
    {
        let ghost before = values(out@);
        push_preorder(&entries[i], out);
        proof {
            assert(values(out@) + preorder_from(entries@, (i + 1) as nat) =~= before
                + preorder_from(entries@, i as nat));
        }
        i = i + 1;
    }
    proof {
        assert(values(out@) + preorder_from(entries@, i as nat) =~= values(out@));
    }
}

/// The entries of the trees in the order in which they stand in the
/// archive: depth first, a directory before what it holds.
pub fn flatten<'a>(entries: &'a Vec<Element>) -> (records: Vec<&'a FileData>)
    ensures
        values(records@) == preorder_all(entries@),
{
    let mut records: Vec<&'a FileData> = Vec::new();
    push_preorder_all(entries, &mut records);
    records
}

/// Appends one entry to `out`: its header, then `content` and the NUL bytes
/// that fill its last block. `index` is the entry's place in the archive,
/// for the error. On an error `out` is left as it was.
pub fn append_record(out: &mut Vec<u8>, data: &FileData, content: &[u8], index: usize) -> (res:
    Result<(), AssembleError>)
    ensures
        match res {
            Ok(_) => {
                &&& record_fault(*data, content@, index as nat) is None
                &&& final(out)@ == old(out)@ + record_bytes(*data, content@)
            },
            Err(e) => {
                &&& record_fault(*data, content@, index as nat) == Some(e)
                &&& final(out)@ == old(out)@
            },
        },
{
    let block = match data.encode() {
        Ok(block) => block,
        Err(error) => {
            return Err(AssembleError::Header { index, error });
        },
    };
    let expected: u64 = match data.type_flag {
        TypeFlag::T0 => data.file_size,
        _ => 0,
    };
    if content.len() as u64 != expected {
        return Err(AssembleError::ContentLength { index, expected, actual: content.len() });
    }
    append_bytes(out, block.as_slice());
    append_bytes(out, content);
    append_zeros(out, content_padding(content.len()));
    proof {
        assert(out@ =~= old(out)@ + record_bytes(*data, content@));
    }
    Ok(())
}

/// The two blocks of NUL bytes that end an archive.
pub fn end_of_archive() -> (marker: Vec<u8>)
    ensures
        marker@ == zeros(1024),
{
    let mut marker: Vec<u8> = Vec::new();
    append_zeros(&mut marker, 1024);
    marker
}

/// The archive of `records`, each with the content at the same place in
/// `contents`, followed by the end-of-archive marker.
pub fn assemble_records(records: &Vec<&FileData>, contents: &Vec<Vec<u8>>) -> (res: Result<
    Vec<u8>,
    AssembleError,
>)
    ensures
        match res {
            Ok(bytes) => {
                &&& records_fault(values(records@), content_views(contents@)) is None
                &&& bytes@ == archive_bytes(values(records@), content_views(contents@))
            },
            Err(e) => records_fault(values(records@), content_views(contents@)) == Some(e),
        },
{
    if contents.len() != records.len() {
        return Err(
            AssembleError::ContentCount { expected: records.len(), actual: contents.len() },
        );
    }
    let ghost all = values(records@);
    let ghost given = content_views(contents@);
    let mut out: Vec<u8> = Vec::new();
    let mut i: usize = 0;
    while i < records.len()
        invariant
            i <= records@.len(),
            records@.len() == contents@.len(),
            all == values(records@),
            given == content_views(contents@),
            out@ == body(all, given, i as nat),
            records_fault_from(all, given, 0) == records_fault_from(all, given, i as nat),
        decreases records@.len() - i,
    {
        match append_record(&mut out, records[i], contents[i].as_slice(), i) {
            Ok(_) => {},
            Err(e) => {
                return Err(e);
            },
        }
        i = i + 1;
    }
    append_zeros(&mut out, 1024);
    Ok(out)
}

/// The archive of the trees `entries`: every entry in depth-first order, a
/// directory before what it holds, each as its header and its padded
/// content, then the end-of-archive marker. `contents` holds one content
/// for each entry, in that same order; it is empty for anything but a
/// normal file.
pub fn assemble(entries: &Vec<Element>, contents: &Vec<Vec<u8>>) -> (res: Result<
    Vec<u8>,
    AssembleError,
>)
    ensures
        match res {
            Ok(bytes) => {
                &&& records_fault(preorder_all(entries@), content_views(contents@)) is None
                &&& bytes@ == archive_bytes(preorder_all(entries@), content_views(contents@))
            },
            Err(e) => records_fault(preorder_all(entries@), content_views(contents@)) == Some(e),
        },
{
    let records = flatten(entries);
    assemble_records(&records, contents)
}

/// The body of an archive is a whole number of 512-byte blocks.
pub proof fn lemma_body_blocks(records: Seq<FileData>, contents: Seq<Seq<u8>>, upto: nat)
    ensures
        body(records, contents, upto).len() % 512 == 0,
    decreases upto,
{
    if upto > 0 {
        lemma_body_blocks(records, contents, (upto - 1) as nat);
    }
}

/// An archive is a whole number of 512-byte blocks, and ends with two
/// blocks of NUL bytes.
pub proof fn lemma_archive_blocks(records: Seq<FileData>, contents: Seq<Seq<u8>>)
    ensures
        archive_bytes(records, contents).len() % 512 == 0,
        archive_bytes(records, contents).len() >= 1024,
        archive_bytes(records, contents).subrange(
            archive_bytes(records, contents).len() - 1024,
            archive_bytes(records, contents).len() as int,
        ) == zeros(1024),
{
    lemma_body_blocks(records, contents, records.len());
    let all = archive_bytes(records, contents);
    assert(all.subrange(all.len() - 1024, all.len() as int) =~= zeros(1024));
}

} // verus!
