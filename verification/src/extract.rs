//! Decoding the two container formats and assembling the flattened text.
//!
//! Each archive is read, through the container crates, as a list of
//! members: for every member, whether the container classifies it as a
//! regular file, and its content bytes. The verified logic keeps the
//! regular files only, in order, and assembles the output: the tar path
//! re-encodes each file line by line, the zip path copies each file's
//! bytes verbatim and terminates them with a single newline. The tar
//! stream is forward-only and is decoded in one trusted pass; the zip
//! archive is indexed, so it is opened once and its members are then read
//! one at a time from the verified loop.

use vstd::prelude::*;
use std::io::Cursor;
use std::io::Read;
use crate::text::{text_output, render_text, push_bytes, NL};

verus! {

/// One archive member, reduced to what the conversion reads: whether the
/// container classifies it as a regular file, and its content bytes.
pub struct Entry {
    pub is_file: bool,
    pub data: Vec<u8>,
}

impl View for Entry {
    type V = (bool, Seq<u8>);

    open spec fn view(&self) -> (bool, Seq<u8>) {
        (self.is_file, self.data@)
    }
}

/// The members of a decoded entry list, as the specifications speak of them.
pub open spec fn entries_view(es: Seq<Entry>) -> Seq<(bool, Seq<u8>)> {
    es.map_values(|e: Entry| e@)
}

/// A fatal conversion failure: the bytes are not a well-formed archive of
/// the given container format.
#[derive(Clone, Copy, Debug, PartialEq, Eq, Structural)]
pub enum ConvertError {
    MalformedTarGz,
    MalformedZip,
}

/// The members of a gzip-compressed tar archive, in stream order, each as
/// (is a regular file, content bytes); `None` when the bytes do not decode
/// as a gzip-compressed tar stream. Decoding depends on the bytes alone.
pub uninterp spec fn tar_gz_entries(bytes: Seq<u8>) -> Option<Seq<(bool, Seq<u8>)>>;

#[verifier::external_type_specification]
#[verifier::external_body]
#[verifier::reject_recursive_types(T)]
pub struct ExCursor<T>(Cursor<T>);

#[verifier::external_type_specification]
#[verifier::external_body]
#[verifier::reject_recursive_types(R)]
pub struct ExZipArchive<R>(zip::read::ZipArchive<R>);

/// What a parsed zip archive holds, in index order: for each member, its
/// classification and decompressed content bytes, or nothing when opening
/// or decompressing that one member fails.
pub uninterp spec fn zip_members(a: zip::read::ZipArchive<Cursor<Vec<u8>>>) -> Seq<
    Option<(bool, Seq<u8>)>,
>;

/// The member table of a zip archive as a function of its bytes alone:
/// `None` when the central directory does not parse.
pub uninterp spec fn zip_entries(bytes: Seq<u8>) -> Option<Seq<Option<(bool, Seq<u8>)>>>;

/// Every member of the table can be read.
pub open spec fn zip_readable(ms: Seq<Option<(bool, Seq<u8>)>>) -> bool {
    forall|i: int| 0 <= i < ms.len() ==> ms[i] is Some
}

/// The member table with every member read out.
pub open spec fn zip_member_list(ms: Seq<Option<(bool, Seq<u8>)>>) -> Seq<(bool, Seq<u8>)> {
    ms.map_values(|m: Option<(bool, Seq<u8>)>| m->Some_0)
}

/// Relies on `flate2::read::GzDecoder` and `tar::Archive`: `entries` walks
/// the tar members in stream order, `header().entry_type().is_file()`
/// classifies each as a regular file or not, and reading a member yields
/// its content bytes. The stream is forward-only and a member cannot be
/// revisited, so the whole walk is one pass here. Decoding is a function
/// of the bytes alone, named `tar_gz_entries`; any gzip or tar error is
/// fatal.
#[verifier::external_body]
fn decode_tar_gz(bytes: &[u8]) -> (r: Result<Vec<Entry>, ConvertError>)
    ensures
        r is Ok <==> tar_gz_entries(bytes@) is Some,
        r matches Ok(es) ==> tar_gz_entries(bytes@) == Some(entries_view(es@)),
        r matches Err(e) ==> e == ConvertError::MalformedTarGz,
{
    let mut archive = tar::Archive::new(flate2::read::GzDecoder::new(bytes));
    let mut out: Vec<Entry> = Vec::new();
    for next in archive.entries().map_err(|_| ConvertError::MalformedTarGz)? {
        let mut entry = next.map_err(|_| ConvertError::MalformedTarGz)?;
        let is_file = entry.header().entry_type().is_file();
        let mut data: Vec<u8> = Vec::new();
        entry.read_to_end(&mut data).map_err(|_| ConvertError::MalformedTarGz)?;
        out.push(Entry { is_file, data });
    }
    Ok(out)
}

/// Relies on `zip::ZipArchive::new`: it parses the central directory of
/// the bytes behind the cursor, and nothing else; parsing depends on those
/// bytes alone, and the member table it finds is named `zip_entries` over
/// the bytes and `zip_members` over the parsed archive.
#[verifier::external_body]
fn zip_open(bytes: Vec<u8>) -> (r: Result<zip::read::ZipArchive<Cursor<Vec<u8>>>, ConvertError>)
    ensures
        r is Ok <==> zip_entries(bytes@) is Some,
        r matches Ok(a) ==> Some(zip_members(a)) == zip_entries(bytes@),
        r matches Err(e) ==> e == ConvertError::MalformedZip,
{
    zip::ZipArchive::new(Cursor::new(bytes)).map_err(|_| ConvertError::MalformedZip)
}

/// Relies on `zip::ZipArchive::len`: the number of members in the parsed
/// central directory.
#[verifier::external_body]
fn zip_len(a: &zip::read::ZipArchive<Cursor<Vec<u8>>>) -> (n: usize)
    ensures
        n == zip_members(*a).len(),
{
    a.len()
}

/// Relies on `zip::ZipArchive::by_index` and `Read::read_to_end`: member
/// `i` is opened and decompressed, `is_file` classifies it. Reading moves
/// the archive's cursor but leaves the parsed member table as it was, and
/// what comes back is member `i` of `zip_members` — or the fatal error,
/// exactly when that member is the unreadable kind.
#[verifier::external_body]
fn zip_read_member(a: &mut zip::read::ZipArchive<Cursor<Vec<u8>>>, i: usize) -> (r: Result<
    Entry,
    ConvertError,
>)
    requires
        i < zip_members(*old(a)).len(),
    ensures
        zip_members(*final(a)) == zip_members(*old(a)),
        r is Ok <==> zip_members(*old(a))[i as int] is Some,
        r matches Ok(e) ==> Some(e@) == zip_members(*old(a))[i as int],
        r matches Err(err) ==> err == ConvertError::MalformedZip,
{
    let mut member = a.by_index(i).map_err(|_| ConvertError::MalformedZip)?;
    let is_file = member.is_file();
    let mut data: Vec<u8> = Vec::new();
    member.read_to_end(&mut data).map_err(|_| ConvertError::MalformedZip)?;
    Ok(Entry { is_file, data })
}

/// The tar path's text for a decoded member list: regular files only, in
/// order, each re-encoded line by line.
pub open spec fn tar_output(es: Seq<(bool, Seq<u8>)>) -> Seq<u8>
    decreases es.len(),
{
    if es.len() == 0 {
        Seq::empty()
    } else {
        tar_output(es.drop_last()) + (if es.last().0 {
            text_output(es.last().1)
        } else {
            Seq::empty()
        })
    }
}

/// The zip path's text for a decoded member list: regular files only, in
/// order, each copied verbatim and terminated with a single newline.
pub open spec fn zip_output(es: Seq<(bool, Seq<u8>)>) -> Seq<u8>
    decreases es.len(),
{
    if es.len() == 0 {
        Seq::empty()
    } else {
        zip_output(es.drop_last()) + (if es.last().0 {
            es.last().1.push(NL)
        } else {
            Seq::empty()
        })
    }
}

/// What a run over a gzip-compressed tar archive's bytes produces: the
/// flattened text exactly when the container decodes, nothing otherwise.
pub open spec fn tar_gz_result(bytes: Seq<u8>) -> Option<Seq<u8>> {
    match tar_gz_entries(bytes) {
        Some(es) => Some(tar_output(es)),
        None => None,
    }
}

/// What a run over a zip archive's bytes produces: the flattened text
/// exactly when the central directory parses and every member can be
/// read, nothing otherwise.
pub open spec fn zip_result(bytes: Seq<u8>) -> Option<Seq<u8>> {
    match zip_entries(bytes) {
        Some(ms) => if zip_readable(ms) {
            Some(zip_output(zip_member_list(ms)))
        } else {
            None
        },
        None => None,
    }
}

/// Assembles the tar path's text from a decoded member list.
pub fn render_tar_entries(entries: &Vec<Entry>) -> (out: Vec<u8>)
    ensures
        out@ == tar_output(entries_view(entries@)),
{
    let mut out: Vec<u8> = Vec::new();
    let mut i: usize = 0;
    while i < entries.len()
        invariant
            i <= entries@.len(),
            out@ == tar_output(entries_view(entries@.take(i as int))),
        decreases entries@.len() - i,
    {
        let ghost out_before = out@;
        let e = &entries[i];
        if e.is_file {
            let piece = render_text(&e.data);
            push_bytes(&mut out, &piece);
        }
        proof {
            let prefix = entries_view(entries@.take(i + 1));
            assert(prefix.drop_last() =~= entries_view(entries@.take(i as int)));
            assert(prefix.last() == entries@[i as int]@);
            if !entries@[i as int].is_file {
                assert(out_before + Seq::<u8>::empty() =~= out_before);
            }
        }
        i += 1;
    }
    proof {
        assert(entries@.take(entries@.len() as int) =~= entries@);
    }
    out
}

/// Assembles the zip path's text from a decoded member list.
pub fn render_zip_entries(entries: &Vec<Entry>) -> (out: Vec<u8>)
    ensures
        out@ == zip_output(entries_view(entries@)),
{
    let mut out: Vec<u8> = Vec::new();
    let mut i: usize = 0;
    while i < entries.len()
        invariant
            i <= entries@.len(),
            out@ == zip_output(entries_view(entries@.take(i as int))),
        decreases entries@.len() - i,
    {
        let ghost out_before = out@;
        let e = &entries[i];
        if e.is_file {
            push_bytes(&mut out, &e.data);
            out.push(NL);
        }
        proof {
            let prefix = entries_view(entries@.take(i + 1));
            assert(prefix.drop_last() =~= entries_view(entries@.take(i as int)));
            assert(prefix.last() == entries@[i as int]@);
            if entries@[i as int].is_file {
                assert(out@ =~= out_before + entries@[i as int].data@.push(NL));
            } else {
                assert(out_before + Seq::<u8>::empty() =~= out_before);
            }
        }
        i += 1;
    }
    proof {
        assert(entries@.take(entries@.len() as int) =~= entries@);
    }
    out
}

/// Converts one gzip-compressed tar archive, given as its bytes, into the
/// flattened text: `Ok` with the text exactly when the container decodes,
/// the fatal error otherwise.
pub fn convert_tar_gz(bytes: &[u8]) -> (r: Result<Vec<u8>, ConvertError>)
    ensures
        r is Ok <==> tar_gz_result(bytes@) is Some,
        r matches Ok(out) ==> tar_gz_result(bytes@) == Some(out@),
        r matches Err(e) ==> e == ConvertError::MalformedTarGz,
{
    match decode_tar_gz(bytes) {
        Ok(entries) => Ok(render_tar_entries(&entries)),
        Err(e) => Err(e),
    }
}

/// Converts one zip archive, given as its bytes, into the flattened text:
/// `Ok` with the text exactly when the container decodes whole, the fatal
/// error otherwise.
pub fn convert_zip(bytes: &[u8]) -> (r: Result<Vec<u8>, ConvertError>)
    ensures
        r is Ok <==> zip_result(bytes@) is Some,
        r matches Ok(out) ==> zip_result(bytes@) == Some(out@),
        r matches Err(e) ==> e == ConvertError::MalformedZip,
{
    let owned = vstd::slice::slice_to_vec(bytes);
    let mut archive = match zip_open(owned) {
        Ok(a) => a,
        Err(e) => {
            return Err(e);
        },
    };
    let ghost ms = zip_members(archive);
    let n = zip_len(&archive);
    let mut out: Vec<u8> = Vec::new();
    let mut i: usize = 0;
    while i < n
        invariant
            i <= n == ms.len(),
            zip_members(archive) == ms,
            Some(ms) == zip_entries(bytes@),
            forall|j: int| 0 <= j < i ==> ms[j] is Some,
            out@ == zip_output(zip_member_list(ms.take(i as int))),
        decreases n - i,
    {
        let e = match zip_read_member(&mut archive, i) {
            Ok(e) => e,
            Err(err) => {
                proof {
                    assert(!zip_readable(ms));
                }
                return Err(err);
            },
        };
        let ghost out_before = out@;
        if e.is_file {
            push_bytes(&mut out, &e.data);
            out.push(NL);
        }
        proof {
            let prefix = zip_member_list(ms.take(i + 1));
            assert(prefix.drop_last() =~= zip_member_list(ms.take(i as int)));
            assert(prefix.last() == e@);
            if e@.0 {
                assert(out@ =~= out_before + e@.1.push(NL));
            } else {
                assert(out_before + Seq::<u8>::empty() =~= out_before);
            }
        }
        i += 1;
    }
    proof {
        assert(ms.take(ms.len() as int) =~= ms);
        assert(zip_readable(ms));
    }
    Ok(out)
}

} // verus!
