//! In-memory archive building: a thin, specified layer over the `zip`
//! crate's writer, and a verified builder that turns a list of payload
//! entries into one archive.

use vstd::prelude::*;

verus! {

use std::io::Write;
use crate::resolve::lemma_take_push;

#[verifier::external_type_specification]
#[verifier::external_body]
pub struct ExZipError(zip::result::ZipError);

/// An archive in the making, written into an in-memory buffer.
#[verifier::external_body]
pub struct ArchiveWriter {
    inner: zip::ZipWriter<std::io::Cursor<Vec<u8>>>,
}

/// The entries written to an archive so far, in order: each a name together
/// with its data bytes for a file entry, or `None` for a directory entry.
pub uninterp spec fn archive_contents(w: &ArchiveWriter) -> Seq<(Seq<char>, Option<Seq<u8>>)>;

/// The entries that the zip format's reader finds in the given archive
/// bytes, in order, with directory entries carrying no data.
pub uninterp spec fn archive_entries_of(bytes: Seq<u8>) -> Seq<(Seq<char>, Option<Seq<u8>>)>;

/// The stored names of a list of archive entries.
pub open spec fn entry_names(es: Seq<(Seq<char>, Option<Seq<u8>>)>) -> Seq<Seq<char>> {
    es.map_values(|e: (Seq<char>, Option<Seq<u8>>)| e.0)
}

/// Whether every file entry's data leaves the compressor's worst-case
/// expansion within the plain 32-bit size limit. The default compressor may
/// grow incompressible data by a few bytes per block of 65535, so data within
/// `0xFFA0_0000` bytes keeps even the compressed form under `0xFFFF_FFFF`.
pub open spec fn entries_data_fit(es: Seq<(Seq<char>, Option<Seq<u8>>)>) -> bool {
    forall|k: int|
        0 <= k < es.len() ==> ((#[trigger] es[k]).1 matches Some(d) ==> d.len() <= 0xFFA0_0000)
}

/// The name under which a directory entry is stored: the given name, with a
/// `/` appended when it does not already end in a separator.
pub open spec fn spec_dir_entry_name(name: Seq<char>) -> Seq<char> {
    if name.len() > 0 && (name.last() == '/' || name.last() == '\\') {
        name
    } else {
        name + "/"@
    }
}

/// Relies on `zip::ZipWriter::new`: a fresh writer holds no entries.
#[verifier::external_body]
fn archive_new() -> (w: ArchiveWriter)
    ensures
        archive_contents(&w) == Seq::<(Seq<char>, Option<Seq<u8>>)>::empty(),
{
    ArchiveWriter { inner: zip::ZipWriter::new(std::io::Cursor::new(Vec::new())) }
}

/// Relies on `zip::ZipWriter::start_file`: on success a file entry with the
/// given name is begun, holding no data until it is written. Writing into an
/// in-memory buffer, the call fails only on a name that repeats a stored name
/// or overruns the format's name-length limit — a name of at most 16383
/// characters fits that limit, since a character encodes to at most four of
/// its 65535 permitted bytes — or when closing the previous entry finds its
/// compressed form past the plain 32-bit size limit, which entries within
/// the data-fit bound never reach. The success clause speaks of states
/// reached through these wrappers with every earlier call succeeding, as the
/// builder below calls them.
#[verifier::external_body]
fn archive_start_file(w: &mut ArchiveWriter, name: &String) -> (r: Result<
    (),
    zip::result::ZipError,
>)
    ensures
        r is Ok ==> archive_contents(final(w)) == archive_contents(old(w)).push(
            (name@, Some(Seq::<u8>::empty())),
        ),
        !entry_names(archive_contents(old(w))).contains(name@) && name@.len() <= 16383
            && entries_data_fit(archive_contents(old(w))) ==> r is Ok,
{
    w.inner.start_file(name.as_str(), zip::write::SimpleFileOptions::default())
}

/// Relies on the `Write` implementation of `zip::ZipWriter`: written bytes
/// are appended to the file entry begun last. Writing into an in-memory
/// buffer, the call fails only when the entry's raw data crosses the plain
/// 32-bit size limit, past which the large-file option would be required;
/// the success clause keeps to the stricter data-fit bound so that closing
/// the entry later cannot fail on its compressed form either.
#[verifier::external_body]
fn archive_write_data(w: &mut ArchiveWriter, data: &Vec<u8>) -> (r: Result<
    (),
    zip::result::ZipError,
>)
    requires
        archive_contents(old(w)).len() > 0,
        archive_contents(old(w)).last().1 is Some,
    ensures
        r is Ok ==> ({
            let prev = archive_contents(old(w));
            archive_contents(final(w)) == prev.update(
                prev.len() - 1,
                (prev.last().0, Some(prev.last().1->0 + data@)),
            )
        }),
        archive_contents(old(w)).last().1->0.len() + data@.len() <= 0xFFA0_0000 ==> r is Ok,
{
    w.inner.write_all(data.as_slice()).map_err(zip::result::ZipError::from)
}

/// Relies on `zip::ZipWriter::add_directory`: on success a directory entry is
/// appended, stored under the given name with a `/` appended when it lacks a
/// trailing separator. As for a file entry, only a repeated or over-long
/// stored name fails the call, or the closing of a previous entry whose
/// compressed form overran the size limit — excluded by the data-fit bound.
#[verifier::external_body]
fn archive_add_directory(w: &mut ArchiveWriter, name: &String) -> (r: Result<
    (),
    zip::result::ZipError,
>)
    ensures
        r is Ok ==> archive_contents(final(w)) == archive_contents(old(w)).push(
            (spec_dir_entry_name(name@), None::<Seq<u8>>),
        ),
        !entry_names(archive_contents(old(w))).contains(spec_dir_entry_name(name@))
            && spec_dir_entry_name(name@).len() <= 16383 && entries_data_fit(
            archive_contents(old(w)),
        ) ==> r is Ok,
{
    w.inner.add_directory(name.as_str(), zip::write::SimpleFileOptions::default())
}

/// Relies on `zip::ZipWriter::finish`: on success the returned bytes form an
/// archive in which the zip reader finds exactly the written entries.
/// Finishing closes the last entry — failing when its compressed form
/// overran the plain 32-bit size limit, which the data-fit bound excludes —
/// and then only writes the central directory into the in-memory buffer,
/// which cannot fail.
#[verifier::external_body]
fn archive_finish(w: ArchiveWriter) -> (r: Result<Vec<u8>, zip::result::ZipError>)
    ensures
        entries_data_fit(archive_contents(&w)) ==> r is Ok,
        r matches Ok(bytes) ==> archive_entries_of(bytes@) == archive_contents(&w),
{
    w.inner.finish().map(|c| c.into_inner())
}

/// An error raised while building an archive, wrapping the archive library's
/// own error for diagnostics.
#[derive(Debug)]
pub enum ArchiveError {
    Zip(zip::result::ZipError),
}

/// One entry to put into an archive: a name with its data bytes for a file,
/// or `None` for a directory entry.
#[derive(Clone, Debug)]
pub struct PayloadEntry {
    pub name: String,
    pub data: Option<Vec<u8>>,
}

/// The archive entries that a list of payload entries owes, in order.
pub open spec fn payload_entries_model(es: Seq<PayloadEntry>) -> Seq<
    (Seq<char>, Option<Seq<u8>>),
>
    decreases es.len(),
{
    if es.len() == 0 {
        Seq::empty()
    } else {
        payload_entries_model(es.drop_last()) + (match es.last().data {
            Some(d) => seq![(es.last().name@, Some(d@))],
            None => seq![(spec_dir_entry_name(es.last().name@), None::<Seq<u8>>)],
        })
    }
}

/// An archive built from payload entries holds exactly one entry per payload
/// entry, in order: each file under its name with its bytes unchanged, each
/// directory under its name with a trailing separator and no data.
pub proof fn lemma_payload_entries_model(es: Seq<PayloadEntry>)
    ensures
        payload_entries_model(es).len() == es.len(),
        forall|k: int|
            0 <= k < es.len() ==> #[trigger] payload_entries_model(es)[k] == (match es[k].data {
                Some(d) => (es[k].name@, Some(d@)),
                None => (spec_dir_entry_name(es[k].name@), None::<Seq<u8>>),
            }),
    decreases es.len(),
{
    if es.len() > 0 {
        lemma_payload_entries_model(es.drop_last());
        assert(forall|k: int|
            0 <= k < es.len() - 1 ==> #[trigger] payload_entries_model(es)[k]
                == payload_entries_model(es.drop_last())[k]);
        assert(payload_entries_model(es)[es.len() - 1] == (match es.last().data {
            Some(d) => (es.last().name@, Some(d@)),
            None => (spec_dir_entry_name(es.last().name@), None::<Seq<u8>>),
        }));
    }
}

/// Whether the archive library accepts these entries outright: the stored
/// names are pairwise distinct, each fits the name-length limit, and each
/// file's data fits the data-fit bound, which leaves the compressed form
/// within the plain 32-bit size limit.
pub open spec fn archive_buildable(es: Seq<PayloadEntry>) -> bool {
    let stored = payload_entries_model(es);
    &&& forall|i: int, j: int|
        0 <= i < j < stored.len() ==> (#[trigger] stored[i]).0 != (#[trigger] stored[j]).0
    &&& forall|k: int| 0 <= k < stored.len() ==> (#[trigger] stored[k]).0.len() <= 16383
    &&& entries_data_fit(stored)
}

/// Under buildable entries, the stored entry at position `i` bears a fresh,
/// short name, a file's data fits the data-fit bound, and so do the entries
/// stored before it.
proof fn lemma_buildable_entry(es: Seq<PayloadEntry>, i: int)
    requires
        archive_buildable(es),
        0 <= i < es.len(),
    ensures
        payload_entries_model(es.take(i)) == payload_entries_model(es).take(i),
        !entry_names(payload_entries_model(es).take(i)).contains(
            payload_entries_model(es)[i].0,
        ),
        payload_entries_model(es)[i].0.len() <= 16383,
        payload_entries_model(es)[i] == (match es[i].data {
            Some(d) => (es[i].name@, Some(d@)),
            None => (spec_dir_entry_name(es[i].name@), None::<Seq<u8>>),
        }),
        es[i].data matches Some(d) ==> d@.len() <= 0xFFA0_0000,
        entries_data_fit(payload_entries_model(es).take(i)),
{
    lemma_payload_entries_model(es);
    lemma_payload_entries_model(es.take(i));
    assert(payload_entries_model(es.take(i)) =~= payload_entries_model(es).take(i));
    let stored = payload_entries_model(es);
    let names = entry_names(stored.take(i));
    if names.contains(stored[i].0) {
        let k = choose|k: int| 0 <= k < names.len() && names[k] == stored[i].0;
        assert(stored.take(i)[k].0 == stored[i].0);
        assert(stored[k].0 == stored[i].0);
        assert(false);
    }
    match es[i].data {
        Some(d) => {
            assert(stored[i].1 == Some(d@));
        },
        None => {},
    }
    assert(forall|k: int|
        0 <= k < i ==> (#[trigger] stored.take(i)[k]) == stored[k]);
}

/// Build one in-memory archive holding exactly the given entries, in order.
/// The archive's bytes read back as those entries, and the build succeeds
/// whenever the entries are buildable — stored names pairwise distinct and
/// within the name-length limit, file data within the data-fit bound; a
/// failure of the archive library outside those bounds aborts the build.
pub fn build_archive(entries: &Vec<PayloadEntry>) -> (r: Result<Vec<u8>, ArchiveError>)
    ensures
        r matches Ok(bytes) ==> archive_entries_of(bytes@) == payload_entries_model(entries@),
        archive_buildable(entries@) ==> r is Ok,
{
    let mut w = archive_new();
    let mut i: usize = 0;
    while i < entries.len()
        invariant
            i <= entries.len(),
            archive_contents(&w) == payload_entries_model(entries@.take(i as int)),
        decreases entries.len() - i,
    {
        proof {
            lemma_take_push(entries@, i as int);
            assert(entries@.take(i as int).push(entries@[i as int]).drop_last() =~= entries@.take(
                i as int,
            ));
            if archive_buildable(entries@) {
                lemma_buildable_entry(entries@, i as int);
            }
        }
        let ghost pre = archive_contents(&w);
        let e = &entries[i];
        match &e.data {
            Some(d) => {
                match archive_start_file(&mut w, &e.name) {
                    Ok(_) => {},
                    Err(err) => {
                        proof {
                            assert(!archive_buildable(entries@));
                        }
                        return Err(ArchiveError::Zip(err));
                    },
                }
                let ghost mid = archive_contents(&w);
                match archive_write_data(&mut w, d) {
                    Ok(_) => {},
                    Err(err) => {
                        proof {
                            assert(mid.last().1->0.len() == 0);
                            assert(!archive_buildable(entries@));
                        }
                        return Err(ArchiveError::Zip(err));
                    },
                }
                proof {
                    assert(Seq::<u8>::empty() + d@ =~= d@);
                    assert(archive_contents(&w) =~= payload_entries_model(
                        entries@.take(i as int + 1),
                    ));
                }
            },
            None => {
                match archive_add_directory(&mut w, &e.name) {
                    Ok(_) => {},
                    Err(err) => {
                        proof {
                            assert(!archive_buildable(entries@));
                        }
                        return Err(ArchiveError::Zip(err));
                    },
                }
            },
        }
        i += 1;
    }
    proof {
        assert(entries@.take(entries@.len() as int) =~= entries@);
    }
    match archive_finish(w) {
        Ok(bytes) => Ok(bytes),
        Err(err) => {
            proof {
                if archive_buildable(entries@) {
                    assert(entries_data_fit(payload_entries_model(entries@)));
                    assert(false);
                }
            }
            Err(ArchiveError::Zip(err))
        },
    }
}

} // verus!
