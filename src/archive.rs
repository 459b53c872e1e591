//! Entries of a zip archive held in memory, read through the `zip` crate.
use std::io::Cursor;
use std::io::Read;
use crate::paths::str_equal;
use crate::source::ProbeFailure;
use vstd::prelude::*;
use zip::result::ZipError;
use zip::ZipArchive;

verus! {

#[verifier::external_type_specification]
#[verifier::external_body]
#[verifier::reject_recursive_types(T)]
pub struct ExCursor<T>(Cursor<T>);

#[verifier::external_type_specification]
#[verifier::external_body]
#[verifier::reject_recursive_types(R)]
pub struct ExZipArchive<R>(ZipArchive<R>);

#[verifier::external_type_specification]
#[verifier::external_body]
pub struct ExZipError(ZipError);

/// An archive read from bytes held in memory.
pub type MemArchive = ZipArchive<Cursor<Vec<u8>>>;

/// What is known of one entry: its stored name; whether its local header can be
/// reached, so that the entry can be opened; and its whole content as read
/// without a password, where that read succeeds.
pub type EntryModel = (Seq<char>, bool, Option<Seq<u8>>);

/// The entries of an archive in the order of its central directory.
pub uninterp spec fn zip_entries(z: MemArchive) -> Seq<EntryModel>;

/// The entries that the archive written in `bytes` holds (see `zip_entries`), or
/// `None` where the bytes are no archive that can be opened.
pub uninterp spec fn archive_of(bytes: Seq<u8>) -> Option<Seq<EntryModel>>;

/// Relies on `ZipArchive::new`, which reads the central directory of the bytes:
/// whether it opens, and what it then holds, depends on the bytes alone.
#[verifier::external_body]
fn open_archive(bytes: Vec<u8>) -> (r: Result<MemArchive, ZipError>)
    ensures
        r matches Ok(z) ==> archive_of(bytes@) == Some(zip_entries(z)),
        r is Err ==> archive_of(bytes@) is None,
{
    ZipArchive::new(Cursor::new(bytes))
}

/// Relies on `ZipArchive::len`: the number of entries of the central directory.
#[verifier::external_body]
fn entry_count(z: &MemArchive) -> (r: usize)
    ensures
        r == zip_entries(*z).len(),
{
    z.len()
}

/// Relies on `ZipArchive::by_index_raw` and `ZipFile::name`: the stored name of
/// the entry at `i`, where its local header can be reached; nothing is
/// decompressed or decrypted, and the entries are left as they were.
#[verifier::external_body]
fn entry_name(z: &mut MemArchive, i: usize) -> (r: Result<String, ZipError>)
    requires
        i < zip_entries(*old(z)).len(),
    ensures
        zip_entries(*final(z)) == zip_entries(*old(z)),
        r is Ok <==> zip_entries(*old(z))[i as int].1,
        r matches Ok(name) ==> name@ == zip_entries(*old(z))[i as int].0,
{
    z.by_index_raw(i).map(|f| f.name().to_string())
}

/// Relies on `ZipArchive::by_index_decrypt` with an empty password, which never
/// unwraps a password check (an entry that needs a password is refused, or read
/// with the empty one), and on the `Read` impl of `ZipFile`, which decompresses
/// and checks the CRC: the whole content of the entry at `i`, where that read
/// succeeds; the entries are left as they were.
#[verifier::external_body]
fn entry_data(z: &mut MemArchive, i: usize) -> (r: Option<Vec<u8>>)
    requires
        i < zip_entries(*old(z)).len(),
    ensures
        zip_entries(*final(z)) == zip_entries(*old(z)),
        r is Some <==> zip_entries(*old(z))[i as int].2 is Some,
        r matches Some(data) ==> zip_entries(*old(z))[i as int].2 == Some(data@),
{
    match z.by_index_decrypt(i, b"") {
        Ok(Ok(mut file)) => {
            let mut data = Vec::new();
            file.read_to_end(&mut data).ok().map(|_| data)
        },
        Ok(Err(_)) => None,
        Err(_) => None,
    }
}

/// Whether the entry at `i` is the first one stored under `name`.
pub open spec fn is_first_named(entries: Seq<EntryModel>, name: Seq<char>, i: int) -> bool {
    &&& 0 <= i < entries.len()
    &&& entries[i].0 == name
    &&& forall|j: int| 0 <= j < i ==> entries[j].0 != name
}

/// What looking `name` up among the entries from `k` on gives: entries are
/// opened in order; one that cannot be opened makes the lookup fail as
/// unreadable; the first one stored under `name` gives its content, or fails as
/// unreadable where it cannot be read; where no entry has the name, not found.
pub open spec fn scan(entries: Seq<EntryModel>, name: Seq<char>, k: int) -> Result<
    Seq<u8>,
    ProbeFailure,
>
    decreases entries.len() - k,
{
    if k < 0 || k >= entries.len() {
        Err(ProbeFailure::NotFound)
    } else if !entries[k].1 {
        Err(ProbeFailure::Unreadable)
    } else if entries[k].0 == name {
        match entries[k].2 {
            Some(d) => Ok(d),
            None => Err(ProbeFailure::Unreadable),
        }
    } else {
        scan(entries, name, k + 1)
    }
}

/// The outcome with its bytes seen as a sequence.
pub open spec fn outcome_view(r: Result<Vec<u8>, ProbeFailure>) -> Result<Seq<u8>, ProbeFailure> {
    match r {
        Ok(d) => Ok(d@),
        Err(e) => Err(e),
    }
}

/// Where the entries up to the first one stored under `name` can all be opened
/// and that one can be read, the lookup gives its whole content.
pub proof fn lemma_scan_finds_first_named(entries: Seq<EntryModel>, name: Seq<char>, i: int)
    requires
        is_first_named(entries, name, i),
        forall|j: int| 0 <= j <= i ==> entries[j].1,
        entries[i].2 is Some,
    ensures
        scan(entries, name, 0) == Ok::<Seq<u8>, ProbeFailure>(entries[i].2->Some_0),
{
    lemma_scan_from(entries, name, 0, i);
}

/// Looking up from `k` gives what looking up from `i` does, where the entries
/// in between can be opened and none of them has the name.
proof fn lemma_scan_from(entries: Seq<EntryModel>, name: Seq<char>, k: int, i: int)
    requires
        0 <= k <= i <= entries.len(),
        forall|j: int| k <= j < i ==> entries[j].1 && entries[j].0 != name,
    ensures
        scan(entries, name, k) == scan(entries, name, i),
    decreases i - k,
{
    if k < i {
        lemma_scan_from(entries, name, k + 1, i);
    }
}

/// Where every entry can be opened and none is stored under `name`, the lookup
/// fails as not found.
pub proof fn lemma_scan_absent_not_found(entries: Seq<EntryModel>, name: Seq<char>)
    requires
        forall|j: int| 0 <= j < entries.len() ==> entries[j].1 && entries[j].0 != name,
    ensures
        scan(entries, name, 0) == Err::<Seq<u8>, ProbeFailure>(ProbeFailure::NotFound),
{
    lemma_scan_from(entries, name, 0, entries.len() as int);
}

/// Looks the entries of `z` through in order and returns the content of the first
/// one stored under `name` (see `scan`).
pub fn find_entry(z: &mut MemArchive, name: &str) -> (r: Result<Vec<u8>, ProbeFailure>)
    ensures
        zip_entries(*final(z)) == zip_entries(*old(z)),
        outcome_view(r) == scan(zip_entries(*old(z)), name@, 0),
{
    let ghost entries = zip_entries(*z);
    let n = entry_count(z);
    let mut i: usize = 0;
    while i < n
        invariant
            n == entries.len(),
            entries == zip_entries(*old(z)),
            i <= n,
            zip_entries(*z) == entries,
            scan(entries, name@, 0) == scan(entries, name@, i as int),
        decreases n - i,
    {
        match entry_name(z, i) {
            Ok(stored) => {
                if str_equal(stored.as_str(), name) {
                    return match entry_data(z, i) {
                        Some(d) => Ok(d),
                        None => Err(ProbeFailure::Unreadable),
                    };
                }
                proof {
                    lemma_scan_from(entries, name@, i as int, i + 1);
                }
            },
            Err(_) => {
                return Err(ProbeFailure::Unreadable);
            },
        }
        i = i + 1;
    }
    Err(ProbeFailure::NotFound)
}

/// Opens the archive written in `bytes` and returns the content of its first
/// entry stored under `name` (see `scan`); bytes that are no archive give
/// `Unreadable`.
pub fn read_archive_entry(bytes: Vec<u8>, name: &str) -> (r: Result<Vec<u8>, ProbeFailure>)
    ensures
        archive_of(bytes@) is None ==> r == Err::<Vec<u8>, ProbeFailure>(ProbeFailure::Unreadable),
        archive_of(bytes@) is Some ==> outcome_view(r) == scan(archive_of(bytes@)->Some_0, name@, 0),
{
    match open_archive(bytes) {
        Ok(z) => {
            let mut z = z;
            find_entry(&mut z, name)
        },
        Err(_) => Err(ProbeFailure::Unreadable),
    }
}

} // verus!
