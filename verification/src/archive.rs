//! Zip archives in memory: listing, reading and writing entries.
use crate::error::{Error, ErrorView, Result};
use crate::text;
use std::io::{Cursor, Read, Write};
use vstd::prelude::*;
use vstd::utf8::encode_utf8;

verus! {

/// A reader and writer over bytes in memory.
#[verifier::external_type_specification]
#[verifier::external_body]
#[verifier::reject_recursive_types(T)]
pub struct ExCursor<T>(std::io::Cursor<T>);

/// An archive that is being read.
#[verifier::external_type_specification]
#[verifier::external_body]
#[verifier::reject_recursive_types(R)]
pub struct ExZipArchive<R>(zip::read::ZipArchive<R>);

/// An archive that grows in memory: a `zip::write::ZipWriter` over a buffer.
#[verifier::external_body]
pub struct PackageWriter {
    inner: zip::write::ZipWriter<std::io::Cursor<Vec<u8>>>,
}

/// An archive over bytes in memory.
pub type Package = zip::read::ZipArchive<std::io::Cursor<Vec<u8>>>;

/// The names of an archive's entries in order, or why the bytes are no archive.
pub type Listing = core::result::Result<Seq<Seq<char>>, Seq<char>>;

/// What an entry holds, or why it cannot be read.
pub type Contents = core::result::Result<Seq<u8>, Seq<char>>;

/// A name and what is stored under it.
pub type Entry = (Seq<char>, Seq<u8>);

/// The bytes that an archive was opened over.
pub uninterp spec fn archive_bytes(a: Package) -> Seq<u8>;

/// What `ZipArchive::new` finds in the central directory of `data`.
pub uninterp spec fn zip_listing(data: Seq<u8>) -> Listing;

/// Whether `ZipArchive::by_index_decrypt` refuses the empty password for entry `i` of `data`.
pub uninterp spec fn zip_locked(data: Seq<u8>, i: int) -> bool;

/// Why `ZipArchive::by_index` cannot open entry `i` of `data`, where it cannot.
pub uninterp spec fn zip_fault(data: Seq<u8>, i: int) -> Option<Seq<char>>;

/// What reading entry `i` of `data` to its end gives.
pub uninterp spec fn zip_contents(data: Seq<u8>, i: int) -> Contents;

/// The entries of `data`; none where it is no archive.
pub open spec fn names_in(data: Seq<u8>) -> Seq<Seq<char>> {
    match zip_listing(data) {
        Ok(names) => names,
        Err(m) => Seq::empty(),
    }
}

/// The last position at which `n` stands in `names`.
pub open spec fn last_index(names: Seq<Seq<char>>, n: Seq<char>) -> Option<int>
    decreases names.len(),
{
    if names.len() == 0 {
        None
    } else if names.last() == n {
        Some(names.len() - 1)
    } else {
        last_index(names.drop_last(), n)
    }
}

/// The mathematical value of what was read.
pub open spec fn contents_view(r: core::result::Result<Vec<u8>, String>) -> Contents {
    match r {
        Ok(v) => Ok(v@),
        Err(m) => Err(m@),
    }
}

/// Why a named entry could not be read.
pub enum NamedFault {
    /// It could not be opened.
    Open(String),
    /// It was opened, and reading it failed.
    Read(String),
}

/// The mathematical value of a `NamedFault`.
pub enum NamedFaultView {
    Open(Seq<char>),
    Read(Seq<char>),
}

impl View for NamedFault {
    type V = NamedFaultView;

    open spec fn view(&self) -> NamedFaultView {
        match self {
            NamedFault::Open(m) => NamedFaultView::Open(m@),
            NamedFault::Read(m) => NamedFaultView::Read(m@),
        }
    }
}

/// What a named entry holds, or why it could not be read.
pub type NamedContents = core::result::Result<Seq<u8>, NamedFaultView>;

/// The mathematical value of what was read of a named entry.
pub open spec fn named_view(r: core::result::Result<Vec<u8>, NamedFault>) -> NamedContents {
    match r {
        Ok(v) => Ok(v@),
        Err(f) => Err(f@),
    }
}

/// What reading entry `i` of `data` by its name gives.
pub open spec fn named_contents(data: Seq<u8>, i: int) -> NamedContents {
    match zip_fault(data, i) {
        Some(m) => Err(NamedFaultView::Open(m)),
        None => match zip_contents(data, i) {
            Ok(v) => Ok(v),
            Err(m) => Err(NamedFaultView::Read(m)),
        },
    }
}

/// Whether `data` is the archive that was opened, or why it is none.
pub open spec fn opened(r: core::result::Result<Package, String>, data: Seq<u8>) -> bool {
    match r {
        Ok(a) => archive_bytes(a) == data && zip_listing(data) is Ok,
        Err(m) => match zip_listing(data) {
            Ok(names) => false,
            Err(e) => e == m@,
        },
    }
}

/// `zip::read::ZipArchive::new`: the archive in `data`, or why there is none.
#[verifier::external_body]
fn open_raw(data: &Vec<u8>) -> (r: core::result::Result<Package, String>)
    ensures
        r matches Ok(a) ==> archive_bytes(a) == data@ && zip_listing(data@) is Ok,
        r matches Err(m) ==> zip_listing(data@) == Listing::Err(m@),
{
    zip::read::ZipArchive::new(Cursor::new(data.clone())).map_err(|e| e.to_string())
}

/// `zip::read::ZipArchive::len`: the number of entries.
#[verifier::external_body]
fn count(a: &Package) -> (n: usize)
    ensures
        n == names_in(archive_bytes(*a)).len(),
{
    a.len()
}

/// `zip::read::ZipArchive::by_index_decrypt` with an empty password: whether it says that the
/// password is wrong. It does so for an entry that is marked as encrypted by AES but not as
/// encrypted, the one case in which opening an entry without a password does not return.
#[verifier::external_body]
fn locked(a: &mut Package, i: usize) -> (r: bool)
    ensures
        archive_bytes(*final(a)) == archive_bytes(*old(a)),
        r == zip_locked(archive_bytes(*old(a)), i as int),
{
    matches!(a.by_index_decrypt(i, &[]), Ok(Err(_)))
}

/// The name of an entry, or why the entry cannot be opened.
pub type NameOutcome = core::result::Result<Seq<char>, Seq<char>>;

/// The mathematical value of a name that was asked for.
pub open spec fn name_view(r: core::result::Result<String, String>) -> NameOutcome {
    match r {
        Ok(n) => Ok(n@),
        Err(m) => Err(m@),
    }
}

/// `zip::read::ZipArchive::by_index` and `ZipFile::name`: the name of entry `i`, as the central
/// directory gives it, or why the entry cannot be opened.
#[verifier::external_body]
fn name_at(a: &mut Package, i: usize) -> (r: core::result::Result<String, String>)
    requires
        i < names_in(archive_bytes(*old(a))).len(),
        !zip_locked(archive_bytes(*old(a)), i as int),
    ensures
        archive_bytes(*final(a)) == archive_bytes(*old(a)),
        r matches Ok(n) ==> zip_fault(archive_bytes(*old(a)), i as int) is None && n@ == names_in(
            archive_bytes(*old(a)),
        )[i as int],
        r matches Err(m) ==> zip_fault(archive_bytes(*old(a)), i as int) == Some(m@),
{
    a.by_index(i).map(|e| e.name().to_string()).map_err(|e| e.to_string())
}

/// `zip::read::ZipArchive::by_index` and `Read::read_to_end` of an entry that can be opened.
#[verifier::external_body]
fn contents_at(a: &mut Package, i: usize) -> (r: core::result::Result<Vec<u8>, String>)
    requires
        i < names_in(archive_bytes(*old(a))).len(),
        !zip_locked(archive_bytes(*old(a)), i as int),
        zip_fault(archive_bytes(*old(a)), i as int) is None,
    ensures
        archive_bytes(*final(a)) == archive_bytes(*old(a)),
        contents_view(r) == zip_contents(archive_bytes(*old(a)), i as int),
{
    let mut entry = a.by_index(i).map_err(|e| e.to_string())?;
    let mut buf = Vec::new();
    entry.read_to_end(&mut buf).map(|_| buf).map_err(|e| e.to_string())
}

/// `zip::read::ZipArchive::by_name` and `Read::read_to_end`. Of several entries with the name
/// it is the last that is read.
#[verifier::external_body]
fn contents_named(a: &mut Package, name: &str) -> (r: core::result::Result<Vec<u8>, NamedFault>)
    requires
        last_index(names_in(archive_bytes(*old(a))), name@) is Some,
        !zip_locked(
            archive_bytes(*old(a)),
            last_index(names_in(archive_bytes(*old(a))), name@)->0,
        ),
    ensures
        archive_bytes(*final(a)) == archive_bytes(*old(a)),
        named_view(r) == named_contents(
            archive_bytes(*old(a)),
            last_index(names_in(archive_bytes(*old(a))), name@)->0,
        ),
{
    let mut entry = a.by_name(name).map_err(|e| NamedFault::Open(e.to_string()))?;
    let mut buf = Vec::new();
    entry.read_to_end(&mut buf).map(|_| buf).map_err(|e| NamedFault::Read(e.to_string()))
}

/// The characters of each of `v`.
pub open spec fn strings(v: Seq<String>) -> Seq<Seq<char>> {
    v.map_values(|s: String| s@)
}

/// Opens the archive in `data`.
pub fn open(data: &Vec<u8>) -> (r: core::result::Result<Package, String>)
    ensures
        opened(r, data@),
{
    open_raw(data)
}

/// Why entry `i` of `data` cannot be opened without a password, where it cannot.
pub open spec fn entry_fault(data: Seq<u8>, i: int) -> Option<Seq<char>> {
    if zip_locked(data, i) {
        Some("unsupported Zip archive: Password required to decrypt file"@)
    } else {
        zip_fault(data, i)
    }
}

/// The number of entries.
pub fn len(a: &Package) -> (n: usize)
    ensures
        n == names_in(archive_bytes(*a)).len(),
{
    count(a)
}

/// What asking for the name of entry `i` gives.
pub open spec fn entry_name(data: Seq<u8>, i: int) -> NameOutcome {
    match entry_fault(data, i) {
        Some(m) => Err(m),
        None => Ok(names_in(data)[i]),
    }
}

/// The name of entry `i`, or why the entry cannot be opened.
pub fn name_of(a: &mut Package, i: usize) -> (r: core::result::Result<String, String>)
    requires
        i < names_in(archive_bytes(*old(a))).len(),
    ensures
        archive_bytes(*final(a)) == archive_bytes(*old(a)),
        name_view(r) == entry_name(archive_bytes(*old(a)), i as int),
{
    if locked(a, i) {
        Err("unsupported Zip archive: Password required to decrypt file".to_owned())
    } else {
        name_at(a, i)
    }
}

/// What entry `i` holds; the entry can be opened.
pub fn contents_of(a: &mut Package, i: usize) -> (r: core::result::Result<Vec<u8>, String>)
    requires
        i < names_in(archive_bytes(*old(a))).len(),
        entry_fault(archive_bytes(*old(a)), i as int) is None,
    ensures
        archive_bytes(*final(a)) == archive_bytes(*old(a)),
        contents_view(r) == zip_contents(archive_bytes(*old(a)), i as int),
{
    contents_at(a, i)
}

/// The first of the entries from `k` on that cannot be opened: why not.
pub open spec fn first_fault(data: Seq<u8>, k: int) -> Option<Seq<char>>
    decreases names_in(data).len() - k,
{
    if k < 0 || k >= names_in(data).len() {
        None
    } else {
        match entry_fault(data, k) {
            Some(m) => Some(m),
            None => first_fault(data, k + 1),
        }
    }
}

/// Whether `r` holds the names of all entries, or says why the first that cannot be opened cannot.
pub open spec fn names_outcome(
    r: core::result::Result<Vec<String>, String>,
    data: Seq<u8>,
) -> bool {
    match r {
        Ok(v) => strings(v@) == names_in(data) && first_fault(data, 0) is None,
        Err(m) => first_fault(data, 0) == Some(m@),
    }
}

/// The names of all entries, in order. Every entry is opened for it.
pub fn names(a: &mut Package) -> (r: core::result::Result<Vec<String>, String>)
    ensures
        archive_bytes(*final(a)) == archive_bytes(*old(a)),
        names_outcome(r, archive_bytes(*old(a))),
{
    let ghost data = archive_bytes(*a);
    let n: usize = count(a);
    let mut out: Vec<String> = Vec::new();
    let mut i: usize = 0;
    assert(strings(out@) =~= names_in(data).take(0));
    while i < n
        invariant
            i <= n == names_in(data).len(),
            archive_bytes(*a) == data,
            archive_bytes(*old(a)) == data,
            strings(out@) == names_in(data).take(i as int),
            first_fault(data, 0) == first_fault(data, i as int),
        decreases n - i,
    {
        match name_of(a, i) {
            Ok(name) => {
                let ghost before = strings(out@);
                out.push(name);
                assert(strings(out@) =~= before.push(name@));
                assert(names_in(data).take(i + 1) =~= names_in(data).take(i as int).push(
                    names_in(data)[i as int],
                ));
            },
            Err(m) => {
                return Err(m);
            },
        }
        i = i + 1;
    }
    assert(names_in(data).take(n as int) =~= names_in(data));
    Ok(out)
}

/// What reading the last entry with the name `n` gives: `open n` or `read n` introduces why not.
pub open spec fn named_result(data: Seq<u8>, n: Seq<char>) -> core::result::Result<
    Seq<u8>,
    ErrorView,
> {
    match last_index(names_in(data), n) {
        None => Err(
            ErrorView::Template("open "@ + n + ": "@ + "specified file not found in archive"@),
        ),
        Some(i) => match entry_fault(data, i) {
            Some(m) => Err(ErrorView::Template("open "@ + n + ": "@ + m)),
            None => match zip_contents(data, i) {
                Ok(v) => Ok(v),
                Err(m) => Err(ErrorView::Template("read "@ + n + ": "@ + m)),
            },
        },
    }
}

/// The mathematical value of bytes that were asked for.
pub open spec fn bytes_view(r: Result<Vec<u8>>) -> core::result::Result<Seq<u8>, ErrorView> {
    match r {
        Ok(v) => Ok(v@),
        Err(e) => Err(e@),
    }
}

/// What `last_index` gives back is the last occurrence.
pub proof fn lemma_last_index(names: Seq<Seq<char>>, n: Seq<char>)
    ensures
        last_index(names, n) matches Some(i) ==> 0 <= i < names.len() && names[i] == n && (forall|
            j: int,
        |
            i < j < names.len() ==> names[j] != n),
        last_index(names, n) is None ==> (forall|j: int| 0 <= j < names.len() ==> names[j] != n),
    decreases names.len(),
{
    if names.len() > 0 && names.last() != n {
        lemma_last_index(names.drop_last(), n);
        assert forall|j: int| 0 <= j < names.len() - 1 implies names.drop_last()[j] == names[j] by {
        }
        if last_index(names, n) is None {
            assert forall|j: int| 0 <= j < names.len() implies names[j] != n by {
                if j < names.len() - 1 {
                    assert(names.drop_last()[j] != n);
                }
            }
        } else {
            let i = last_index(names, n)->0;
            assert forall|j: int| i < j < names.len() implies names[j] != n by {
                if j < names.len() - 1 {
                    assert(names.drop_last()[j] != n);
                }
            }
        }
    }
}

/// Reads the entry `name`, whose place among `all` the names of the archive is looked up first.
pub fn read_zip_entry(a: &mut Package, all: &Vec<String>, name: &str) -> (r: Result<Vec<u8>>)
    requires
        strings(all@) == names_in(archive_bytes(*old(a))),
    ensures
        archive_bytes(*final(a)) == archive_bytes(*old(a)),
        bytes_view(r) == named_result(archive_bytes(*old(a)), name@),
{
    let ghost data = archive_bytes(*a);
    let ghost listed = names_in(data);
    let mut i: usize = all.len();
    assert(listed.take(i as int) =~= listed);
    while i > 0
        invariant
            i <= all@.len(),
            strings(all@) == listed,
            archive_bytes(*a) == data,
            archive_bytes(*old(a)) == data,
            listed == names_in(data),
            last_index(listed, name@) == last_index(listed.take(i as int), name@),
        decreases i,
    {
        assert(listed.take(i as int).last() == listed[i - 1]);
        assert(listed[i - 1] == strings(all@)[i - 1]);
        if text::same(&all[i - 1], name) {
            if locked(a, i - 1) {
                return Err(
                    Error::Template(
                        text::cat4(
                            "open ",
                            name,
                            ": ",
                            "unsupported Zip archive: Password required to decrypt file",
                        ),
                    ),
                );
            }
            return match contents_named(a, name) {
                Ok(v) => Ok(v),
                Err(NamedFault::Open(m)) => Err(
                    Error::Template(text::cat4("open ", name, ": ", &m)),
                ),
                Err(NamedFault::Read(m)) => Err(
                    Error::Template(text::cat4("read ", name, ": ", &m)),
                ),
            };
        }
        assert(listed.take(i as int).drop_last() =~= listed.take(i - 1));
        i = i - 1;
    }
    Err(Error::Template(text::cat4("open ", name, ": ", "specified file not found in archive")))
}

// ---------------------------------------------------------------------------
// Writing
// ---------------------------------------------------------------------------

/// The entries that have been put into an archive.
pub uninterp spec fn writer_entries(w: PackageWriter) -> Seq<Entry>;

/// The bytes that `ZipWriter::finish` leaves behind for these entries, each stored as it is.
pub uninterp spec fn zip_packed(entries: Seq<Entry>) -> Seq<u8>;

/// How many bytes the entries take at most: headers, names in UTF-8 and data.
pub open spec fn packed_size(entries: Seq<Entry>) -> nat
    decreases entries.len(),
{
    if entries.len() == 0 {
        0
    } else {
        packed_size(entries.drop_last()) + 76 + 8 * entries.last().0.len()
            + entries.last().1.len()
    }
}

/// A name of moderate length without control characters.
pub open spec fn plain_name(n: Seq<char>) -> bool {
    n.len() < 0x4000 && (forall|i: int| 0 <= i < n.len() ==> #[trigger] n[i] >= ' ')
}

/// Entries that need none of the extensions for large archives: fewer than 65535, with plain
/// names, and so few bytes that sizes and offsets stay within 32 bits.
pub open spec fn room(entries: Seq<Entry>) -> bool {
    &&& entries.len() < 0xffff
    &&& packed_size(entries) < 0xffff_ffff
    &&& forall|i: int| 0 <= i < entries.len() ==> plain_name(#[trigger] entries[i].0)
}

/// Where the entry behind these begins: each takes a header of thirty bytes, its name in UTF-8 and
/// its data.
pub open spec fn entry_offset(entries: Seq<Entry>) -> nat
    decreases entries.len(),
{
    if entries.len() == 0 {
        0
    } else {
        entry_offset(entries.drop_last()) + 30 + encode_utf8(entries.last().0).len()
            + entries.last().1.len()
    }
}

/// Whether the directory of an archive looks as if the mark of a large archive stood in front of
/// its end: a reader looks for it twenty bytes ahead, which is where the offset of the last entry
/// stands when the name of that entry is sixteen bytes long.
pub open spec fn misleading(entries: Seq<Entry>) -> bool {
    entries.len() > 0 && encode_utf8(entries.last().0).len() == 16 && entry_offset(
        entries.drop_last(),
    ) == 0x0706_4b50
}

/// Whether `data` is an archive of exactly these entries, all of which can be read.
pub open spec fn holds(data: Seq<u8>, entries: Seq<Entry>) -> bool {
    &&& zip_listing(data) == Listing::Ok(entries.map_values(|e: Entry| e.0))
    &&& forall|i: int|
        #![trigger entries[i]]
        0 <= i < entries.len() ==> !zip_locked(data, i) && zip_fault(data, i) is None
            && zip_contents(data, i) == Contents::Ok(entries[i].1)
}

/// `zip::write::ZipWriter::new` over an empty buffer.
#[verifier::external_body]
pub(crate) fn writer() -> (w: PackageWriter)
    ensures
        writer_entries(w) == Seq::<Entry>::empty(),
{
    PackageWriter { inner: zip::write::ZipWriter::new(Cursor::new(Vec::new())) }
}

/// `zip::write::ZipWriter::start_file` with stored data: an empty entry is appended. It succeeds
/// as long as there is room; what is left behind when it fails is not said.
#[verifier::external_body]
pub(crate) fn start(w: &mut PackageWriter, name: &str) -> (r: core::result::Result<(), String>)
    ensures
        r is Ok ==> writer_entries(*final(w)) == writer_entries(*old(w)).push(
            (name@, Seq::<u8>::empty()),
        ),
        room(writer_entries(*old(w))) ==> r is Ok,
{
    let stored = zip::write::FileOptions::default().compression_method(
        zip::CompressionMethod::Stored,
    );
    w.inner.start_file(name, stored).map_err(|e| e.to_string())
}

/// The entries after `data` has been appended to the last of them.
pub open spec fn appended(entries: Seq<Entry>, data: Seq<u8>) -> Seq<Entry> {
    entries.drop_last().push((entries.last().0, entries.last().1 + data))
}

/// `Write::write_all` on a `zip::write::ZipWriter`: `data` is appended to the entry that was
/// started last. It succeeds as long as there is room.
#[verifier::external_body]
pub(crate) fn write(w: &mut PackageWriter, data: &Vec<u8>) -> (r: core::result::Result<(), String>)
    requires
        writer_entries(*old(w)).len() > 0,
    ensures
        r is Ok ==> writer_entries(*final(w)) == appended(writer_entries(*old(w)), data@),
        room(appended(writer_entries(*old(w)), data@)) ==> r is Ok,
{
    w.inner.write_all(data).map_err(|e| e.to_string())
}

/// `zip::write::ZipWriter::finish`: the bytes of the archive. Where there is room it succeeds, and
/// reading the bytes gives the entries back, unless they are misleading.
#[verifier::external_body]
pub(crate) fn finish(w: PackageWriter) -> (r: core::result::Result<Vec<u8>, String>)
    ensures
        r matches Ok(v) ==> v@ == zip_packed(writer_entries(w)),
        room(writer_entries(w)) ==> r is Ok,
        r matches Ok(v) ==> (room(writer_entries(w)) && !misleading(writer_entries(w)) ==> holds(
            v@,
            writer_entries(w),
        )),
{
    let mut w = w;
    w.inner.finish().map(|c| c.into_inner()).map_err(|e| e.to_string())
}

// ---------------------------------------------------------------------------
// Laws
// ---------------------------------------------------------------------------

/// A name is looked up at its last place, and not found only where it has none.
pub proof fn law_last_place(names: Seq<Seq<char>>, n: Seq<char>, i: int)
    ensures
        0 <= i < names.len() && names[i] == n && (forall|j: int|
            i < j < names.len() ==> names[j] != n) ==> last_index(names, n) == Some(i),
        last_index(names, n) is None <==> forall|j: int| 0 <= j < names.len() ==> names[j] != n,
{
    lemma_last_index(names, n);
}

/// What a name gives is what its last entry holds. Why it gives nothing is said with the name:
/// whether it could not be opened, for want of an entry too, or not be read.
pub proof fn law_named(data: Seq<u8>, n: Seq<char>, i: int)
    requires
        0 <= i < names_in(data).len(),
        names_in(data)[i] == n,
        forall|j: int| i < j < names_in(data).len() ==> names_in(data)[j] != n,
    ensures
        zip_locked(data, i) ==> named_result(data, n) == core::result::Result::<
            Seq<u8>,
            ErrorView,
        >::Err(
            ErrorView::Template(
                "open "@ + n + ": "@ + "unsupported Zip archive: Password required to decrypt file"@,
            ),
        ),
        !zip_locked(data, i) && zip_fault(data, i) is Some ==> named_result(data, n)
            == core::result::Result::<Seq<u8>, ErrorView>::Err(
            ErrorView::Template("open "@ + n + ": "@ + zip_fault(data, i)->0),
        ),
        !zip_locked(data, i) && zip_fault(data, i) is None ==> match zip_contents(data, i) {
            Ok(v) => named_result(data, n) == core::result::Result::<Seq<u8>, ErrorView>::Ok(v),
            Err(m) => named_result(data, n) == core::result::Result::<Seq<u8>, ErrorView>::Err(
                ErrorView::Template("read "@ + n + ": "@ + m),
            ),
        },
{
    law_last_place(names_in(data), n, i);
}

/// A name that no entry has is not found.
pub proof fn law_not_there(data: Seq<u8>, n: Seq<char>)
    requires
        forall|j: int| 0 <= j < names_in(data).len() ==> names_in(data)[j] != n,
    ensures
        named_result(data, n) == core::result::Result::<Seq<u8>, ErrorView>::Err(
            ErrorView::Template("open "@ + n + ": "@ + "specified file not found in archive"@),
        ),
{
    law_last_place(names_in(data), n, 0);
}

/// All entries can be opened exactly where none is locked and none is broken; else the first that
/// cannot is named.
pub proof fn law_first_fault(data: Seq<u8>, k: int, i: int)
    requires
        0 <= k,
    ensures
        first_fault(data, k) is None <==> forall|j: int|
            k <= j < names_in(data).len() ==> !zip_locked(data, j) && #[trigger] zip_fault(data, j)
                is None,
        k <= i < names_in(data).len() && (zip_locked(data, i) || zip_fault(data, i) is Some) && (
        forall|j: int|
            k <= j < i ==> !zip_locked(data, j) && #[trigger] zip_fault(data, j) is None)
            ==> first_fault(data, k) == if zip_locked(data, i) {
            Some("unsupported Zip archive: Password required to decrypt file"@)
        } else {
            zip_fault(data, i)
        },
    decreases names_in(data).len() - k,
{
    if k < names_in(data).len() {
        law_first_fault(data, k + 1, i);
        assert(zip_fault(data, k) == zip_fault(data, k));
        if first_fault(data, k) is None {
            assert forall|j: int| k <= j < names_in(data).len() implies !zip_locked(data, j)
                && #[trigger] zip_fault(data, j) is None by {
            }
        }
    }
}

/// Names are those of the directory, in order, and there are none in what is no archive.
pub proof fn law_names(data: Seq<u8>, v: Seq<String>, i: int)
    requires
        0 <= i < v.len(),
    ensures
        zip_listing(data) matches Ok(names) ==> names_in(data) == names,
        zip_listing(data) is Err ==> names_in(data).len() == 0,
        strings(v).len() == v.len(),
        strings(v)[i] == v[i]@,
{
}

} // verus!
