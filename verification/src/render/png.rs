//! Replacing a picture inside a package without touching what refers to it.
use crate::archive;
use crate::archive::Entry;
use crate::error::{Error, ErrorView, Result};
use crate::text;
use vstd::prelude::*;

verus! {

/// What is put into the new package, and what stopped the copying, where something did.
pub struct Copied {
    pub entries: Seq<Entry>,
    pub fault: Option<Seq<char>>,
}

/// The path of a picture.
pub open spec fn media_path(file: Seq<char>) -> Seq<char> {
    "xl/media/"@ + file
}

/// The first `n` entries of `data` copied, those called `path` with `picture` in place of what
/// they held. Copying stops at the first entry that cannot be read.
pub open spec fn copied(data: Seq<u8>, path: Seq<char>, picture: Seq<u8>, n: int) -> Copied
    decreases n,
{
    if n <= 0 {
        Copied { entries: Seq::empty(), fault: None }
    } else {
        let before = copied(data, path, picture, n - 1);
        let i = n - 1;
        if before.fault is Some {
            before
        } else {
            match archive::entry_fault(data, i) {
                Some(m) => Copied {
                    fault: Some("read zip entry "@ + text::dec(i as nat) + ": "@ + m),
                    ..before
                },
                None => {
                    let name = archive::names_in(data)[i];
                    if name == path {
                        Copied { entries: before.entries.push((name, picture)), fault: None }
                    } else {
                        match archive::zip_contents(data, i) {
                            Ok(v) => Copied { entries: before.entries.push((name, v)), fault: None },
                            Err(m) => Copied {
                                entries: before.entries.push((name, Seq::empty())),
                                fault: Some("read "@ + name + ": "@ + m),
                            },
                        }
                    }
                },
            }
        }
    }
}

/// The new package: the old one with the picture replaced, or appended where there was none.
pub open spec fn replacement(data: Seq<u8>, path: Seq<char>, picture: Seq<u8>) -> Copied {
    let c = copied(data, path, picture, archive::names_in(data).len() as int);
    if c.fault is Some || archive::last_index(archive::names_in(data), path) is Some {
        c
    } else {
        Copied { entries: c.entries.push((path, picture)), fault: None }
    }
}

proof fn lemma_copied_fault(data: Seq<u8>, path: Seq<char>, picture: Seq<u8>, k: int, n: int)
    requires
        0 <= k <= n,
        copied(data, path, picture, k).fault is Some,
    ensures
        copied(data, path, picture, n) == copied(data, path, picture, k),
    decreases n - k,
{
    if k < n {
        lemma_copied_fault(data, path, picture, k, n - 1);
    }
}

proof fn lemma_copied_grows(data: Seq<u8>, path: Seq<char>, picture: Seq<u8>, k: int, n: int)
    requires
        0 <= k <= n,
    ensures
        copied(data, path, picture, k).entries.len() <= copied(data, path, picture, n).entries.len(),
        copied(data, path, picture, n).entries.take(
            copied(data, path, picture, k).entries.len() as int,
        ) == copied(data, path, picture, k).entries,
    decreases n - k,
{
    let a = copied(data, path, picture, k).entries;
    let b = copied(data, path, picture, n).entries;
    if k < n {
        lemma_copied_grows(data, path, picture, k, n - 1);
        let c = copied(data, path, picture, n - 1).entries;
        assert(b.take(c.len() as int) =~= c);
        assert(b.take(a.len() as int) =~= c.take(a.len() as int));
    } else {
        assert(b.take(a.len() as int) =~= a);
    }
}

proof fn lemma_size_grows(entries: Seq<Entry>, k: int)
    requires
        0 <= k <= entries.len(),
    ensures
        archive::packed_size(entries.take(k)) <= archive::packed_size(entries),
    decreases entries.len() - k,
{
    if k == entries.len() {
        assert(entries.take(k) =~= entries);
    } else {
        lemma_size_grows(entries, k + 1);
        assert(entries.take(k + 1).drop_last() =~= entries.take(k));
    }
}

/// Where there is room for entries, there is room for the first of them.
proof fn lemma_room_prefix(entries: Seq<Entry>, k: int)
    requires
        0 <= k <= entries.len(),
        archive::room(entries),
    ensures
        archive::room(entries.take(k)),
{
    lemma_size_grows(entries, k);
    assert forall|i: int| 0 <= i < k implies archive::plain_name(
        #[trigger] entries.take(k)[i].0,
    ) by {
        assert(entries.take(k)[i] == entries[i]);
    }
}

/// Where there is room for data in the last entry, there is room without that data.
proof fn lemma_room_empty(entries: Seq<Entry>, name: Seq<char>, data: Seq<u8>)
    requires
        archive::room(entries.push((name, data))),
    ensures
        archive::room(entries),
        archive::room(entries.push((name, Seq::<u8>::empty()))),
{
    let full = entries.push((name, data));
    lemma_room_prefix(full, entries.len() as int);
    assert(full.take(entries.len() as int) =~= entries);
    let bare = entries.push((name, Seq::<u8>::empty()));
    assert(full.drop_last() =~= entries);
    assert(bare.drop_last() =~= entries);
    assert forall|i: int| 0 <= i < bare.len() implies archive::plain_name(#[trigger] bare[i].0) by {
        assert(bare[i].0 == full[i].0);
    }
}

/// Puts one entry into the new package.
fn put(w: &mut archive::PackageWriter, name: &str, data: &Vec<u8>, start: &str, write: &str) -> (r:
    Result<()>)
    ensures
        r is Ok ==> archive::writer_entries(*final(w)) == archive::writer_entries(*old(w)).push(
            (name@, data@),
        ),
        archive::room(archive::writer_entries(*old(w)).push((name@, data@))) ==> r is Ok,
        r matches Err(e) ==> e is Template,
{
    proof {
        if archive::room(archive::writer_entries(*w).push((name@, data@))) {
            lemma_room_empty(archive::writer_entries(*w), name@, data@);
        }
    }
    let ghost before = archive::writer_entries(*w);
    match archive::start(w, name) {
        Ok(()) => {},
        Err(m) => return Err(Error::Template(text::cat4(start, name, ": ", &m))),
    }
    assert(archive::appended(archive::writer_entries(*w), data@) =~= before.push((name@, data@)))
        by {
        assert(archive::writer_entries(*w).drop_last() =~= before);
        assert(Seq::<u8>::empty() + data@ =~= data@);
    }
    match archive::write(w, data) {
        Ok(()) => Ok(()),
        Err(m) => Err(Error::Template(text::cat4(write, name, ": ", &m))),
    }
}

/// The package in `xlsx` with the bytes of `xl/media/<media_filename>` replaced by `new_bytes`,
/// every other entry as it was; where there is no such entry, it is appended. Packages that
/// need the extensions for large archives may fail to be written.
pub fn replace_media_in_xlsx(xlsx: &Vec<u8>, media_filename: &str, new_bytes: &Vec<u8>) -> (r:
    Result<Vec<u8>>)
    ensures
        match archive::zip_listing(xlsx@) {
            Err(m) => r matches Err(e) && e@ == ErrorView::Template("open xlsx as zip: "@ + m),
            Ok(names) => {
                let c = replacement(xlsx@, media_path(media_filename@), new_bytes@);
                &&& r matches Ok(v) ==> c.fault is None && v@ == archive::zip_packed(c.entries)
                &&& r matches Err(e) ==> e is Template
                &&& archive::room(c.entries) ==> match c.fault {
                    Some(m) => r matches Err(e) && e@ == ErrorView::Template(m),
                    None => r matches Ok(v) && (!archive::misleading(c.entries)
                        ==> archive::holds(v@, c.entries)),
                }
            },
        },
{
    let path = text::cat2("xl/media/", media_filename);
    let mut zip = match archive::open(xlsx) {
        Ok(a) => a,
        Err(m) => return Err(Error::Template(text::cat2("open xlsx as zip: ", &m))),
    };
    let ghost data = xlsx@;
    let ghost names = archive::names_in(data);
    let ghost whole = replacement(data, path@, new_bytes@);
    let n: usize = archive::len(&zip);
    let mut out = archive::writer();
    let mut replaced: bool = false;
    let mut i: usize = 0;
    assert(names.take(0) =~= Seq::<Seq<char>>::empty());
    while i < n
        invariant
            i <= n == names.len(),
            data == xlsx@,
            names == archive::names_in(data),
            archive::zip_listing(data) is Ok,
            path@ == media_path(media_filename@),
            whole == replacement(data, path@, new_bytes@),
            archive::archive_bytes(zip) == data,
            copied(data, path@, new_bytes@, i as int).fault is None,
            archive::writer_entries(out) == copied(data, path@, new_bytes@, i as int).entries,
            replaced == (archive::last_index(names.take(i as int), path@) is Some),
        decreases n - i,
    {
        proof {
            lemma_step_room(data, path@, new_bytes@, i as int);
            assert(names.take(i + 1).drop_last() =~= names.take(i as int));
            assert(names.take(i + 1).last() == names[i as int]);
        }
        match archive::name_of(&mut zip, i) {
            Err(m) => {
                let number = text::string_of(&text::digits(i as u64));
                proof {
                    lemma_copied_fault(data, path@, new_bytes@, i + 1, n as int);
                }
                return Err(Error::Template(text::cat4("read zip entry ", &number, ": ", &m)));
            },
            Ok(name) => {
                if text::same(&name, &path) {
                    match put(&mut out, &name, new_bytes, "start ", "write ") {
                        Ok(()) => {},
                        Err(e) => return Err(e),
                    }
                    replaced = true;
                } else {
                    match archive::contents_of(&mut zip, i) {
                        Ok(v) => {
                            match put(&mut out, &name, &v, "start ", "copy ") {
                                Ok(()) => {},
                                Err(e) => return Err(e),
                            }
                        },
                        Err(m) => {
                            match archive::start(&mut out, &name) {
                                Ok(()) => {},
                                Err(s) => return Err(
                                    Error::Template(text::cat4("start ", &name, ": ", &s)),
                                ),
                            }
                            proof {
                                lemma_copied_fault(data, path@, new_bytes@, i + 1, n as int);
                            }
                            return Err(Error::Template(text::cat4("read ", &name, ": ", &m)));
                        },
                    }
                }
            },
        }
        i = i + 1;
    }
    assert(names.take(n as int) =~= names);
    if !replaced {
        match put(&mut out, &path, new_bytes, "start new ", "write new ") {
            Ok(()) => {},
            Err(e) => return Err(e),
        }
    }
    match archive::finish(out) {
        Ok(v) => Ok(v),
        Err(m) => Err(Error::Template(text::cat2("finish zip: ", &m))),
    }
}

/// What a copy without a fault holds: the old names, each with what it held, or the picture.
proof fn lemma_copied(data: Seq<u8>, path: Seq<char>, picture: Seq<u8>, n: int)
    requires
        0 <= n <= archive::names_in(data).len(),
        copied(data, path, picture, n).fault is None,
    ensures
        copied(data, path, picture, n).entries.len() == n,
        forall|i: int|
            #![trigger copied(data, path, picture, n).entries[i]]
            0 <= i < n ==> {
                &&& copied(data, path, picture, n).entries[i].0 == archive::names_in(data)[i]
                &&& archive::entry_fault(data, i) is None
                &&& if archive::names_in(data)[i] == path {
                    copied(data, path, picture, n).entries[i].1 == picture
                } else {
                    archive::zip_contents(data, i) == archive::Contents::Ok(
                        copied(data, path, picture, n).entries[i].1,
                    )
                }
            },
    decreases n,
{
    if n > 0 {
        lemma_copied(data, path, picture, n - 1);
        let before = copied(data, path, picture, n - 1).entries;
        let after = copied(data, path, picture, n).entries;
        assert(after.len() == n);
        assert forall|i: int|
            #![trigger after[i]]
            0 <= i < n implies {
            &&& after[i].0 == archive::names_in(data)[i]
            &&& archive::entry_fault(data, i) is None
            &&& if archive::names_in(data)[i] == path {
                after[i].1 == picture
            } else {
                archive::zip_contents(data, i) == archive::Contents::Ok(after[i].1)
            }
        } by {
            if i < n - 1 {
                assert(after[i] == before[i]);
            }
        }
    }
}

/// After a picture has been replaced, it is found under its path; every other entry reads as it
/// did before, and the entries keep their names and their order.
pub proof fn law_media_replaced(
    data: Seq<u8>,
    path: Seq<char>,
    picture: Seq<u8>,
    new: Seq<u8>,
    other: Seq<char>,
)
    requires
        archive::zip_listing(data) is Ok,
        replacement(data, path, picture).fault is None,
        archive::holds(new, replacement(data, path, picture).entries),
        other != path,
    ensures
        archive::named_result(new, path) == core::result::Result::<Seq<u8>, ErrorView>::Ok(
            picture,
        ),
        archive::named_result(new, other) == archive::named_result(data, other),
        archive::names_in(new) == (if archive::last_index(archive::names_in(data), path) is Some {
            archive::names_in(data)
        } else {
            archive::names_in(data).push(path)
        }),
{
    let old_names = archive::names_in(data);
    let n = old_names.len() as int;
    let c = copied(data, path, picture, n);
    let entries = replacement(data, path, picture).entries;
    let new_names = archive::names_in(new);
    lemma_copied(data, path, picture, n);
    assert(new_names =~= entries.map_values(|e: Entry| e.0));
    assert forall|i: int| 0 <= i < n implies new_names[i] == old_names[i] && entries[i]
        == c.entries[i] by {
        assert(c.entries[i].0 == old_names[i]);
    }
    archive::lemma_last_index(old_names, path);
    archive::lemma_last_index(new_names, path);
    archive::lemma_last_index(old_names, other);
    archive::lemma_last_index(new_names, other);
    if archive::last_index(old_names, path) is Some {
        assert(new_names =~= old_names);
    } else {
        assert(new_names =~= old_names.push(path));
        assert(new_names.drop_last() =~= old_names);
        assert(new_names.last() == path);
    }
    let i = archive::last_index(new_names, path)->0;
    assert(new_names[i] == path);
    assert(entries[i].1 == picture);
    assert(archive::last_index(new_names, other) == archive::last_index(old_names, other));
    if archive::last_index(old_names, other) is Some {
        let j = archive::last_index(old_names, other)->0;
        assert(c.entries[j].0 == old_names[j]);
        assert(entries[j] == c.entries[j]);
    }
}

/// Where there is room for the whole package, there is room at every step of copying it.
proof fn lemma_step_room(data: Seq<u8>, path: Seq<char>, picture: Seq<u8>, i: int)
    requires
        0 <= i < archive::names_in(data).len(),
    ensures
        archive::room(replacement(data, path, picture).entries) ==> archive::room(
            copied(data, path, picture, i).entries,
        ) && archive::room(copied(data, path, picture, i + 1).entries),
{
    let n = archive::names_in(data).len() as int;
    let whole = replacement(data, path, picture).entries;
    if archive::room(whole) {
        let all = copied(data, path, picture, n).entries;
        assert(all =~= whole.take(all.len() as int));
        lemma_room_prefix(whole, all.len() as int);
        lemma_copied_grows(data, path, picture, i, n);
        lemma_copied_grows(data, path, picture, i + 1, n);
        lemma_room_prefix(all, copied(data, path, picture, i).entries.len() as int);
        lemma_room_prefix(all, copied(data, path, picture, i + 1).entries.len() as int);
    }
}

/// Where pictures are.
pub proof fn law_media_path(file: Seq<char>)
    ensures
        media_path(file) == "xl/media/"@ + file,
        text::has_prefix(media_path(file), "xl/media/"@),
{
    text::law_found_where_it_stands(Seq::empty(), "xl/media/"@, file);
}

/// Every entry is copied under its name, the picture in place of what was under its path, and all
/// others as they were.
pub proof fn law_copied(data: Seq<u8>, path: Seq<char>, picture: Seq<u8>, n: int, i: int)
    requires
        0 <= i < n <= archive::names_in(data).len(),
        copied(data, path, picture, n).fault is None,
    ensures
        ({
            let e = copied(data, path, picture, n).entries;
            &&& e.len() == n
            &&& e[i].0 == archive::names_in(data)[i]
            &&& archive::names_in(data)[i] == path ==> e[i].1 == picture
            &&& archive::names_in(data)[i] != path ==> archive::zip_contents(data, i)
                == archive::Contents::Ok(e[i].1)
        }),
{
    lemma_copied(data, path, picture, n);
    assert(copied(data, path, picture, n).entries[i].0 == archive::names_in(data)[i]);
}

/// Copying stops at the first entry that cannot be opened or read, and says which.
pub proof fn law_copy_stops(data: Seq<u8>, path: Seq<char>, picture: Seq<u8>, n: int)
    requires
        0 <= n < archive::names_in(data).len(),
        copied(data, path, picture, n).fault is None,
    ensures
        archive::zip_locked(data, n) || archive::zip_fault(data, n) is Some ==> copied(
            data,
            path,
            picture,
            n + 1,
        ).fault == Some(
            "read zip entry "@ + text::dec(n as nat) + ": "@ + (if archive::zip_locked(data, n) {
                "unsupported Zip archive: Password required to decrypt file"@
            } else {
                archive::zip_fault(data, n)->0
            }),
        ),
        !archive::zip_locked(data, n) && archive::zip_fault(data, n) is None
            && archive::names_in(data)[n] != path ==> match archive::zip_contents(data, n) {
            Ok(v) => copied(data, path, picture, n + 1).fault is None,
            Err(m) => copied(data, path, picture, n + 1).fault == Some(
                "read "@ + archive::names_in(data)[n] + ": "@ + m,
            ),
        },
        copied(data, path, picture, 0).entries.len() == 0,
{
}

} // verus!
