//! The pictures in a package.
use crate::archive;
use crate::error::{Error, ErrorView, Result};
use crate::template::digest;
use crate::template::inspect::MediaEntry;
use crate::text;
use vstd::prelude::*;

verus! {

/// Width and height of the picture in `data`, as far as it is one in a known format.
pub uninterp spec fn image_size(data: Seq<u8>) -> Option<(u32, u32)>;

/// `image::ImageReader::with_guessed_format` and `into_dimensions`: width and height of the
/// picture in `data`, nothing where its format is not recognised or its header is broken.
#[verifier::external_body]
fn dimensions(data: &Vec<u8>) -> (r: Option<(u32, u32)>)
    ensures
        r == image_size(data@),
{
    image::ImageReader::new(std::io::Cursor::new(data)).with_guessed_format().ok()?.into_dimensions().ok()
}

/// The mathematical value of a picture's record.
pub struct MediaView {
    pub media_path: Seq<char>,
    pub sha256: Seq<char>,
    pub bytes: nat,
    pub width: Option<u32>,
    pub height: Option<u32>,
}

impl View for MediaEntry {
    type V = MediaView;

    open spec fn view(&self) -> MediaView {
        MediaView {
            media_path: self.media_path@,
            sha256: self.sha256@,
            bytes: self.bytes as nat,
            width: self.width,
            height: self.height,
        }
    }
}

/// The mathematical values of records.
pub open spec fn media_views(v: Seq<MediaEntry>) -> Seq<MediaView> {
    v.map_values(|m: MediaEntry| m@)
}

/// What is recorded of the picture `data` under `name`, whose width and height are `size`.
pub open spec fn media_entry(name: Seq<char>, data: Seq<u8>, size: Option<(u32, u32)>) -> MediaView {
    MediaView {
        media_path: name,
        sha256: digest::hex(digest::sha256(data)),
        bytes: data.len(),
        width: match size {
            Some((w, h)) => Some(w),
            None => None,
        },
        height: match size {
            Some((w, h)) => Some(h),
            None => None,
        },
    }
}

/// The record of the picture `data` under `name`, whose width and height are `size`.
pub fn describe_media(name: String, data: &Vec<u8>, size: Option<(u32, u32)>) -> (r: MediaEntry)
    ensures
        r@ == media_entry(name@, data@, size),
{
    MediaEntry {
        media_path: name,
        sha256: digest::hex_sha256(data.as_slice()),
        bytes: data.len() as u64,
        width: match size {
            Some((w, _)) => Some(w),
            None => None,
        },
        height: match size {
            Some((_, h)) => Some(h),
            None => None,
        },
    }
}

/// The pictures, or the first thing that went wrong.
pub type MediaOutcome = core::result::Result<Seq<MediaView>, ErrorView>;

/// The pictures among the first `n` names of `data`.
pub open spec fn media_among(data: Seq<u8>, n: int) -> MediaOutcome
    decreases n,
{
    if n <= 0 {
        Ok(Seq::empty())
    } else {
        let name = archive::names_in(data)[n - 1];
        match media_among(data, n - 1) {
            Err(e) => Err(e),
            Ok(before) => if !text::has_prefix(name, "xl/media/"@) {
                Ok(before)
            } else {
                match archive::named_result(data, name) {
                    Err(e) => Err(e),
                    Ok(v) => Ok(before.push(media_entry(name, v, image_size(v)))),
                }
            },
        }
    }
}

/// The pictures of the package `data`: every entry under `xl/media/`.
pub open spec fn media_outcome(data: Seq<u8>) -> MediaOutcome {
    match archive::zip_listing(data) {
        Err(m) => Err(ErrorView::Template(m)),
        Ok(names) => match archive::first_fault(data, 0) {
            Some(m) => Err(ErrorView::Template("list zip: "@ + m)),
            None => media_among(data, names.len() as int),
        },
    }
}

/// The mathematical value of collected pictures.
pub open spec fn outcome_view(r: Result<Vec<MediaEntry>>) -> MediaOutcome {
    match r {
        Ok(v) => Ok(media_views(v@)),
        Err(e) => Err(e@),
    }
}

proof fn lemma_media_error(data: Seq<u8>, k: int, n: int)
    requires
        0 <= k <= n,
        media_among(data, k) is Err,
    ensures
        media_among(data, n) == media_among(data, k),
    decreases n - k,
{
    if k < n {
        lemma_media_error(data, k, n - 1);
    }
}

/// The pictures of the package in `bytes`, in the order of its directory.
pub fn collect_media(bytes: &Vec<u8>) -> (r: Result<Vec<MediaEntry>>)
    ensures
        outcome_view(r) == media_outcome(bytes@),
{
    let mut zip = match archive::open(bytes) {
        Ok(a) => a,
        Err(m) => return Err(Error::Template(m)),
    };
    let names = match archive::names(&mut zip) {
        Ok(v) => v,
        Err(m) => return Err(Error::Template(text::cat2("list zip: ", &m))),
    };
    let ghost data = bytes@;
    let folder = text::chars_of("xl/media/");
    let mut out: Vec<MediaEntry> = Vec::new();
    let mut i: usize = 0;
    assert(media_views(out@) =~= Seq::<MediaView>::empty());
    while i < names.len()
        invariant
            i <= names@.len(),
            data == bytes@,
            archive::archive_bytes(zip) == data,
            archive::strings(names@) == archive::names_in(data),
            media_outcome(data) == media_among(data, names@.len() as int),
            folder@ == "xl/media/"@,
            media_among(data, i as int) == MediaOutcome::Ok(media_views(out@)),
        decreases names@.len() - i,
    {
        let name = names[i].clone();
        assert(archive::names_in(data)[i as int] == archive::strings(names@)[i as int]);
        assert(name@ == archive::names_in(data)[i as int]);
        if text::starts_with(&text::chars_of(&name), &folder) {
            match archive::read_zip_entry(&mut zip, &names, &name) {
                Ok(data) => {
                    let ghost held = out@;
                    let size = dimensions(&data);
                    let entry = describe_media(name, &data, size);
                    out.push(entry);
                    assert(media_views(out@) =~= media_views(held).push(entry@));
                },
                Err(e) => {
                    proof {
                        lemma_media_error(data, i + 1, names@.len() as int);
                    }
                    return Err(e);
                },
            }
        }
        i = i + 1;
    }
    Ok(out)
}

// ---------------------------------------------------------------------------
// Laws
// ---------------------------------------------------------------------------

/// What is recorded of a picture: its name, its digest, how long it is, and its size where it is
/// known.
pub proof fn law_picture(name: Seq<char>, data: Seq<u8>, w: u32, h: u32)
    ensures
        ({
            let m = media_entry(name, data, Some((w, h)));
            &&& m.media_path == name
            &&& m.sha256 == digest::hex(digest::sha256(data))
            &&& m.bytes == data.len()
            &&& m.width == Some(w)
            &&& m.height == Some(h)
        }),
        media_entry(name, data, None) == (MediaView {
            width: None,
            height: None,
            ..media_entry(name, data, Some((w, h)))
        }),
{
}

/// Every entry under `xl/media/` is recorded, and every record is of such an entry.
pub proof fn law_every_picture(data: Seq<u8>, n: int, i: int)
    requires
        0 <= i < n,
        media_among(data, n) is Ok,
    ensures
        ({
            let all = media_among(data, n)->Ok_0;
            let name = archive::names_in(data)[i];
            &&& text::has_prefix(name, "xl/media/"@) ==> exists|k: int|
                0 <= k < all.len() && (#[trigger] all[k]).media_path == name && (
                archive::named_result(data, name) matches Ok(v) && all[k].bytes == v.len()
                    && all[k].sha256 == digest::hex(digest::sha256(v)))
            &&& forall|k: int|
                0 <= k < all.len() ==> text::has_prefix(
                    (#[trigger] all[k]).media_path,
                    "xl/media/"@,
                )
            &&& all.len() <= n
        }),
    decreases n,
{
    let all = media_among(data, n)->Ok_0;
    let before = media_among(data, n - 1)->Ok_0;
    let last = archive::names_in(data)[n - 1];
    if n > 1 {
        law_every_picture(data, n - 1, if i < n - 1 { i } else { 0 });
    }
    let name = archive::names_in(data)[i];
    assert forall|k: int| 0 <= k < before.len() implies all[k] == #[trigger] before[k] by {
    }
    assert forall|k: int| 0 <= k < all.len() implies text::has_prefix(
        (#[trigger] all[k]).media_path,
        "xl/media/"@,
    ) by {
        if k < before.len() {
            assert(all[k] == before[k]);
        }
    }
    if text::has_prefix(name, "xl/media/"@) {
        if i == n - 1 {
            assert(all[before.len() as int].media_path == name);
        } else {
            let k = choose|k: int|
                0 <= k < before.len() && (#[trigger] before[k]).media_path == name && (
                archive::named_result(data, name) matches Ok(v) && before[k].bytes == v.len()
                    && before[k].sha256 == digest::hex(digest::sha256(v)));
            assert(all[k] == before[k]);
        }
    }
}

/// What is no archive, or one with an entry that cannot be opened, has no pictures to show: the error
/// says why. Else all entries are looked at.
pub proof fn law_media_outcome(data: Seq<u8>)
    ensures
        archive::zip_listing(data) matches Err(m) ==> media_outcome(data) == MediaOutcome::Err(
            ErrorView::Template(m),
        ),
        archive::zip_listing(data) is Ok && archive::first_fault(data, 0) is Some ==> media_outcome(
            data,
        ) == MediaOutcome::Err(
            ErrorView::Template("list zip: "@ + archive::first_fault(data, 0)->0),
        ),
        archive::zip_listing(data) is Ok && archive::first_fault(data, 0) is None ==> media_outcome(
            data,
        ) == media_among(data, archive::names_in(data).len() as int),
{
}

/// Records keep their order and all that they hold.
pub proof fn law_media_as_recorded(v: Seq<MediaEntry>, i: int)
    requires
        0 <= i < v.len(),
    ensures
        media_views(v).len() == v.len(),
        media_views(v)[i].media_path == v[i].media_path@,
        media_views(v)[i].sha256 == v[i].sha256@,
        media_views(v)[i].bytes == v[i].bytes,
        media_views(v)[i].width == v[i].width,
        media_views(v)[i].height == v[i].height,
{
}

} // verus!
