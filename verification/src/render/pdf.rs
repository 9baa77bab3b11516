//! Turning a spreadsheet into a PDF with LibreOffice: the command line, and what can go wrong.
use crate::archive;
use crate::error::{Error, ErrorView};
use crate::text;
use vstd::prelude::*;

verus! {

// ---------------------------------------------------------------------------
// File names
// ---------------------------------------------------------------------------

/// Whether a piece of a path names something: it is neither empty nor the directory itself.
pub open spec fn is_step(c: Seq<char>) -> bool {
    c.len() > 0 && c != "."@
}

/// The last piece of a path that names something.
pub open spec fn last_step(pieces: Seq<Seq<char>>) -> Option<Seq<char>>
    decreases pieces.len(),
{
    if pieces.len() == 0 {
        None
    } else if is_step(pieces.last()) {
        Some(pieces.last())
    } else {
        last_step(pieces.drop_last())
    }
}

/// A file name without its ending: what stands before the last dot, unless that is nothing.
pub open spec fn without_ending(name: Seq<char>) -> Seq<char> {
    let tail = text::after_last(name, '.');
    if tail.len() < name.len() - 1 {
        name.take(name.len() - tail.len() - 1)
    } else {
        name
    }
}

/// The name of the file at `path` without its ending; nothing for a path that ends above itself or
/// names nothing.
pub open spec fn stem_of(path: Seq<char>) -> Option<Seq<char>> {
    match last_step(text::split_on(path, '/')) {
        Some(n) => if n == ".."@ {
            None
        } else {
            Some(without_ending(n))
        },
        None => None,
    }
}

fn strip_ending(name: &Vec<char>) -> (r: Vec<char>)
    ensures
        r@ == without_ending(name@),
{
    let tail = text::tail_after(name, '.');
    proof {
        lemma_tail_shorter(name@, '.');
    }
    let n: usize = name.len();
    if n > 0 && tail.len() < n - 1 {
        assert(name@.subrange(0, n - tail@.len() - 1) =~= name@.take(n - tail@.len() - 1));
        text::cut(name, 0, n - tail.len() - 1)
    } else {
        assert(name@.subrange(0, n as int) =~= name@);
        text::cut(name, 0, n)
    }
}

proof fn lemma_tail_shorter(s: Seq<char>, c: char)
    ensures
        text::after_last(s, c).len() <= s.len(),
    decreases s.len(),
{
    if s.len() > 0 && s.last() != c {
        lemma_tail_shorter(s.drop_last(), c);
    }
}

/// The name of the file at `path` without its ending.
pub fn file_stem(path: &str) -> (r: Option<String>)
    ensures
        text::optional(r) == stem_of(path@),
{
    let pieces = text::split(&text::chars_of(path), '/');
    let ghost all = text::texts(pieces@);
    let mut i: usize = pieces.len();
    assert(all.take(i as int) =~= all);
    while i > 0
        invariant
            i <= pieces@.len(),
            all == text::texts(pieces@),
            all == text::split_on(path@, '/'),
            last_step(all) == last_step(all.take(i as int)),
        decreases i,
    {
        assert(all.take(i as int).last() == pieces@[i - 1]@);
        let name = text::string_of(&pieces[i - 1]);
        if pieces[i - 1].len() > 0 && !text::same(&name, ".") {
            if text::same(&name, "..") {
                return None;
            }
            return Some(text::string_of(&strip_ending(&pieces[i - 1])));
        }
        assert(all.take(i as int).drop_last() =~= all.take(i - 1));
        i = i - 1;
    }
    None
}

/// The name of the PDF for the file at `path`.
pub open spec fn pdf_name_of(path: Seq<char>) -> Option<Seq<char>> {
    match stem_of(path) {
        Some(s) => Some(s + ".pdf"@),
        None => None,
    }
}

/// The name of a PDF stays, in whatever directory it is.
pub proof fn lemma_pdf_name(dir: Seq<char>, stem: Seq<char>)
    requires
        stem.len() > 0,
        forall|i: int| 0 <= i < stem.len() ==> stem[i] != '/',
    ensures
        pdf_name_of(dir.push('/') + (stem + ".pdf"@)) == Some(stem + ".pdf"@),
{
    reveal_strlit(".pdf");
    reveal_strlit(".");
    reveal_strlit("..");
    let name = stem + ".pdf"@;
    assert forall|i: int| 0 <= i < name.len() implies name[i] != '/' by {
        if i < stem.len() {
            assert(name[i] == stem[i]);
        } else {
            assert(name[i] == ".pdf"@[i - stem.len()]);
        }
    }
    text::lemma_last_piece(dir, name, '/');
    reveal_with_fuel(text::after_last, 4);
    assert(name.drop_last().drop_last().drop_last() =~= stem.push('.'));
    assert(text::after_last(name, '.').len() == 3);
    assert(name.take(name.len() - 4) =~= stem);
}

/// The name of the PDF for the file at `path`.
pub fn pdf_name(path: &str) -> (r: Option<String>)
    ensures
        text::optional(r) == pdf_name_of(path@),
{
    match file_stem(path) {
        Some(s) => Some(text::cat2(&s, ".pdf")),
        None => None,
    }
}

// ---------------------------------------------------------------------------
// The command
// ---------------------------------------------------------------------------

/// The arguments that convert `xlsx` into a PDF in `out_dir`, with a profile of its own so that a
/// running LibreOffice is left alone.
pub open spec fn arguments(profile: Seq<char>, out_dir: Seq<char>, xlsx: Seq<char>) -> Seq<
    Seq<char>,
> {
    seq![
        "--headless"@,
        "--norestore"@,
        "--nologo"@,
        "--nofirststartwizard"@,
        "-env:UserInstallation=file://"@ + profile,
        "--convert-to"@,
        "pdf"@,
        "--outdir"@,
        out_dir,
        xlsx,
    ]
}

/// The arguments that convert `xlsx` into a PDF in `out_dir`.
pub fn soffice_arguments(profile: &str, out_dir: &str, xlsx: &str) -> (r: Vec<String>)
    ensures
        archive::strings(r@) == arguments(profile@, out_dir@, xlsx@),
{
    let mut out: Vec<String> = Vec::new();
    out.push("--headless".to_owned());
    out.push("--norestore".to_owned());
    out.push("--nologo".to_owned());
    out.push("--nofirststartwizard".to_owned());
    out.push(text::cat2("-env:UserInstallation=file://", profile));
    out.push("--convert-to".to_owned());
    out.push("pdf".to_owned());
    out.push("--outdir".to_owned());
    out.push(out_dir.to_owned());
    out.push(xlsx.to_owned());
    assert(archive::strings(out@) =~= arguments(profile@, out_dir@, xlsx@));
    out
}

/// Where LibreOffice is looked for before the search path.
pub fn soffice_candidates() -> (r: Vec<String>)
    ensures
        archive::strings(r@) == seq![
            "/usr/bin/soffice"@,
            "/usr/lib/libreoffice/program/soffice"@,
            "/opt/homebrew/bin/soffice"@,
        ],
{
    let mut out: Vec<String> = Vec::new();
    out.push("/usr/bin/soffice".to_owned());
    out.push("/usr/lib/libreoffice/program/soffice".to_owned());
    out.push("/opt/homebrew/bin/soffice".to_owned());
    assert(archive::strings(out@) =~= seq![
        "/usr/bin/soffice"@,
        "/usr/lib/libreoffice/program/soffice"@,
        "/opt/homebrew/bin/soffice"@,
    ]);
    out
}

/// How a conversion went.
pub enum Conversion {
    /// There is no LibreOffice.
    NotFound,
    /// It could not be started: why.
    NotStarted(String),
    /// It ended without success: its exit status.
    Failed(String),
    /// It ended with success, and the PDF is there or not.
    Ended(bool),
}

/// What is wrong, where something is. `pdf` is where the PDF should be.
pub open spec fn conversion_fault(c: Conversion, xlsx: Seq<char>, pdf: Seq<char>) -> Option<
    ErrorView,
> {
    match c {
        Conversion::NotFound => Some(
            ErrorView::Template(
                "soffice not found in PATH; install LibreOffice (apt: libreoffice-core)"@,
            ),
        ),
        Conversion::NotStarted(why) => Some(ErrorView::Template("spawn soffice: "@ + why@)),
        Conversion::Failed(status) => Some(
            ErrorView::Template("soffice exit "@ + status@ + " for "@ + xlsx),
        ),
        Conversion::Ended(there) => if stem_of(xlsx) is None {
            Some(ErrorView::Template("bad xlsx filename: "@ + xlsx))
        } else if !there {
            Some(
                ErrorView::Template("soffice reported success but PDF not found: "@ + pdf),
            )
        } else {
            None
        },
    }
}

/// What is wrong with a conversion, where something is.
pub fn conversion_error(c: &Conversion, xlsx: &str, pdf: &str) -> (r: Option<Error>)
    ensures
        match r {
            Some(e) => conversion_fault(*c, xlsx@, pdf@) == Some(e@),
            None => conversion_fault(*c, xlsx@, pdf@) is None,
        },
{
    match c {
        Conversion::NotFound => Some(
            Error::Template(
                "soffice not found in PATH; install LibreOffice (apt: libreoffice-core)".to_owned(),
            ),
        ),
        Conversion::NotStarted(why) => Some(Error::Template(text::cat2("spawn soffice: ", why))),
        Conversion::Failed(status) => Some(
            Error::Template(text::cat4("soffice exit ", status, " for ", xlsx)),
        ),
        Conversion::Ended(there) => {
            if file_stem(xlsx).is_none() {
                Some(Error::Template(text::cat2("bad xlsx filename: ", xlsx)))
            } else if !*there {
                Some(
                    Error::Template(
                        text::cat2("soffice reported success but PDF not found: ", pdf),
                    ),
                )
            } else {
                None
            }
        },
    }
}

// ---------------------------------------------------------------------------
// Laws
// ---------------------------------------------------------------------------

/// The ending of a name is what stands behind its last dot; a name without a dot has none, and a dot
/// in front of everything is no ending.
pub proof fn law_ending(a: Seq<char>, b: Seq<char>)
    requires
        forall|i: int| 0 <= i < b.len() ==> b[i] != '.',
    ensures
        a.len() > 0 ==> without_ending(a + seq!['.'] + b) == a,
        without_ending(b) == b,
        without_ending(seq!['.'] + b) == seq!['.'] + b,
{
    text::law_after_last(a, '.', b);
    text::law_after_last(Seq::empty(), '.', b);
    assert(Seq::<char>::empty() + seq!['.'] + b =~= seq!['.'] + b);
    let s = a + seq!['.'] + b;
    assert(s.take(s.len() - b.len() - 1) =~= a);
}

/// The last piece that names something counts: pieces behind it that are empty or a single dot do
/// not, and what stands before it does not.
pub proof fn law_last_step(pieces: Seq<Seq<char>>, c: Seq<char>)
    ensures
        c.len() > 0 && c != "."@ ==> last_step(pieces.push(c)) == Some(c),
        c.len() == 0 || c == "."@ ==> last_step(pieces.push(c)) == last_step(pieces),
        last_step(Seq::empty()) is None,
{
    assert(pieces.push(c).drop_last() =~= pieces);
}

/// The stem of a file in a directory is its name without the ending, and the PDF is called by it.
pub proof fn law_stem(dir: Seq<char>, name: Seq<char>)
    requires
        name.len() > 0,
        name != "."@,
        name != ".."@,
        forall|i: int| 0 <= i < name.len() ==> name[i] != '/',
    ensures
        stem_of(dir.push('/') + name) == Some(without_ending(name)),
        stem_of(name) == Some(without_ending(name)),
        stem_of(dir.push('/') + ".."@) is None,
        pdf_name_of(dir.push('/') + name) == Some(without_ending(name) + ".pdf"@),
{
    reveal_strlit("..");
    reveal_strlit(".");
    text::lemma_last_piece(dir, name, '/');
    text::lemma_last_piece(dir, ".."@, '/');
    text::law_split(name, '/', name);
    let one = seq![name];
    assert(one.last() == name);
}

/// LibreOffice is told to convert that file into a PDF in that directory, without showing itself,
/// with a profile of its own.
pub proof fn law_arguments(profile: Seq<char>, out_dir: Seq<char>, xlsx: Seq<char>)
    ensures
        ({
            let a = arguments(profile, out_dir, xlsx);
            &&& a.len() == 10
            &&& a[0] == "--headless"@ && a[1] == "--norestore"@ && a[2] == "--nologo"@ && a[3]
                == "--nofirststartwizard"@
            &&& a[4] == "-env:UserInstallation=file://"@ + profile
            &&& a[5] == "--convert-to"@ && a[6] == "pdf"@
            &&& a[7] == "--outdir"@ && a[8] == out_dir
            &&& a[9] == xlsx
        }),
{
}

/// A conversion went well exactly where LibreOffice ended with success, the file has a name and the
/// PDF is there.
pub proof fn law_conversion(c: Conversion, xlsx: Seq<char>, pdf: Seq<char>)
    ensures
        conversion_fault(c, xlsx, pdf) is None <==> c == Conversion::Ended(true) && stem_of(xlsx)
            is Some,
        conversion_fault(c, xlsx, pdf) is Some ==> conversion_fault(c, xlsx, pdf)->0 is Template,
        conversion_fault(Conversion::Ended(false), xlsx, pdf) == Some(
            if stem_of(xlsx) is None {
                ErrorView::Template("bad xlsx filename: "@ + xlsx)
            } else {
                ErrorView::Template("soffice reported success but PDF not found: "@ + pdf)
            },
        ),
{
}

} // verus!
