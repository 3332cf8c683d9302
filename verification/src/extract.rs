//! Unpacking a downloaded package: the archive format is chosen by the file
//! name, and compressed tarballs are decompressed here before their files
//! are written out.
use std::io::Read;
use vstd::prelude::*;
use vstd::slice::slice_to_vec;
use vstd::string::StringExecFns;
use crate::text::{
    chars_of, ends_with, starts_with, range_equals, ranges_within, slices, split, split_range, string_from_range,
    vec_ends_with,
};

verus! {

broadcast use vstd::string::group_string_axioms;

/// The archive formats that a package may come in.
#[derive(Debug, Clone, Copy, PartialEq, Eq, Structural)]
pub enum ArchiveKind {
    Zip,
    TarGz,
    TarXz,
    TarBz2,
    Tar,
}

/// Why a package could not be unpacked.
#[derive(Debug, Clone, Copy, PartialEq, Eq, Structural)]
pub enum ExtractError {
    /// The file name has none of the known archive suffixes.
    UnsupportedFormat,
}

/// What unpacking a package amounts to: the format, the archive file and the
/// directory to unpack into.
pub struct ExtractPlan {
    pub kind: ArchiveKind,
    pub archive: String,
    pub output_dir: String,
}

/// What `zip::ZipArchive::new` on the bytes, then `len`, give: the number
/// of entries, or the text of the error.
pub uninterp spec fn zip_entry_count(data: Seq<u8>) -> Result<nat, Seq<char>>;

/// What opening the archive and `by_index(i)` give: the entry's stored name
/// and its `mangled_name`, or the text of the error.
pub uninterp spec fn zip_entry_header(data: Seq<u8>, i: int) -> Result<(Seq<char>, Seq<char>), Seq<char>>;

/// What opening the archive and reading entry `i` (`by_index(i)`) to its
/// end give: its contents, or the text of the error.
pub uninterp spec fn zip_entry_contents(data: Seq<u8>, i: int) -> Result<Seq<u8>, Seq<char>>;

/// A relative path of plain components only: none is empty, `.` or `..`,
/// and it does not start with `/`.
pub open spec fn plain_relative_path(p: Seq<char>) -> bool {
    p.len() == 0 || forall|i: int|
        0 <= i < split(p, '/').len() ==> {
            let c = #[trigger] split(p, '/')[i];
            c.len() > 0 && c != "."@ && c != ".."@
        }
}

/// `Path::join` of a relative path onto `base`: a `/` goes between them
/// unless `base` is empty or already ends with one.
pub open spec fn join_path(base: Seq<char>, rel: Seq<char>) -> Seq<char> {
    if base.len() == 0 {
        rel
    } else if base.last() == '/' {
        base + rel
    } else {
        base + "/"@ + rel
    }
}

/// What extracting a zip archive writes.
pub enum ZipWrite {
    /// A directory to create.
    Dir(String),
    /// A file to create, with its contents.
    File(String, Vec<u8>),
}

/// The path that a write goes to.
pub open spec fn write_path(w: ZipWrite) -> Seq<char> {
    match w {
        ZipWrite::Dir(p) => p@,
        ZipWrite::File(p, _) => p@,
    }
}

/// The error that extracting entry `i` stops at, if any: reading its
/// header, or, for a file, reading its contents (a directory's contents are
/// not read).
pub open spec fn zip_entry_failure(data: Seq<u8>, i: int) -> Option<Seq<char>> {
    match zip_entry_header(data, i) {
        Err(m) => Some(m),
        Ok(h) => if ends_with(h.0, "/"@) {
            None
        } else {
            match zip_entry_contents(data, i) {
                Ok(_) => None,
                Err(m) => Some(m),
            }
        },
    }
}

/// Entry `i` of the zip archive `data` has a header, and its path is a
/// relative path of plain components.
pub open spec fn zip_entry_path_is_plain(data: Seq<u8>, i: int) -> bool {
    zip_entry_header(data, i) matches Ok(h) && plain_relative_path(h.1)
}

/// The write for entry `i` of the zip archive `data` under `out`: a
/// directory for a name that ends in `/`, a file with the entry's contents
/// otherwise, at the entry's path joined onto `out`.
pub open spec fn zip_write_for(w: ZipWrite, out: Seq<char>, data: Seq<u8>, i: int) -> bool {
    match zip_entry_header(data, i) {
        Err(_) => false,
        Ok(h) => match w {
            ZipWrite::Dir(p) => ends_with(h.0, "/"@) && p@ == join_path(out, h.1),
            ZipWrite::File(p, d) => !ends_with(h.0, "/"@) && p@ == join_path(out, h.1)
                && zip_entry_contents(data, i) == Ok::<Seq<u8>, Seq<char>>(d@),
        },
    }
}

/// What extracting a zip archive amounts to: the writes for the entries
/// that could be read, in order, and the error that stopped it, if any.
pub struct ZipPlan {
    pub writes: Vec<ZipWrite>,
    pub failure: Option<String>,
}

/// The format that a file name stands for, by its suffix, checked in this
/// order: `.zip`; `.tar.gz` or `.tgz`; `.tar.xz`; `.tar.bz2`; `.tar`.
pub open spec fn archive_kind(file_name: Seq<char>) -> Option<ArchiveKind> {
    if ends_with(file_name, ".zip"@) {
        Some(ArchiveKind::Zip)
    } else if ends_with(file_name, ".tar.gz"@) || ends_with(file_name, ".tgz"@) {
        Some(ArchiveKind::TarGz)
    } else if ends_with(file_name, ".tar.xz"@) {
        Some(ArchiveKind::TarXz)
    } else if ends_with(file_name, ".tar.bz2"@) {
        Some(ArchiveKind::TarBz2)
    } else if ends_with(file_name, ".tar"@) {
        Some(ArchiveKind::Tar)
    } else {
        None
    }
}

/// The `/`-separated pieces of a path that name something: all but the
/// empty ones and `.`.
pub open spec fn named_components(path: Seq<char>) -> Seq<Seq<char>> {
    split(path, '/').filter(|c: Seq<char>| c.len() > 0 && c != "."@)
}

/// `Path::file_name` on a Unix path: its last named component, unless
/// there is none or it is `..`.
pub open spec fn path_file_name(path: Seq<char>) -> Option<Seq<char>> {
    let comps = named_components(path);
    if comps.len() == 0 || comps.last() == ".."@ {
        None
    } else {
        Some(comps.last())
    }
}

/// What reading a gzip decoder (of the first member) over the bytes to its
/// end gives: the bytes it produced, and the text of the error it stopped
/// at, if any.
pub uninterp spec fn gzip_decoded(data: Seq<u8>) -> (Seq<u8>, Option<Seq<char>>);

/// What reading an xz decoder over the bytes to its end gives: the bytes it
/// produced, and the text of the error it stopped at, if any.
pub uninterp spec fn xz_decoded(data: Seq<u8>) -> (Seq<u8>, Option<Seq<char>>);

/// What reading a bzip2 decoder over the bytes to its end gives: the bytes
/// it produced, and the text of the error it stopped at, if any.
pub uninterp spec fn bzip2_decoded(data: Seq<u8>) -> (Seq<u8>, Option<Seq<char>>);

/// The text of an optional error message.
pub open spec fn failure_text(f: Option<String>) -> Option<Seq<char>> {
    match f {
        Some(m) => Some(m@),
        None => None,
    }
}

/// The tar data of a tarball: the bytes that decompression produced, and
/// the error it stopped at, if any. A reader of the tar data meets that
/// error only where it reads past those bytes.
pub struct TarStream {
    pub data: Vec<u8>,
    pub failure: Option<String>,
}

/// The file name of a package path: the last component, or nothing.
pub open spec fn package_file_name(path: Seq<char>) -> Seq<char> {
    match path_file_name(path) {
        Some(n) => n,
        None => Seq::empty(),
    }
}

/// A path joined onto `base` (`Path::join` for a relative path).
fn join_onto(base: &str, rel: &str) -> (r: String)
    ensures
        r@ == join_path(base@, rel@),
{
    let b = chars_of(base);
    let mut r = base.to_string();
    if b.len() > 0 && b[b.len() - 1] != '/' {
        r.append("/");
    }
    r.append(rel);
    r
}

/// What extracting the zip archive `data` into `output_dir` writes: for
/// each entry in order, a directory (name ending in `/`) or a file with its
/// contents, at the entry's plain relative path joined onto `output_dir`, so
/// nothing is written outside `output_dir`. The first entry that cannot be
/// read stops it: the entries before it are still written, and its error is
/// the failure. An archive that cannot be opened writes nothing.
pub fn plan_zip_extraction(output_dir: &str, data: &[u8]) -> (r: ZipPlan)
    ensures
        match zip_entry_count(data@) {
            Err(m) => r.writes.len() == 0 && (r.failure matches Some(f) && f@ == m),
            Ok(n) => {
                &&& r.writes.len() <= n
                &&& forall|i: int|
                    0 <= i < r.writes.len() ==> zip_write_for(#[trigger] r.writes@[i], output_dir@, data@, i)
                &&& forall|i: int| 0 <= i < r.writes.len() ==> #[trigger] zip_entry_failure(data@, i) is None
                &&& forall|i: int| 0 <= i < r.writes.len() ==> #[trigger] zip_entry_path_is_plain(data@, i)
                &&& forall|i: int|
                    0 <= i < r.writes.len() ==> starts_with(write_path(#[trigger] r.writes@[i]), output_dir@)
                &&& r.writes.len() < n ==> (r.failure matches Some(f) && zip_entry_failure(
                    data@,
                    r.writes.len() as int,
                ) == Some(f@))
                &&& r.writes.len() == n ==> r.failure is None
            },
        },
{
    let n = match zip_count(data) {
        Ok(n) => n,
        Err(m) => return ZipPlan { writes: Vec::new(), failure: Some(m) },
    };
    let slash = chars_of("/");
    let mut writes: Vec<ZipWrite> = Vec::new();
    let mut i: usize = 0;
    while i < n
        invariant
            i <= n,
            writes.len() == i,
            zip_entry_count(data@) == Ok::<nat, Seq<char>>(n as nat),
            slash@ == "/"@,
            forall|j: int| 0 <= j < i ==> zip_write_for(#[trigger] writes@[j], output_dir@, data@, j),
            forall|j: int| 0 <= j < i ==> #[trigger] zip_entry_failure(data@, j) is None,
            forall|j: int| 0 <= j < i ==> #[trigger] zip_entry_path_is_plain(data@, j),
            forall|j: int| 0 <= j < i ==> starts_with(write_path(#[trigger] writes@[j]), output_dir@),
        decreases n - i,
    {
        let (name, rel) = match zip_header(data, i) {
            Ok(h) => h,
            Err(m) => return ZipPlan { writes, failure: Some(m) },
        };
        let path = join_onto(output_dir, rel.as_str());
        assert(output_dir@.len() <= path@.len());
        assert(path@.subrange(0, output_dir@.len() as int) =~= output_dir@);
        if vec_ends_with(&chars_of(name.as_str()), &slash) {
            writes.push(ZipWrite::Dir(path));
        } else {
            match zip_contents(data, i) {
                Ok(d) => writes.push(ZipWrite::File(path, d)),
                Err(m) => return ZipPlan { writes, failure: Some(m) },
            }
        }
        i = i + 1;
    }
    ZipPlan { writes, failure: None }
}

/// The tar data inside an archive of the given (tarball) kind, with the
/// error that decompressing it stopped at, if any.
pub open spec fn tar_stream(kind: ArchiveKind, data: Seq<u8>) -> (Seq<u8>, Option<Seq<char>>) {
    match kind {
        ArchiveKind::TarGz => gzip_decoded(data),
        ArchiveKind::TarXz => xz_decoded(data),
        ArchiveKind::TarBz2 => bzip2_decoded(data),
        ArchiveKind::Tar => (data, None),
        ArchiveKind::Zip => (Seq::empty(), None),
    }
}

/// The file name of `path` (`Path::file_name`), as text.
pub fn file_name_of(path: &str) -> (r: Option<String>)
    ensures
        match r {
            Some(n) => path_file_name(path@) == Some(n@),
            None => path_file_name(path@) is None,
        },
{
    let text = chars_of(path);
    assert(text@.subrange(0, text.len() as int) =~= text@);
    let parts = split_range(&text, 0, text.len(), '/');
    let ghost all = slices(text@, parts@);
    let ghost keep = |c: Seq<char>| c.len() > 0 && c != "."@;
    let dot = chars_of(".");
    let mut last: Option<usize> = None;
    let mut i: usize = 0;
    assert(all.take(0).filter(keep) =~= Seq::<Seq<char>>::empty()) by {
        reveal_with_fuel(Seq::<_>::filter, 1);
    }
    while i < parts.len()
        invariant
            i <= parts.len(),
            all == slices(text@, parts@),
            all == split(path@, '/'),
            ranges_within(parts@, 0, text.len() as int),
            dot@ == "."@,
            keep == (|c: Seq<char>| c.len() > 0 && c != "."@),
            match last {
                None => all.take(i as int).filter(keep).len() == 0,
                Some(j) => j < i && all.take(i as int).filter(keep).len() > 0 && all.take(
                    i as int,
                ).filter(keep).last() == all[j as int],
            },
        decreases parts.len() - i,
    {
        let (a, b) = parts[i];
        assert(0 <= parts@[i as int].0 <= parts@[i as int].1 <= text.len());
        assert(all.take(i + 1).drop_last() =~= all.take(i as int));
        assert(all.take(i + 1).last() == all[i as int]);
        assert(all[i as int] == text@.subrange(a as int, b as int));
        if a < b && !range_equals(&text, a, b, &dot) {
            last = Some(i);
        }
        assert(match last {
            None => all.take(i + 1).filter(keep).len() == 0,
            Some(j) => all.take(i + 1).filter(keep).len() > 0 && all.take(i + 1).filter(keep).last()
                == all[j as int],
        }) by {
            reveal_with_fuel(Seq::<_>::filter, 1);
        }
        i = i + 1;
    }
    assert(all.take(parts.len() as int) =~= all);
    match last {
        None => None,
        Some(j) => {
            let (a, b) = parts[j];
            assert(0 <= parts@[j as int].0 <= parts@[j as int].1 <= text.len());
            if range_equals(&text, a, b, &chars_of("..")) {
                None
            } else {
                Some(string_from_range(&text, a, b))
            }
        },
    }
}

/// `flate2::read::GzDecoder` read to its end: the bytes it produced (all of them, where it
/// stopped at an error), and the text of that error.
#[verifier::external_body]
fn gunzip(data: &[u8]) -> (r: (Vec<u8>, Option<String>))
    ensures
        gzip_decoded(data@) == (r.0@, failure_text(r.1)),
{
    let mut out = Vec::new();
    let read = flate2::read::GzDecoder::new(data).read_to_end(&mut out);
    match read {
        Ok(_) => (out, None),
        Err(e) => (out, Some(e.to_string())),
    }
}

/// `xz2::read::XzDecoder` read to its end: the bytes it produced (all of them, where it
/// stopped at an error), and the text of that error.
#[verifier::external_body]
fn unxz(data: &[u8]) -> (r: (Vec<u8>, Option<String>))
    ensures
        xz_decoded(data@) == (r.0@, failure_text(r.1)),
{
    let mut out = Vec::new();
    let read = xz2::read::XzDecoder::new(data).read_to_end(&mut out);
    match read {
        Ok(_) => (out, None),
        Err(e) => (out, Some(e.to_string())),
    }
}

/// `bzip2::read::BzDecoder` read to its end: the bytes it produced (all of them, where it
/// stopped at an error), and the text of that error.
#[verifier::external_body]
fn bunzip2(data: &[u8]) -> (r: (Vec<u8>, Option<String>))
    ensures
        bzip2_decoded(data@) == (r.0@, failure_text(r.1)),
{
    let mut out = Vec::new();
    let read = bzip2::read::BzDecoder::new(data).read_to_end(&mut out);
    match read {
        Ok(_) => (out, None),
        Err(e) => (out, Some(e.to_string())),
    }
}

/// `zip::ZipArchive::new` over the bytes, then `len`: the number of
/// entries, or the text (`Display`) of the error.
#[verifier::external_body]
fn zip_count(data: &[u8]) -> (r: Result<usize, String>)
    ensures
        match r {
            Ok(n) => zip_entry_count(data@) == Ok::<nat, Seq<char>>(n as nat),
            Err(m) => zip_entry_count(data@) == Err::<nat, Seq<char>>(m@),
        },
{
    match zip::ZipArchive::new(std::io::Cursor::new(data)) {
        Ok(a) => Ok(a.len()),
        Err(e) => Err(e.to_string()),
    }
}

/// `zip::ZipArchive::new` over the bytes, then `by_index(i)`: the entry's
/// `name` and `mangled_name`, or the text of the error. `mangled_name`
/// keeps only the plain (`Normal`) components of the stored name, so the
/// path is a relative path of plain components.
#[verifier::external_body]
fn zip_header(data: &[u8], i: usize) -> (r: Result<(String, String), String>)
    ensures
        match r {
            Ok((name, path)) => zip_entry_header(data@, i as int) == Ok::<(Seq<char>, Seq<char>), Seq<char>>(
                (name@, path@),
            ) && plain_relative_path(path@),
            Err(m) => zip_entry_header(data@, i as int) == Err::<(Seq<char>, Seq<char>), Seq<char>>(m@),
        },
{
    let mut a = match zip::ZipArchive::new(std::io::Cursor::new(data)) {
        Ok(a) => a,
        Err(e) => return Err(e.to_string()),
    };
    let header = match a.by_index(i) {
        Ok(f) => Ok((f.name().to_string(), f.mangled_name().to_string_lossy().into_owned())),
        Err(e) => Err(e.to_string()),
    };
    header
}

/// `zip::ZipArchive::new` over the bytes, then `by_index(i)` read to its
/// end: the entry's contents, or the text of the error.
#[verifier::external_body]
fn zip_contents(data: &[u8], i: usize) -> (r: Result<Vec<u8>, String>)
    ensures
        match r {
            Ok(d) => zip_entry_contents(data@, i as int) == Ok::<Seq<u8>, Seq<char>>(d@),
            Err(m) => zip_entry_contents(data@, i as int) == Err::<Seq<u8>, Seq<char>>(m@),
        },
{
    let mut a = match zip::ZipArchive::new(std::io::Cursor::new(data)) {
        Ok(a) => a,
        Err(e) => return Err(e.to_string()),
    };
    let mut f = match a.by_index(i) {
        Ok(f) => f,
        Err(e) => return Err(e.to_string()),
    };
    let mut out = Vec::new();
    let contents = match f.read_to_end(&mut out) {
        Ok(_) => Ok(out),
        Err(e) => Err(e.to_string()),
    };
    contents
}

/// The archive format that `file_name` stands for.
pub fn archive_kind_of(file_name: &str) -> (r: Option<ArchiveKind>)
    ensures
        r == archive_kind(file_name@),
{
    let n = chars_of(file_name);
    if vec_ends_with(&n, &chars_of(".zip")) {
        Some(ArchiveKind::Zip)
    } else if vec_ends_with(&n, &chars_of(".tar.gz")) || vec_ends_with(&n, &chars_of(".tgz")) {
        Some(ArchiveKind::TarGz)
    } else if vec_ends_with(&n, &chars_of(".tar.xz")) {
        Some(ArchiveKind::TarXz)
    } else if vec_ends_with(&n, &chars_of(".tar.bz2")) {
        Some(ArchiveKind::TarBz2)
    } else if vec_ends_with(&n, &chars_of(".tar")) {
        Some(ArchiveKind::Tar)
    } else {
        None
    }
}

/// Decides how the package at `pkg_path` is unpacked into `output_dir`:
/// by the suffix of its file name, or not at all when the suffix is
/// unknown.
pub fn extract_package(pkg_path: &str, output_dir: &str) -> (r: Result<ExtractPlan, ExtractError>)
    ensures
        (r is Ok) <==> archive_kind(package_file_name(pkg_path@)) is Some,
        match r {
            Ok(plan) => Some(plan.kind) == archive_kind(package_file_name(pkg_path@))
                && plan.archive@ == pkg_path@ && plan.output_dir@ == output_dir@,
            Err(e) => e == ExtractError::UnsupportedFormat,
        },
{
    let kind = match file_name_of(pkg_path) {
        Some(name) => {
            assert(package_file_name(pkg_path@) == name@);
            archive_kind_of(name.as_str())
        },
        None => {
            proof {
                reveal_strlit("");
            }
            assert(""@ =~= Seq::<char>::empty());
            assert(package_file_name(pkg_path@) =~= Seq::<char>::empty());
            archive_kind_of("")
        },
    };
    match kind {
        Some(k) => Ok(
            ExtractPlan { kind: k, archive: pkg_path.to_string(), output_dir: output_dir.to_string() },
        ),
        None => Err(ExtractError::UnsupportedFormat),
    }
}

/// The tar data of a tarball of kind `kind` whose bytes are `data`:
/// decompressed for the compressed kinds, as it is for a plain tar. Where
/// decompression stops at an error, the bytes produced before it are kept
/// with the error, so that a reader meets it only past them.
pub fn decompress_tarball(kind: ArchiveKind, data: &[u8]) -> (r: TarStream)
    requires
        kind != ArchiveKind::Zip,
    ensures
        (r.data@, failure_text(r.failure)) == tar_stream(kind, data@),
{
    let (data, failure) = match kind {
        ArchiveKind::TarGz => gunzip(data),
        ArchiveKind::TarXz => unxz(data),
        ArchiveKind::TarBz2 => bunzip2(data),
        _ => (slice_to_vec(data), None),
    };
    TarStream { data, failure }
}

} // verus!
