//! Downloading a package: where the download goes, and the progress that
//! the downloader keeps while the chunks arrive.
use vstd::prelude::*;
use vstd::string::StringExecFns;
use crate::package::Package;
use crate::text::{chars_of, slices, split, split_range, string_from_range};

verus! {

broadcast use vstd::string::group_string_axioms;

/// The file part of a URL: the text after its last `/`, cut at the first
/// `?` (`url.split('/').last()`, then `.split('?').next()`).
pub open spec fn url_file_part(url: Seq<char>) -> Seq<char> {
    split(split(url, '/').last(), '?')[0]
}

/// The name that a package's download is saved under: `<name>_<file part>`.
pub open spec fn download_file_name(name: Seq<char>, url: Seq<char>) -> Seq<char> {
    name + "_"@ + url_file_part(url)
}

/// The path that a package's download is saved at, for the given host name:
/// `/home/<host>/.gob/<download file name>`.
pub open spec fn download_target(host: Seq<char>, name: Seq<char>, url: Seq<char>) -> Seq<char> {
    "/home/"@ + host + "/.gob/"@ + download_file_name(name, url)
}

/// The file part of `url`.
pub fn url_file_name(url: &str) -> (r: String)
    ensures
        r@ == url_file_part(url@),
{
    let text = chars_of(url);
    assert(text@.subrange(0, text.len() as int) =~= text@);
    let parts = split_range(&text, 0, text.len(), '/');
    let (a, b) = parts[parts.len() - 1];
    assert(slices(text@, parts@)[parts.len() - 1] == text@.subrange(a as int, b as int));
    assert(0 <= parts@[parts.len() - 1].0 <= parts@[parts.len() - 1].1 <= text.len());
    let pieces = split_range(&text, a, b, '?');
    let (c, d) = pieces[0];
    assert(slices(text@, pieces@)[0] == text@.subrange(c as int, d as int));
    assert(a <= pieces@[0].0 <= pieces@[0].1 <= b);
    string_from_range(&text, c, d)
}

/// The name that the download of `pkg` is saved under.
pub fn package_download_name(pkg: &Package) -> (r: String)
    ensures
        r@ == download_file_name(pkg.name@, pkg.url@),
{
    let mut r = pkg.name.clone();
    r.append("_");
    let part = url_file_name(pkg.url.as_str());
    r.append(part.as_str());
    r
}

/// The path that the download of `pkg` is saved at on host `host`.
pub fn download_path(host: &str, pkg: &Package) -> (r: String)
    ensures
        r@ == download_target(host@, pkg.name@, pkg.url@),
{
    let mut r = "/home/".to_string();
    r.append(host);
    r.append("/.gob/");
    let name = package_download_name(pkg);
    r.append(name.as_str());
    assert(r@ =~= download_target(host@, pkg.name@, pkg.url@));
    r
}

} // verus!
