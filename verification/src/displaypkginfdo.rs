//! The fields shown for a package by `info` and in the package table.
use vstd::prelude::*;
use crate::package::{Package, PackageView};
use crate::text::{join, join_strings};

verus! {

broadcast use vstd::string::group_string_axioms;

/// The label and value of each field shown for package `name`, in order:
/// name, version, description, GUI support, binary paths (joined with
/// `binary_sep`), symlink names (joined with `, `) and icon URL.
pub open spec fn info_rows(name: Seq<char>, pkg: PackageView, binary_sep: Seq<char>) -> Seq<
    (Seq<char>, Seq<char>),
> {
    seq![
        ("Name"@, name),
        ("Version"@, pkg.version),
        ("Description"@, pkg.description),
        ("Supports GUI"@, if pkg.gui { "Yes"@ } else { "No"@ }),
        ("Binary Located at"@, join(pkg.binary_at, binary_sep)),
        ("Symlink it creates"@, join(pkg.symlink_names, ", "@)),
        ("Icon URL"@, pkg.icon_at),
    ]
}

/// The views of a sequence of string pairs.
pub open spec fn pair_views(v: Seq<(String, String)>) -> Seq<(Seq<char>, Seq<char>)> {
    v.map_values(|p: (String, String)| (p.0@, p.1@))
}

/// The rows that describe package `name`, whose entry is `pkg`.
pub fn package_info_rows(name: &str, pkg: &Package, binary_sep: &str) -> (r: Vec<(String, String)>)
    ensures
        pair_views(r@) == info_rows(name@, pkg@, binary_sep@),
{
    let mut r: Vec<(String, String)> = Vec::new();
    r.push(("Name".to_string(), name.to_string()));
    r.push(("Version".to_string(), pkg.version.clone()));
    r.push(("Description".to_string(), pkg.description.clone()));
    let gui = if pkg.gui {
        "Yes".to_string()
    } else {
        "No".to_string()
    };
    r.push(("Supports GUI".to_string(), gui));
    r.push(("Binary Located at".to_string(), join_strings(&pkg.binary_at, binary_sep)));
    r.push(("Symlink it creates".to_string(), join_strings(&pkg.symlink_names, ", ")));
    r.push(("Icon URL".to_string(), pkg.icon_at.clone()));
    assert(pair_views(r@) =~= info_rows(name@, pkg@, binary_sep@));
    r
}

} // verus!
