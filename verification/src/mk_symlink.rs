//! Where an installed package's binaries get their links in `/usr/bin`.
use vstd::prelude::*;
use vstd::string::StringExecFns;
use crate::package::{Package, PackageView};

verus! {

broadcast use vstd::string::group_string_axioms;

/// One link to create: `link` points at `target`.
pub struct SymlinkPlan {
    pub target: String,
    pub link: String,
}

/// The link name of the `i`-th binary: the `i`-th symlink name, or the
/// package name when there are fewer symlink names than binaries.
pub open spec fn link_name(pkg: PackageView, i: int) -> Seq<char> {
    if i < pkg.symlink_names.len() {
        pkg.symlink_names[i]
    } else {
        pkg.name
    }
}

/// The link of a binary is named by the symlink name at its position, and
/// by the package name for every binary past the symlink names (all of
/// them when there are none); the binary's own path never names it.
pub proof fn law_link_name(pkg: PackageView, other: PackageView, i: int)
    requires
        0 <= i,
    ensures
        i < pkg.symlink_names.len() ==> link_name(pkg, i) == pkg.symlink_names[i],
        i >= pkg.symlink_names.len() ==> link_name(pkg, i) == pkg.name,
        pkg.symlink_names.len() == 0 ==> link_name(pkg, i) == pkg.name,
        other.name == pkg.name && other.symlink_names == pkg.symlink_names ==> link_name(other, i)
            == link_name(pkg, i),
{
}

/// Where the `i`-th binary lies under `bin_dir`: at its listed path for an
/// extracted archive, or as `<name>_<path>` for a bare binary.
pub open spec fn binary_path(bin_dir: Seq<char>, pkg: PackageView, i: int) -> Seq<char> {
    if pkg.extractable {
        bin_dir + "/"@ + pkg.binary_at[i]
    } else {
        bin_dir + "/"@ + pkg.name + "_"@ + pkg.binary_at[i]
    }
}

/// The links for the binaries of `pkginfo` installed under `bin_dir`, one
/// per binary in order. Desktop integration is turned off for a package
/// with more than one symlink name.
pub fn plan_symlinks(bin_dir: &str, pkginfo: &mut Package) -> (r: Vec<SymlinkPlan>)
    ensures
        final(pkginfo)@ == (PackageView {
            gui: old(pkginfo)@.gui && old(pkginfo)@.symlink_names.len() <= 1,
            ..old(pkginfo)@
        }),
        r.len() == old(pkginfo)@.binary_at.len(),
        forall|i: int|
            0 <= i < r.len() ==> (#[trigger] r@[i]).target@ == binary_path(
                bin_dir@,
                old(pkginfo)@,
                i,
            ) && r@[i].link@ == "/usr/bin/"@ + link_name(old(pkginfo)@, i),
{
    if pkginfo.gui && pkginfo.symlink_names.len() > 1 {
        pkginfo.gui = false;
    }
    let ghost p = pkginfo@;
    let mut r: Vec<SymlinkPlan> = Vec::new();
    let mut i: usize = 0;
    while i < pkginfo.binary_at.len()
        invariant
            i <= pkginfo.binary_at.len(),
            pkginfo@ == p,
            r.len() == i,
            forall|k: int|
                0 <= k < i ==> (#[trigger] r@[k]).target@ == binary_path(bin_dir@, p, k)
                    && r@[k].link@ == "/usr/bin/"@ + link_name(p, k),
        decreases pkginfo.binary_at.len() - i,
    {
        let slinkn: &String = if i < pkginfo.symlink_names.len() {
            &pkginfo.symlink_names[i]
        } else {
            &pkginfo.name
        };
        let mut target = bin_dir.to_string();
        target.append("/");
        if !pkginfo.extractable {
            target.append(pkginfo.name.as_str());
            target.append("_");
        }
        target.append(pkginfo.binary_at[i].as_str());
        let mut link = "/usr/bin/".to_string();
        link.append(slinkn.as_str());
        assert(target@ =~= binary_path(bin_dir@, p, i as int));
        r.push(SymlinkPlan { target, link });
        i = i + 1;
    }
    r
}

} // verus!
