use gob::getpkg::{download_path, package_download_name, url_file_name};
use gob::mk_symlink::plan_symlinks;
use gob::ndraey_dm_custom::DownloadProgress;
use gob::package::Package;

fn s(x: &str) -> String {
    x.to_string()
}

fn pkg(name: &str, url: &str, bins: &[&str], links: &[&str], gui: bool, extractable: bool) -> Package {
    Package {
        name: s(name),
        version: s("1"),
        description: s(""),
        depends: vec![],
        url: s(url),
        binary_at: bins.iter().map(|b| s(b)).collect(),
        symlink_names: links.iter().map(|l| s(l)).collect(),
        gui,
        icon_at: s(""),
        extractable,
    }
}

#[test]
fn url_file_part_cuts_path_and_query() {
    assert_eq!(url_file_name("https://host/a/b/tool.tar.gz?raw=true&x=1"), "tool.tar.gz");
    assert_eq!(url_file_name("https://host/a/"), "");
    assert_eq!(url_file_name("no-slash"), "no-slash");
    assert_eq!(url_file_name("https://host/a?b/c"), "c");
}

#[test]
fn download_name_and_path() {
    let p = pkg("tool", "https://host/rel/tool-1.0.zip?dl=1", &[], &[], false, true);
    assert_eq!(package_download_name(&p), "tool_tool-1.0.zip");
    assert_eq!(download_path("box", &p), "/home/box/.gob/tool_tool-1.0.zip");
}

#[test]
fn symlinks_for_extracted_package() {
    let mut p = pkg("tool", "", &["bin/a", "bin/b", "bin/c"], &["a", "b"], true, true);
    let plans = plan_symlinks("/home/u/.gob/tool", &mut p);
    assert_eq!(plans.len(), 3);
    assert_eq!(plans[0].target, "/home/u/.gob/tool/bin/a");
    assert_eq!(plans[0].link, "/usr/bin/a");
    assert_eq!(plans[1].link, "/usr/bin/b");
    assert_eq!(plans[2].target, "/home/u/.gob/tool/bin/c");
    assert_eq!(plans[2].link, "/usr/bin/tool");
    assert!(!p.gui);
}

#[test]
fn symlinks_for_bare_binary() {
    let mut p = pkg("tool", "", &["tool-linux"], &["tool"], true, false);
    let plans = plan_symlinks("/home/u/.gob", &mut p);
    assert_eq!(plans.len(), 1);
    assert_eq!(plans[0].target, "/home/u/.gob/tool_tool-linux");
    assert_eq!(plans[0].link, "/usr/bin/tool");
    assert!(p.gui);
}

#[test]
fn no_binaries_no_links() {
    let mut p = pkg("tool", "", &[], &["x", "y"], false, true);
    assert!(plan_symlinks("/d", &mut p).is_empty());
    assert!(!p.gui);
}

#[test]
fn progress_counts_bytes_and_speed() {
    let mut pr = DownloadProgress::new(100);
    pr.record_chunk(10, 100);
    pr.record_chunk(5, 100);
    assert_eq!(pr.downloaded, 15);
    assert_eq!(pr.downloaded_in_sec, 15);
    assert_eq!(pr.speed, 0);
    pr.record_chunk(7, 101);
    assert_eq!(pr.downloaded, 22);
    assert_eq!(pr.speed, 22);
    assert_eq!(pr.downloaded_in_sec, 0);
    assert_eq!(pr.last_second, 101);
    pr.record_chunk(3, 101);
    assert_eq!(pr.downloaded_in_sec, 3);
    assert_eq!(pr.speed, 22);
}
