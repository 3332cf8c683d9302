use std::io::{Cursor, Read, Write};

use gob::extract::{file_name_of, plan_zip_extraction, ZipPlan, ZipWrite};

fn make_zip(entries: &[(&str, Option<&[u8]>)]) -> Vec<u8> {
    let mut w = zip::ZipWriter::new(Cursor::new(Vec::new()));
    let opts = zip::write::SimpleFileOptions::default();
    for (name, data) in entries {
        match data {
            None => w.add_directory(*name, opts).unwrap(),
            Some(d) => {
                w.start_file(*name, opts).unwrap();
                w.write_all(d).unwrap();
            }
        }
    }
    w.finish().unwrap().into_inner()
}

fn complete(plan: ZipPlan) -> Vec<ZipWrite> {
    assert_eq!(plan.failure, None);
    plan.writes
}

fn shown(w: &ZipWrite) -> (String, Option<Vec<u8>>) {
    match w {
        ZipWrite::Dir(p) => (p.clone(), None),
        ZipWrite::File(p, d) => (p.clone(), Some(d.clone())),
    }
}

#[test]
fn zip_entries_become_writes_in_order() {
    let data = make_zip(&[("bin/", None), ("bin/tool", Some(b"ELF")), ("README", Some(b"hi"))]);
    let writes = complete(plan_zip_extraction("/out", &data));
    let got: Vec<_> = writes.iter().map(shown).collect();
    assert_eq!(
        got,
        vec![
            ("/out/bin".to_string(), None),
            ("/out/bin/tool".to_string(), Some(b"ELF".to_vec())),
            ("/out/README".to_string(), Some(b"hi".to_vec())),
        ]
    );
}

#[test]
fn zip_paths_stay_inside_output_dir() {
    let data = make_zip(&[("../../etc/evil", Some(b"x")), ("/abs/file", Some(b"y")), ("a/./b/../c", Some(b"z"))]);
    let writes = complete(plan_zip_extraction("/out/", &data));
    let got: Vec<_> = writes.iter().map(|w| shown(w).0).collect();
    assert_eq!(got, vec!["/out/etc/evil", "/out/abs/file", "/out/a/b/c"]);
}

#[test]
fn zip_into_empty_dir_is_relative() {
    let data = make_zip(&[("f", Some(b""))]);
    let writes = complete(plan_zip_extraction("", &data));
    assert_eq!(shown(&writes[0]).0, "f");
}

#[test]
fn corrupt_zip_is_reported() {
    let expected = zip::ZipArchive::new(Cursor::new(&b"not a zip"[..])).unwrap_err().to_string();
    let plan = plan_zip_extraction("/out", b"not a zip");
    assert!(plan.writes.is_empty());
    assert_eq!(plan.failure, Some(expected));
}

#[test]
fn empty_zip_writes_nothing() {
    let data = make_zip(&[]);
    assert!(complete(plan_zip_extraction("/out", &data)).is_empty());
}

fn stored_zip(entries: &[(&str, &[u8])]) -> Vec<u8> {
    let mut w = zip::ZipWriter::new(Cursor::new(Vec::new()));
    let opts = zip::write::SimpleFileOptions::default().compression_method(zip::CompressionMethod::Stored);
    for (name, data) in entries {
        w.start_file(*name, opts).unwrap();
        w.write_all(data).unwrap();
    }
    w.finish().unwrap().into_inner()
}

fn damage(data: &mut [u8], needle: &[u8]) {
    let at = data.windows(needle.len()).position(|w| w == needle).unwrap();
    data[at] ^= 0xff;
}

#[test]
fn zip_keeps_entries_before_an_unreadable_one() {
    let mut data = stored_zip(&[("a", b"first-entry"), ("b", b"second-entry"), ("c", b"third-entry"), ("d", b"fourth")]);
    damage(&mut data, b"third-entry");
    let mut archive = zip::ZipArchive::new(Cursor::new(&data[..])).unwrap();
    let mut entry = archive.by_index(2).unwrap();
    let expected = entry.read_to_end(&mut Vec::new()).unwrap_err().to_string();
    let plan = plan_zip_extraction("/out", &data);
    let got: Vec<_> = plan.writes.iter().map(shown).collect();
    assert_eq!(
        got,
        vec![
            ("/out/a".to_string(), Some(b"first-entry".to_vec())),
            ("/out/b".to_string(), Some(b"second-entry".to_vec())),
        ]
    );
    assert_eq!(plan.failure, Some(expected));
}

#[test]
fn zip_failure_at_first_entry_writes_nothing() {
    let mut data = stored_zip(&[("only", b"the-only-entry")]);
    damage(&mut data, b"the-only-entry");
    let plan = plan_zip_extraction("/out", &data);
    assert!(plan.writes.is_empty());
    assert!(plan.failure.is_some());
}

#[test]
fn file_name_agrees_with_std() {
    let paths = [
        "", "/", ".", "..", "./", "a", "a/", "a/b", "/a/b/", "a/.", "a/./", "a/..", "../a", "./a",
        "a//b", "a/b/.//", "//x", "a.tar.gz", "dir/a.zip/.", ".hidden", "a/...", "x/.../",
    ];
    for p in paths {
        let expected = std::path::Path::new(p).file_name().and_then(|s| s.to_str()).map(|s| s.to_string());
        assert_eq!(file_name_of(p), expected, "path {:?}", p);
    }
}
