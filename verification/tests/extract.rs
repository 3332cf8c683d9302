use std::io::Write;

use std::io::Read;

use gob::extract::{archive_kind_of, decompress_tarball, extract_package, ArchiveKind, ExtractError, TarStream};

#[test]
fn kinds_by_suffix() {
    assert_eq!(archive_kind_of("a.zip"), Some(ArchiveKind::Zip));
    assert_eq!(archive_kind_of("a.tar.gz"), Some(ArchiveKind::TarGz));
    assert_eq!(archive_kind_of("a.tgz"), Some(ArchiveKind::TarGz));
    assert_eq!(archive_kind_of("a.tar.xz"), Some(ArchiveKind::TarXz));
    assert_eq!(archive_kind_of("a.tar.bz2"), Some(ArchiveKind::TarBz2));
    assert_eq!(archive_kind_of("a.tar"), Some(ArchiveKind::Tar));
    assert_eq!(archive_kind_of("a.gz"), None);
    assert_eq!(archive_kind_of(""), None);
    assert_eq!(archive_kind_of(".tar"), Some(ArchiveKind::Tar));
}

#[test]
fn extract_package_uses_the_file_name() {
    let plan = extract_package("/home/u/.gob/tool_tool-1.0.tar.xz", "/home/u/.gob/tool").ok().unwrap();
    assert_eq!(plan.kind, ArchiveKind::TarXz);
    assert_eq!(plan.archive, "/home/u/.gob/tool_tool-1.0.tar.xz");
    assert_eq!(plan.output_dir, "/home/u/.gob/tool");
}

#[test]
fn extract_package_rejects_unknown_formats() {
    assert_eq!(extract_package("/tmp/pkg.rar", "/tmp/out").err(), Some(ExtractError::UnsupportedFormat));
    assert_eq!(extract_package("/tmp/zip/..", "/tmp/out").err(), Some(ExtractError::UnsupportedFormat));
}

#[test]
fn directory_part_does_not_decide() {
    assert_eq!(extract_package("/tmp/x.zip/binary", "/o").err(), Some(ExtractError::UnsupportedFormat));
}

const PLAIN: &[u8] = b"the tar stream inside the package";

fn whole(stream: TarStream) -> Vec<u8> {
    assert_eq!(stream.failure, None);
    stream.data
}

fn gzipped(data: &[u8]) -> Vec<u8> {
    let mut e = flate2::write::GzEncoder::new(Vec::new(), flate2::Compression::default());
    e.write_all(data).unwrap();
    e.finish().unwrap()
}

#[test]
fn gzip_is_decompressed() {
    let packed = gzipped(PLAIN);
    assert_eq!(whole(decompress_tarball(ArchiveKind::TarGz, &packed)), PLAIN.to_vec());
}

#[test]
fn xz_is_decompressed() {
    let mut e = xz2::write::XzEncoder::new(Vec::new(), 6);
    e.write_all(PLAIN).unwrap();
    let packed = e.finish().unwrap();
    assert_eq!(whole(decompress_tarball(ArchiveKind::TarXz, &packed)), PLAIN.to_vec());
}

#[test]
fn bzip2_is_decompressed() {
    let mut e = bzip2::write::BzEncoder::new(Vec::new(), bzip2::Compression::default());
    e.write_all(PLAIN).unwrap();
    let packed = e.finish().unwrap();
    assert_eq!(whole(decompress_tarball(ArchiveKind::TarBz2, &packed)), PLAIN.to_vec());
}

#[test]
fn plain_tar_is_kept() {
    assert_eq!(whole(decompress_tarball(ArchiveKind::Tar, PLAIN)), PLAIN.to_vec());
}

#[test]
fn corrupt_data_is_reported() {
    for kind in [ArchiveKind::TarGz, ArchiveKind::TarXz, ArchiveKind::TarBz2] {
        let stream = decompress_tarball(kind, PLAIN);
        assert!(stream.data.is_empty(), "{:?}", kind);
        assert!(stream.failure.is_some(), "{:?}", kind);
    }
}

#[test]
fn gzip_error_message_is_the_decoders() {
    let mut expected = Vec::new();
    let message = flate2::read::GzDecoder::new(PLAIN).read_to_end(&mut expected).unwrap_err().to_string();
    assert_eq!(decompress_tarball(ArchiveKind::TarGz, PLAIN).failure, Some(message));
}

#[test]
fn damaged_gzip_trailer_keeps_the_data() {
    let mut packed = gzipped(PLAIN);
    let crc_at = packed.len() - 8;
    packed[crc_at] ^= 0xff;
    let stream = decompress_tarball(ArchiveKind::TarGz, &packed);
    assert_eq!(stream.data, PLAIN.to_vec());
    assert!(stream.failure.is_some());
}

#[test]
fn file_name_is_the_last_component() {
    assert_eq!(extract_package("/tmp/a.tar/.", "/o").ok().unwrap().kind, ArchiveKind::Tar);
    assert_eq!(extract_package("/tmp/a.zip/", "/o").ok().unwrap().kind, ArchiveKind::Zip);
    assert_eq!(extract_package("pkg.tgz", "/o").ok().unwrap().kind, ArchiveKind::TarGz);
}
