use gob::package::{Package, PackageIndex};
use gob::parse_pkg_index::ppkgi;

fn s(x: &str) -> String {
    x.to_string()
}

fn sv(xs: &[&str]) -> Vec<String> {
    xs.iter().map(|x| x.to_string()).collect()
}

const SAMPLE: &str = "\
{
  name = hello
  version = 1.2.3
  description = Says hello = greets
  depends = libc, , zlib ,
  url = https://example.com/dl/hello.tar.gz?raw=1
  binary-at = bin/hello, bin/hi
  symlink-names = hello
  desktop = true
  icon = https://example.com/hello.png
}

{
name=raw
url=https://example.com/raw
extractable=false
}
";

#[test]
fn parses_all_fields() {
    let idx = ppkgi(&s(SAMPLE));
    assert_eq!(idx.len(), 2);
    let p = idx.get(&s("hello")).unwrap();
    assert_eq!(p.name, "hello");
    assert_eq!(p.version, "1.2.3");
    assert_eq!(p.description, "Says hello = greets");
    assert_eq!(p.depends, sv(&["libc", "zlib"]));
    assert_eq!(p.url, "https://example.com/dl/hello.tar.gz?raw=1");
    assert_eq!(p.binary_at, sv(&["bin/hello", "bin/hi"]));
    assert_eq!(p.symlink_names, sv(&["hello"]));
    assert!(p.gui);
    assert_eq!(p.icon_at, "https://example.com/hello.png");
    assert!(p.extractable);
}

#[test]
fn defaults_and_extractable_false() {
    let idx = ppkgi(&s(SAMPLE));
    let p = idx.get(&s("raw")).unwrap();
    assert_eq!(p.version, "");
    assert!(p.depends.is_empty());
    assert!(!p.gui);
    assert!(!p.extractable);
}

#[test]
fn empty_index_has_no_packages() {
    assert_eq!(ppkgi(&s("")).len(), 0);
    assert_eq!(ppkgi(&s("\n\n   \n")).len(), 0);
}

#[test]
fn block_without_name_is_dropped() {
    let idx = ppkgi(&s("{\nversion = 1\n}\n"));
    assert_eq!(idx.len(), 0);
}

#[test]
fn later_definition_replaces_earlier() {
    let idx = ppkgi(&s("{\nname=a\nversion=1\n}\n{\nname=a\nversion=2\n}\n"));
    assert_eq!(idx.len(), 1);
    assert_eq!(idx.get(&s("a")).unwrap().version, "2");
}

#[test]
fn later_field_overrides_earlier_field() {
    let idx = ppkgi(&s("{\nname=a\nversion=1\nversion=3\n}"));
    assert_eq!(idx.get(&s("a")).unwrap().version, "3");
}

#[test]
fn empty_list_keeps_earlier_list() {
    let idx = ppkgi(&s("{\nname=a\ndepends=x,y\ndepends=\n}"));
    assert_eq!(idx.get(&s("a")).unwrap().depends, sv(&["x", "y"]));
}

#[test]
fn lines_outside_blocks_are_ignored() {
    let idx = ppkgi(&s("name=outside\n{\nname=inside\n}\nname=after\n"));
    assert_eq!(idx.len(), 1);
    assert!(idx.contains_key(&s("inside")));
    assert!(!idx.contains_key(&s("outside")));
}

#[test]
fn closing_line_reuses_last_block() {
    let idx = ppkgi(&s("{\nname=a\n}\nname=b\n}\n"));
    assert_eq!(idx.len(), 1);
    assert!(idx.contains_key(&s("a")));
}

#[test]
fn crlf_and_indentation_are_trimmed() {
    let idx = ppkgi(&s("  {  \r\n\t name =  spaced \r\n desktop = yes\r\n }\r\n"));
    let p = idx.get(&s("spaced")).unwrap();
    assert_eq!(p.name, "spaced");
    assert!(!p.gui);
}

#[test]
fn unknown_keys_and_lines_without_equals_are_ignored() {
    let idx = ppkgi(&s("{\nname=a\ncolour=blue\njust text\n}"));
    let p = idx.get(&s("a")).unwrap();
    assert_eq!(p.version, "");
}

#[test]
fn keys_are_names_and_lists_are_clean() {
    let idx = ppkgi(&s(SAMPLE));
    for p in idx.packages() {
        assert!(!p.name.is_empty());
        assert_eq!(idx.get(&p.name).unwrap().name, p.name);
        for item in p.depends.iter().chain(p.binary_at.iter()).chain(p.symlink_names.iter()) {
            assert!(!item.is_empty());
            assert_eq!(item.trim(), item);
        }
    }
}

#[test]
fn index_insert_keeps_names_distinct() {
    let mut idx = PackageIndex::new();
    let mk = |n: &str, v: &str| Package {
        name: s(n),
        version: s(v),
        description: s(""),
        depends: vec![],
        url: s(""),
        binary_at: vec![],
        symlink_names: vec![],
        gui: false,
        icon_at: s(""),
        extractable: true,
    };
    idx.insert(mk("a", "1"));
    idx.insert(mk("b", "1"));
    idx.insert(mk("a", "2"));
    assert_eq!(idx.len(), 2);
    assert_eq!(idx.packages()[0].name, "a");
    assert_eq!(idx.packages()[0].version, "2");
    assert_eq!(idx.packages()[1].name, "b");
}

#[test]
fn unicode_whitespace_is_trimmed() {
    let idx = ppkgi(&s("\u{3000}{\n\u{a0}name\u{2003}=\u{2028}wide\u{85}\n}\u{205f}\n"));
    assert!(idx.contains_key(&s("wide")));
}

#[test]
fn first_equals_splits_key_and_value() {
    let idx = ppkgi(&s("{\nname = a=b\nurl==x\n}"));
    let p = idx.get(&s("a=b")).unwrap();
    assert_eq!(p.url, "=x");
}

#[test]
fn last_named_block_wins_and_fields_come_from_last_lines() {
    let text = "{\nname=a\nversion=1\nversion=2\ndesktop=true\ndesktop=false\nbinary-at=x,y\nbinary-at=\n}\n\
                {\nname=b\n}\n{\nname=c\nname=a\nextractable=False\n}\n";
    let idx = ppkgi(&s(text));
    assert_eq!(idx.len(), 2);
    let a = idx.get(&s("a")).unwrap();
    assert_eq!(a.version, "");
    assert!(!a.gui);
    assert!(a.extractable);
    assert!(!idx.contains_key(&s("c")));
    let idx2 = ppkgi(&s("{\nname=a\nversion=1\nversion=2\ndesktop=true\ndesktop=false\nbinary-at=x,y\nbinary-at=\n}\n"));
    let a2 = idx2.get(&s("a")).unwrap();
    assert_eq!(a2.version, "2");
    assert!(a2.gui);
    assert_eq!(a2.binary_at, sv(&["x", "y"]));
}
