use gob::cli::{
    default_index_path, install_dir, package_dir, parse_command, parse_invocation, path_has_dir,
    path_with_dir, shell_config_entries, Command,
};
use gob::cli::{install_method, InstallMethod};
use gob::displaypkginfdo::package_info_rows;
use gob::package::Package;

fn sv(xs: &[&str]) -> Vec<String> {
    xs.iter().map(|x| x.to_string()).collect()
}

#[test]
fn command_words() {
    assert_eq!(parse_command("help"), Command::Help);
    assert_eq!(parse_command("h"), Command::Help);
    assert_eq!(parse_command("update"), Command::Update);
    assert_eq!(parse_command("__dbg_pkg__"), Command::DumpIndex);
    assert_eq!(parse_command("about"), Command::Info);
    assert_eq!(parse_command("info"), Command::Info);
    assert_eq!(parse_command("look"), Command::Search);
    assert_eq!(parse_command("find"), Command::Search);
    assert_eq!(parse_command("search"), Command::Search);
    assert_eq!(parse_command("local-install"), Command::LocalInstall);
    assert_eq!(parse_command("install"), Command::Install);
    assert_eq!(parse_command("Install"), Command::Invalid);
    assert_eq!(parse_command(""), Command::Invalid);
}

#[test]
fn invocation_without_index_file() {
    let inv = parse_invocation(&sv(&["gob", "search", "vim", "git"]), "box");
    assert_eq!(inv.command, "search");
    assert_eq!(inv.search_terms, sv(&["vim", "git"]));
    assert_eq!(inv.index_file, "/home/box/.gobbled.gob");
}

#[test]
fn invocation_with_index_file_among_terms() {
    let inv = parse_invocation(&sv(&["gob", "install", "vim", "indexfile=/tmp/i.gob", "git"]), "box");
    assert_eq!(inv.search_terms, sv(&["vim", "git"]));
    assert_eq!(inv.index_file, "/tmp/i.gob");
}

#[test]
fn only_first_index_file_argument_counts() {
    let inv = parse_invocation(&sv(&["gob", "install", "indexfile=a", "indexfile=b"]), "box");
    assert_eq!(inv.index_file, "a");
    assert_eq!(inv.search_terms, sv(&["indexfile=b"]));
}

#[test]
fn repeated_prefix_is_stripped() {
    let inv = parse_invocation(&sv(&["gob", "search", "indexfile=indexfile=x"]), "h");
    assert_eq!(inv.index_file, "x");
}

#[test]
fn index_file_in_command_position() {
    let inv = parse_invocation(&sv(&["gob", "indexfile=/i", "vim"]), "h");
    assert_eq!(inv.command, "indexfile=/i");
    assert_eq!(inv.index_file, "/i");
    assert_eq!(inv.search_terms, sv(&["vim"]));
    assert_eq!(parse_command(&inv.command), Command::Invalid);
}

#[test]
fn paths() {
    assert_eq!(default_index_path("box"), "/home/box/.gobbled.gob");
    assert_eq!(install_dir("box"), "/home/box/.gob");
    assert_eq!(package_dir("/home/box/.gob", "vim"), "/home/box/.gob/vim");
    assert_eq!(path_with_dir("/g", "/usr/bin:/bin"), "/g:/usr/bin:/bin");
}

#[test]
fn search_path_entries() {
    assert!(path_has_dir("/usr/bin:/home/b/.gob:/bin", "/home/b/.gob"));
    assert!(!path_has_dir("/usr/bin:/home/b/.gob/x", "/home/b/.gob"));
    assert!(!path_has_dir("", "/home/b/.gob"));
    assert!(path_has_dir("", ""));
    assert!(path_has_dir("/a::/b", ""));
}

#[test]
fn shell_files() {
    let e = shell_config_entries("/home/b", "/home/b/.gob");
    assert_eq!(e.len(), 3);
    assert_eq!(e[0], ("/home/b/.bashrc".to_string(), "\nexport PATH=\"/home/b/.gob:$PATH\"\n".to_string()));
    assert_eq!(e[1], ("/home/b/.zshrc".to_string(), "\nexport PATH=\"/home/b/.gob:$PATH\"\n".to_string()));
    assert_eq!(
        e[2],
        ("/home/b/.config/fish/config.fish".to_string(), "\nset -x PATH /home/b/.gob $PATH\n".to_string())
    );
}

#[test]
fn info_rows() {
    let p = Package {
        name: "vim".to_string(),
        version: "9.1".to_string(),
        description: "editor".to_string(),
        depends: vec![],
        url: "u".to_string(),
        binary_at: sv(&["bin/vim", "bin/vi"]),
        symlink_names: sv(&["vim", "vi"]),
        gui: false,
        icon_at: "i.png".to_string(),
        extractable: true,
    };
    let rows = package_info_rows("vim", &p, "\n");
    let expect = vec![
        ("Name", "vim"),
        ("Version", "9.1"),
        ("Description", "editor"),
        ("Supports GUI", "No"),
        ("Binary Located at", "bin/vim\nbin/vi"),
        ("Symlink it creates", "vim, vi"),
        ("Icon URL", "i.png"),
    ];
    let got: Vec<(&str, &str)> = rows.iter().map(|(a, b)| (a.as_str(), b.as_str())).collect();
    assert_eq!(got, expect);
    let rows = package_info_rows("vim", &Package { gui: true, binary_at: vec![], ..p.clone() }, "|");
    assert_eq!(rows[3].1, "Yes");
    assert_eq!(rows[4].1, "");
}

#[test]
fn install_methods() {
    let mut p = Package {
        name: "vim".to_string(),
        version: String::new(),
        description: String::new(),
        depends: vec![],
        url: String::new(),
        binary_at: vec![],
        symlink_names: vec![],
        gui: false,
        icon_at: String::new(),
        extractable: true,
    };
    match install_method("box", "vim", &p) {
        InstallMethod::Unpack { extract_dir, package_dir } => {
            assert_eq!(extract_dir, "/home/box/.gob/vim");
            assert_eq!(package_dir, "/home/box/.gob/vim");
        }
        InstallMethod::Place { .. } => panic!("expected unpack"),
    }
    p.extractable = false;
    match install_method("box", "vim", &p) {
        InstallMethod::Place { binary_path } => assert_eq!(binary_path, "/home/box/.gob/vim"),
        InstallMethod::Unpack { .. } => panic!("expected place"),
    }
}
