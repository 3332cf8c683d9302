# gob

A package manager that installs prebuilt binaries listed in a plain-text
package index. The library (`src/`) is verified with Verus; the command-line
program (`app/`) does the file, network and terminal work around it.

- `text`: trimming, splitting, searching and joining over `Seq<char>`.
- `package`: packages and the index of packages keyed by name.
- `parse_pkg_index`: the index format, its parser `ppkgi`, and its laws.
- `search`: exact and substring lookups used by `install`, `search`, `info`.
- `extract`: archive format by file name, decompression of tarballs, the
  files and directories that a zip archive writes (never outside the target).
- `getpkg`, `ndraey_dm_custom`: download paths and download progress.
- `mk_symlink`: the links an installation creates.
- `cli`: commands, arguments, install paths and methods, shell settings.
- `displaypkginfdo`: the fields shown for a package.
