//! The package index format and its parser.
//!
//! An index is text. Each line is trimmed and blank lines are ignored. A
//! line that starts with `{` opens a block, a line that starts with `}`
//! closes it, and the lines in between are `key = value` fields of one
//! package. A package is recorded under its `name` when the block closes,
//! if it has one; a later package of the same name replaces an earlier one.
use vstd::prelude::*;
pub use crate::package::Package;
use crate::package::{PackageIndex, PackageView};
use crate::text::{
    chars_of, is_ws, ranges_within, trim_end, trim_start, range_equals, slices, split, split_range, string_from_range,
    trim, trim_range, views,
};

verus! {

/// The fields of a block with no `key = value` line.
pub open spec fn default_package() -> PackageView {
    PackageView {
        name: Seq::empty(),
        version: Seq::empty(),
        description: Seq::empty(),
        depends: Seq::empty(),
        url: Seq::empty(),
        binary_at: Seq::empty(),
        symlink_names: Seq::empty(),
        gui: false,
        icon_at: Seq::empty(),
        extractable: true,
    }
}

/// `p` is the position of the first `c` in `s`.
pub open spec fn is_first(s: Seq<char>, c: char, p: int) -> bool {
    0 <= p < s.len() && s[p] == c && forall|k: int| 0 <= k < p ==> s[k] != c
}

/// `str::find` with a `char` pattern: the position of the first `c` in `s`.
pub open spec fn find_char(s: Seq<char>, c: char) -> Option<int> {
    if exists|p: int| is_first(s, c, p) {
        Some(choose|p: int| is_first(s, c, p))
    } else {
        None
    }
}

/// The items of a comma-separated list value: each piece trimmed, empty
/// pieces dropped.
pub open spec fn list_items(value: Seq<char>) -> Seq<Seq<char>> {
    split(value, ',').map_values(|p: Seq<char>| trim(p)).filter(|p: Seq<char>| p.len() > 0)
}

/// The key and value of a block line: the trimmed text before its first
/// `=` and the trimmed text after it; nothing for a line without `=`.
pub open spec fn line_field(line: Seq<char>) -> Option<(Seq<char>, Seq<char>)> {
    match find_char(line, '=') {
        None => None,
        Some(pos) => Some(
            (trim(line.subrange(0, pos)), trim(line.subrange(pos + 1, line.len() as int))),
        ),
    }
}

/// The effect of one line of a block on the package being built.
pub open spec fn apply_field(pkg: PackageView, line: Seq<char>) -> PackageView {
    match line_field(line) {
        None => pkg,
        Some((key, value)) => {
            if key == "name"@ {
                PackageView { name: value, ..pkg }
            } else if key == "version"@ {
                PackageView { version: value, ..pkg }
            } else if key == "description"@ {
                PackageView { description: value, ..pkg }
            } else if key == "depends"@ {
                if value.len() > 0 {
                    PackageView { depends: list_items(value), ..pkg }
                } else {
                    pkg
                }
            } else if key == "url"@ {
                PackageView { url: value, ..pkg }
            } else if key == "binary-at"@ {
                if value.len() > 0 {
                    PackageView { binary_at: list_items(value), ..pkg }
                } else {
                    pkg
                }
            } else if key == "symlink-names"@ {
                if value.len() > 0 {
                    PackageView { symlink_names: list_items(value), ..pkg }
                } else {
                    pkg
                }
            } else if key == "desktop"@ {
                if value == "true"@ {
                    PackageView { gui: true, ..pkg }
                } else {
                    pkg
                }
            } else if key == "icon"@ {
                PackageView { icon_at: value, ..pkg }
            } else if key == "extractable"@ {
                if value == "false"@ {
                    PackageView { extractable: false, ..pkg }
                } else {
                    pkg
                }
            } else {
                pkg
            }
        },
    }
}

/// The package that the lines of a block describe, fields applied in order.
pub open spec fn block_package(block: Seq<Seq<char>>) -> PackageView
    decreases block.len(),
{
    if block.len() == 0 {
        default_package()
    } else {
        apply_field(block_package(block.drop_last()), block.last())
    }
}

/// Where the parser stands after some lines: inside a block or not, the
/// lines of the current (or last) block, and the packages recorded so far.
pub struct ParseState {
    pub in_block: bool,
    pub block: Seq<Seq<char>>,
    pub packages: Map<Seq<char>, PackageView>,
}

pub open spec fn initial_state() -> ParseState {
    ParseState { in_block: false, block: Seq::empty(), packages: Map::empty() }
}

/// The effect of one line of the index.
pub open spec fn parse_step(st: ParseState, line: Seq<char>) -> ParseState {
    let t = trim(line);
    if t.len() == 0 {
        st
    } else if t[0] == '{' {
        ParseState { in_block: true, block: Seq::empty(), packages: st.packages }
    } else if t[0] == '}' {
        let p = block_package(st.block);
        ParseState {
            in_block: false,
            block: st.block,
            packages: if p.name.len() > 0 {
                st.packages.insert(p.name, p)
            } else {
                st.packages
            },
        }
    } else if st.in_block {
        ParseState { block: st.block.push(t), ..st }
    } else {
        st
    }
}

/// The state after the given lines, from the initial state.
pub open spec fn parse_lines(lines: Seq<Seq<char>>) -> ParseState
    decreases lines.len(),
{
    if lines.len() == 0 {
        initial_state()
    } else {
        parse_step(parse_lines(lines.drop_last()), lines.last())
    }
}

/// The packages that an index text defines. Lines are taken at `\n`; since
/// every line is trimmed and blank ones are skipped, a `\r` before the `\n`
/// and a final line break make no difference.
pub open spec fn parsed_index(text: Seq<char>) -> Map<Seq<char>, PackageView> {
    parse_lines(split(text, '\n')).packages
}

/// Each item is non-empty and has no surrounding whitespace.
pub open spec fn clean_items(s: Seq<Seq<char>>) -> bool {
    forall|i: int| 0 <= i < s.len() ==> (#[trigger] s[i]).len() > 0 && trim(s[i]) == s[i]
}

/// The text fields of `p` have no surrounding whitespace, and its list
/// fields hold only clean items.
pub open spec fn clean_package(p: PackageView) -> bool {
    &&& trim(p.name) == p.name
    &&& trim(p.version) == p.version
    &&& trim(p.description) == p.description
    &&& trim(p.url) == p.url
    &&& trim(p.icon_at) == p.icon_at
    &&& clean_items(p.depends)
    &&& clean_items(p.binary_at)
    &&& clean_items(p.symlink_names)
}

proof fn lemma_trim_start_shape(s: Seq<char>)
    ensures
        trim_start(s).len() == 0 || !is_ws(trim_start(s)[0]),
    decreases s.len(),
{
    if s.len() > 0 && is_ws(s[0]) {
        lemma_trim_start_shape(s.drop_first());
    }
}

proof fn lemma_trim_end_shape(s: Seq<char>)
    ensures
        trim_end(s).len() <= s.len(),
        s.subrange(0, trim_end(s).len() as int) == trim_end(s),
        trim_end(s).len() == 0 || !is_ws(trim_end(s).last()),
    decreases s.len(),
{
    if s.len() > 0 && is_ws(s.last()) {
        lemma_trim_end_shape(s.drop_last());
        assert(s.subrange(0, trim_end(s).len() as int) =~= s.drop_last().subrange(
            0,
            trim_end(s).len() as int,
        ));
    } else {
        assert(s.subrange(0, s.len() as int) =~= s);
    }
}

/// Trimming twice is trimming once.
pub proof fn lemma_trim_idempotent(s: Seq<char>)
    ensures
        trim(trim(s)) == trim(s),
{
    let t = trim_start(s);
    let r = trim_end(t);
    lemma_trim_start_shape(s);
    lemma_trim_end_shape(t);
    if r.len() > 0 {
        assert(r[0] == t.subrange(0, r.len() as int)[0]);
        assert(trim_start(r) == r);
        assert(trim_end(r) == r);
    }
}

proof fn lemma_filter_clean(x: Seq<Seq<char>>, keep: spec_fn(Seq<char>) -> bool)
    requires
        forall|i: int| 0 <= i < x.len() ==> trim(#[trigger] x[i]) == x[i],
        forall|p: Seq<char>| #[trigger] keep(p) == (p.len() > 0),
    ensures
        clean_items(x.filter(keep)),
    decreases x.len(),
{
    reveal_with_fuel(Seq::<_>::filter, 1);
    if x.len() > 0 {
        lemma_filter_clean(x.drop_last(), keep);
        assert forall|i: int| 0 <= i < x.drop_last().len() implies trim(
            #[trigger] x.drop_last()[i],
        ) == x.drop_last()[i] by {
            assert(x.drop_last()[i] == x[i]);
        }
        assert(trim(x.last()) == x.last()) by {
            assert(x.last() == x[x.len() - 1]);
        }
    }
}

/// The items of a list value are clean.
pub proof fn lemma_list_items_clean(value: Seq<char>)
    ensures
        clean_items(list_items(value)),
{
    let x = split(value, ',').map_values(|p: Seq<char>| trim(p));
    assert forall|i: int| 0 <= i < x.len() implies trim(#[trigger] x[i]) == x[i] by {
        lemma_trim_idempotent(split(value, ',')[i]);
    }
    lemma_filter_clean(x, |p: Seq<char>| p.len() > 0);
}

proof fn lemma_apply_field_clean(pkg: PackageView, line: Seq<char>)
    requires
        clean_package(pkg),
    ensures
        clean_package(apply_field(pkg, line)),
{
    match find_char(line, '=') {
        None => {},
        Some(pos) => {
            let value = trim(line.subrange(pos + 1, line.len() as int));
            lemma_trim_idempotent(line.subrange(pos + 1, line.len() as int));
            lemma_list_items_clean(value);
            assert(line_field(line) == Some((trim(line.subrange(0, pos)), value)));
        },
    }
}

proof fn lemma_block_package_clean(block: Seq<Seq<char>>)
    ensures
        clean_package(block_package(block)),
    decreases block.len(),
{
    if block.len() == 0 {
        assert(trim(Seq::<char>::empty()) =~= Seq::<char>::empty());
    } else {
        lemma_block_package_clean(block.drop_last());
        lemma_apply_field_clean(block_package(block.drop_last()), block.last());
    }
}

/// What holds of every package recorded after any lines.
proof fn lemma_parse_lines_packages(lines: Seq<Seq<char>>)
    ensures
        forall|k: Seq<char>|
            #[trigger] parse_lines(lines).packages.contains_key(k) ==> k.len() > 0
                && parse_lines(lines).packages[k].name == k && clean_package(
                parse_lines(lines).packages[k],
            ),
    decreases lines.len(),
{
    if lines.len() > 0 {
        lemma_parse_lines_packages(lines.drop_last());
        lemma_block_package_clean(parse_lines(lines.drop_last()).block);
    }
}

/// Every package that an index defines is recorded under its own name,
/// which is never empty.
pub proof fn law_packages_keyed_by_name(text: Seq<char>, k: Seq<char>)
    requires
        parsed_index(text).contains_key(k),
    ensures
        k.len() > 0,
        parsed_index(text)[k].name == k,
{
    lemma_parse_lines_packages(split(text, '\n'));
}

/// The fields of every package that an index defines carry no surrounding
/// whitespace, and its lists (`depends`, `binary-at`, `symlink-names`) hold
/// no empty item.
pub proof fn law_fields_are_trimmed(text: Seq<char>, k: Seq<char>)
    requires
        parsed_index(text).contains_key(k),
    ensures
        clean_package(parsed_index(text)[k]),
{
    lemma_parse_lines_packages(split(text, '\n'));
}

/// An index without a line that starts with `}` defines no package.
pub proof fn law_no_closing_line_no_package(text: Seq<char>)
    requires
        forall|i: int|
            0 <= i < split(text, '\n').len() ==> {
                let t = trim(#[trigger] split(text, '\n')[i]);
                t.len() == 0 || t[0] != '}'
            },
    ensures
        parsed_index(text) == Map::<Seq<char>, PackageView>::empty(),
{
    lemma_no_closing_lines(split(text, '\n'));
}

proof fn lemma_no_closing_lines(lines: Seq<Seq<char>>)
    requires
        forall|i: int|
            0 <= i < lines.len() ==> {
                let t = trim(#[trigger] lines[i]);
                t.len() == 0 || t[0] != '}'
            },
    ensures
        parse_lines(lines).packages == Map::<Seq<char>, PackageView>::empty(),
    decreases lines.len(),
{
    if lines.len() > 0 {
        assert forall|i: int| 0 <= i < lines.drop_last().len() implies {
            let t = trim(#[trigger] lines.drop_last()[i]);
            t.len() == 0 || t[0] != '}'
        } by {
            assert(lines.drop_last()[i] == lines[i]);
        }
        lemma_no_closing_lines(lines.drop_last());
        let t = trim(lines[lines.len() - 1]);
        assert(t.len() == 0 || t[0] != '}');
    }
}

/// The value of the last line of `block` whose key is `key`.
pub open spec fn last_value(block: Seq<Seq<char>>, key: Seq<char>) -> Option<Seq<char>>
    decreases block.len(),
{
    if block.len() == 0 {
        None
    } else {
        match line_field(block.last()) {
            Some((k, v)) => if k == key {
                Some(v)
            } else {
                last_value(block.drop_last(), key)
            },
            None => last_value(block.drop_last(), key),
        }
    }
}

/// The non-empty value of the last line of `block` whose key is `key` and
/// whose value is not empty.
pub open spec fn last_nonempty_value(block: Seq<Seq<char>>, key: Seq<char>) -> Option<Seq<char>>
    decreases block.len(),
{
    if block.len() == 0 {
        None
    } else {
        match line_field(block.last()) {
            Some((k, v)) => if k == key && v.len() > 0 {
                Some(v)
            } else {
                last_nonempty_value(block.drop_last(), key)
            },
            None => last_nonempty_value(block.drop_last(), key),
        }
    }
}

/// A text field of a block: its last value for `key`, or empty.
pub open spec fn text_field(block: Seq<Seq<char>>, key: Seq<char>) -> Seq<char> {
    match last_value(block, key) {
        Some(v) => v,
        None => Seq::empty(),
    }
}

/// A list field of a block: the items of its last non-empty value for
/// `key`, or no item.
pub open spec fn list_field(block: Seq<Seq<char>>, key: Seq<char>) -> Seq<Seq<char>> {
    match last_nonempty_value(block, key) {
        Some(v) => list_items(v),
        None => Seq::empty(),
    }
}

/// Some line of `block` has exactly this key and value.
pub open spec fn has_line(block: Seq<Seq<char>>, key: Seq<char>, value: Seq<char>) -> bool {
    exists|i: int| 0 <= i < block.len() && #[trigger] line_field(block[i]) == Some((key, value))
}

/// Lengths and characters that tell the field keys apart.
proof fn lemma_field_keys()
    ensures
        "name"@.len() == 4 && "name"@[0] == 'n',
        "version"@.len() == 7 && "version"@[0] == 'v',
        "description"@.len() == 11 && "description"@[0] == 'd',
        "depends"@.len() == 7 && "depends"@[0] == 'd' && "depends"@[2] == 'p',
        "url"@.len() == 3,
        "binary-at"@.len() == 9,
        "symlink-names"@.len() == 13,
        "desktop"@.len() == 7 && "desktop"@[0] == 'd' && "desktop"@[2] == 's',
        "icon"@.len() == 4 && "icon"@[0] == 'i',
        "extractable"@.len() == 11 && "extractable"@[0] == 'e',
{
    reveal_strlit("name");
    reveal_strlit("version");
    reveal_strlit("description");
    reveal_strlit("depends");
    reveal_strlit("url");
    reveal_strlit("binary-at");
    reveal_strlit("symlink-names");
    reveal_strlit("desktop");
    reveal_strlit("icon");
    reveal_strlit("extractable");
}

/// The package of a block, field by field: each text field is the value of
/// the block's last line with that key (empty if none); each list field
/// holds the items of the last non-empty value for its key (none if none);
/// the package has a GUI exactly when some line says `desktop = true`, even
/// if a later line says otherwise; and it is extractable unless some line
/// says exactly `extractable = false`.
pub proof fn law_block_fields(block: Seq<Seq<char>>)
    ensures
        block_package(block).name == text_field(block, "name"@),
        block_package(block).version == text_field(block, "version"@),
        block_package(block).description == text_field(block, "description"@),
        block_package(block).url == text_field(block, "url"@),
        block_package(block).icon_at == text_field(block, "icon"@),
        block_package(block).depends == list_field(block, "depends"@),
        block_package(block).binary_at == list_field(block, "binary-at"@),
        block_package(block).symlink_names == list_field(block, "symlink-names"@),
        block_package(block).gui <==> has_line(block, "desktop"@, "true"@),
        block_package(block).extractable <==> !has_line(block, "extractable"@, "false"@),
    decreases block.len(),
{
    lemma_field_keys();
    if block.len() > 0 {
        let prev = block.drop_last();
        law_block_fields(prev);
        let line = block.last();
        assert forall|key: Seq<char>, value: Seq<char>|
            has_line(block, key, value) <==> (has_line(prev, key, value) || line_field(line) == Some(
                (key, value),
            )) by {
            if has_line(block, key, value) {
                let i = choose|i: int| 0 <= i < block.len() && #[trigger] line_field(block[i]) == Some((key, value));
                if i < block.len() - 1 {
                    assert(prev[i] == block[i]);
                }
            }
            if has_line(prev, key, value) {
                let i = choose|i: int| 0 <= i < prev.len() && #[trigger] line_field(prev[i]) == Some((key, value));
                assert(prev[i] == block[i]);
            }
            if line_field(line) == Some((key, value)) {
                assert(line_field(block[block.len() - 1]) == Some((key, value)));
            }
        }
    } else {
        assert(!has_line(block, "desktop"@, "true"@));
        assert(!has_line(block, "extractable"@, "false"@));
    }
}

/// A block line with an `=` is read at its first `=`: the key is the whole
/// trimmed text before it and the value the whole trimmed text after it,
/// commas and later `=` included.
pub proof fn law_line_field_at_first_eq(line: Seq<char>, pos: int)
    requires
        0 <= pos < line.len(),
        line[pos] == '=',
        forall|j: int| 0 <= j < pos ==> line[j] != '=',
    ensures
        line_field(line) == Some(
            (trim(line.subrange(0, pos)), trim(line.subrange(pos + 1, line.len() as int))),
        ),
{
    assert(is_first(line, '=', pos));
    let p = choose|p: int| is_first(line, '=', p);
    if p < pos {
        assert(line[p] != '=');
    } else if p > pos {
        assert(line[pos] != '=');
    }
}

/// A block line without `=` gives no field.
pub proof fn law_line_without_eq(line: Seq<char>)
    requires
        forall|j: int| 0 <= j < line.len() ==> line[j] != '=',
    ensures
        line_field(line) is None,
{
}

/// The last line of a block decides the text field that it names: after a
/// line whose text before its first `=` trims to `name`, `version`,
/// `description`, `url` or `icon`, that field of the block's package is the
/// whole trimmed text after the `=`.
pub proof fn law_last_line_sets_text_field(block: Seq<Seq<char>>, line: Seq<char>, pos: int)
    requires
        0 <= pos < line.len(),
        line[pos] == '=',
        forall|j: int| 0 <= j < pos ==> line[j] != '=',
    ensures
        trim(line.subrange(0, pos)) == "name"@ ==> block_package(block.push(line)).name == trim(
            line.subrange(pos + 1, line.len() as int),
        ),
        trim(line.subrange(0, pos)) == "version"@ ==> block_package(block.push(line)).version == trim(
            line.subrange(pos + 1, line.len() as int),
        ),
        trim(line.subrange(0, pos)) == "description"@ ==> block_package(block.push(line)).description
            == trim(line.subrange(pos + 1, line.len() as int)),
        trim(line.subrange(0, pos)) == "url"@ ==> block_package(block.push(line)).url == trim(
            line.subrange(pos + 1, line.len() as int),
        ),
        trim(line.subrange(0, pos)) == "icon"@ ==> block_package(block.push(line)).icon_at == trim(
            line.subrange(pos + 1, line.len() as int),
        ),
{
    law_line_field_at_first_eq(line, pos);
    let b = block.push(line);
    law_block_fields(b);
    assert(b.last() == line);
    assert(b.drop_last() =~= block);
}

/// The block that each line starting with `}` closes, in order: the
/// trimmed non-blank lines read since the last line starting with `{`
/// (when no `{` came since the previous `}`, that same block again; before
/// any `{`, no line).
pub open spec fn closed_blocks(lines: Seq<Seq<char>>) -> Seq<Seq<Seq<char>>>
    decreases lines.len(),
{
    if lines.len() == 0 {
        Seq::empty()
    } else {
        let prev = closed_blocks(lines.drop_last());
        let t = trim(lines.last());
        if t.len() > 0 && t[0] == '}' {
            prev.push(parse_lines(lines.drop_last()).block)
        } else {
            prev
        }
    }
}

/// The blocks of an index text, in order.
pub open spec fn index_blocks(text: Seq<char>) -> Seq<Seq<Seq<char>>> {
    closed_blocks(split(text, '\n'))
}

/// `j` is the last of the blocks `bs` whose name is `k`.
pub open spec fn is_last_named(bs: Seq<Seq<Seq<char>>>, k: Seq<char>, j: int) -> bool {
    &&& 0 <= j < bs.len()
    &&& text_field(bs[j], "name"@) == k
    &&& forall|m: int| j < m < bs.len() ==> text_field(#[trigger] bs[m], "name"@) != k
}

proof fn lemma_packages_from_blocks(lines: Seq<Seq<char>>)
    ensures
        forall|k: Seq<char>|
            #[trigger] parse_lines(lines).packages.contains_key(k) <==> k.len() > 0 && exists|i: int|
                0 <= i < closed_blocks(lines).len() && text_field(
                    #[trigger] closed_blocks(lines)[i],
                    "name"@,
                ) == k,
        forall|k: Seq<char>, j: int|
            #[trigger] is_last_named(closed_blocks(lines), k, j) && k.len() > 0 ==> parse_lines(
                lines,
            ).packages[k] == block_package(closed_blocks(lines)[j]),
    decreases lines.len(),
{
    if lines.len() > 0 {
        let prev = lines.drop_last();
        lemma_packages_from_blocks(prev);
        let cb = closed_blocks(prev);
        let cb2 = closed_blocks(lines);
        let st = parse_lines(prev);
        let st2 = parse_lines(lines);
        let t = trim(lines.last());
        if t.len() > 0 && t[0] == '}' {
            let b = st.block;
            let p = block_package(b);
            law_block_fields(b);
            assert(cb2 == cb.push(b));
            assert forall|k: Seq<char>|
                #[trigger] st2.packages.contains_key(k) <==> k.len() > 0 && exists|i: int|
                    0 <= i < cb2.len() && text_field(#[trigger] cb2[i], "name"@) == k by {
                if k.len() > 0 && exists|i: int| 0 <= i < cb2.len() && text_field(#[trigger] cb2[i], "name"@) == k {
                    let i = choose|i: int| 0 <= i < cb2.len() && text_field(#[trigger] cb2[i], "name"@) == k;
                    if i < cb.len() {
                        assert(cb[i] == cb2[i]);
                    }
                }
                if st.packages.contains_key(k) {
                    let i = choose|i: int| 0 <= i < cb.len() && text_field(#[trigger] cb[i], "name"@) == k;
                    assert(cb2[i] == cb[i]);
                }
                if p.name.len() > 0 && k == p.name {
                    assert(text_field(cb2[cb.len() as int], "name"@) == k);
                }
            }
            assert forall|k: Seq<char>, j: int|
                #[trigger] is_last_named(cb2, k, j) && k.len() > 0 implies st2.packages[k] == block_package(cb2[j]) by {
                if j < cb.len() {
                    assert(text_field(cb2[cb.len() as int], "name"@) != k);
                    assert forall|m: int| j < m < cb.len() implies text_field(#[trigger] cb[m], "name"@) != k by {
                        assert(cb2[m] == cb[m]);
                    }
                    assert(cb2[j] == cb[j]);
                    assert(is_last_named(cb, k, j));
                }
            }
        } else {
            assert(cb2 == cb);
            assert(st2.packages == st.packages);
        }
    }
}

/// An index defines a package named `k` exactly when `k` is not empty and
/// some block is named `k`; the package is the one that the last block
/// named `k` describes.
pub proof fn law_package_from_last_block(text: Seq<char>, k: Seq<char>)
    ensures
        parsed_index(text).contains_key(k) <==> k.len() > 0 && exists|i: int|
            0 <= i < index_blocks(text).len() && text_field(#[trigger] index_blocks(text)[i], "name"@) == k,
        forall|j: int|
            #[trigger] is_last_named(index_blocks(text), k, j) && k.len() > 0 ==> parsed_index(text)[k]
                == block_package(index_blocks(text)[j]),
{
    let lines = split(text, '\n');
    lemma_packages_from_blocks(lines);
    assert(index_blocks(text) == closed_blocks(lines));
    assert(parse_lines(lines).packages.contains_key(k) <==> k.len() > 0 && exists|i: int|
        0 <= i < closed_blocks(lines).len() && text_field(#[trigger] closed_blocks(lines)[i], "name"@) == k);
}

/// The position of the first `c` in `text[start..end]`, if any, counted
/// from `start`.
fn find_in_range(text: &Vec<char>, start: usize, end: usize, c: char) -> (r: Option<usize>)
    requires
        start <= end <= text.len(),
    ensures
        match r {
            Some(j) => start <= j < end && find_char(text@.subrange(start as int, end as int), c)
                == Some(j - start),
            None => find_char(text@.subrange(start as int, end as int), c) is None,
        },
{
    let ghost s = text@.subrange(start as int, end as int);
    let mut j = start;
    while j < end
        invariant
            start <= j <= end <= text.len(),
            s == text@.subrange(start as int, end as int),
            forall|k: int| 0 <= k < j - start ==> s[k] != c,
        decreases end - j,
    {
        if text[j] == c {
            proof {
                assert(is_first(s, c, j - start));
                let q = choose|p: int| is_first(s, c, p);
                assert(q == j - start);
            }
            return Some(j);
        }
        j = j + 1;
    }
    assert(!exists|p: int| is_first(s, c, p));
    None
}

/// The items of the list value `text[start..end]`.
fn list_from_range(text: &Vec<char>, start: usize, end: usize) -> (r: Vec<String>)
    requires
        start <= end <= text.len(),
    ensures
        views(r@) == list_items(text@.subrange(start as int, end as int)),
{
    let pieces = split_range(text, start, end, ',');
    let ghost all = slices(text@, pieces@);
    let ghost trimmed = all.map_values(|p: Seq<char>| trim(p));
    let ghost keep = |p: Seq<char>| p.len() > 0;
    let mut out: Vec<String> = Vec::new();
    let mut j: usize = 0;
    assert(trimmed.take(0) =~= Seq::<Seq<char>>::empty());
    assert(views(out@) =~= trimmed.take(0).filter(keep)) by {
        reveal_with_fuel(Seq::<_>::filter, 1);
    }
    while j < pieces.len()
        invariant
            j <= pieces.len(),
            ranges_within(pieces@, start as int, end as int),
            end <= text.len(),
            all == slices(text@, pieces@),
            trimmed == all.map_values(|p: Seq<char>| trim(p)),
            keep == (|p: Seq<char>| p.len() > 0),
            views(out@) == trimmed.take(j as int).filter(keep),
        decreases pieces.len() - j,
    {
        let (a, b) = pieces[j];
        assert(start <= pieces@[j as int].0 <= pieces@[j as int].1 <= end);
        let (ta, tb) = trim_range(text, a, b);
        assert(trimmed.take(j + 1).drop_last() =~= trimmed.take(j as int));
        assert(trimmed.take(j + 1).last() == text@.subrange(ta as int, tb as int));
        let ghost before = out@;
        if ta < tb {
            let item = string_from_range(text, ta, tb);
            out.push(item);
            assert(views(out@) =~= views(before).push(text@.subrange(ta as int, tb as int)));
            assert(views(out@) == trimmed.take(j + 1).filter(keep)) by {
                reveal_with_fuel(Seq::<_>::filter, 1);
            }
        } else {
            assert(views(out@) == trimmed.take(j + 1).filter(keep)) by {
                reveal_with_fuel(Seq::<_>::filter, 1);
            }
        }
        j = j + 1;
    }
    assert(trimmed.take(pieces.len() as int) =~= trimmed);
    out
}

/// A package with the fields of a block with no `key = value` line.
fn default_package_value() -> (p: Package)
    ensures
        p@ == default_package(),
{
    let p = Package {
        name: String::new(),
        version: String::new(),
        description: String::new(),
        depends: Vec::new(),
        url: String::new(),
        binary_at: Vec::new(),
        symlink_names: Vec::new(),
        gui: false,
        icon_at: String::new(),
        extractable: true,
    };
    assert(views(p.depends@) =~= Seq::<Seq<char>>::empty());
    assert(views(p.binary_at@) =~= Seq::<Seq<char>>::empty());
    assert(views(p.symlink_names@) =~= Seq::<Seq<char>>::empty());
    p
}

/// Applies the block line `text[start..end]` to `pkg`.
fn apply_field_line(text: &Vec<char>, start: usize, end: usize, pkg: &mut Package)
    requires
        start <= end <= text.len(),
    ensures
        final(pkg)@ == apply_field(old(pkg)@, text@.subrange(start as int, end as int)),
{
    let ghost line = text@.subrange(start as int, end as int);
    match find_in_range(text, start, end, '=') {
        None => {},
        Some(pos) => {
            let (ka, kb) = trim_range(text, start, pos);
            let (va, vb) = trim_range(text, pos + 1, end);
            assert(line.subrange(0, pos - start) =~= text@.subrange(start as int, pos as int));
            assert(line.subrange(pos - start + 1, line.len() as int) =~= text@.subrange(
                pos + 1,
                end as int,
            ));
            if range_equals(text, ka, kb, &chars_of("name")) {
                pkg.name = string_from_range(text, va, vb);
            } else if range_equals(text, ka, kb, &chars_of("version")) {
                pkg.version = string_from_range(text, va, vb);
            } else if range_equals(text, ka, kb, &chars_of("description")) {
                pkg.description = string_from_range(text, va, vb);
            } else if range_equals(text, ka, kb, &chars_of("depends")) {
                if va < vb {
                    pkg.depends = list_from_range(text, va, vb);
                }
            } else if range_equals(text, ka, kb, &chars_of("url")) {
                pkg.url = string_from_range(text, va, vb);
            } else if range_equals(text, ka, kb, &chars_of("binary-at")) {
                if va < vb {
                    pkg.binary_at = list_from_range(text, va, vb);
                }
            } else if range_equals(text, ka, kb, &chars_of("symlink-names")) {
                if va < vb {
                    pkg.symlink_names = list_from_range(text, va, vb);
                }
            } else if range_equals(text, ka, kb, &chars_of("desktop")) {
                if range_equals(text, va, vb, &chars_of("true")) {
                    pkg.gui = true;
                }
            } else if range_equals(text, ka, kb, &chars_of("icon")) {
                pkg.icon_at = string_from_range(text, va, vb);
            } else if range_equals(text, ka, kb, &chars_of("extractable")) {
                if range_equals(text, va, vb, &chars_of("false")) {
                    pkg.extractable = false;
                }
            }
        },
    }
}

/// The package that the block lines `block` (ranges of `text`) describe.
fn package_from_block(text: &Vec<char>, block: &Vec<(usize, usize)>) -> (p: Package)
    requires
        ranges_within(block@, 0, text.len() as int),
    ensures
        p@ == block_package(slices(text@, block@)),
{
    let ghost lines = slices(text@, block@);
    let mut pkg = default_package_value();
    let mut j: usize = 0;
    assert(lines.take(0) =~= Seq::<Seq<char>>::empty());
    while j < block.len()
        invariant
            j <= block.len(),
            ranges_within(block@, 0, text.len() as int),
            lines == slices(text@, block@),
            pkg@ == block_package(lines.take(j as int)),
        decreases block.len() - j,
    {
        let (a, b) = block[j];
        assert(0 <= block@[j as int].0 <= block@[j as int].1 <= text.len());
        assert(lines.take(j + 1).drop_last() =~= lines.take(j as int));
        apply_field_line(text, a, b, &mut pkg);
        j = j + 1;
    }
    assert(lines.take(block.len() as int) =~= lines);
    pkg
}

/// Parses an index text into its packages, keyed by name.
pub fn ppkgi(index: &String) -> (r: PackageIndex)
    ensures
        r@ == parsed_index(index@),
{
    let text = chars_of(index.as_str());
    let lines = split_range(&text, 0, text.len(), '\n');
    assert(text@.subrange(0, text.len() as int) =~= text@);
    let ghost all = slices(text@, lines@);
    let mut in_block = false;
    let mut block: Vec<(usize, usize)> = Vec::new();
    let mut packages = PackageIndex::new();
    let mut k: usize = 0;
    assert(all.take(0) =~= Seq::<Seq<char>>::empty());
    assert(slices(text@, block@) =~= Seq::<Seq<char>>::empty());
    while k < lines.len()
        invariant
            k <= lines.len(),
            ranges_within(lines@, 0, text.len() as int),
            ranges_within(block@, 0, text.len() as int),
            all == slices(text@, lines@),
            (ParseState {
                in_block: in_block,
                block: slices(text@, block@),
                packages: packages@,
            }) == parse_lines(all.take(k as int)),
        decreases lines.len() - k,
    {
        let (s, e) = lines[k];
        assert(0 <= lines@[k as int].0 <= lines@[k as int].1 <= text.len());
        assert(all.take(k + 1).drop_last() =~= all.take(k as int));
        assert(all.take(k + 1).last() == text@.subrange(s as int, e as int));
        let (a, b) = trim_range(&text, s, e);
        let ghost t = text@.subrange(a as int, b as int);
        if a == b {
        } else if text[a] == '{' {
            in_block = true;
            block = Vec::new();
            assert(slices(text@, block@) =~= Seq::<Seq<char>>::empty());
        } else if text[a] == '}' {
            in_block = false;
            let pkg = package_from_block(&text, &block);
            if !pkg.name.as_str().is_empty() {
                packages.insert(pkg);
            }
        } else if in_block {
            let ghost before = slices(text@, block@);
            block.push((a, b));
            assert(slices(text@, block@) =~= before.push(t));
        }
        k = k + 1;
    }
    assert(all.take(lines.len() as int) =~= all);
    packages
}

} // verus!
