//! Character-level text model: whitespace, trimming, splitting, searching
//! and joining, each stated over `Seq<char>` and implemented on `Vec<char>`
//! ranges.
use vstd::prelude::*;
use vstd::string::StringExecFns;
use vstd::std_specs::iter::IteratorSpec;

verus! {

broadcast use vstd::string::group_string_axioms;

/// The Unicode `White_Space` property, which `char::is_whitespace` tests.
pub open spec fn is_ws(c: char) -> bool {
    ||| ('\t' <= c && c <= '\r')
    ||| c == ' '
    ||| c == '\u{85}'
    ||| c == '\u{A0}'
    ||| c == '\u{1680}'
    ||| ('\u{2000}' <= c && c <= '\u{200A}')
    ||| c == '\u{2028}'
    ||| c == '\u{2029}'
    ||| c == '\u{202F}'
    ||| c == '\u{205F}'
    ||| c == '\u{3000}'
}

/// `s` without its leading whitespace.
pub open spec fn trim_start(s: Seq<char>) -> Seq<char>
    decreases s.len(),
{
    if s.len() > 0 && is_ws(s[0]) {
        trim_start(s.drop_first())
    } else {
        s
    }
}

/// `s` without its trailing whitespace.
pub open spec fn trim_end(s: Seq<char>) -> Seq<char>
    decreases s.len(),
{
    if s.len() > 0 && is_ws(s.last()) {
        trim_end(s.drop_last())
    } else {
        s
    }
}

/// `str::trim`: `s` without leading and trailing whitespace.
pub open spec fn trim(s: Seq<char>) -> Seq<char> {
    trim_end(trim_start(s))
}

/// `str::split` with a `char` pattern: the pieces of `s` between the
/// occurrences of `sep`, in order. There is always at least one piece.
pub open spec fn split(s: Seq<char>, sep: char) -> Seq<Seq<char>>
    decreases s.len(),
{
    if s.len() == 0 {
        seq![Seq::<char>::empty()]
    } else {
        let pieces = split(s.drop_last(), sep);
        if s.last() == sep {
            pieces.push(Seq::<char>::empty())
        } else {
            pieces.update(pieces.len() - 1, pieces.last().push(s.last()))
        }
    }
}

/// `s` starts with `p`.
pub open spec fn starts_with(s: Seq<char>, p: Seq<char>) -> bool {
    p.len() <= s.len() && s.subrange(0, p.len() as int) == p
}

/// `s` ends with `p`.
pub open spec fn ends_with(s: Seq<char>, p: Seq<char>) -> bool {
    p.len() <= s.len() && s.subrange(s.len() - p.len(), s.len() as int) == p
}

/// `t` occurs in `s` as a contiguous piece (`str::contains`).
pub open spec fn contains_seq(s: Seq<char>, t: Seq<char>) -> bool {
    exists|i: int| 0 <= i && i + t.len() <= s.len() && #[trigger] s.subrange(i, i + t.len()) == t
}

/// `str::trim_start_matches` with a string pattern: `s` with every leading
/// repetition of `p` removed (nothing is removed for an empty `p`).
pub open spec fn strip_prefixes(s: Seq<char>, p: Seq<char>) -> Seq<char>
    decreases s.len(),
{
    if p.len() > 0 && starts_with(s, p) {
        strip_prefixes(s.subrange(p.len() as int, s.len() as int), p)
    } else {
        s
    }
}

/// `[T]::join` on strings: the parts with `sep` between consecutive ones.
pub open spec fn join(parts: Seq<Seq<char>>, sep: Seq<char>) -> Seq<char>
    decreases parts.len(),
{
    if parts.len() == 0 {
        Seq::<char>::empty()
    } else if parts.len() == 1 {
        parts[0]
    } else {
        join(parts.drop_last(), sep) + sep + parts.last()
    }
}

/// The pieces of `text` that the ranges `r` delimit.
pub open spec fn slices(text: Seq<char>, r: Seq<(usize, usize)>) -> Seq<Seq<char>> {
    r.map_values(|p: (usize, usize)| text.subrange(p.0 as int, p.1 as int))
}

/// Every range of `r` lies within `start..end`.
pub open spec fn ranges_within(r: Seq<(usize, usize)>, start: int, end: int) -> bool {
    forall|i: int| 0 <= i < r.len() ==> start <= (#[trigger] r[i]).0 <= r[i].1 <= end
}

/// The views of a vector of strings.
pub open spec fn views(v: Seq<String>) -> Seq<Seq<char>> {
    v.map_values(|s: String| s@)
}

/// Whether `c` is whitespace (`char::is_whitespace`).
pub fn char_is_whitespace(c: char) -> (b: bool)
    ensures
        b == is_ws(c),
{
    ('\t' <= c && c <= '\r') || c == ' ' || c == '\u{85}' || c == '\u{A0}' || c == '\u{1680}'
        || ('\u{2000}' <= c && c <= '\u{200A}') || c == '\u{2028}' || c == '\u{2029}' || c
        == '\u{202F}' || c == '\u{205F}' || c == '\u{3000}'
}

/// `String::push`: appends one character.
#[verifier::external_body]
pub fn push_char(s: &mut String, c: char)
    ensures
        final(s)@ == old(s)@.push(c),
{
    s.push(c)
}

/// The characters of `s`, in order.
pub fn chars_of(s: &str) -> (v: Vec<char>)
    ensures
        v@ == s@,
{
    let mut v: Vec<char> = Vec::new();
    let mut it = s.chars();
    loop
        invariant
            v@ + it.remaining() == s@,
            it.decrease() is Some,
        decreases it.decrease()->0,
    {
        let ghost before = it.remaining();
        match it.next() {
            Some(c) => {
                v.push(c);
                assert(v@ + it.remaining() =~= s@) by {
                    assert(before == seq![c] + it.remaining());
                }
            },
            None => {
                assert(it.remaining().len() == 0);
                assert(v@ =~= s@);
                return v;
            },
        }
    }
}

/// A new string holding `text[start..end]`.
pub fn string_from_range(text: &Vec<char>, start: usize, end: usize) -> (s: String)
    requires
        start <= end <= text.len(),
    ensures
        s@ == text@.subrange(start as int, end as int),
{
    let mut s = String::new();
    let mut i = start;
    while i < end
        invariant
            start <= i <= end <= text.len(),
            s@ == text@.subrange(start as int, i as int),
        decreases end - i,
    {
        push_char(&mut s, text[i]);
        assert(s@ =~= text@.subrange(start as int, i + 1));
        i = i + 1;
    }
    s
}

/// The range of `text[start..end]` that remains after trimming.
pub fn trim_range(text: &Vec<char>, start: usize, end: usize) -> (r: (usize, usize))
    requires
        start <= end <= text.len(),
    ensures
        start <= r.0 <= r.1 <= end,
        text@.subrange(r.0 as int, r.1 as int) == trim(text@.subrange(start as int, end as int)),
{
    let mut a = start;
    while a < end && char_is_whitespace(text[a])
        invariant
            start <= a <= end <= text.len(),
            trim_start(text@.subrange(start as int, end as int)) == trim_start(
                text@.subrange(a as int, end as int),
            ),
        decreases end - a,
    {
        assert(text@.subrange(a as int, end as int).drop_first() =~= text@.subrange(
            a + 1,
            end as int,
        ));
        a = a + 1;
    }
    let mut b = end;
    while b > a && char_is_whitespace(text[b - 1])
        invariant
            start <= a <= b <= end <= text.len(),
            a < end ==> !is_ws(text@[a as int]),
            trim_end(text@.subrange(a as int, end as int)) == trim_end(
                text@.subrange(a as int, b as int),
            ),
        decreases b - a,
    {
        assert(text@.subrange(a as int, b as int).drop_last() =~= text@.subrange(
            a as int,
            b - 1,
        ));
        b = b - 1;
    }
    (a, b)
}

/// The ranges of the pieces of `text[start..end]` between occurrences of `sep`.
pub fn split_range(text: &Vec<char>, start: usize, end: usize, sep: char) -> (r: Vec<
    (usize, usize),
>)
    requires
        start <= end <= text.len(),
    ensures
        r.len() >= 1,
        ranges_within(r@, start as int, end as int),
        slices(text@, r@) == split(text@.subrange(start as int, end as int), sep),
{
    let mut done: Vec<(usize, usize)> = Vec::new();
    let mut cur = start;
    let mut i = start;
    assert(text@.subrange(start as int, start as int) =~= Seq::<char>::empty());
    assert(slices(text@, done@) + seq![text@.subrange(cur as int, i as int)] =~= split(
        text@.subrange(start as int, i as int),
        sep,
    ));
    while i < end
        invariant
            start <= cur <= i <= end <= text.len(),
            ranges_within(done@, start as int, cur as int),
            slices(text@, done@) + seq![text@.subrange(cur as int, i as int)] == split(
                text@.subrange(start as int, i as int),
                sep,
            ),
        decreases end - i,
    {
        let ghost prev = split(text@.subrange(start as int, i as int), sep);
        assert(text@.subrange(start as int, i + 1).drop_last() =~= text@.subrange(
            start as int,
            i as int,
        ));
        assert(text@.subrange(start as int, i + 1).last() == text@[i as int]);
        if text[i] == sep {
            let ghost before = slices(text@, done@);
            let ghost piece = text@.subrange(cur as int, i as int);
            done.push((cur, i));
            assert(slices(text@, done@) =~= before.push(piece));
            cur = i + 1;
            i = i + 1;
            assert(text@.subrange(cur as int, i as int) =~= Seq::<char>::empty());
            assert(slices(text@, done@) + seq![text@.subrange(cur as int, i as int)] =~= prev.push(
                Seq::<char>::empty(),
            ));
        } else {
            i = i + 1;
            assert(text@.subrange(cur as int, i as int) =~= text@.subrange(
                cur as int,
                i - 1,
            ).push(text@[i - 1]));
            assert(slices(text@, done@) + seq![text@.subrange(cur as int, i as int)] =~= prev.update(
                prev.len() - 1,
                prev.last().push(text@[i - 1]),
            ));
        }
    }
    done.push((cur, end));
    assert(slices(text@, done@) =~= split(text@.subrange(start as int, end as int), sep));
    done
}

/// Whether `text[start..end]` equals `pat`.
pub fn range_equals(text: &Vec<char>, start: usize, end: usize, pat: &Vec<char>) -> (b: bool)
    requires
        start <= end <= text.len(),
    ensures
        b == (text@.subrange(start as int, end as int) == pat@),
{
    if end - start != pat.len() {
        return false;
    }
    let mut j: usize = 0;
    while j < pat.len()
        invariant
            end - start == pat.len(),
            start <= end <= text.len(),
            j <= pat.len(),
            forall|k: int| 0 <= k < j ==> text@[start + k] == pat@[k],
        decreases pat.len() - j,
    {
        if text[start + j] != pat[j] {
            assert(text@.subrange(start as int, end as int)[j as int] != pat@[j as int]);
            return false;
        }
        j = j + 1;
    }
    assert(text@.subrange(start as int, end as int) =~= pat@);
    true
}

/// Whether `text[start..end]` starts with `pat`.
pub fn range_starts_with(text: &Vec<char>, start: usize, end: usize, pat: &Vec<char>) -> (b: bool)
    requires
        start <= end <= text.len(),
    ensures
        b == starts_with(text@.subrange(start as int, end as int), pat@),
{
    if pat.len() > end - start {
        return false;
    }
    let r = range_equals(text, start, start + pat.len(), pat);
    assert(text@.subrange(start as int, end as int).subrange(0, pat@.len() as int)
        =~= text@.subrange(start as int, start + pat.len()));
    r
}

/// Whether `s` ends with `pat`.
pub fn vec_ends_with(s: &Vec<char>, pat: &Vec<char>) -> (b: bool)
    ensures
        b == ends_with(s@, pat@),
{
    if pat.len() > s.len() {
        return false;
    }
    range_equals(s, s.len() - pat.len(), s.len(), pat)
}

/// Whether `t` occurs in `s`.
pub fn vec_contains(s: &Vec<char>, t: &Vec<char>) -> (b: bool)
    ensures
        b == contains_seq(s@, t@),
{
    if t.len() > s.len() {
        assert forall|i: int| 0 <= i && i + t@.len() <= s@.len() implies #[trigger] s@.subrange(
            i,
            i + t@.len(),
        ) != t@ by {}
        return false;
    }
    let last = s.len() - t.len();
    let mut i: usize = 0;
    loop
        invariant
            t.len() <= s.len(),
            last == s.len() - t.len(),
            i <= last,
            forall|k: int| 0 <= k < i ==> #[trigger] s@.subrange(k, k + t@.len()) != t@,
        decreases last - i,
    {
        if range_equals(s, i, i + t.len(), t) {
            return true;
        }
        if i == last {
            return false;
        }
        i = i + 1;
    }
}

/// `str::trim_start_matches` with a string pattern.
pub fn strip_prefixes_of(s: &Vec<char>, p: &Vec<char>) -> (r: String)
    ensures
        r@ == strip_prefixes(s@, p@),
{
    let mut i: usize = 0;
    assert(s@.subrange(0, s.len() as int) =~= s@);
    if p.len() > 0 {
        while i <= s.len() && range_starts_with(s, i, s.len(), p)
            invariant
                p.len() > 0,
                i <= s.len(),
                strip_prefixes(s@, p@) == strip_prefixes(s@.subrange(i as int, s.len() as int), p@),
            decreases s.len() - i,
        {
            assert(s@.subrange(i as int, s.len() as int).subrange(
                p.len() as int,
                s.len() - i,
            ) =~= s@.subrange(i + p.len(), s.len() as int));
            i = i + p.len();
        }
    } else {
        assert(s@.subrange(0, s.len() as int) =~= s@);
    }
    string_from_range(s, i, s.len())
}

/// `parts` joined with `sep` between consecutive ones.
pub fn join_strings(parts: &Vec<String>, sep: &str) -> (r: String)
    ensures
        r@ == join(views(parts@), sep@),
{
    let mut r = String::new();
    let mut i: usize = 0;
    while i < parts.len()
        invariant
            i <= parts.len(),
            r@ == join(views(parts@).take(i as int), sep@),
        decreases parts.len() - i,
    {
        assert(views(parts@).take(i + 1).drop_last() =~= views(parts@).take(i as int));
        if i != 0 {
            r.append(sep);
        } else {
            assert(views(parts@).take(1) =~= seq![parts@[0]@]);
        }
        r.append(parts[i].as_str());
        i = i + 1;
    }
    assert(views(parts@).take(parts.len() as int) =~= views(parts@));
    r
}

} // verus!
