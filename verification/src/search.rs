//! Looking packages up in an index: by exact name for installing, and by
//! part of a name for `search` and `info`.
use vstd::prelude::*;
use crate::package::{
    distinct_names, index_map, lemma_index_map_keys, package_views, Package, PackageIndex,
    PackageView,
};
use crate::parse_pkg_index::{parsed_index, ppkgi};
use crate::text::{chars_of, contains_seq, vec_contains, views};

verus! {

/// The terms that name no package of `m`, in order.
pub open spec fn missing_terms(terms: Seq<Seq<char>>, m: Map<Seq<char>, PackageView>) -> Seq<
    Seq<char>,
> {
    terms.filter(|t: Seq<char>| !m.contains_key(t))
}

/// Some term occurs in `name`.
pub open spec fn matches_any(name: Seq<char>, terms: Seq<Seq<char>>) -> bool {
    exists|i: int| 0 <= i < terms.len() && contains_seq(name, #[trigger] terms[i])
}

/// The names of the packages of `entries` that some term occurs in, in order.
pub open spec fn matching_names(entries: Seq<PackageView>, terms: Seq<Seq<char>>) -> Seq<
    Seq<char>,
> {
    entries.filter(|p: PackageView| matches_any(p.name, terms)).map_values(
        |p: PackageView| p.name,
    )
}

/// No package name of `m` contains `t`.
pub open spec fn unmatched(t: Seq<char>, m: Map<Seq<char>, PackageView>) -> bool {
    !exists|k: Seq<char>| #[trigger] m.contains_key(k) && contains_seq(k, t)
}

/// The terms that occur in no package name of `m`, in order.
pub open spec fn unmatched_terms(terms: Seq<Seq<char>>, m: Map<Seq<char>, PackageView>) -> Seq<
    Seq<char>,
> {
    terms.filter(|t: Seq<char>| unmatched(t, m))
}

/// The names of the packages of `entries` that are among the terms, in order.
pub open spec fn named_in(entries: Seq<PackageView>, terms: Seq<Seq<char>>) -> Seq<Seq<char>> {
    entries.filter(|p: PackageView| terms.contains(p.name)).map_values(|p: PackageView| p.name)
}

/// A term is reported as not found exactly when no package that the search
/// lists has it in its name.
pub proof fn law_unmatched_iff_unlisted(es: Seq<PackageView>, terms: Seq<Seq<char>>, t: Seq<char>)
    requires
        terms.contains(t),
    ensures
        unmatched(t, index_map(es)) <==> forall|i: int|
            0 <= i < matching_names(es, terms).len() ==> !contains_seq(
                #[trigger] matching_names(es, terms)[i],
                t,
            ),
{
    let pred = |p: PackageView| matches_any(p.name, terms);
    let f = es.filter(pred);
    let names = matching_names(es, terms);
    assert(names == f.map_values(|p: PackageView| p.name));
    if unmatched(t, index_map(es)) {
        assert forall|i: int| 0 <= i < names.len() implies !contains_seq(#[trigger] names[i], t) by {
            assert(f.contains(f[i]));
            es.lemma_filter_contains_rev(pred, f[i]);
            let j = choose|j: int| 0 <= j < es.len() && es[j] == f[i];
            lemma_index_map_keys(es, es[j].name);
            assert(index_map(es).contains_key(names[i]));
        }
    } else {
        let k = choose|k: Seq<char>| #[trigger] index_map(es).contains_key(k) && contains_seq(k, t);
        lemma_index_map_keys(es, k);
        let j = choose|j: int| 0 <= j < es.len() && (#[trigger] es[j]).name == k;
        let ti = choose|ti: int| 0 <= ti < terms.len() && terms[ti] == t;
        assert(pred(es[j]));
        es.lemma_filter_contains(pred, j);
        let m = choose|m: int| 0 <= m < f.len() && f[m] == es[j];
        assert(names[m] == k);
    }
}

/// When every term names a package (the case in which `searchpkg`
/// succeeds), `install` installs a package for every term.
pub proof fn law_every_known_term_installed(es: Seq<PackageView>, terms: Seq<Seq<char>>, t: Seq<char>)
    requires
        missing_terms(terms, index_map(es)).len() == 0,
        terms.contains(t),
    ensures
        named_in(es, terms).contains(t),
{
    let ti = choose|ti: int| 0 <= ti < terms.len() && terms[ti] == t;
    let mpred = |u: Seq<char>| !index_map(es).contains_key(u);
    if !index_map(es).contains_key(t) {
        terms.lemma_filter_contains(mpred, ti);
        assert(false);
    }
    lemma_index_map_keys(es, t);
    let j = choose|j: int| 0 <= j < es.len() && (#[trigger] es[j]).name == t;
    let pred = |p: PackageView| terms.contains(p.name);
    let f = es.filter(pred);
    es.lemma_filter_contains(pred, j);
    let m = choose|m: int| 0 <= m < f.len() && f[m] == es[j];
    assert(named_in(es, terms)[m] == t);
}

/// An item is kept by a filter exactly when it is an item that passes it.
proof fn lemma_filter_member(s: Seq<Seq<char>>, pred: spec_fn(Seq<char>) -> bool, t: Seq<char>)
    ensures
        s.filter(pred).contains(t) <==> s.contains(t) && pred(t),
        s.filter(pred).len() <= s.len(),
{
    s.lemma_filter_len(pred);
    if s.filter(pred).contains(t) {
        s.lemma_filter_contains_rev(pred, t);
        let j = choose|j: int| 0 <= j < s.filter(pred).len() && s.filter(pred)[j] == t;
        s.lemma_filter_pred(pred, j);
    }
    if s.contains(t) && pred(t) {
        let i = choose|i: int| 0 <= i < s.len() && s[i] == t;
        s.lemma_filter_contains(pred, i);
    }
}

/// Every text occurs in itself.
proof fn lemma_contains_itself(t: Seq<char>)
    ensures
        contains_seq(t, t),
{
    let z: int = 0;
    assert(t.subrange(z, z + t.len()) =~= t);
}

/// A term is reported as not found by `search` and `info` exactly when it
/// is one of the terms and no package name of the index has it as a part;
/// so a term that is itself a package name is never reported, and no more
/// terms are reported than were given.
pub proof fn law_not_found_terms(terms: Seq<Seq<char>>, m: Map<Seq<char>, PackageView>, t: Seq<char>)
    ensures
        unmatched_terms(terms, m).contains(t) <==> (terms.contains(t) && forall|k: Seq<char>|
            #[trigger] m.contains_key(k) ==> !contains_seq(k, t)),
        m.contains_key(t) ==> !unmatched_terms(terms, m).contains(t),
        unmatched_terms(terms, m).len() <= terms.len(),
{
    lemma_filter_member(terms, |u: Seq<char>| unmatched(u, m), t);
    lemma_contains_itself(t);
}

/// A term is reported as missing by `install` exactly when it is one of the
/// terms and not the name of a package of the index, whatever that
/// package's fields; nothing is missing exactly when every term is a
/// package name.
pub proof fn law_missing_terms(terms: Seq<Seq<char>>, m: Map<Seq<char>, PackageView>, t: Seq<char>)
    ensures
        missing_terms(terms, m).contains(t) <==> (terms.contains(t) && !m.contains_key(t)),
        missing_terms(terms, m).len() == 0 <==> forall|i: int|
            0 <= i < terms.len() ==> m.contains_key(#[trigger] terms[i]),
        missing_terms(terms, m).len() <= terms.len(),
{
    let pred = |u: Seq<char>| !m.contains_key(u);
    lemma_filter_member(terms, pred, t);
    if missing_terms(terms, m).len() == 0 {
        assert forall|i: int| 0 <= i < terms.len() implies m.contains_key(#[trigger] terms[i]) by {
            if !m.contains_key(terms[i]) {
                terms.lemma_filter_contains(pred, i);
                assert(missing_terms(terms, m).contains(terms[i]));
            }
        }
    }
    if forall|i: int| 0 <= i < terms.len() ==> m.contains_key(#[trigger] terms[i]) {
        if missing_terms(terms, m).len() > 0 {
            let x = missing_terms(terms, m)[0];
            assert(missing_terms(terms, m).contains(x));
            lemma_filter_member(terms, pred, x);
            let i = choose|i: int| 0 <= i < terms.len() && terms[i] == x;
            assert(m.contains_key(terms[i]));
        }
    }
}

/// Whether `s` equals one of `terms`.
fn is_among(s: &String, terms: &Vec<String>) -> (r: bool)
    ensures
        r == views(terms@).contains(s@),
{
    let mut i: usize = 0;
    while i < terms.len()
        invariant
            i <= terms.len(),
            forall|k: int| 0 <= k < i ==> (#[trigger] terms@[k])@ != s@,
        decreases terms.len() - i,
    {
        if terms[i] == *s {
            assert(views(terms@)[i as int] == s@);
            return true;
        }
        i = i + 1;
    }
    assert forall|k: int| 0 <= k < views(terms@).len() implies #[trigger] views(terms@)[k] != s@ by {
        assert(views(terms@)[k] == terms@[k]@);
    }
    false
}

/// Whether some term occurs in `name`.
fn matches_some_term(name: &String, terms: &Vec<Vec<char>>) -> (r: bool)
    ensures
        r == exists|i: int| 0 <= i < terms.len() && contains_seq(name@, #[trigger] terms@[i]@),
{
    let n = chars_of(name.as_str());
    let mut i: usize = 0;
    while i < terms.len()
        invariant
            i <= terms.len(),
            n@ == name@,
            forall|k: int| 0 <= k < i ==> !contains_seq(name@, #[trigger] terms@[k]@),
        decreases terms.len() - i,
    {
        if vec_contains(&n, &terms[i]) {
            return true;
        }
        i = i + 1;
    }
    false
}

/// The characters of each term.
fn term_chars(terms: &Vec<String>) -> (r: Vec<Vec<char>>)
    ensures
        r.len() == terms.len(),
        forall|i: int| 0 <= i < r.len() ==> (#[trigger] r@[i])@ == terms@[i]@,
{
    let mut r: Vec<Vec<char>> = Vec::new();
    let mut i: usize = 0;
    while i < terms.len()
        invariant
            i <= terms.len(),
            r.len() == i,
            forall|k: int| 0 <= k < i ==> (#[trigger] r@[k])@ == terms@[k]@,
        decreases terms.len() - i,
    {
        r.push(chars_of(terms[i].as_str()));
        i = i + 1;
    }
    r
}

/// The terms that name no package of `index`, in their order.
pub fn missing_packages(search_terms: &Vec<String>, index: &PackageIndex) -> (r: Vec<String>)
    ensures
        views(r@) == missing_terms(views(search_terms@), index@),
{
    let ghost ts = views(search_terms@);
    let ghost pred = |t: Seq<char>| !index@.contains_key(t);
    let mut r: Vec<String> = Vec::new();
    let mut i: usize = 0;
    assert(views(r@) =~= ts.take(0).filter(pred)) by {
        reveal_with_fuel(Seq::<_>::filter, 1);
    }
    while i < search_terms.len()
        invariant
            i <= search_terms.len(),
            ts == views(search_terms@),
            pred == (|t: Seq<char>| !index@.contains_key(t)),
            views(r@) == ts.take(i as int).filter(pred),
        decreases search_terms.len() - i,
    {
        assert(ts.take(i + 1).drop_last() =~= ts.take(i as int));
        assert(ts.take(i + 1).last() == search_terms@[i as int]@);
        let ghost before = r@;
        if !index.contains_key(&search_terms[i]) {
            r.push(search_terms[i].clone());
            assert(views(r@) =~= views(before).push(search_terms@[i as int]@));
        }
        assert(views(r@) == ts.take(i + 1).filter(pred)) by {
            reveal_with_fuel(Seq::<_>::filter, 1);
        }
        i = i + 1;
    }
    assert(ts.take(search_terms.len() as int) =~= ts);
    r
}

/// Parses `index` and checks that every term names a package of it. The
/// parsed index when all do; otherwise the terms that do not, in order.
pub fn searchpkg(search_terms: &Vec<String>, index: &String) -> (r: Result<PackageIndex, Vec<String>>)
    ensures
        (r is Ok) <==> missing_terms(views(search_terms@), parsed_index(index@)).len() == 0,
        match r {
            Ok(idx) => idx@ == parsed_index(index@),
            Err(missing) => views(missing@) == missing_terms(
                views(search_terms@),
                parsed_index(index@),
            ),
        },
{
    let pkg_index = ppkgi(index);
    let missing = missing_packages(search_terms, &pkg_index);
    if missing.len() == 0 {
        Ok(pkg_index)
    } else {
        Err(missing)
    }
}

/// The names of the packages of `index` that some term occurs in, in the
/// order of the index (what `search` and `info` list).
pub fn matching_packages(index: &PackageIndex, search_terms: &Vec<String>) -> (r: Vec<String>)
    ensures
        views(r@) == matching_names(index.entries_view(), views(search_terms@)),
{
    let pkgs = index.packages();
    let tc = term_chars(search_terms);
    let ghost es = index.entries_view();
    let ghost ts = views(search_terms@);
    let ghost pred = |p: PackageView| matches_any(p.name, ts);
    let ghost name_of = |p: PackageView| p.name;
    let mut r: Vec<String> = Vec::new();
    let mut i: usize = 0;
    assert(views(r@) =~= es.take(0).filter(pred).map_values(name_of)) by {
        reveal_with_fuel(Seq::<_>::filter, 1);
    }
    while i < pkgs.len()
        invariant
            i <= pkgs.len(),
            package_views(pkgs@) == es,
            ts == views(search_terms@),
            tc.len() == search_terms.len(),
            forall|k: int| 0 <= k < tc.len() ==> (#[trigger] tc@[k])@ == search_terms@[k]@,
            pred == (|p: PackageView| matches_any(p.name, ts)),
            name_of == (|p: PackageView| p.name),
            views(r@) == es.take(i as int).filter(pred).map_values(name_of),
        decreases pkgs.len() - i,
    {
        assert(es.take(i + 1).drop_last() =~= es.take(i as int));
        assert(es.take(i + 1).last() == pkgs@[i as int]@);
        let ghost old_f = es.take(i as int).filter(pred);
        let m = matches_some_term(&pkgs[i].name, &tc);
        assert(m == matches_any(pkgs@[i as int].name@, ts)) by {
            if m {
                let k = choose|k: int| 0 <= k < tc.len() && contains_seq(pkgs@[i as int].name@, #[trigger] tc@[k]@);
                assert(ts[k] == tc@[k]@);
            }
            if matches_any(pkgs@[i as int].name@, ts) {
                let k = choose|k: int| 0 <= k < ts.len() && contains_seq(pkgs@[i as int].name@, #[trigger] ts[k]);
                assert(ts[k] == tc@[k]@);
            }
        }
        if m {
            let ghost before = r@;
            r.push(pkgs[i].name.clone());
            assert(views(r@) =~= views(before).push(pkgs@[i as int].name@));
            assert(es.take(i + 1).filter(pred) == old_f.push(pkgs@[i as int]@)) by {
                reveal_with_fuel(Seq::<_>::filter, 1);
            }
            assert(views(r@) =~= old_f.push(pkgs@[i as int]@).map_values(name_of));
        } else {
            assert(es.take(i + 1).filter(pred) == old_f) by {
                reveal_with_fuel(Seq::<_>::filter, 1);
            }
        }
        i = i + 1;
    }
    assert(es.take(pkgs.len() as int) =~= es);
    r
}

/// The terms that occur in no package name of `index`, in their order
/// (what `search` and `info` report as not found).
pub fn unmatched_packages(index: &PackageIndex, search_terms: &Vec<String>) -> (r: Vec<String>)
    ensures
        views(r@) == unmatched_terms(views(search_terms@), index@),
{
    let pkgs = index.packages();
    let ghost es = index.entries_view();
    let ghost ts = views(search_terms@);
    let ghost pred = |t: Seq<char>| unmatched(t, index@);
    let mut names: Vec<Vec<char>> = Vec::new();
    let mut j: usize = 0;
    while j < pkgs.len()
        invariant
            j <= pkgs.len(),
            names.len() == j,
            package_views(pkgs@) == es,
            forall|k: int| 0 <= k < j ==> (#[trigger] names@[k])@ == es[k].name,
        decreases pkgs.len() - j,
    {
        names.push(chars_of(pkgs[j].name.as_str()));
        j = j + 1;
    }
    let mut r: Vec<String> = Vec::new();
    let mut i: usize = 0;
    assert(views(r@) =~= ts.take(0).filter(pred)) by {
        reveal_with_fuel(Seq::<_>::filter, 1);
    }
    while i < search_terms.len()
        invariant
            i <= search_terms.len(),
            ts == views(search_terms@),
            package_views(pkgs@) == es,
            index@ == index_map(es),
            names.len() == es.len(),
            forall|k: int| 0 <= k < names.len() ==> (#[trigger] names@[k])@ == es[k].name,
            pred == (|t: Seq<char>| unmatched(t, index@)),
            views(r@) == ts.take(i as int).filter(pred),
        decreases search_terms.len() - i,
    {
        assert(ts.take(i + 1).drop_last() =~= ts.take(i as int));
        assert(ts.take(i + 1).last() == search_terms@[i as int]@);
        let t = chars_of(search_terms[i].as_str());
        let mut found = false;
        let mut k: usize = 0;
        while k < names.len()
            invariant
                k <= names.len(),
                names.len() == es.len(),
                forall|q: int| 0 <= q < names.len() ==> (#[trigger] names@[q])@ == es[q].name,
                !found ==> forall|q: int| 0 <= q < k ==> !contains_seq(es[q].name, t@),
                found ==> exists|q: int| 0 <= q < es.len() && contains_seq(#[trigger] es[q].name, t@),
            decreases names.len() - k,
        {
            if !found && vec_contains(&names[k], &t) {
                found = true;
                assert(contains_seq(es[k as int].name, t@));
            }
            k = k + 1;
        }
        assert(found == !unmatched(t@, index@)) by {
            if found {
                let q = choose|q: int| 0 <= q < es.len() && contains_seq(#[trigger] es[q].name, t@);
                lemma_index_map_keys(es, es[q].name);
                assert(index@.contains_key(es[q].name));
            } else {
                assert forall|kk: Seq<char>| #[trigger] index@.contains_key(kk) implies !contains_seq(kk, t@) by {
                    lemma_index_map_keys(es, kk);
                    let q = choose|q: int| 0 <= q < es.len() && (#[trigger] es[q]).name == kk;
                }
            }
        }
        let ghost before = r@;
        if !found {
            r.push(search_terms[i].clone());
            assert(views(r@) =~= views(before).push(search_terms@[i as int]@));
        }
        assert(views(r@) == ts.take(i + 1).filter(pred)) by {
            reveal_with_fuel(Seq::<_>::filter, 1);
        }
        i = i + 1;
    }
    assert(ts.take(search_terms.len() as int) =~= ts);
    r
}

/// The names of the packages of `index` that equal one of the terms, in the
/// order of the index (what `install` installs).
pub fn install_targets(index: &PackageIndex, search_terms: &Vec<String>) -> (r: Vec<String>)
    ensures
        views(r@) == named_in(index.entries_view(), views(search_terms@)),
{
    let pkgs = index.packages();
    let ghost es = index.entries_view();
    let ghost ts = views(search_terms@);
    let ghost pred = |p: PackageView| ts.contains(p.name);
    let ghost name_of = |p: PackageView| p.name;
    let mut r: Vec<String> = Vec::new();
    let mut i: usize = 0;
    assert(views(r@) =~= es.take(0).filter(pred).map_values(name_of)) by {
        reveal_with_fuel(Seq::<_>::filter, 1);
    }
    while i < pkgs.len()
        invariant
            i <= pkgs.len(),
            package_views(pkgs@) == es,
            ts == views(search_terms@),
            pred == (|p: PackageView| ts.contains(p.name)),
            name_of == (|p: PackageView| p.name),
            views(r@) == es.take(i as int).filter(pred).map_values(name_of),
        decreases pkgs.len() - i,
    {
        assert(es.take(i + 1).drop_last() =~= es.take(i as int));
        assert(es.take(i + 1).last() == pkgs@[i as int]@);
        let ghost old_f = es.take(i as int).filter(pred);
        if is_among(&pkgs[i].name, search_terms) {
            let ghost before = r@;
            r.push(pkgs[i].name.clone());
            assert(views(r@) =~= views(before).push(pkgs@[i as int].name@));
            assert(es.take(i + 1).filter(pred) == old_f.push(pkgs@[i as int]@)) by {
                reveal_with_fuel(Seq::<_>::filter, 1);
            }
            assert(views(r@) =~= old_f.push(pkgs@[i as int]@).map_values(name_of));
        } else {
            assert(es.take(i + 1).filter(pred) == old_f) by {
                reveal_with_fuel(Seq::<_>::filter, 1);
            }
        }
        i = i + 1;
    }
    assert(es.take(pkgs.len() as int) =~= es);
    r
}

} // verus!
