//! A package as the index describes it, and the index itself: packages
//! keyed by their names.
use vstd::prelude::*;
use crate::text::views;

verus! {

/// One package entry of the index.
#[derive(Debug, Clone)]
pub struct Package {
    pub name: String,
    pub version: String,
    pub description: String,
    pub depends: Vec<String>,
    pub url: String,
    pub binary_at: Vec<String>,
    pub symlink_names: Vec<String>,
    pub gui: bool,
    pub icon_at: String,
    pub extractable: bool,
}

/// The mathematical value of a [`Package`].
pub struct PackageView {
    pub name: Seq<char>,
    pub version: Seq<char>,
    pub description: Seq<char>,
    pub depends: Seq<Seq<char>>,
    pub url: Seq<char>,
    pub binary_at: Seq<Seq<char>>,
    pub symlink_names: Seq<Seq<char>>,
    pub gui: bool,
    pub icon_at: Seq<char>,
    pub extractable: bool,
}

impl View for Package {
    type V = PackageView;

    open spec fn view(&self) -> PackageView {
        PackageView {
            name: self.name@,
            version: self.version@,
            description: self.description@,
            depends: views(self.depends@),
            url: self.url@,
            binary_at: views(self.binary_at@),
            symlink_names: views(self.symlink_names@),
            gui: self.gui,
            icon_at: self.icon_at@,
            extractable: self.extractable,
        }
    }
}

/// The views of a sequence of packages.
pub open spec fn package_views(v: Seq<Package>) -> Seq<PackageView> {
    v.map_values(|p: Package| p@)
}

/// No two packages of `s` share a name.
pub open spec fn distinct_names(s: Seq<PackageView>) -> bool {
    forall|i: int, j: int| 0 <= i < j < s.len() ==> (#[trigger] s[i]).name != (#[trigger] s[j]).name
}

/// The map from names to packages that the packages of `s`, inserted in
/// order, make.
pub open spec fn index_map(s: Seq<PackageView>) -> Map<Seq<char>, PackageView>
    decreases s.len(),
{
    if s.len() == 0 {
        Map::empty()
    } else {
        index_map(s.drop_last()).insert(s.last().name, s.last())
    }
}

/// The names that `index_map(s)` holds are those of the packages of `s`,
/// and each maps to the last package of `s` with that name.
pub proof fn lemma_index_map_keys(s: Seq<PackageView>, k: Seq<char>)
    ensures
        index_map(s).contains_key(k) <==> exists|i: int| 0 <= i < s.len() && (#[trigger] s[i]).name == k,
    decreases s.len(),
{
    if s.len() > 0 {
        lemma_index_map_keys(s.drop_last(), k);
        if exists|i: int| 0 <= i < s.len() && (#[trigger] s[i]).name == k {
            let i = choose|i: int| 0 <= i < s.len() && (#[trigger] s[i]).name == k;
            if i < s.len() - 1 {
                assert(s.drop_last()[i].name == k);
            }
        }
        if exists|i: int| 0 <= i < s.len() - 1 && (#[trigger] s.drop_last()[i]).name == k {
            let i = choose|i: int| 0 <= i < s.len() - 1 && (#[trigger] s.drop_last()[i]).name == k;
            assert(s[i].name == k);
        }
    }
}

/// With distinct names, every package of `s` is what `index_map(s)` holds
/// under its name.
pub proof fn lemma_index_map_value(s: Seq<PackageView>, i: int)
    requires
        distinct_names(s),
        0 <= i < s.len(),
    ensures
        index_map(s).contains_key(s[i].name),
        index_map(s)[s[i].name] == s[i],
    decreases s.len(),
{
    if i < s.len() - 1 {
        assert(distinct_names(s.drop_last()));
        lemma_index_map_value(s.drop_last(), i);
        assert(s.drop_last()[i] == s[i]);
        assert(s[i].name != s.last().name);
    }
}

/// Replacing the package at `i` by one of the same name is inserting it.
pub proof fn lemma_index_map_update(s: Seq<PackageView>, i: int, p: PackageView)
    requires
        distinct_names(s),
        0 <= i < s.len(),
        s[i].name == p.name,
    ensures
        index_map(s.update(i, p)) == index_map(s).insert(p.name, p),
        distinct_names(s.update(i, p)),
    decreases s.len(),
{
    let u = s.update(i, p);
    if i == s.len() - 1 {
        assert(u.drop_last() =~= s.drop_last());
        assert(index_map(u) =~= index_map(s).insert(p.name, p));
    } else {
        assert(distinct_names(s.drop_last()));
        lemma_index_map_update(s.drop_last(), i, p);
        assert(u.drop_last() =~= s.drop_last().update(i, p));
        assert(s.last().name != p.name);
        assert(index_map(u) =~= index_map(s).insert(p.name, p));
    }
    assert forall|a: int, b: int| 0 <= a < b < u.len() implies (#[trigger] u[a]).name != (
    #[trigger] u[b]).name by {
        assert(u[a].name == s[a].name);
        assert(u[b].name == s[b].name);
    }
}

/// The packages of an index, keyed by name. Its view is the map from names
/// to packages; the packages also come in a fixed order, that of
/// `entries_view`.
pub struct PackageIndex {
    entries: Vec<Package>,
}

impl PackageIndex {
    /// The packages in the order in which their names were first inserted.
    pub closed spec fn entries_view(&self) -> Seq<PackageView> {
        package_views(self.entries@)
    }

    #[verifier::type_invariant]
    closed spec fn names_distinct(&self) -> bool {
        distinct_names(self.entries_view())
    }

    /// An index that holds no package.
    pub fn new() -> (r: PackageIndex)
        ensures
            r@ == Map::<Seq<char>, PackageView>::empty(),
            r.entries_view() == Seq::<PackageView>::empty(),
    {
        let r = PackageIndex { entries: Vec::new() };
        assert(r.entries_view() =~= Seq::<PackageView>::empty());
        r
    }

    /// Inserts `pkg` under its name, replacing a package of the same name.
    /// A new name goes to the end of the order; a known one keeps its place.
    pub fn insert(&mut self, pkg: Package)
        ensures
            final(self)@ == old(self)@.insert(pkg.name@, pkg@),
            old(self)@.contains_key(pkg.name@) ==> exists|i: int|
                0 <= i < old(self).entries_view().len() && (#[trigger] old(
                    self,
                ).entries_view()[i]).name == pkg.name@ && final(self).entries_view()
                    == old(self).entries_view().update(i, pkg@),
            !old(self)@.contains_key(pkg.name@) ==> final(self).entries_view() == old(
                self,
            ).entries_view().push(pkg@),
    {
        proof {
            use_type_invariant(&*self);
        }
        let ghost before = self.entries_view();
        let mut entries: Vec<Package> = Vec::new();
        std::mem::swap(&mut entries, &mut self.entries);
        assert(package_views(entries@) == before);
        let mut i: usize = 0;
        while i < entries.len()
            invariant
                i <= entries.len(),
                package_views(entries@) == before,
                before == old(self).entries_view(),
                distinct_names(before),
                forall|k: int| 0 <= k < i ==> (#[trigger] before[k]).name != pkg.name@,
            decreases entries.len() - i,
        {
            if entries[i].name == pkg.name {
                proof {
                    lemma_index_map_update(before, i as int, pkg@);
                    lemma_index_map_keys(before, pkg.name@);
                }
                let ghost p = pkg@;
                entries.set(i, pkg);
                assert(package_views(entries@) =~= before.update(i as int, p));
                self.entries = entries;
                assert(before[i as int].name == pkg.name@);
                return ;
            }
            i = i + 1;
        }
        proof {
            lemma_index_map_keys(before, pkg.name@);
        }
        let ghost p = pkg@;
        entries.push(pkg);
        assert(package_views(entries@) =~= before.push(p));
        assert(package_views(entries@).drop_last() =~= before);
        self.entries = entries;
    }

    /// The package named `name`, if there is one.
    pub fn get(&self, name: &String) -> (r: Option<&Package>)
        ensures
            match r {
                Some(p) => self@.contains_key(name@) && p@ == self@[name@],
                None => !self@.contains_key(name@),
            },
    {
        proof {
            use_type_invariant(self);
            lemma_index_map_keys(self.entries_view(), name@);
        }
        let mut i: usize = 0;
        while i < self.entries.len()
            invariant
                i <= self.entries.len(),
                distinct_names(self.entries_view()),
                forall|k: int| 0 <= k < i ==> (#[trigger] self.entries_view()[k]).name != name@,
            decreases self.entries.len() - i,
        {
            if self.entries[i].name == *name {
                proof {
                    lemma_index_map_value(self.entries_view(), i as int);
                }
                return Some(&self.entries[i]);
            }
            i = i + 1;
        }
        None
    }

    /// Whether a package is named `name`.
    pub fn contains_key(&self, name: &String) -> (r: bool)
        ensures
            r == self@.contains_key(name@),
    {
        self.get(name).is_some()
    }

    /// The packages, in the order of `entries_view`.
    pub fn packages(&self) -> (r: &Vec<Package>)
        ensures
            package_views(r@) == self.entries_view(),
            distinct_names(self.entries_view()),
            self@ == index_map(self.entries_view()),
    {
        proof {
            use_type_invariant(self);
        }
        &self.entries
    }

    /// The number of packages.
    pub fn len(&self) -> (r: usize)
        ensures
            r == self.entries_view().len(),
            r == self@.len(),
    {
        proof {
            use_type_invariant(self);
            lemma_index_map_len(self.entries_view());
        }
        self.entries.len()
    }
}

/// With distinct names, the map holds as many packages as `s`.
pub proof fn lemma_index_map_len(s: Seq<PackageView>)
    requires
        distinct_names(s),
    ensures
        index_map(s).len() == s.len(),
        index_map(s).dom().finite(),
    decreases s.len(),
{
    if s.len() > 0 {
        assert(distinct_names(s.drop_last()));
        lemma_index_map_len(s.drop_last());
        lemma_index_map_keys(s.drop_last(), s.last().name);
        assert(!index_map(s.drop_last()).contains_key(s.last().name)) by {
            if index_map(s.drop_last()).contains_key(s.last().name) {
                let i = choose|i: int|
                    0 <= i < s.len() - 1 && (#[trigger] s.drop_last()[i]).name == s.last().name;
                assert(s[i].name == s[s.len() - 1].name);
            }
        }
    }
}

impl View for PackageIndex {
    type V = Map<Seq<char>, PackageView>;

    open spec fn view(&self) -> Map<Seq<char>, PackageView> {
        index_map(self.entries_view())
    }
}

} // verus!
