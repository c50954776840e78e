use vstd::prelude::*;
use crate::extract::{
    deps_view, lemma_model_not_parse, lemma_model_valid, manifest_dependencies, manifest_model, table_dependencies, valid_only, versioned, Dep, ManifestError, ManifestFault, Package,
    PackageDependencies,
};
use crate::toml_doc::{parse_document, toml_document, toml_layer, TomlLayer};
use crate::version_req::is_version_req;

verus! {

/// The pairs that a manifest declares, regular and development alike.
pub open spec fn declared(m: PackageDependencies) -> Set<Dep> {
    deps_view(m.dependencies@).to_set() + deps_view(m.dev_dependencies@).to_set()
}

/// The `[package]` section of the rendered manifest.
pub open spec fn package_section() -> Seq<char> {
    "[package]\nname = \"temp_prefetch_project\"\nversion = \"0.0.0\"\n"@
}

/// The header of the rendered dependency section.
pub open spec fn dependencies_header() -> Seq<char> {
    "\n[dependencies]\n"@
}

/// One rendered dependency: `"<name>" = "<version>"` and a line break.
pub open spec fn dependency_line(d: Dep) -> Seq<char> {
    "\""@ + d.0 + "\" = \""@ + d.1 + "\"\n"@
}

/// The rendered lines of the pairs `ds`, in their order.
pub open spec fn dependency_lines(ds: Seq<Dep>) -> Seq<char>
    decreases ds.len(),
{
    if ds.len() == 0 {
        Seq::empty()
    } else {
        dependency_lines(ds.drop_last()) + dependency_line(ds.last())
    }
}

/// The manifest that declares the pairs `ds`, one line each, in their order.
pub open spec fn manifest_text(ds: Seq<Dep>) -> Seq<char> {
    package_section() + dependencies_header() + dependency_lines(ds)
}

/// A set of (name, version requirement) pairs; the pair is the key, so one
/// name may stand with several requirements.
pub struct CrateSet {
    entries: Vec<(String, String)>,
}

impl View for CrateSet {
    type V = Set<Dep>;

    open spec fn view(&self) -> Set<Dep> {
        self.pairs().to_set()
    }
}

impl CrateSet {
    /// The pairs in the order they are stored and rendered.
    pub closed spec fn pairs(&self) -> Seq<Dep> {
        self.entries@.map_values(|e: (String, String)| (e.0@, e.1@))
    }

    /// No pair is stored twice.
    pub open spec fn wf(&self) -> bool {
        self.pairs().no_duplicates()
    }

    /// The empty set.
    pub fn new() -> (r: CrateSet)
        ensures
            r.wf(),
            r.pairs() == Seq::<Dep>::empty(),
            r@ == Set::<Dep>::empty(),
    {
        let r = CrateSet { entries: Vec::new() };
        assert(r.pairs() =~= Seq::<Dep>::empty());
        r
    }

    /// The number of pairs.
    pub fn len(&self) -> (r: usize)
        requires
            self.wf(),
        ensures
            r == self@.len(),
    {
        proof {
            self.pairs().unique_seq_to_set();
        }
        self.entries.len()
    }

    /// Whether the pair (`name`, `version`) is in the set.
    pub fn contains(&self, name: &String, version: &String) -> (r: bool)
        ensures
            r == self@.contains((name@, version@)),
    {
        let mut i: usize = 0;
        while i < self.entries.len()
            invariant
                0 <= i <= self.entries@.len(),
                forall|j: int| 0 <= j < i ==> #[trigger] self.pairs()[j] != (name@, version@),
            decreases self.entries@.len() - i,
        {
            if self.entries[i].0 == *name && self.entries[i].1 == *version {
                assert(self.pairs()[i as int] == (name@, version@));
                return true;
            }
            assert(self.pairs()[i as int] == (self.entries@[i as int].0@, self.entries@[i as int].1@));
            i = i + 1;
        }
        false
    }

    /// Adds the pair (`name`, `version`); tells whether it was new.
    pub fn insert(&mut self, name: String, version: String) -> (r: bool)
        requires
            old(self).wf(),
        ensures
            final(self).wf(),
            final(self)@ == old(self)@.insert((name@, version@)),
            r == !old(self)@.contains((name@, version@)),
    {
        if self.contains(&name, &version) {
            proof {
                assert(self@.insert((name@, version@)) =~= self@);
            }
            return false;
        }
        let ghost before = self.pairs();
        self.entries.push((name, version));
        proof {
            assert(self.pairs() =~= before.push((name@, version@)));
            assert(self@ =~= before.to_set().insert((name@, version@))) by {
                assert forall|d: Dep| self@.contains(d) <==> before.to_set().insert((name@, version@)).contains(d) by {
                    if self.pairs().contains(d) {
                        let k = choose|k: int| 0 <= k < self.pairs().len() && self.pairs()[k] == d;
                        if k < before.len() {
                            assert(before[k] == d);
                        }
                    }
                    if before.contains(d) {
                        let k = choose|k: int| 0 <= k < before.len() && before[k] == d;
                        assert(self.pairs()[k] == d);
                    }
                    if d == (name@, version@) {
                        assert(self.pairs()[before.len() as int] == d);
                    }
                }
            }
        }
        true
    }

    /// Adds every pair that `m` declares, regular and development alike.
    pub fn add_dependencies(&mut self, m: &PackageDependencies)
        requires
            old(self).wf(),
        ensures
            final(self).wf(),
            final(self)@ == old(self)@ + declared(*m),
    {
        self.add_packages(&m.dependencies);
        self.add_packages(&m.dev_dependencies);
        proof {
            assert(self@ =~= old(self)@ + declared(*m));
        }
    }

    fn add_packages(&mut self, ps: &Vec<Package>)
        requires
            old(self).wf(),
        ensures
            final(self).wf(),
            final(self)@ == old(self)@ + deps_view(ps@).to_set(),
    {
        let mut i: usize = 0;
        while i < ps.len()
            invariant
                0 <= i <= ps@.len(),
                self.wf(),
                self@ == old(self)@ + deps_view(ps@).take(i as int).to_set(),
            decreases ps@.len() - i,
        {
            let ghost prev = self@;
            self.insert(ps[i].name.clone(), ps[i].version.clone());
            proof {
                let s = deps_view(ps@);
                assert(s.take(i + 1) =~= s.take(i as int).push(s[i as int]));
                let t = s.take(i + 1);
                let u = s.take(i as int);
                assert(t.to_set() =~= u.to_set().insert(s[i as int])) by {
                    assert forall|d: Dep| t.to_set().contains(d) <==> u.to_set().insert(s[i as int]).contains(d) by {
                        if t.contains(d) {
                            let k = choose|k: int| 0 <= k < t.len() && t[k] == d;
                            if k < i {
                                assert(u[k] == d);
                            }
                        }
                        if u.contains(d) {
                            let k = choose|k: int| 0 <= k < u.len() && u[k] == d;
                            assert(t[k] == d);
                        }
                        if d == s[i as int] {
                            assert(t[i as int] == d);
                        }
                    }
                }
                assert(self@ =~= old(self)@ + s.take(i + 1).to_set());
            }
            i = i + 1;
        }
        proof {
            assert(deps_view(ps@).take(i as int) =~= deps_view(ps@));
        }
    }

    /// The manifest that declares exactly this set: a `[package]` section with
    /// a fixed name and version `0.0.0`, then one line per pair.
    pub fn render_manifest(&self) -> (r: String)
        ensures
            r@ == manifest_text(self.pairs()),
    {
        let mut text = String::from_str("[package]\nname = \"temp_prefetch_project\"\nversion = \"0.0.0\"\n");
        text.append("\n[dependencies]\n");
        let mut i: usize = 0;
        assert(self.pairs().take(0) =~= Seq::<Dep>::empty());
        while i < self.entries.len()
            invariant
                0 <= i <= self.entries@.len(),
                text@ == manifest_text(self.pairs().take(i as int)),
            decreases self.entries@.len() - i,
        {
            let ghost before = text@;
            text.append("\"");
            text.append(self.entries[i].0.as_str());
            text.append("\" = \"");
            text.append(self.entries[i].1.as_str());
            text.append("\"\n");
            proof {
                let s = self.pairs().take(i + 1);
                assert(s.drop_last() =~= self.pairs().take(i as int));
                assert(s.last() == (self.entries@[i as int].0@, self.entries@[i as int].1@));
                assert(text@ =~= before + dependency_line(s.last()));
            }
            i = i + 1;
        }
        assert(self.pairs().take(i as int) =~= self.pairs());
        text
    }
}

/// The set of every pair that the manifest texts declare, taken in their
/// order; the first text that is no TOML document, or whose document yields a
/// fault, gives the result. A parse fault stands as `Parse` with an empty
/// message: the parser's wording is left open.
pub open spec fn collected(texts: Seq<Seq<char>>) -> Result<Set<Dep>, ManifestFault>
    decreases texts.len(),
{
    if texts.len() == 0 {
        Ok(Set::empty())
    } else {
        match collected(texts.drop_last()) {
            Err(f) => Err(f),
            Ok(set) => match toml_document(texts.last()) {
                None => Err(ManifestFault::Parse(Seq::empty())),
                Some(doc) => match manifest_model(doc) {
                    Err(f) => Err(f),
                    Ok((ds, dev)) => Ok(set + ds.to_set() + dev.to_set()),
                },
            },
        }
    }
}

/// A fault in a prefix of the texts is the fault of them all.
proof fn lemma_collected_error_extends(texts: Seq<Seq<char>>, n: int)
    requires
        0 <= n <= texts.len(),
        collected(texts.take(n)) is Err,
    ensures
        collected(texts) == collected(texts.take(n)),
    decreases texts.len() - n,
{
    if n < texts.len() {
        assert(texts.take(n + 1).drop_last() =~= texts.take(n));
        lemma_collected_error_extends(texts, n + 1);
    } else {
        assert(texts.take(n) =~= texts);
    }
}

/// Merges the dependencies of manifest texts, in their order, into one set.
/// The first text that is no TOML document ends it with `Parse`; the first
/// document that cannot be read for dependencies ends it with its error.
/// Every pair kept has a valid requirement.
pub fn collect_crates(manifests: &Vec<String>) -> (r: Result<CrateSet, ManifestError>)
    ensures
        match collected(manifests@.map_values(|t: String| t@)) {
            Ok(set) => r is Ok && r->Ok_0.wf() && r->Ok_0@ == set,
            Err(ManifestFault::Parse(_)) => r is Err && r->Err_0 is Parse,
            Err(f) => r is Err && r->Err_0@ == f,
        },
        r is Ok ==> forall|d: Dep| #[trigger] r->Ok_0@.contains(d) ==> is_version_req(d.1),
{
    let ghost texts = manifests@.map_values(|t: String| t@);
    let mut crates = CrateSet::new();
    let mut i: usize = 0;
    assert(texts.take(0) =~= Seq::<Seq<char>>::empty());
    while i < manifests.len()
        invariant
            0 <= i <= manifests@.len(),
            texts == manifests@.map_values(|t: String| t@),
            crates.wf(),
            collected(texts.take(i as int)) == Ok::<Set<Dep>, ManifestFault>(crates@),
            forall|d: Dep| #[trigger] crates@.contains(d) ==> is_version_req(d.1),
        decreases manifests@.len() - i,
    {
        assert(texts.take(i + 1).drop_last() =~= texts.take(i as int));
        assert(texts.take(i + 1).last() == manifests@[i as int]@);
        let doc = match parse_document(manifests[i].as_str()) {
            Ok(doc) => doc,
            Err(message) => {
                proof {
                    lemma_collected_error_extends(texts, i + 1);
                }
                return Err(ManifestError::Parse(message));
            },
        };
        let ghost d = doc@;
        match manifest_dependencies(doc) {
            Ok(m) => {
                let ghost prev = crates@;
                crates.add_dependencies(&m);
                assert(crates@ =~= prev + deps_view(m.dependencies@).to_set() + deps_view(m.dev_dependencies@).to_set());
                proof {
                    lemma_model_valid(d, m);
                    assert forall|x: Dep| #[trigger] declared(m).contains(x) implies is_version_req(x.1) by {
                        if deps_view(m.dependencies@).contains(x) {
                            let k = choose|k: int| 0 <= k < deps_view(m.dependencies@).len() && deps_view(m.dependencies@)[k] == x;
                            assert(is_version_req(m.dependencies@[k].version@));
                        } else {
                            let k = choose|k: int| 0 <= k < deps_view(m.dev_dependencies@).len() && deps_view(m.dev_dependencies@)[k] == x;
                            assert(is_version_req(m.dev_dependencies@[k].version@));
                        }
                    }
                }
            },
            Err(e) => {
                proof {
                    lemma_model_not_parse(d);
                    lemma_collected_error_extends(texts, i + 1);
                }
                return Err(e);
            },
        }
        i = i + 1;
    }
    assert(texts.take(i as int) =~= texts);
    Ok(crates)
}

} // verus!

verus! {

/// Two manifests that both declare a pair leave it stored exactly once in
/// the set that merges them.
pub proof fn lemma_shared_pair_stored_once(merged: CrateSet, a: PackageDependencies, b: PackageDependencies, d: Dep)
    requires
        merged.wf(),
        merged@ == declared(a) + declared(b),
        declared(a).contains(d),
        declared(b).contains(d),
    ensures
        exists|i: int| 0 <= i < merged.pairs().len() && merged.pairs()[i] == d
            && forall|j: int| 0 <= j < merged.pairs().len() && #[trigger] merged.pairs()[j] == d ==> j == i,
{
    assert(merged@.contains(d));
    let i = choose|i: int| 0 <= i < merged.pairs().len() && merged.pairs()[i] == d;
    assert(forall|j: int| 0 <= j < merged.pairs().len() && #[trigger] merged.pairs()[j] == d ==> j == i);
}

/// Two manifests that declare one name with two different requirements leave
/// two distinct pairs in the set that merges them.
pub proof fn lemma_two_requirements_two_pairs(
    merged: CrateSet,
    a: PackageDependencies,
    b: PackageDependencies,
    name: Seq<char>,
    v1: Seq<char>,
    v2: Seq<char>,
)
    requires
        merged.wf(),
        merged@ == declared(a) + declared(b),
        declared(a).contains((name, v1)),
        declared(b).contains((name, v2)),
        v1 != v2,
    ensures
        merged@.contains((name, v1)),
        merged@.contains((name, v2)),
        exists|i: int, j: int|
            0 <= i < merged.pairs().len() && 0 <= j < merged.pairs().len() && i != j
                && #[trigger] merged.pairs()[i] == (name, v1) && #[trigger] merged.pairs()[j] == (name, v2),
{
    assert(merged@.contains((name, v1)));
    assert(merged@.contains((name, v2)));
    let i = choose|i: int| 0 <= i < merged.pairs().len() && merged.pairs()[i] == (name, v1);
    let j = choose|j: int| 0 <= j < merged.pairs().len() && merged.pairs()[j] == (name, v2);
    assert(i != j);
}

/// The pairs that a dependency table of string entries stands for.
pub open spec fn string_entries(table: Seq<(String, toml::Value)>) -> Seq<Dep> {
    table.map_values(|e: (String, toml::Value)| (e.0@, (toml_layer(e.1)->Str_0)@))
}

/// Reading back the dependency table of a rendered manifest, whose entries
/// are strings that stand for the set's pairs in any order, yields the set's
/// pairs again, less those whose requirement is invalid.
pub proof fn lemma_round_trip(crates: CrateSet, table: Seq<(String, toml::Value)>)
    requires
        crates.wf(),
        forall|i: int| 0 <= i < table.len() ==> toml_layer(#[trigger] table[i].1) is Str,
        string_entries(table).to_set() == crates@,
    ensures
        table_dependencies(table) == Ok::<Seq<Dep>, ManifestFault>(valid_only(string_entries(table))),
        table_dependencies(table)->Ok_0.to_set() == crates@.filter(|d: Dep| is_version_req(d.1)),
{
    broadcast use vstd::seq_lib::group_filter_ensures;
    lemma_string_entries_versioned(table);
    let ds = string_entries(table);
    let kept = valid_only(ds);
    assert(kept.to_set() =~= crates@.filter(|d: Dep| is_version_req(d.1))) by {
        assert forall|d: Dep| kept.to_set().contains(d) <==> crates@.filter(|d: Dep| is_version_req(d.1)).contains(d) by {
            if kept.contains(d) {
                let k = choose|k: int| 0 <= k < kept.len() && kept[k] == d;
                ds.lemma_filter_pred(|d: Dep| is_version_req(d.1), k);
                ds.lemma_filter_contains_rev(|d: Dep| is_version_req(d.1), d);
            }
            if crates@.contains(d) && is_version_req(d.1) {
                let k = choose|k: int| 0 <= k < ds.len() && ds[k] == d;
                ds.lemma_filter_contains(|d: Dep| is_version_req(d.1), k);
            }
        }
    }
}

proof fn lemma_string_entries_versioned(table: Seq<(String, toml::Value)>)
    requires
        forall|i: int| 0 <= i < table.len() ==> toml_layer(#[trigger] table[i].1) is Str,
    ensures
        versioned(table) == Ok::<Seq<Dep>, ManifestFault>(string_entries(table)),
    decreases table.len(),
{
    if table.len() > 0 {
        let rest = table.drop_last();
        assert forall|i: int| 0 <= i < rest.len() implies toml_layer(#[trigger] rest[i].1) is Str by {
            assert(rest[i] == table[i]);
        }
        lemma_string_entries_versioned(rest);
        assert(toml_layer(table[table.len() - 1].1) is Str);
        assert(string_entries(table) =~= string_entries(rest).push(
            (table.last().0@, (toml_layer(table.last().1)->Str_0)@),
        ));
    } else {
        assert(string_entries(table) =~= Seq::<Dep>::empty());
    }
}

/// Every rendered manifest begins with the same `[package]` section, whose
/// version is `0.0.0`, whatever pairs it declares.
pub proof fn lemma_package_section_first(ds: Seq<Dep>)
    ensures
        manifest_text(ds).take(package_section().len() as int) == package_section(),
        package_section() == "[package]\nname = \"temp_prefetch_project\"\nversion = \"0.0.0\"\n"@,
{
    assert(manifest_text(ds).take(package_section().len() as int) =~= package_section());
}

} // verus!
