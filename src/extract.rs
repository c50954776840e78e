use vstd::prelude::*;
use crate::toml_doc::{parse_document, split_layer, toml_document, toml_layer, TomlLayer};
use crate::version_req::{is_version_req, parses_as_version_req};

verus! {

/// A dependency as a (name, version requirement) pair.
pub type Dep = (Seq<char>, Seq<char>);

/// One declared dependency: its name and its version requirement as written.
#[derive(Clone, Debug, PartialEq, Eq)]
pub struct Package {
    pub name: String,
    pub version: String,
}

impl Package {
    /// A copy of this package.
    pub fn clone_package(&self) -> (r: Package)
        ensures
            r@ == self@,
    {
        Package { name: self.name.clone(), version: self.version.clone() }
    }
}

impl View for Package {
    type V = Dep;

    open spec fn view(&self) -> Dep {
        (self.name@, self.version@)
    }
}

/// The dependencies that one manifest declares, per section, in table order.
#[derive(Clone, Debug, PartialEq, Eq)]
pub struct PackageDependencies {
    pub dependencies: Vec<Package>,
    pub dev_dependencies: Vec<Package>,
}

/// Why a manifest could not be read for dependencies.
#[derive(Clone, Debug, PartialEq, Eq)]
pub enum ManifestError {
    /// The text is not a TOML document; the parser's message.
    Parse(String),
    /// A dependency section is present but is not a table; the section's name.
    NotATable(String),
    /// A dependency has no version string; the dependency's name.
    MissingVersion(String),
}

/// `ManifestError` with its text as character sequences.
pub enum ManifestFault {
    Parse(Seq<char>),
    NotATable(Seq<char>),
    MissingVersion(Seq<char>),
}

impl View for ManifestError {
    type V = ManifestFault;

    open spec fn view(&self) -> ManifestFault {
        match self {
            ManifestError::Parse(m) => ManifestFault::Parse(m@),
            ManifestError::NotATable(s) => ManifestFault::NotATable(s@),
            ManifestError::MissingVersion(n) => ManifestFault::MissingVersion(n@),
        }
    }
}

/// The packages as (name, version) pairs.
pub open spec fn deps_view(ps: Seq<Package>) -> Seq<Dep> {
    ps.map_values(|p: Package| p@)
}

/// The value of the first entry named `key`.
pub open spec fn lookup(entries: Seq<(String, toml::Value)>, key: Seq<char>) -> Option<toml::Value>
    decreases entries.len(),
{
    if entries.len() == 0 {
        None
    } else if entries[0].0@ == key {
        Some(entries[0].1)
    } else {
        lookup(entries.drop_first(), key)
    }
}

/// What a section yields when its value is `v`; an absent section yields nothing.
pub open spec fn section_of(v: Option<toml::Value>, key: Seq<char>) -> Result<Seq<Dep>, ManifestFault> {
    match v {
        None => Ok(Seq::empty()),
        Some(t) => match toml_layer(t) {
            TomlLayer::Table(entries) => table_dependencies(entries@),
            _ => Err(ManifestFault::NotATable(key)),
        },
    }
}

/// The version string of a dependency entry: the entry itself when it is a
/// string, the `version` field when it is a table whose field is a string.
pub open spec fn version_of(v: toml::Value) -> Option<Seq<char>> {
    match toml_layer(v) {
        TomlLayer::Str(s) => Some(s@),
        TomlLayer::Table(fields) => match lookup(fields@, "version"@) {
            Some(f) => match toml_layer(f) {
                TomlLayer::Str(s) => Some(s@),
                _ => None,
            },
            None => None,
        },
        TomlLayer::Other => None,
    }
}

/// Every entry of a dependency table as a pair, or the first entry without a version.
pub open spec fn versioned(entries: Seq<(String, toml::Value)>) -> Result<Seq<Dep>, ManifestFault>
    decreases entries.len(),
{
    if entries.len() == 0 {
        Ok(Seq::empty())
    } else {
        let last = entries.last();
        match versioned(entries.drop_last()) {
            Err(f) => Err(f),
            Ok(rest) => match version_of(last.1) {
                Some(v) => Ok(rest.push((last.0@, v))),
                None => Err(ManifestFault::MissingVersion(last.0@)),
            },
        }
    }
}

/// The pairs whose version is a valid requirement, in their order.
pub open spec fn valid_only(ds: Seq<Dep>) -> Seq<Dep> {
    ds.filter(|d: Dep| is_version_req(d.1))
}

/// The pairs whose mark is set, in their order.
pub open spec fn marked(ds: Seq<Dep>, marks: Seq<bool>) -> Seq<Dep>
    decreases ds.len(),
{
    if ds.len() == 0 || marks.len() != ds.len() {
        Seq::empty()
    } else {
        let rest = marked(ds.drop_last(), marks.drop_last());
        if marks.last() {
            rest.push(ds.last())
        } else {
            rest
        }
    }
}

/// What a dependency table yields: its versioned entries with the invalid
/// requirements left out, or the first entry that has no version.
pub open spec fn table_dependencies(entries: Seq<(String, toml::Value)>) -> Result<Seq<Dep>, ManifestFault> {
    match versioned(entries) {
        Ok(ds) => Ok(valid_only(ds)),
        Err(f) => Err(f),
    }
}

/// What the section `key` of a document yields; an absent section yields nothing.
pub open spec fn section_dependencies(doc: Seq<(String, toml::Value)>, key: Seq<char>) -> Result<Seq<Dep>, ManifestFault> {
    section_of(lookup(doc, key), key)
}

/// What a document yields: its regular and its development dependencies.
pub open spec fn manifest_model(doc: Seq<(String, toml::Value)>) -> Result<(Seq<Dep>, Seq<Dep>), ManifestFault> {
    match section_dependencies(doc, "dependencies"@) {
        Err(f) => Err(f),
        Ok(ds) => match section_dependencies(doc, "dev-dependencies"@) {
            Err(f) => Err(f),
            Ok(dev) => Ok((ds, dev)),
        },
    }
}

/// The position of the first entry named `key`.
pub fn position_of(entries: &Vec<(String, toml::Value)>, key: &str) -> (r: Option<usize>)
    ensures
        match r {
            Some(i) => i < entries@.len() && entries@[i as int].0@ == key@
                && lookup(entries@, key@) == Some(entries@[i as int].1),
            None => lookup(entries@, key@) is None,
        },
{
    let wanted = String::from_str(key);
    let mut i: usize = 0;
    assert(entries@.skip(0) =~= entries@);
    while i < entries.len()
        invariant
            0 <= i <= entries@.len(),
            wanted@ == key@,
            lookup(entries@, key@) == lookup(entries@.skip(i as int), key@),
        decreases entries@.len() - i,
    {
        assert(entries@.skip(i as int).drop_first() =~= entries@.skip(i + 1));
        if entries[i].0 == wanted {
            return Some(i);
        }
        i = i + 1;
    }
    None
}

/// The version string of a dependency entry, if it has one.
pub fn entry_version(v: toml::Value) -> (r: Option<String>)
    ensures
        match r {
            Some(s) => version_of(v) == Some(s@),
            None => version_of(v) is None,
        },
{
    match split_layer(v) {
        TomlLayer::Str(s) => Some(s),
        TomlLayer::Table(fields) => {
            let mut fields = fields;
            match position_of(&fields, "version") {
                Some(i) => match split_layer(fields.swap_remove(i).1) {
                    TomlLayer::Str(s) => Some(s),
                    _ => None,
                },
                None => None,
            }
        },
        TomlLayer::Other => None,
    }
}

/// Each entry of a dependency table with its version string, in table order;
/// fails on the first entry that has none.
pub fn versioned_entries(entries: Vec<(String, toml::Value)>) -> (r: Result<Vec<Package>, ManifestError>)
    ensures
        match r {
            Ok(ps) => versioned(entries@) == Ok::<Seq<Dep>, ManifestFault>(deps_view(ps@)),
            Err(e) => versioned(entries@) == Err::<Seq<Dep>, ManifestFault>(e@),
        },
{
    let ghost all = entries@;
    let mut rest = entries;
    let n = rest.len();
    let mut out: Vec<Package> = Vec::new();
    let mut missing: Option<String> = None;
    let mut i: usize = 0;
    assert(all.take(0) =~= Seq::<(String, toml::Value)>::empty());
    assert(deps_view(out@) =~= Seq::<Dep>::empty());
    assert(all.skip(0) =~= all);
    while rest.len() > 0
        invariant_except_break
            missing is None,
            versioned(all.take(i as int)) == Ok::<Seq<Dep>, ManifestFault>(deps_view(out@)),
            i + rest@.len() == all.len(),
            rest@ == all.skip(i as int),
        invariant
            0 <= i <= all.len(),
            all.len() == n,
        ensures
            missing is None ==> i == all.len() && versioned(all.take(i as int)) == Ok::<Seq<Dep>, ManifestFault>(
                deps_view(out@),
            ),
            missing is Some ==> versioned(all) == Err::<Seq<Dep>, ManifestFault>(
                ManifestFault::MissingVersion(missing->Some_0@),
            ),
        decreases rest@.len(),
    {
        assert(all.take(i + 1).drop_last() =~= all.take(i as int));
        assert(rest@[0] == all[i as int]);
        let (name, value) = rest.remove(0);
        assert(rest@ =~= all.skip(i + 1));
        assert(all.take(i + 1).last() == all[i as int]);
        match entry_version(value) {
            Some(version) => {
                let ghost before = out@;
                out.push(Package { name, version });
                assert(deps_view(out@) =~= deps_view(before).push(out@.last()@));
            },
            None => {
                proof {
                    lemma_versioned_error_extends(all, i as int + 1);
                }
                missing = Some(name);
                break;
            },
        }
        i = i + 1;
    }
    proof {
        if missing is None {
            assert(all.take(i as int) =~= all);
        }
    }
    match missing {
        Some(name) => Err(ManifestError::MissingVersion(name)),
        None => Ok(out),
    }
}

/// Keeps the packages whose mark is set, in their order.
pub fn keep_marked(cands: &Vec<Package>, marks: &Vec<bool>) -> (r: Vec<Package>)
    requires
        cands@.len() == marks@.len(),
    ensures
        deps_view(r@) == marked(deps_view(cands@), marks@),
{
    let mut out: Vec<Package> = Vec::new();
    let mut i: usize = 0;
    assert(deps_view(cands@).take(0) =~= Seq::<Dep>::empty());
    assert(deps_view(out@) =~= Seq::<Dep>::empty());
    while i < cands.len()
        invariant
            0 <= i <= cands@.len(),
            cands@.len() == marks@.len(),
            deps_view(out@) == marked(deps_view(cands@).take(i as int), marks@.take(i as int)),
        decreases cands@.len() - i,
    {
        assert(deps_view(cands@).take(i + 1).drop_last() =~= deps_view(cands@).take(i as int));
        assert(marks@.take(i + 1).drop_last() =~= marks@.take(i as int));
        if marks[i] {
            let ghost before = out@;
            out.push(cands[i].clone_package());
            assert(deps_view(out@) =~= deps_view(before).push(cands@[i as int]@));
        }
        i = i + 1;
    }
    assert(deps_view(cands@).take(i as int) =~= deps_view(cands@));
    assert(marks@.take(i as int) =~= marks@);
    out
}

/// The marks of the valid requirements pick exactly the valid pairs.
proof fn lemma_marked_valid(ds: Seq<Dep>, marks: Seq<bool>)
    requires
        ds.len() == marks.len(),
        forall|i: int| 0 <= i < ds.len() ==> #[trigger] marks[i] == is_version_req(ds[i].1),
    ensures
        marked(ds, marks) == valid_only(ds),
    decreases ds.len(),
{
    reveal(Seq::filter);
    if ds.len() > 0 {
        lemma_marked_valid(ds.drop_last(), marks.drop_last());
        assert(marks.last() == is_version_req(ds.last().1));
    }
}

/// Keeps the packages whose version is a valid requirement, in their order.
pub fn retain_valid(cands: &Vec<Package>) -> (r: Vec<Package>)
    ensures
        deps_view(r@) == valid_only(deps_view(cands@)),
{
    let mut marks: Vec<bool> = Vec::new();
    let mut i: usize = 0;
    while i < cands.len()
        invariant
            0 <= i <= cands@.len(),
            marks@.len() == i,
            forall|j: int| 0 <= j < i ==> #[trigger] marks@[j] == is_version_req(cands@[j].version@),
        decreases cands@.len() - i,
    {
        marks.push(parses_as_version_req(cands[i].version.as_str()));
        i = i + 1;
    }
    proof {
        lemma_marked_valid(deps_view(cands@), marks@);
    }
    keep_marked(cands, &marks)
}

/// The dependencies of one dependency table: every entry's version string,
/// the entries whose string is no valid requirement left out.
pub fn transform_dependencies(entries: Vec<(String, toml::Value)>) -> (r: Result<Vec<Package>, ManifestError>)
    ensures
        match r {
            Ok(ps) => table_dependencies(entries@) == Ok::<Seq<Dep>, ManifestFault>(deps_view(ps@)),
            Err(e) => table_dependencies(entries@) == Err::<Seq<Dep>, ManifestFault>(e@),
        },
{
    match versioned_entries(entries) {
        Ok(cands) => Ok(retain_valid(&cands)),
        Err(e) => Err(e),
    }
}

fn section(v: Option<toml::Value>, key: &str) -> (r: Result<Vec<Package>, ManifestError>)
    ensures
        match r {
            Ok(ps) => section_of(v, key@) == Ok::<Seq<Dep>, ManifestFault>(deps_view(ps@)),
            Err(e) => section_of(v, key@) == Err::<Seq<Dep>, ManifestFault>(e@),
        },
{
    match v {
        None => {
            let out: Vec<Package> = Vec::new();
            assert(deps_view(out@) =~= Seq::<Dep>::empty());
            Ok(out)
        },
        Some(t) => match split_layer(t) {
            TomlLayer::Table(entries) => transform_dependencies(entries),
            _ => Err(ManifestError::NotATable(String::from_str(key))),
        },
    }
}

/// The regular and development dependencies that a parsed manifest declares.
/// An absent section yields no dependencies.
pub fn manifest_dependencies(doc: Vec<(String, toml::Value)>) -> (r: Result<PackageDependencies, ManifestError>)
    ensures
        match r {
            Ok(m) => manifest_model(doc@) == Ok::<(Seq<Dep>, Seq<Dep>), ManifestFault>(
                (deps_view(m.dependencies@), deps_view(m.dev_dependencies@)),
            ),
            Err(e) => manifest_model(doc@) == Err::<(Seq<Dep>, Seq<Dep>), ManifestFault>(e@),
        },
{
    let ghost d0 = doc@;
    let at_deps = position_of(&doc, "dependencies");
    let at_dev = position_of(&doc, "dev-dependencies");
    proof {
        reveal_strlit("dependencies");
        reveal_strlit("dev-dependencies");
        assert("dependencies"@.len() == 12);
        assert("dev-dependencies"@.len() == 16);
        if at_deps is Some && at_dev is Some {
            assert(d0[at_deps->Some_0 as int].0@ != d0[at_dev->Some_0 as int].0@);
        }
    }
    let mut doc = doc;
    let deps_value = match at_deps {
        Some(i) => Some(doc.remove(i).1),
        None => None,
    };
    let dev_value = match at_dev {
        Some(j) => {
            let k = match at_deps {
                Some(i) => if j > i { j - 1 } else { j },
                None => j,
            };
            proof {
                if let Some(i) = at_deps {
                    assert(i != j);
                    assert(doc@ == d0.remove(i as int));
                    assert(d0.remove(i as int)[k as int] == d0[j as int]);
                } else {
                    assert(doc@ == d0);
                }
            }
            Some(doc.remove(k).1)
        },
        None => None,
    };
    let dependencies = match section(deps_value, "dependencies") {
        Ok(ps) => ps,
        Err(e) => return Err(e),
    };
    let dev_dependencies = match section(dev_value, "dev-dependencies") {
        Ok(ps) => ps,
        Err(e) => return Err(e),
    };
    Ok(PackageDependencies { dependencies, dev_dependencies })
}

/// The dependencies that a manifest's text declares: a text that is no TOML
/// document fails with `Parse`; otherwise the result is what the parsed
/// document yields, and every requirement kept is valid.
pub fn extract_manifest(text: &str) -> (r: Result<PackageDependencies, ManifestError>)
    ensures
        toml_document(text@) is None ==> r is Err && r->Err_0 is Parse,
        toml_document(text@) is Some ==> match r {
            Ok(m) => manifest_model(toml_document(text@)->Some_0) == Ok::<(Seq<Dep>, Seq<Dep>), ManifestFault>(
                (deps_view(m.dependencies@), deps_view(m.dev_dependencies@)),
            ),
            Err(e) => manifest_model(toml_document(text@)->Some_0) == Err::<(Seq<Dep>, Seq<Dep>), ManifestFault>(e@),
        },
        r is Ok ==> forall|i: int| 0 <= i < r->Ok_0.dependencies@.len()
            ==> is_version_req(#[trigger] r->Ok_0.dependencies@[i].version@),
        r is Ok ==> forall|i: int| 0 <= i < r->Ok_0.dev_dependencies@.len()
            ==> is_version_req(#[trigger] r->Ok_0.dev_dependencies@[i].version@),
{
    match parse_document(text) {
        Err(message) => Err(ManifestError::Parse(message)),
        Ok(doc) => {
            let ghost d = doc@;
            let r = manifest_dependencies(doc);
            proof {
                if r is Ok {
                    lemma_model_valid(d, r->Ok_0);
                }
            }
            r
        },
    }
}

/// Every requirement that a section yields is valid.
proof fn lemma_section_valid(doc: Seq<(String, toml::Value)>, key: Seq<char>)
    ensures
        section_dependencies(doc, key) is Ok ==> forall|i: int|
            0 <= i < section_dependencies(doc, key)->Ok_0.len()
            ==> is_version_req(#[trigger] section_dependencies(doc, key)->Ok_0[i].1),
{
    broadcast use vstd::seq_lib::group_filter_ensures;
    if lookup(doc, key) is Some && toml_layer(lookup(doc, key)->Some_0) is Table {
        let t = toml_layer(lookup(doc, key)->Some_0)->Table_0;
        if let Ok(ds) = versioned(t@) {
            assert forall|i: int| 0 <= i < valid_only(ds).len() implies is_version_req(
                #[trigger] valid_only(ds)[i].1,
            ) by {
                ds.lemma_filter_pred(|d: Dep| is_version_req(d.1), i);
            }
        }
    }
}

/// A document never yields a parse fault.
pub(crate) proof fn lemma_model_not_parse(doc: Seq<(String, toml::Value)>)
    ensures
        !(manifest_model(doc) matches Err(ManifestFault::Parse(_))),
{
    lemma_table_not_parse(lookup(doc, "dependencies"@));
    lemma_table_not_parse(lookup(doc, "dev-dependencies"@));
}

proof fn lemma_table_not_parse(v: Option<toml::Value>)
    ensures
        forall|key: Seq<char>| !(#[trigger] section_of(v, key) matches Err(ManifestFault::Parse(_))),
{
    if v is Some && toml_layer(v->Some_0) is Table {
        lemma_versioned_not_parse(toml_layer(v->Some_0)->Table_0@);
    }
}

proof fn lemma_versioned_not_parse(entries: Seq<(String, toml::Value)>)
    ensures
        !(versioned(entries) matches Err(ManifestFault::Parse(_))),
    decreases entries.len(),
{
    if entries.len() > 0 {
        lemma_versioned_not_parse(entries.drop_last());
    }
}

/// Every requirement in the packages of a well-read manifest is valid.
pub(crate) proof fn lemma_model_valid(doc: Seq<(String, toml::Value)>, m: PackageDependencies)
    requires
        manifest_model(doc) == Ok::<(Seq<Dep>, Seq<Dep>), ManifestFault>(
            (deps_view(m.dependencies@), deps_view(m.dev_dependencies@)),
        ),
    ensures
        forall|i: int| 0 <= i < m.dependencies@.len() ==> is_version_req(#[trigger] m.dependencies@[i].version@),
        forall|i: int| 0 <= i < m.dev_dependencies@.len() ==> is_version_req(#[trigger] m.dev_dependencies@[i].version@),
{
    lemma_section_valid(doc, "dependencies"@);
    lemma_section_valid(doc, "dev-dependencies"@);
    assert forall|i: int| 0 <= i < m.dependencies@.len() implies is_version_req(#[trigger] m.dependencies@[i].version@) by {
        let ds = section_dependencies(doc, "dependencies"@);
        assert(ds == Ok::<Seq<Dep>, ManifestFault>(deps_view(m.dependencies@)));
        assert(ds->Ok_0[i] == m.dependencies@[i]@);
        assert(is_version_req(ds->Ok_0[i].1));
    }
    assert forall|i: int| 0 <= i < m.dev_dependencies@.len() implies is_version_req(#[trigger] m.dev_dependencies@[i].version@) by {
        let ds = section_dependencies(doc, "dev-dependencies"@);
        assert(ds == Ok::<Seq<Dep>, ManifestFault>(deps_view(m.dev_dependencies@)));
        assert(ds->Ok_0[i] == m.dev_dependencies@[i]@);
        assert(is_version_req(ds->Ok_0[i].1));
    }
}

/// A fault in a prefix of a table is the fault of the whole table.
proof fn lemma_versioned_error_extends(entries: Seq<(String, toml::Value)>, n: int)
    requires
        0 <= n <= entries.len(),
        versioned(entries.take(n)) is Err,
    ensures
        versioned(entries) == versioned(entries.take(n)),
    decreases entries.len() - n,
{
    if n < entries.len() {
        assert(entries.take(n + 1).drop_last() =~= entries.take(n));
        lemma_versioned_error_extends(entries, n + 1);
    } else {
        assert(entries.take(n) =~= entries);
    }
}



/// A manifest with neither a `dependencies` nor a `dev-dependencies` section
/// yields two empty lists.
pub proof fn lemma_no_sections_no_dependencies(doc: Seq<(String, toml::Value)>)
    requires
        lookup(doc, "dependencies"@) is None,
        lookup(doc, "dev-dependencies"@) is None,
    ensures
        manifest_model(doc) == Ok::<(Seq<Dep>, Seq<Dep>), ManifestFault>((Seq::empty(), Seq::empty())),
{
}

/// An entry `name = "version"` with a valid requirement yields exactly that pair.
pub proof fn lemma_plain_entry_kept(name: String, value: toml::Value, version: String)
    requires
        toml_layer(value) == TomlLayer::Str(version),
        is_version_req(version@),
    ensures
        table_dependencies(seq![(name, value)]) == Ok::<Seq<Dep>, ManifestFault>(seq![(name@, version@)]),
{
    broadcast use vstd::seq_lib::group_filter_ensures;
    let entries = seq![(name, value)];
    let ds = seq![(name@, version@)];
    assert(entries.drop_last() =~= Seq::<(String, toml::Value)>::empty());
    assert(Seq::<Dep>::empty().push((name@, version@)) =~= ds);
    assert(versioned(entries.drop_last()) == Ok::<Seq<Dep>, ManifestFault>(Seq::empty()));
    assert(entries.last() == (name, value));
    assert(versioned(entries) == Ok::<Seq<Dep>, ManifestFault>(ds));
    assert(valid_only(ds).contains(ds[0]));
    assert(valid_only(ds) =~= ds);
}

/// An entry `name = { version = "v", ... }` yields what the entry `name = "v"`
/// yields: the other fields of its table play no part.
pub proof fn lemma_table_entry_reads_version(
    name: String,
    value: toml::Value,
    fields: Vec<(String, toml::Value)>,
    field: toml::Value,
    version: String,
)
    requires
        toml_layer(value) == TomlLayer::Table(fields),
        lookup(fields@, "version"@) == Some(field),
        toml_layer(field) == TomlLayer::Str(version),
    ensures
        version_of(value) == Some(version@),
        table_dependencies(seq![(name, value)]) == Ok::<Seq<Dep>, ManifestFault>(valid_only(seq![(name@, version@)])),
{
    let entries = seq![(name, value)];
    assert(version_of(value) == Some(version@));
    assert(entries.drop_last() =~= Seq::<(String, toml::Value)>::empty());
    assert(versioned(entries.drop_last()) == Ok::<Seq<Dep>, ManifestFault>(Seq::empty()));
    assert(entries.last() == (name, value));
    assert(Seq::<Dep>::empty().push((name@, version@)) =~= seq![(name@, version@)]);
    assert(versioned(entries) == Ok::<Seq<Dep>, ManifestFault>(seq![(name@, version@)]));
}

/// Adding at the end of a table an entry whose version string is no valid
/// requirement changes nothing that the table yields.
pub proof fn lemma_invalid_entry_changes_nothing(entries: Seq<(String, toml::Value)>, name: String, value: toml::Value, v: Seq<char>)
    requires
        version_of(value) == Some(v),
        !is_version_req(v),
    ensures
        table_dependencies(entries.push((name, value))) == table_dependencies(entries),
{
    reveal(Seq::filter);
    let longer = entries.push((name, value));
    assert(longer.drop_last() =~= entries);
    if let Ok(ds) = versioned(entries) {
        assert(ds.push((name@, v)).drop_last() =~= ds);
    }
}

/// An entry whose version string is no valid requirement is absent from what
/// its table yields, and never by itself makes the table fail: the table fails
/// exactly when some entry has no version string at all.
pub proof fn lemma_invalid_requirement_dropped(entries: Seq<(String, toml::Value)>, i: int, v: Seq<char>)
    requires
        0 <= i < entries.len(),
        version_of(entries[i].1) == Some(v),
        !is_version_req(v),
    ensures
        (table_dependencies(entries) is Ok) == (forall|j: int| 0 <= j < entries.len() ==> (#[trigger] version_of(entries[j].1)) is Some),
        table_dependencies(entries) is Ok ==> !table_dependencies(entries)->Ok_0.contains((entries[i].0@, v)),
{
    broadcast use vstd::seq_lib::group_filter_ensures;
    lemma_versioned_ok_iff(entries);
    if let Ok(ds) = versioned(entries) {
        let kept = valid_only(ds);
        if kept.contains((entries[i].0@, v)) {
            let k = choose|k: int| 0 <= k < kept.len() && kept[k] == (entries[i].0@, v);
            ds.lemma_filter_pred(|d: Dep| is_version_req(d.1), k);
        }
    }
}

/// A table yields its versioned entries exactly when every entry has a version.
proof fn lemma_versioned_ok_iff(entries: Seq<(String, toml::Value)>)
    ensures
        (versioned(entries) is Ok) == (forall|j: int| 0 <= j < entries.len() ==> (#[trigger] version_of(entries[j].1)) is Some),
    decreases entries.len(),
{
    if entries.len() > 0 {
        let rest = entries.drop_last();
        lemma_versioned_ok_iff(rest);
        if versioned(entries) is Ok {
            assert forall|j: int| 0 <= j < entries.len() implies (#[trigger] version_of(entries[j].1)) is Some by {
                if j < entries.len() - 1 {
                    assert(rest[j] == entries[j]);
                }
            }
        } else {
            if versioned(rest) is Err {
                let j = choose|j: int| 0 <= j < rest.len() && !(version_of(rest[j].1) is Some);
                assert(rest[j] == entries[j]);
            } else {
                assert(!(version_of(entries[entries.len() - 1].1) is Some));
            }
        }
    }
}

} // verus!
