//! The parts of a released `Cargo.toml` manifest that the statistics read.

use vstd::prelude::*;

use crate::text_map::TextMap;

verus! {

/// The `[package]` table of a manifest. Fields that hold free-form TOML values
/// (`build`, `publish`, `metadata`) are not kept here.
pub struct Package {
    pub name: String,
    pub version: String,
    pub edition: Option<String>,
    pub authors: Option<Vec<String>>,
    pub description: Option<String>,
    pub readme: Option<String>,
    pub license: Option<String>,
    pub repository: Option<String>,
    pub homepage: Option<String>,
    pub documentation: Option<String>,
    pub resolver: Option<String>,
    pub links: Option<String>,
    pub default_dash_run: Option<String>,
    pub rust_dash_version: Option<String>,
    pub rust_version: Option<String>,
    pub license_dash_file: Option<String>,
    pub license_file: Option<String>,
    pub license_capital_file: Option<String>,
    pub forced_dash_target: Option<String>,
    pub autobins: Option<bool>,
    pub autotests: Option<bool>,
    pub autoexamples: Option<bool>,
    pub autobenches: Option<bool>,
    pub keywords: Option<Vec<String>>,
    pub categories: Option<Vec<String>>,
    pub exclude: Option<Vec<String>>,
    pub included: Option<Vec<String>>,
}

/// The view of an optional text.
pub open spec fn opt_view(t: Option<String>) -> Option<Seq<char>> {
    match t {
        Some(s) => Some(s@),
        None => None,
    }
}

/// The view of an optional list of texts.
pub open spec fn opt_list_view(t: Option<Vec<String>>) -> Option<Seq<Seq<char>>> {
    match t {
        Some(v) => Some(v@.map_values(|s: String| s@)),
        None => None,
    }
}

fn copy_text(t: &Option<String>) -> (r: Option<String>)
    ensures
        r == *t,
{
    match t {
        Some(s) => Some(s.clone()),
        None => None,
    }
}

/// A copy of a list of texts.
pub fn copy_texts(v: &Vec<String>) -> (r: Vec<String>)
    ensures
        r@ == v@,
{
    let mut r: Vec<String> = Vec::new();
    for i in 0..v.len()
        invariant
            r@ == v@.take(i as int),
    {
        r.push(v[i].clone());
        assert(r@ =~= v@.take(i + 1));
    }
    assert(v@.take(v@.len() as int) =~= v@);
    r
}

fn copy_list(t: &Option<Vec<String>>) -> (r: Option<Vec<String>>)
    ensures
        opt_list_view(r) == opt_list_view(*t),
{
    match t {
        Some(v) => {
            let c = copy_texts(v);
            assert(c@.map_values(|s: String| s@) =~= v@.map_values(|s: String| s@));
            Some(c)
        },
        None => None,
    }
}

impl Package {
    /// A package with empty name and version and no other field set.
    pub open spec fn is_blank(&self) -> bool {
        &&& self.name@.len() == 0
        &&& self.version@.len() == 0
        &&& self.edition is None
        &&& self.authors is None
        &&& self.description is None
        &&& self.readme is None
        &&& self.license is None
        &&& self.repository is None
        &&& self.homepage is None
        &&& self.documentation is None
        &&& self.resolver is None
        &&& self.links is None
        &&& self.default_dash_run is None
        &&& self.rust_dash_version is None
        &&& self.rust_version is None
        &&& self.license_dash_file is None
        &&& self.license_file is None
        &&& self.license_capital_file is None
        &&& self.forced_dash_target is None
        &&& self.autobins is None
        &&& self.autotests is None
        &&& self.autoexamples is None
        &&& self.autobenches is None
        &&& self.keywords is None
        &&& self.categories is None
        &&& self.exclude is None
        &&& self.included is None
    }

    /// An empty package.
    pub fn new() -> (p: Self)
        ensures
            p.is_blank(),
    {
        Package {
            name: String::new(),
            version: String::new(),
            edition: None,
            authors: None,
            description: None,
            readme: None,
            license: None,
            repository: None,
            homepage: None,
            documentation: None,
            resolver: None,
            links: None,
            default_dash_run: None,
            rust_dash_version: None,
            rust_version: None,
            license_dash_file: None,
            license_file: None,
            license_capital_file: None,
            forced_dash_target: None,
            autobins: None,
            autotests: None,
            autoexamples: None,
            autobenches: None,
            keywords: None,
            categories: None,
            exclude: None,
            included: None,
        }
    }

    /// The two packages hold the same values.
    pub open spec fn same_as(&self, other: &Package) -> bool {
        &&& self.name == other.name
        &&& self.version == other.version
        &&& self.edition == other.edition
        &&& opt_list_view(self.authors) == opt_list_view(other.authors)
        &&& self.description == other.description
        &&& self.readme == other.readme
        &&& self.license == other.license
        &&& self.repository == other.repository
        &&& self.homepage == other.homepage
        &&& self.documentation == other.documentation
        &&& self.resolver == other.resolver
        &&& self.links == other.links
        &&& self.default_dash_run == other.default_dash_run
        &&& self.rust_dash_version == other.rust_dash_version
        &&& self.rust_version == other.rust_version
        &&& self.license_dash_file == other.license_dash_file
        &&& self.license_file == other.license_file
        &&& self.license_capital_file == other.license_capital_file
        &&& self.forced_dash_target == other.forced_dash_target
        &&& self.autobins == other.autobins
        &&& self.autotests == other.autotests
        &&& self.autoexamples == other.autoexamples
        &&& self.autobenches == other.autobenches
        &&& opt_list_view(self.keywords) == opt_list_view(other.keywords)
        &&& opt_list_view(self.categories) == opt_list_view(other.categories)
        &&& opt_list_view(self.exclude) == opt_list_view(other.exclude)
        &&& opt_list_view(self.included) == opt_list_view(other.included)
    }

    /// A copy of the package.
    pub fn duplicate(&self) -> (p: Self)
        ensures
            p.same_as(self),
    {
        Package {
            name: self.name.clone(),
            version: self.version.clone(),
            edition: copy_text(&self.edition),
            authors: copy_list(&self.authors),
            description: copy_text(&self.description),
            readme: copy_text(&self.readme),
            license: copy_text(&self.license),
            repository: copy_text(&self.repository),
            homepage: copy_text(&self.homepage),
            documentation: copy_text(&self.documentation),
            resolver: copy_text(&self.resolver),
            links: copy_text(&self.links),
            default_dash_run: copy_text(&self.default_dash_run),
            rust_dash_version: copy_text(&self.rust_dash_version),
            rust_version: copy_text(&self.rust_version),
            license_dash_file: copy_text(&self.license_dash_file),
            license_file: copy_text(&self.license_file),
            license_capital_file: copy_text(&self.license_capital_file),
            forced_dash_target: copy_text(&self.forced_dash_target),
            autobins: self.autobins,
            autotests: self.autotests,
            autoexamples: self.autoexamples,
            autobenches: self.autobenches,
            keywords: copy_list(&self.keywords),
            categories: copy_list(&self.categories),
            exclude: copy_list(&self.exclude),
            included: copy_list(&self.included),
        }
    }
}

impl Default for Package {
    fn default() -> (p: Self)
        ensures
            p.is_blank(),
    {
        Package::new()
    }
}

/// A manifest: its package table and the names of its dependencies.
pub struct Cargo {
    pub package: Package,
    pub dependencies: Option<Vec<String>>,
}

impl Cargo {
    /// A manifest with a blank package and no dependencies table.
    pub open spec fn is_blank(&self) -> bool {
        self.package.is_blank() && self.dependencies is None
    }

    /// An empty manifest.
    pub fn new() -> (c: Self)
        ensures
            c.is_blank(),
    {
        Cargo { package: Package::new(), dependencies: None }
    }

    /// The two manifests hold the same values.
    pub open spec fn same_as(&self, other: &Cargo) -> bool {
        self.package.same_as(&other.package) && opt_list_view(self.dependencies) == opt_list_view(
            other.dependencies,
        )
    }

    /// A copy of the manifest.
    pub fn duplicate(&self) -> (c: Self)
        ensures
            c.same_as(self),
    {
        Cargo { package: self.package.duplicate(), dependencies: copy_list(&self.dependencies) }
    }
}

impl Default for Cargo {
    fn default() -> (c: Self)
        ensures
            c.is_blank(),
    {
        Cargo::new()
    }
}

/// The name and version of a package, all that a manifest must hold.
pub struct SimplePackage {
    pub name: String,
    pub version: String,
}

/// A manifest read for its name and version alone.
pub struct SimpleCargo {
    pub package: SimplePackage,
}


/// What reading a released manifest gave.
pub enum ManifestOutcome<M> {
    /// The manifest was read.
    Loaded(M),
    /// The manifest could not be read in full, but its name could, with the error.
    Named { name: String, error: String },
    /// Not even the name could be read: the folder of the crate, and the error.
    Nameless { folder: String, error: String },
}

/// The released manifests read so far: those read, the errors by crate name, and
/// the errors of the crates without a readable name, by folder.
pub struct ReleasedManifests<M> {
    pub released: Vec<M>,
    pub errors: TextMap<String>,
    pub nameless: TextMap<String>,
}

impl<M> ReleasedManifests<M> {
    /// The record is well formed.
    pub open spec fn wf(&self) -> bool {
        self.errors.wf() && self.nameless.wf()
    }

    /// Nothing read yet.
    pub fn new() -> (m: Self)
        ensures
            m.wf(),
            m.released@.len() == 0,
            m.errors.view() == Map::<Seq<char>, String>::empty(),
            m.nameless.view() == Map::<Seq<char>, String>::empty(),
    {
        ReleasedManifests { released: Vec::new(), errors: TextMap::new(), nameless: TextMap::new() }
    }

    /// Records what reading a manifest gave: a read manifest joins the others; an
    /// error is kept under the crate's name, or under its folder where the name could
    /// not be read (a later error under the same key replaces an earlier one).
    pub fn record(&mut self, outcome: ManifestOutcome<M>)
        requires
            old(self).wf(),
        ensures
            final(self).wf(),
            match outcome {
                ManifestOutcome::Loaded(cargo) => {
                    &&& final(self).released@ == old(self).released@.push(cargo)
                    &&& final(self).errors.view() == old(self).errors.view()
                    &&& final(self).nameless.view() == old(self).nameless.view()
                },
                ManifestOutcome::Named { name, error } => {
                    &&& final(self).released@ == old(self).released@
                    &&& final(self).errors.view() == old(self).errors.view().insert(name@, error)
                    &&& final(self).nameless.view() == old(self).nameless.view()
                },
                ManifestOutcome::Nameless { folder, error } => {
                    &&& final(self).released@ == old(self).released@
                    &&& final(self).errors.view() == old(self).errors.view()
                    &&& final(self).nameless.view() == old(self).nameless.view().insert(folder@, error)
                },
            },
    {
        match outcome {
            ManifestOutcome::Loaded(cargo) => self.released.push(cargo),
            ManifestOutcome::Named { name, error } => self.errors.insert(name, error),
            ManifestOutcome::Nameless { folder, error } => self.nameless.insert(folder, error),
        }
    }
}

} // verus!
