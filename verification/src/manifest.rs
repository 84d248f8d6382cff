use vstd::prelude::*;
use crate::value::TomlValue;

verus! {

/// `toml::de::Error`, carried through as an opaque value.
#[verifier::external_type_specification]
#[verifier::external_body]
pub struct ExTomlDeError(toml::de::Error);

/// Why a manifest was refused.
#[derive(Debug, PartialEq)]
pub enum ManifestParseError {
    /// The manifest was not valid TOML.
    TomlError(toml::de::Error),
    /// The manifest has a `project` section; projects have been renamed to embers.
    ProjectRenamedToEmberError,
}

/// Whether an ember is a game or a mod.
#[derive(Clone, Copy, Debug, PartialEq, Eq, Structural)]
pub enum EmberType {
    Game,
    Mod,
}

impl Default for EmberType {
    fn default() -> (res: Self)
        ensures
            res == EmberType::Game,
    {
        EmberType::Game
    }
}

/// The categories an ember can be listed under.
#[derive(Clone, Copy, Debug, PartialEq, Eq, Structural)]
pub enum Category {
    Example,
    Fps,
    Survival,
    Simulation,
    Multiplayer,
    Strategy,
    Sports,
    Racing,
}

/// The `[ember]` section of a manifest. Identifiers, the version and the
/// include paths are held as their text.
#[derive(Clone, Debug, PartialEq, Default)]
pub struct Ember {
    pub id: String,
    pub organization: Option<String>,
    pub name: Option<String>,
    pub version: Option<String>,
    pub description: Option<String>,
    pub repository: Option<String>,
    pub authors: Vec<String>,
    pub type_: EmberType,
    pub categories: Vec<Category>,
    pub includes: Vec<String>,
}

impl Ember {
    /// The name shown for the ember: its name, or its id where it has none.
    pub fn display_name(&self) -> (res: &str)
        ensures
            res@ == match self.name {
                Some(n) => n@,
                None => self.id@,
            },
    {
        match &self.name {
            Some(n) => n.as_str(),
            None => self.id.as_str(),
        }
    }
}

/// Settings of the Rust build of an ember.
#[derive(Clone, Debug, PartialEq)]
pub struct BuildRust {
    /// The features to build the ember's Rust code with, one build each.
    pub feature_multibuild: Vec<String>,
}

/// The text of each string, in order.
pub open spec fn texts(v: Seq<String>) -> Seq<Seq<char>> {
    v.map_values(|s: String| s@)
}

impl Default for BuildRust {
    /// Builds once for the client and once for the server.
    fn default() -> (res: Self)
        ensures
            texts(res.feature_multibuild@) == seq!["client"@, "server"@],
    {
        let mut features: Vec<String> = Vec::new();
        features.push(String::from_str("client"));
        features.push(String::from_str("server"));
        assert(texts(features@) =~= seq!["client"@, "server"@]);
        BuildRust { feature_multibuild: features }
    }
}

/// The `[build]` section of a manifest.
#[derive(Clone, Debug, PartialEq)]
pub struct Build {
    pub rust: BuildRust,
}

impl Default for Build {
    fn default() -> (res: Self)
        ensures
            texts(res.rust.feature_multibuild@) == seq!["client"@, "server"@],
    {
        Build { rust: BuildRust::default() }
    }
}

/// Where a dependency of an ember is found.
#[derive(Clone, Debug, PartialEq)]
pub enum Dependency {
    /// A local directory, held as its path text.
    Path { path: String },
}

/// A manifest as read: the ember, its build settings, its items (each held as
/// its TOML table, by name) and its dependencies, all in document order.
#[derive(Debug, PartialEq, Default)]
pub struct Manifest {
    pub ember: Ember,
    pub build: Build,
    pub components: Vec<(String, TomlValue)>,
    pub concepts: Vec<(String, TomlValue)>,
    pub messages: Vec<(String, TomlValue)>,
    pub enums: Vec<(String, TomlValue)>,
    pub dependencies: Vec<(String, Dependency)>,
}

/// No two entries have the same name: the entries stand for a map by name.
pub open spec fn distinct_names<T>(entries: Seq<(String, T)>) -> bool {
    forall|i: int, j: int|
        0 <= i < entries.len() && 0 <= j < entries.len() && i != j ==> (#[trigger] entries[i]).0@
            != (#[trigger] entries[j]).0@
}

impl Manifest {
    /// The item tables and the dependencies are maps by name, as in the
    /// document: no name occurs twice in any of them.
    pub open spec fn has_distinct_names(&self) -> bool {
        &&& distinct_names(self.components@)
        &&& distinct_names(self.concepts@)
        &&& distinct_names(self.messages@)
        &&& distinct_names(self.enums@)
        &&& distinct_names(self.dependencies@)
    }
}

/// The keys of the top-level table of a TOML document, or `None` where the
/// text is not a TOML document.
pub uninterp spec fn toml_top_level_keys(source: Seq<char>) -> Option<Seq<Seq<char>>>;

/// Calls `toml::from_str::<toml::Table>` and hands back the keys of the table.
/// Claimed: whether it succeeds, and the keys, depend on the text alone and are
/// `toml_top_level_keys` of it. The key order is not used by any caller.
#[verifier::external_body]
fn parse_top_level_keys(source: &str) -> (res: Result<Vec<String>, toml::de::Error>)
    ensures
        res is Ok <==> toml_top_level_keys(source@) is Some,
        res matches Ok(keys) ==> texts(keys@) == toml_top_level_keys(source@)->0,
{
    toml::from_str::<toml::Table>(source).map(|table| table.into_iter().map(|kv| kv.0).collect())
}

/// The legacy layout: a document with a top-level `project` section.
pub open spec fn is_legacy_project(keys: Seq<Seq<char>>) -> bool {
    keys.contains("project"@)
}

/// A document is legacy exactly when one of its top-level keys is `project`,
/// wherever that key stands among the others.
pub proof fn law_legacy_means_a_project_key(keys: Seq<Seq<char>>)
    ensures
        is_legacy_project(keys) <==> exists|i: int| 0 <= i < keys.len() && keys[i] == "project"@,
{
}

/// Whether a document is legacy does not depend on the order of its keys: two
/// documents with the same top-level keys are both legacy or both not.
pub proof fn law_legacy_ignores_key_order(k1: Seq<Seq<char>>, k2: Seq<Seq<char>>)
    requires
        k1.to_set() == k2.to_set(),
    ensures
        is_legacy_project(k1) == is_legacy_project(k2),
{
    assert(k1.to_set().contains("project"@) == k1.contains("project"@));
    assert(k2.to_set().contains("project"@) == k2.contains("project"@));
}

/// Checks a manifest's text before it is read into a manifest: it must be
/// TOML, and must not use the legacy `project` section.
pub fn check_manifest_source(manifest: &str) -> (res: Result<(), ManifestParseError>)
    ensures
        match toml_top_level_keys(manifest@) {
            None => res matches Err(ManifestParseError::TomlError(_)),
            Some(keys) => if is_legacy_project(keys) {
                res matches Err(ManifestParseError::ProjectRenamedToEmberError)
            } else {
                res is Ok
            },
        },
{
    let keys = match parse_top_level_keys(manifest) {
        Ok(keys) => keys,
        Err(e) => {
            return Err(ManifestParseError::TomlError(e));
        },
    };
    let project = String::from_str("project");
    let mut i: usize = 0;
    while i < keys.len()
        invariant
            i <= keys@.len(),
            project@ == "project"@,
            texts(keys@) == toml_top_level_keys(manifest@)->0,
            toml_top_level_keys(manifest@) is Some,
            forall|j: int| 0 <= j < i ==> (#[trigger] keys@[j])@ != "project"@,
        decreases keys.len() - i,
    {
        if keys[i] == project {
            proof {
                assert(texts(keys@)[i as int] == "project"@);
                assert(texts(keys@).contains("project"@));
            }
            return Err(ManifestParseError::ProjectRenamedToEmberError);
        }
        i = i + 1;
    }
    proof {
        assert forall|j: int| 0 <= j < texts(keys@).len() implies texts(keys@)[j] != "project"@ by {
            assert(keys@[j]@ != "project"@);
        }
    }
    Ok(())
}

} // verus!
