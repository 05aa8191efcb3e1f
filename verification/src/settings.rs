//! The configuration: where the index is, and which catalogs there are.

use vstd::prelude::*;
use vstd::string::*;

use crate::engine::uploader::default_qdrant_url;
use crate::text::same_text;
use crate::text_map::TextMap;

verus! {

/// Qdrant configuration
pub struct QdrantConfig {
    pub url: Option<String>,
    pub collection: String,
}

/// Catalog configuration
pub struct CatalogConfig {
    /// The kind of the catalog: "monorepo" or "folder"
    pub kind: String,
    /// Path to scan
    pub path: String,
}

/// The configuration file
pub struct Config {
    pub qdrant: QdrantConfig,
    pub catalogs: TextMap<CatalogConfig>,
}

impl CatalogConfig {
    /// Whether the files of the catalog belong to packages
    pub fn is_monorepo(&self) -> (r: bool)
        ensures
            r == (self.kind@ == "monorepo"@),
    {
        same_text(self.kind.as_str(), "monorepo")
    }
}

impl Config {
    /// The catalog of a name, or the complaint that there is none
    pub fn catalog(&self, name: &str) -> (r: Result<&CatalogConfig, String>)
        ensures
            match r {
                Ok(catalog) => self.catalogs@.contains_key(name@) && *catalog
                    == self.catalogs@[name@],
                Err(message) => !self.catalogs@.contains_key(name@) && message@ == "Catalog '"@
                    + name@ + "' not found in config"@,
            },
    {
        match self.catalogs.get(name) {
            Some(catalog) => Ok(catalog),
            None => {
                let mut message = "Catalog '".to_owned();
                message.append(name);
                message.append("' not found in config");
                Err(message)
            },
        }
    }

    /// The address of the Qdrant server
    pub fn qdrant_url(&self) -> (r: String)
        ensures
            r@ == match self.qdrant.url {
                Some(url) => url@,
                None => default_qdrant_url(),
            },
    {
        match &self.qdrant.url {
            Some(url) => url.clone(),
            None => "http://localhost:6333".to_owned(),
        }
    }
}

/// What a purge deletes
pub enum Purge {
    /// All points of the collection
    Collection,
    /// The points of one catalog
    Catalog(String),
}

/// What a purge deletes: the catalog that is named, or the whole collection where all is
/// asked for or no catalog is named
pub fn choose_purge(catalog: Option<&str>, all: bool) -> (r: Purge)
    ensures
        match r {
            Purge::Collection => all || catalog is None,
            Purge::Catalog(name) => !all && catalog is Some && name@ == catalog->0@,
        },
{
    match catalog {
        Some(name) if !all => Purge::Catalog(name.to_owned()),
        _ => Purge::Collection,
    }
}

// ---------------------------------------------------------------------------
// Paths below the home directory
// ---------------------------------------------------------------------------

/// Whether a path starts with the sign for the home directory.
pub open spec fn starts_at_home(path: Seq<char>) -> bool {
    &&& path.len() > 0
    &&& path[0] == '~'
    &&& path.len() == 1 || path[1] == '/' || path[1] == '\\'
}

/// What `path` may become when the home directory is put in: where it starts with the
/// sign for it, something may stand in place of the sign.
pub open spec fn is_expansion(path: Seq<char>, expanded: Seq<char>) -> bool {
    ||| expanded == path
    ||| starts_at_home(path) && path.skip(1).is_suffix_of(expanded)
}

/// The path that `shellexpand::tilde` makes of a path. One that does not start with `~`,
/// alone or before a separator, stays as it is; in one that does, the home directory of
/// the user takes the place of the `~`, if it is known. Which directory that is, the
/// machine decides.
#[verifier::external_body]
fn expand_home(path: &str) -> (r: String)
    ensures
        is_expansion(path@, r@),
{
    shellexpand::tilde(path).into_owned()
}

/// Where the configuration is read, if nothing else is said
pub fn default_config_path() -> (r: String)
    ensures
        is_expansion("~/.config/rush-qdrant/config.jsonc"@, r@),
{
    expand_home("~/.config/rush-qdrant/config.jsonc")
}

/// Where the warnings of a catalog are kept, below the home directory.
pub open spec fn warnings_file(catalog_name: Seq<char>) -> Seq<char> {
    "~/.config/rush-qdrant/warnings-"@ + catalog_name + ".json"@
}

/// Where the warnings of a catalog are kept
pub fn warnings_path(catalog_name: &str) -> (r: String)
    ensures
        is_expansion(warnings_file(catalog_name@), r@),
{
    let mut path = "~/.config/rush-qdrant/warnings-".to_owned();
    path.append(catalog_name);
    path.append(".json");
    expand_home(path.as_str())
}

// ---------------------------------------------------------------------------
// Laws
// ---------------------------------------------------------------------------

/// A path that does not start with the sign for the home directory stays as it is, and of
/// one that does only the sign may be replaced.
pub proof fn law_only_the_home_sign_is_replaced(path: Seq<char>, expanded: Seq<char>)
    requires
        is_expansion(path, expanded),
    ensures
        path.len() == 0 || path[0] != '~' ==> expanded == path,
        path.len() > 1 && path[0] == '~' && path[1] != '/' && path[1] != '\\' ==> expanded == path,
        path.len() > 0 && path[0] == '~' ==> path.skip(1).is_suffix_of(expanded),
{
    if path.len() > 0 && path[0] == '~' && expanded == path {
        assert(path.subrange(1, path.len() as int) =~= path.skip(1));
    }
}

/// The warnings of each catalog are kept in a file of its own.
pub proof fn law_each_catalog_has_its_warnings_file(a: Seq<char>, b: Seq<char>)
    requires
        warnings_file(a) == warnings_file(b),
    ensures
        a == b,
{
    let head = "~/.config/rush-qdrant/warnings-"@;
    let end = ".json"@;
    assert(warnings_file(a).subrange(head.len() as int, warnings_file(a).len() - end.len()) =~= a);
    assert(warnings_file(b).subrange(head.len() as int, warnings_file(b).len() - end.len()) =~= b);
}

} // verus!
