pub mod crystal;
pub mod doc;
pub mod go;
pub mod node;
pub mod php;
pub mod python;
pub mod ruby;
pub mod text;

use vstd::prelude::*;

verus! {

// ---------------------------------------------------------------------------
// The package model
// ---------------------------------------------------------------------------

/// The abstract value of a [`Package`]: its name and version as character
/// sequences.
pub struct PackageV {
    pub name: Seq<char>,
    pub version: Seq<char>,
}

/// A package identity extracted from a lock file: a name and the version
/// string recorded for it, taken verbatim from the source file.
#[derive(Debug)]
pub struct Package {
    pub name: String,
    pub version: String,
}

impl View for Package {
    type V = PackageV;

    open spec fn view(&self) -> PackageV {
        PackageV { name: self.name@, version: self.version@ }
    }
}

impl DeepView for Package {
    type V = PackageV;

    open spec fn deep_view(&self) -> PackageV {
        self.view()
    }
}

impl Package {
    pub fn new(name: &str, version: &str) -> (p: Package)
        ensures
            p.name@ == name@,
            p.version@ == version@,
    {
        Package { name: name.to_owned(), version: version.to_owned() }
    }

    /// The line the driver prints for this package: `name (version)`.
    pub fn display_line(&self) -> (r: String)
        ensures
            r@ == self.name@ + " ("@ + self.version@ + ")"@,
    {
        let mut r = self.name.clone();
        r.append(" (");
        r.append(self.version.as_str());
        r.append(")");
        r
    }
}

impl PartialEq for Package {
    fn eq(&self, other: &Package) -> (r: bool) {
        crate::text::str_eq(self.name.as_str(), other.name.as_str())
            && crate::text::str_eq(self.version.as_str(), other.version.as_str())
    }
}

impl vstd::std_specs::cmp::PartialEqSpecImpl for Package {
    open spec fn obeys_eq_spec() -> bool {
        true
    }

    open spec fn eq_spec(&self, other: &Package) -> bool {
        self.name@ == other.name@ && self.version@ == other.version@
    }
}

/// A partial record holding only a version, used while decoding formats that
/// key packages by name at an outer level.
#[derive(Debug)]
pub struct PackageMetadata {
    pub version: String,
}

// ---------------------------------------------------------------------------
// Failures
// ---------------------------------------------------------------------------

/// The abstract value of a [`LockError`].
pub enum LockErrorV {
    UnrecognizedFormat(Seq<char>),
    MalformedDocument(Seq<char>),
    MalformedLine(Seq<char>),
    MalformedSpecLine(Seq<char>),
}

/// Why a lock file could not be parsed.
#[derive(Debug)]
pub enum LockError {
    /// The file name matches no known lock format; carries the name.
    UnrecognizedFormat(String),
    /// A structured document could not be deserialized; carries the
    /// underlying message.
    MalformedDocument(String),
    /// A line of a checksum file did not have the expected shape; carries
    /// that line.
    MalformedLine(String),
    /// A spec line of a Bundler-style lock file did not have the expected
    /// shape; carries that line.
    MalformedSpecLine(String),
}

impl View for LockError {
    type V = LockErrorV;

    open spec fn view(&self) -> LockErrorV {
        match self {
            LockError::UnrecognizedFormat(s) => LockErrorV::UnrecognizedFormat(s@),
            LockError::MalformedDocument(s) => LockErrorV::MalformedDocument(s@),
            LockError::MalformedLine(s) => LockErrorV::MalformedLine(s@),
            LockError::MalformedSpecLine(s) => LockErrorV::MalformedSpecLine(s@),
        }
    }
}

impl DeepView for LockError {
    type V = LockErrorV;

    open spec fn deep_view(&self) -> LockErrorV {
        self.view()
    }
}

impl LockError {
    /// The diagnostic text of this failure.
    pub open spec fn message_view(&self) -> Seq<char> {
        match self {
            LockError::UnrecognizedFormat(s) => "Unknown lock name: "@ + s@,
            LockError::MalformedDocument(s) => s@,
            LockError::MalformedLine(s) => "Expected line "@ + s@ + " to contain exactly 3 words"@,
            LockError::MalformedSpecLine(s) => "Expected two words for spec line "@ + s@,
        }
    }

    /// Renders the diagnostic text of this failure.
    pub fn message(&self) -> (r: String)
        ensures
            r@ == self.message_view(),
    {
        match self {
            LockError::UnrecognizedFormat(s) => {
                let mut r = String::from_str("Unknown lock name: ");
                r.append(s.as_str());
                r
            },
            LockError::MalformedDocument(s) => s.clone(),
            LockError::MalformedLine(s) => {
                let mut r = String::from_str("Expected line ");
                r.append(s.as_str());
                r.append(" to contain exactly 3 words");
                r
            },
            LockError::MalformedSpecLine(s) => {
                let mut r = String::from_str("Expected two words for spec line ");
                r.append(s.as_str());
                r
            },
        }
    }
}

// ---------------------------------------------------------------------------
// Relating an adapter's result to its model
// ---------------------------------------------------------------------------

/// Whether an adapter's result carries exactly the (name, version) pairs of
/// its model, in order, or exactly the model's failure.
pub open spec fn result_matches(
    r: Result<Vec<Package>, LockError>,
    ps: Result<Seq<(Seq<char>, Seq<char>)>, LockErrorV>,
) -> bool {
    match ps {
        Ok(pairs) => r matches Ok(v) && v@.len() == pairs.len() && (forall|i: int|
            0 <= i < pairs.len() ==> v@[i].name@ == (#[trigger] pairs[i]).0 && v@[i].version@
                == pairs[i].1),
        Err(ev) => r matches Err(e) && e@ == ev,
    }
}

/// The (name, version) pairs of a package list.
pub open spec fn pkg_pairs(s: Seq<Package>) -> Seq<(Seq<char>, Seq<char>)> {
    s.map_values(|p: Package| (p.name@, p.version@))
}

/// The failure reported when a deserialized document does not have the
/// shape its lock format requires.
pub open spec fn shape_error() -> LockErrorV {
    LockErrorV::MalformedDocument("unexpected document shape"@)
}

/// Builds the document-shape failure.
pub(crate) fn shape_error_exec() -> (e: LockError)
    ensures
        e@ == shape_error(),
{
    LockError::MalformedDocument(String::from_str("unexpected document shape"))
}

/// The (key, version) pairs of a keyed metadata list.
pub open spec fn meta_pairs(s: Seq<(String, PackageMetadata)>) -> Seq<(Seq<char>, Seq<char>)> {
    s.map_values(|e: (String, PackageMetadata)| (e.0@, e.1.version@))
}

/// Turns (name, version) string pairs into packages, in order.
pub(crate) fn pairs_to_packages(pairs: &Vec<(String, String)>) -> (r: Vec<Package>)
    ensures
        r@.len() == pairs@.len(),
        forall|i: int|
            0 <= i < pairs@.len() ==> (#[trigger] r@[i]).name@ == pairs@[i].0@ && r@[i].version@
                == pairs@[i].1@,
{
    let n: usize = pairs.len();
    let mut r: Vec<Package> = Vec::new();
    let mut i: usize = 0;
    while i < n
        invariant
            n == pairs@.len(),
            0 <= i <= n,
            r@.len() == i,
            forall|k: int|
                0 <= k < i ==> (#[trigger] r@[k]).name@ == pairs@[k].0@ && r@[k].version@
                    == pairs@[k].1@,
        decreases n - i,
    {
        r.push(Package::new(pairs[i].0.as_str(), pairs[i].1.as_str()));
        i += 1;
    }
    r
}

/// Turns (key, version) string pairs into keyed metadata records, in order.
pub(crate) fn pairs_to_metas(pairs: &Vec<(String, String)>) -> (r: Vec<(String, PackageMetadata)>)
    ensures
        r@.len() == pairs@.len(),
        forall|i: int|
            0 <= i < pairs@.len() ==> (#[trigger] r@[i]).0@ == pairs@[i].0@ && r@[i].1.version@
                == pairs@[i].1@,
{
    let n: usize = pairs.len();
    let mut r: Vec<(String, PackageMetadata)> = Vec::new();
    let mut i: usize = 0;
    while i < n
        invariant
            n == pairs@.len(),
            0 <= i <= n,
            r@.len() == i,
            forall|k: int|
                0 <= k < i ==> (#[trigger] r@[k]).0@ == pairs@[k].0@ && r@[k].1.version@
                    == pairs@[k].1@,
        decreases n - i,
    {
        let name = pairs[i].0.clone();
        let version = pairs[i].1.clone();
        r.push((name, PackageMetadata { version }));
        i += 1;
    }
    r
}

// ---------------------------------------------------------------------------
// The TOML-table adapter
// ---------------------------------------------------------------------------

/// A TOML-table lock file: a list of (name, version) package records.
/// Several ecosystems share this exact shape.
pub struct TomlLock {
    pub packages: Vec<Package>,
}

impl TomlLock {
    /// The package records, as they stand.
    pub fn packages(self) -> (r: Vec<Package>)
        ensures
            r@ == self.packages@,
    {
        self.packages
    }
}

/// The packages of a TOML-table lock file: the deserialized document must
/// be a table whose `package` entry is a list of records each carrying
/// `name` and `version` text fields.
pub open spec fn toml_lock_result(s: Seq<char>) -> Result<
    Seq<(Seq<char>, Seq<char>)>,
    LockErrorV,
> {
    match crate::doc::toml_doc(s) {
        Err(m) => Err(LockErrorV::MalformedDocument(m)),
        Ok(d) => match crate::doc::package_list_records(d) {
            Some(ps) => Ok(ps),
            None => Err(shape_error()),
        },
    }
}

// ---------------------------------------------------------------------------
// The format dispatcher
// ---------------------------------------------------------------------------

/// Whether a file name is a plain pinned-dependency listing: it contains
/// `requirements` and ends in `.txt`.
pub open spec fn is_python_requirements(name: Seq<char>) -> bool {
    crate::text::has_substr(name, "requirements"@) && crate::text::has_suffix(name, ".txt"@)
}

/// The file names the dispatcher recognizes.
pub open spec fn recognized(name: Seq<char>) -> bool {
    ||| name == "Cargo.lock"@
    ||| name == "uv.lock"@
    ||| name == "poetry.lock"@
    ||| name == "Gemfile.lock"@
    ||| name == "composer.lock"@
    ||| name == "go.sum"@
    ||| name == "package-lock.json"@
    ||| name == "shard.lock"@
    ||| name == "yarn.lock"@
    ||| is_python_requirements(name)
}

/// Whether a result is the unrecognized-format failure.
pub open spec fn is_unrecognized(r: Result<Vec<Package>, LockError>) -> bool {
    r matches Err(e) && e@ matches LockErrorV::UnrecognizedFormat(_)
}

/// Parses a lock file's contents with the adapter its file name selects,
/// and fails with `UnrecognizedFormat` on any other name.
pub fn parse_lock(name: &str, contents: &str) -> (r: Result<Vec<Package>, LockError>)
    ensures
        ({
            if name@ == "Cargo.lock"@ || name@ == "uv.lock"@ || name@ == "poetry.lock"@ {
                result_matches(r, toml_lock_result(contents@))
            } else if name@ == "Gemfile.lock"@ {
                result_matches(r, crate::ruby::gem_result(contents@))
            } else if name@ == "composer.lock"@ {
                result_matches(r, crate::php::composer_result(contents@))
            } else if name@ == "go.sum"@ {
                match crate::go::go_sum_map(contents@) {
                    Ok(m) => r matches Ok(v) && crate::go::pkgs_sorted(v@)
                        && crate::go::pkgs_match(v@, m),
                    Err(l) => r matches Err(e) && e@ == LockErrorV::MalformedLine(l),
                }
            } else if name@ == "package-lock.json"@ {
                result_matches(r, crate::node::npm_result(contents@))
            } else if name@ == "shard.lock"@ {
                result_matches(r, crate::crystal::shard_result(contents@))
            } else if name@ == "yarn.lock"@ {
                result_matches(r, crate::node::yarn_result(contents@))
            } else if is_python_requirements(name@) {
                result_matches(r, crate::python::requirements_result(contents@))
            } else {
                r matches Err(e) && e@ == LockErrorV::UnrecognizedFormat(name@)
            }
        }),
        is_unrecognized(r) <==> !recognized(name@),
{
    if crate::text::str_eq(name, "Cargo.lock") || crate::text::str_eq(name, "uv.lock") {
        return parse_toml_lock(contents);
    }
    if crate::text::str_eq(name, "poetry.lock") {
        return crate::python::parse_poetry_lock(contents);
    }
    if crate::text::str_eq(name, "Gemfile.lock") {
        return crate::ruby::parse_gemfile_lock(contents);
    }
    if crate::text::str_eq(name, "composer.lock") {
        return crate::php::parse_composer(contents);
    }
    if crate::text::str_eq(name, "go.sum") {
        return crate::go::parse_go_sum(contents);
    }
    if crate::text::str_eq(name, "package-lock.json") {
        return crate::node::parse_npm_lock(contents);
    }
    if crate::text::str_eq(name, "shard.lock") {
        return crate::crystal::parse_shard_lock(contents);
    }
    if crate::text::str_eq(name, "yarn.lock") {
        return crate::node::parse_yarn_lock(contents);
    }
    if crate::text::str_contains(name, "requirements") && crate::text::str_ends_with(name, ".txt") {
        return crate::python::parse_requirements_txt(contents);
    }
    Err(LockError::UnrecognizedFormat(name.to_owned()))
}

/// Parses a TOML-table lock file.
pub fn parse_toml_lock(contents: &str) -> (r: Result<Vec<Package>, LockError>)
    ensures
        result_matches(r, toml_lock_result(contents@)),
{
    match crate::doc::parse_toml_doc(contents) {
        Err(m) => Err(LockError::MalformedDocument(m)),
        Ok(d) => match crate::doc::package_list(&d) {
            None => Err(shape_error_exec()),
            Some(pairs) => {
                let lock = TomlLock { packages: pairs_to_packages(&pairs) };
                Ok(lock.packages())
            },
        },
    }
}

} // verus!
