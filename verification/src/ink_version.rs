//! Whether a contract's ink! dependency admits the latest ink! release.
use vstd::prelude::*;
use crate::contract_import_dependency::{TomlValue, table_get, table_lookup};
use crate::token_interface::char_to_str;

verus! {

/// Whether `semver` parses the text as a version.
pub uninterp spec fn semver_version_valid(text: Seq<char>) -> bool;

/// Whether `semver` parses the text as a version requirement.
pub uninterp spec fn semver_req_valid(text: Seq<char>) -> bool;

/// Whether the requirement parsed from `req` matches the version parsed from `version`.
pub uninterp spec fn semver_matches(req: Seq<char>, version: Seq<char>) -> bool;

/// How `semver` prints the requirement parsed from `req`.
pub uninterp spec fn semver_req_text(req: Seq<char>) -> Seq<char>;

/// How `toml` prints a string value.
pub uninterp spec fn toml_string_text(s: Seq<char>) -> Seq<char>;

/// `semver::Version::parse`: says whether the text parses; the contract claims only that
/// the answer depends on the text alone.
#[verifier::external_body]
fn version_parses(text: &str) -> (r: bool)
    ensures
        r == semver_version_valid(text@),
{
    semver::Version::parse(text).is_ok()
}

/// `semver::VersionReq::parse`: says whether the text parses; the contract claims only that
/// the answer depends on the text alone.
#[verifier::external_body]
fn req_parses(text: &str) -> (r: bool)
    ensures
        r == semver_req_valid(text@),
{
    semver::VersionReq::parse(text).is_ok()
}

/// `semver::VersionReq::matches`, on the requirement and the version parsed from the two
/// texts, which parse; the contract claims only that the answer depends on the texts alone.
#[verifier::external_body]
fn req_matches(req: &str, version: &str) -> (r: bool)
    requires
        semver_req_valid(req@),
        semver_version_valid(version@),
    ensures
        r == semver_matches(req@, version@),
{
    semver::VersionReq::parse(req).unwrap().matches(&semver::Version::parse(version).unwrap())
}

/// The `Display` of `semver::VersionReq`, on the requirement parsed from the text, which
/// parses; the contract claims only that the text printed depends on the input alone.
#[verifier::external_body]
fn req_display(req: &str) -> (r: String)
    requires
        semver_req_valid(req@),
    ensures
        r@ == semver_req_text(req@),
{
    semver::VersionReq::parse(req).unwrap().to_string()
}

/// The `Display` of `toml::Value` on a string value; the contract claims only that the text
/// printed depends on the string alone.
#[verifier::external_body]
fn toml_string_display(s: &str) -> (r: String)
    ensures
        r@ == toml_string_text(s@),
{
    toml::Value::String(s.to_string()).to_string()
}

/// `s` without its `"` characters.
pub open spec fn strip_quotes(s: Seq<char>) -> Seq<char>
    decreases s.len(),
{
    if s.len() == 0 {
        s
    } else if s.last() == '"' {
        strip_quotes(s.drop_last())
    } else {
        strip_quotes(s.drop_last()).push(s.last())
    }
}

/// A string without its `"` characters.
pub fn remove_quotes(s: &str) -> (r: String)
    ensures
        r@ == strip_quotes(s@),
{
    let n = s.unicode_len();
    let mut r = String::new();
    let mut i: usize = 0;
    while i < n
        invariant
            n == s@.len(),
            i <= n,
            r@ == strip_quotes(s@.take(i as int)),
        decreases n - i,
    {
        assert(s@.take(i + 1).drop_last() =~= s@.take(i as int));
        let c = s.get_char(i);
        if c != '"' {
            let piece = char_to_str(c);
            r.append(piece.as_str());
        }
        i = i + 1;
    }
    assert(s@.take(n as int) =~= s@);
    r
}

/// The value of `dependencies.ink.version` in the manifest, each step through a table.
pub open spec fn spec_ink_version_value(manifest: TomlValue) -> Option<TomlValue> {
    match manifest {
        TomlValue::Table(top) => match table_get(top@, "dependencies"@) {
            Some(TomlValue::Table(deps)) => match table_get(deps@, "ink"@) {
                Some(TomlValue::Table(ink)) => table_get(ink@, "version"@),
                _ => None,
            },
            _ => None,
        },
        _ => None,
    }
}

/// The value of `dependencies.ink.version` in the manifest.
pub fn ink_version_value(manifest: &TomlValue) -> (r: Option<&TomlValue>)
    ensures
        match r {
            Some(v) => spec_ink_version_value(*manifest) == Some(*v),
            None => spec_ink_version_value(*manifest) is None,
        },
{
    if let TomlValue::Table(top) = manifest {
        if let Some(TomlValue::Table(deps)) = table_lookup(top, "dependencies") {
            if let Some(TomlValue::Table(ink)) = table_lookup(deps, "ink") {
                return table_lookup(ink, "version");
            }
        }
    }
    None
}

/// Why the pass cannot compare the versions.
#[derive(Debug, Clone, Copy, PartialEq, Eq, Structural)]
pub enum InkVersionError {
    /// The latest release, its quotes removed, is not a version.
    InvalidLatestVersion,
    /// The contract's ink! version, its quotes removed, is not a version requirement; a table
    /// is taken as none.
    InvalidInkVersion,
}

/// The text of a version value: a string as `toml` prints it, any other value by its TOML
/// text; a table has none.
pub open spec fn spec_value_text(v: TomlValue) -> Option<Seq<char>> {
    match v {
        TomlValue::String(s) => Some(toml_string_text(s@)),
        TomlValue::Other(t) => Some(t@),
        TomlValue::Table(_) => None,
    }
}

/// What the pass concludes from the latest release `latest` (as the registry prints it) and
/// the manifest: nothing without an ink! version; an error when the latest release or the
/// ink! version, quotes removed, do not parse; else, when the requirement does not match the
/// latest release, the help naming both.
pub open spec fn spec_check_crate(latest: Seq<char>, manifest: TomlValue) -> Result<Option<Seq<char>>, InkVersionError> {
    match spec_ink_version_value(manifest) {
        None => Ok(None),
        Some(v) => {
            let version = strip_quotes(latest);
            if !semver_version_valid(version) {
                Err(InkVersionError::InvalidLatestVersion)
            } else {
                match spec_value_text(v) {
                    None => Err(InkVersionError::InvalidInkVersion),
                    Some(t) => {
                        let req = strip_quotes(t);
                        if !semver_req_valid(req) {
                            Err(InkVersionError::InvalidInkVersion)
                        } else if semver_matches(req, version) {
                            Ok(None)
                        } else {
                            Ok(Some("The latest ink! version is "@ + latest + ", and your version is "@ + semver_req_text(req)))
                        }
                    },
                }
            }
        },
    }
}

/// The lint pass.
pub struct InkVersion;

impl InkVersion {
    /// Compares the contract's ink! version with the latest release, as
    /// [`spec_check_crate`] states: the help to report, if any.
    pub fn check_crate(&self, latest_version: &str, manifest: &TomlValue) -> (r: Result<Option<String>, InkVersionError>)
        ensures
            match r {
                Ok(Some(h)) => spec_check_crate(latest_version@, *manifest) == Ok::<Option<Seq<char>>, InkVersionError>(Some(h@)),
                Ok(None) => spec_check_crate(latest_version@, *manifest) == Ok::<Option<Seq<char>>, InkVersionError>(None),
                Err(e) => spec_check_crate(latest_version@, *manifest) == Err::<Option<Seq<char>>, InkVersionError>(e),
            },
    {
        let v = match ink_version_value(manifest) {
            Some(v) => v,
            None => return Ok(None),
        };
        let version = remove_quotes(latest_version);
        if !version_parses(version.as_str()) {
            return Err(InkVersionError::InvalidLatestVersion);
        }
        let text = match v {
            TomlValue::String(s) => toml_string_display(s.as_str()),
            TomlValue::Other(t) => t.clone(),
            TomlValue::Table(_) => return Err(InkVersionError::InvalidInkVersion),
        };
        let req = remove_quotes(text.as_str());
        if !req_parses(req.as_str()) {
            return Err(InkVersionError::InvalidInkVersion);
        }
        if req_matches(req.as_str(), version.as_str()) {
            Ok(None)
        } else {
            let shown = req_display(req.as_str());
            Ok(Some(String::from_str("The latest ink! version is ").concat(latest_version).concat(", and your version is ").concat(
                shown.as_str(),
            )))
        }
    }
}

} // verus!
