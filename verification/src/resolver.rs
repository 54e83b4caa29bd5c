//! Version- and build-selection rules of a PaperMC-style source.
//!
//! The remote API is asked for listings (versions of a project, builds of a
//! version); the choice of the concrete artifact out of a listing is made
//! here. Sources return their listings in ascending publish order, so a
//! selector of "latest" always takes the last element. Resolution that
//! needs two dependent listings short-circuits: when the version cannot be
//! chosen, no build listing is ever requested.

use vstd::prelude::*;

use crate::model::ResolvedRef;
use crate::text::str_eq;

verus! {

/// Why a declared dependency could not be resolved; each variant carries
/// the identifiers that failed, for actionable reporting. Resolution errors
/// are never retried: they abort the stage that hit them.
#[derive(Debug)]
pub enum ResolveError {
    /// The named project, slug or URL does not exist.
    SourceNotFound { identifier: String },
    /// The project exists, but the selected version could not be chosen.
    VersionNotFound { identifier: String, version: String },
    /// The version exists, but the selected build could not be chosen.
    BuildNotFound { identifier: String, version: String, build: String },
}

impl Clone for ResolveError {
    fn clone(&self) -> (r: Self)
        ensures
            r == *self,
    {
        match self {
            ResolveError::SourceNotFound { identifier } => ResolveError::SourceNotFound {
                identifier: identifier.clone(),
            },
            ResolveError::VersionNotFound { identifier, version } => ResolveError::VersionNotFound {
                identifier: identifier.clone(),
                version: version.clone(),
            },
            ResolveError::BuildNotFound { identifier, version, build } => ResolveError::BuildNotFound {
                identifier: identifier.clone(),
                version: version.clone(),
                build: build.clone(),
            },
        }
    }
}

impl ResolveError {
    /// What the error reads as: the failing identifiers, slash-separated.
    pub open spec fn message_spec(self) -> Seq<char> {
        match self {
            ResolveError::SourceNotFound { identifier } => "source not found: "@ + identifier@,
            ResolveError::VersionNotFound { identifier, version } => "version not found: "@
                + identifier@ + "/"@ + version@,
            ResolveError::BuildNotFound { identifier, version, build } => "build not found: "@
                + identifier@ + "/"@ + version@ + "/"@ + build@,
        }
    }

    /// Renders the error for reporting.
    pub fn message(&self) -> (r: String)
        ensures
            r@ == self.message_spec(),
    {
        match self {
            ResolveError::SourceNotFound { identifier } => {
                let mut s = String::from_str("source not found: ");
                s.append(identifier.as_str());
                s
            },
            ResolveError::VersionNotFound { identifier, version } => {
                let mut s = String::from_str("version not found: ");
                s.append(identifier.as_str());
                s.append("/");
                s.append(version.as_str());
                s
            },
            ResolveError::BuildNotFound { identifier, version, build } => {
                let mut s = String::from_str("build not found: ");
                s.append(identifier.as_str());
                s.append("/");
                s.append(version.as_str());
                s.append("/");
                s.append(build.as_str());
                s
            },
        }
    }
}

/// One build of one version of a project, as the source lists it.
#[derive(Debug)]
pub struct BuildInfo {
    pub build: String,
    pub filename: String,
    pub sha256: String,
}

impl Clone for BuildInfo {
    fn clone(&self) -> (r: Self)
        ensures
            r == *self,
    {
        BuildInfo {
            build: self.build.clone(),
            filename: self.filename.clone(),
            sha256: self.sha256.clone(),
        }
    }
}

/// Chooses the concrete version out of the project's version listing.
/// "latest" takes the last listed version; any other selector is used as
/// given, the source itself being the authority on whether it exists.
pub fn resolve_version(project: &str, selector: &str, versions: &Vec<String>) -> (r: Result<
    String,
    ResolveError,
>)
    ensures
        selector@ != "latest"@ ==> (r matches Ok(v) && v@ == selector@),
        selector@ == "latest"@ && versions@.len() > 0 ==> r == Ok::<String, ResolveError>(
            versions@.last(),
        ),
        selector@ == "latest"@ && versions@.len() == 0 ==> (r matches Err(
            ResolveError::VersionNotFound { identifier, version },
        ) && identifier@ == project@ && version@ == selector@),
{
    if str_eq(selector, "latest") {
        if versions.len() == 0 {
            Err(
                ResolveError::VersionNotFound {
                    identifier: project.to_owned(),
                    version: selector.to_owned(),
                },
            )
        } else {
            Ok(versions[versions.len() - 1].clone())
        }
    } else {
        Ok(selector.to_owned())
    }
}

/// The first listed build whose identifier reads `id`, if any.
pub open spec fn find_build(builds: Seq<BuildInfo>, id: Seq<char>) -> Option<BuildInfo>
    decreases builds.len(),
{
    if builds.len() == 0 {
        None
    } else if builds[0].build@ == id {
        Some(builds[0])
    } else {
        find_build(builds.drop_first(), id)
    }
}

/// Chooses the concrete build out of a version's build listing. "latest"
/// takes the last listed build; any other selector must name a listed
/// build, else the build is reported as not found.
pub fn select_build(project: &str, version: &str, selector: &str, builds: &Vec<BuildInfo>) -> (r:
    Result<BuildInfo, ResolveError>)
    ensures
        selector@ == "latest"@ && builds@.len() > 0 ==> r == Ok::<BuildInfo, ResolveError>(
            builds@.last(),
        ),
        selector@ == "latest"@ && builds@.len() == 0 ==> (r matches Err(
            ResolveError::BuildNotFound { identifier, version: v, build },
        ) && identifier@ == project@ && v@ == version@ && build@ == selector@),
        selector@ != "latest"@ ==> match find_build(builds@, selector@) {
            Some(b) => r == Ok::<BuildInfo, ResolveError>(b),
            None => (r matches Err(ResolveError::BuildNotFound { identifier, version: v, build })
                && identifier@ == project@ && v@ == version@ && build@ == selector@),
        },
{
    if str_eq(selector, "latest") {
        if builds.len() == 0 {
            Err(
                ResolveError::BuildNotFound {
                    identifier: project.to_owned(),
                    version: version.to_owned(),
                    build: selector.to_owned(),
                },
            )
        } else {
            Ok(builds[builds.len() - 1].clone())
        }
    } else {
        let n = builds.len();
        let mut i: usize = 0;
        proof {
            assert(builds@.skip(0) =~= builds@);
        }
        while i < n
            invariant
                n == builds@.len(),
                i <= n,
                selector@ != "latest"@,
                find_build(builds@, selector@) == find_build(builds@.skip(i as int), selector@),
            decreases n - i,
        {
            proof {
                assert(builds@.skip(i as int)[0] == builds@[i as int]);
                assert(builds@.skip(i as int).drop_first() =~= builds@.skip(i + 1));
            }
            if str_eq(builds[i].build.as_str(), selector) {
                return Ok(builds[i].clone());
            }
            i += 1;
        }
        proof {
            assert(builds@.skip(n as int) =~= Seq::<BuildInfo>::empty());
        }
        Err(
            ResolveError::BuildNotFound {
                identifier: project.to_owned(),
                version: version.to_owned(),
                build: selector.to_owned(),
            },
        )
    }
}

/// Packs a chosen version and build into the reference the fetcher and the
/// lockfile speak of. PaperMC-style sources always report a sha256 checksum;
/// no content-length hint is known until the transfer starts.
pub fn resolved_from_build(version: &str, b: &BuildInfo) -> (r: ResolvedRef)
    ensures
        r.version_id@ == version@,
        r.build_id == b.build,
        r.filename == b.filename,
        r.checksum == Some(b.sha256),
        r.content_length is None,
{
    ResolvedRef {
        version_id: version.to_owned(),
        build_id: b.build.clone(),
        filename: b.filename.clone(),
        checksum: Some(b.sha256.clone()),
        content_length: None,
    }
}

} // verus!
