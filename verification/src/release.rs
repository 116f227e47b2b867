//! Release descriptors from a provider, and asset resolution: which
//! downloadable file fits this app, version, OS and architecture.

use vstd::prelude::*;
use crate::errors::Error;
use crate::version::{valid_pre, ver_chars, Version, VersionModel};


verus! {

/// One downloadable file of a release.
#[derive(Debug)]
pub struct Asset {
    /// The name of the file.
    pub name: String,
    pub browser_download_url: String,
}

/// A provider's release: title, page, version and its assets.
#[derive(Debug)]
pub struct Release {
    /// Title.
    pub name: String,
    pub html_url: String,
    /// The release tag, which must be a valid semantic version.
    pub version: Version,
    pub assets: Vec<Asset>,
}

/// The expected asset file name: `{app}-{version}-{os}-{arch}.tar.gz`.
pub open spec fn asset_name_chars(
    app: Seq<char>,
    v: VersionModel,
    os: Seq<char>,
    arch: Seq<char>,
) -> Seq<char> {
    app + ("-")@ + ver_chars(v) + ("-")@ + os + ("-")@ + arch + (".tar.gz")@
}

/// The OS identifier asset matching uses: an explicit override takes
/// precedence over the host's.
pub open spec fn effective_os(system: Option<&str>, host_os: &str) -> Seq<char> {
    match system {
        Some(s) => s@,
        None => host_os@,
    }
}

/// The latest release of a newest-first provider listing: the first
/// entry, or `NotFoundError` when the provider returned none.
pub fn latest_release(releases: Vec<Release>) -> (r: Result<Release, Error>)
    ensures
        match r {
            Ok(rel) => releases@.len() > 0,
            Err(e) => e == Error::NotFoundError && releases@.len() == 0,
        },
{
    let mut releases = releases;
    if releases.len() == 0 {
        Err(Error::NotFoundError)
    } else {
        Ok(releases.remove(0))
    }
}

/// The newest version of a newest-first tag listing: the first tag,
/// parsed.  An empty listing is `NotFoundError`; a newest tag that is
/// not a canonical semantic version is `ParseError`.
pub fn latest_version_tag(tags: Vec<String>) -> (r: Result<Version, Error>)
    ensures
        match r {
            Ok(v) => v.wf() && tags@.len() > 0 && tags.deep_view()[0] == ver_chars(v@),
            Err(e) => (e == Error::NotFoundError && tags@.len() == 0) || (e == Error::ParseError
                && tags@.len() > 0 && forall|m: VersionModel|
                valid_pre(m.pre) ==> tags.deep_view()[0] != ver_chars(m)),
        },
{
    let mut tags = tags;
    if tags.len() == 0 {
        return Err(Error::NotFoundError);
    }
    let ghost dv0 = tags.deep_view()[0];
    let first = tags.remove(0);
    proof {
        assert(first@ == dv0);
    }
    match Version::parse(first.as_str()) {
        Some(v) => Ok(v),
        None => Err(Error::ParseError),
    }
}

impl Release {
    /// Builds a descriptor from a provider's plain fields.  A tag that
    /// is not a canonical semantic version is `ParseError`, fatal for
    /// this app's attempt.
    pub fn from_provider(name: String, html_url: String, tag: &str, assets: Vec<Asset>) -> (r:
        Result<Release, Error>)
        ensures
            match r {
                Ok(rel) => rel.version.wf() && tag@ == ver_chars(rel.version@),
                Err(e) => e == Error::ParseError,
            },
            forall|m: VersionModel| valid_pre(m.pre) && tag@ == ver_chars(m) ==> (r matches Ok(rel)
                && rel.version@ == m),
    {
        match Version::parse(tag) {
            Some(version) => Ok(Release { name, html_url, version, assets }),
            None => Err(Error::ParseError),
        }
    }

    /// Builds the asset file name this release expects for the given
    /// app, OS and architecture.
    pub fn expected_asset_name(&self, app_name: &str, os: &str, arch: &str) -> (r: String)
        requires
            self.version.wf(),
        ensures
            r@ == asset_name_chars(app_name@, self.version@, os@, arch@),
    {
        let mut out = String::new();
        out.append(app_name);
        out.append("-");
        let v = self.version.render();
        out.append(v.as_str());
        out.append("-");
        out.append(os);
        out.append("-");
        out.append(arch);
        out.append(".tar.gz");
        proof {
            assert(out@ =~= asset_name_chars(app_name@, self.version@, os@, arch@));
        }
        out
    }

    /// Resolves the download URL of the first asset whose name matches
    /// the expected convention for the effective OS; `NotFoundError`
    /// when none does, leaving the caller's stored version untouched.
    pub fn get_asset_for_os(&self, app_name: &str, system: Option<&str>, host_os: &str, arch: &str)
        -> (r: Result<String, Error>)
        requires
            self.version.wf(),
        ensures
            match r {
                Ok(url) => exists|k: int|
                    0 <= k < self.assets@.len() && (#[trigger] self.assets@[k]).name@
                        == asset_name_chars(
                        app_name@,
                        self.version@,
                        effective_os(system, host_os),
                        arch@,
                    ) && url@ == self.assets@[k].browser_download_url@ && (forall|j: int|
                        0 <= j < k ==> (#[trigger] self.assets@[j]).name@ != asset_name_chars(
                            app_name@,
                            self.version@,
                            effective_os(system, host_os),
                            arch@,
                        )),
                Err(e) => e == Error::NotFoundError && forall|k: int|
                    0 <= k < self.assets@.len() ==> (#[trigger] self.assets@[k]).name@
                        != asset_name_chars(
                        app_name@,
                        self.version@,
                        effective_os(system, host_os),
                        arch@,
                    ),
            },
    {
        let os = match system {
            Some(s) => s,
            None => host_os,
        };
        let expected = self.expected_asset_name(app_name, os, arch);
        let n = self.assets.len();
        let mut k: usize = 0;
        while k < n
            invariant
                0 <= k <= n,
                n == self.assets@.len(),
                expected@ == asset_name_chars(
                    app_name@,
                    self.version@,
                    effective_os(system, host_os),
                    arch@,
                ),
                self.version.wf(),
                forall|j: int| 0 <= j < k ==> (#[trigger] self.assets@[j]).name@ != expected@,
            decreases n - k,
        {
            if self.assets[k].name.eq(&expected) {
                return Ok(self.assets[k].browser_download_url.clone());
            }
            k = k + 1;
        }
        Err(Error::NotFoundError)
    }
}

} // verus!
