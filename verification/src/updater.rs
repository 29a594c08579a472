//! Self-update decision logic: given the latest release metadata, decide
//! whether an update is available and which asset to download.
//!
//! Fetching the release feed and downloading the asset are I/O and live in
//! the surrounding application; the decision is made and proved here.

use vstd::prelude::*;

use crate::strutil::str_ends_with;
use crate::version::{cmp_versions, compare_versions};

verus! {

/// One downloadable asset of a release.
#[derive(Debug, Clone)]
pub struct ReleaseAsset {
    pub name: String,
    pub download_url: String,
}

/// The fields of a release that the decision reads.
#[derive(Debug, Clone)]
pub struct ReleaseMeta {
    pub tag_name: String,
    pub body: Option<String>,
    pub assets: Vec<ReleaseAsset>,
}

/// The decision: whether an update is available, and where to get it.
#[derive(Debug, Clone)]
pub struct UpdateInfo {
    pub has_update: bool,
    pub version: String,
    pub download_url: Option<String>,
    pub release_notes: String,
}

/// `s` without its leading run of `v` characters.
pub open spec fn strip_v(s: Seq<char>) -> Seq<char>
    decreases s.len(),
{
    if s.len() > 0 && s[0] == 'v' {
        strip_v(s.skip(1))
    } else {
        s
    }
}

/// The download URL of the first `.rpm` asset, when one exists.
pub open spec fn rpm_url_of(assets: Seq<ReleaseAsset>) -> Option<Seq<char>>
    decreases assets.len(),
{
    if assets.len() == 0 {
        None
    } else if ".rpm"@.is_suffix_of(assets[0].name@) {
        Some(assets[0].download_url@)
    } else {
        rpm_url_of(assets.skip(1))
    }
}

/// An update is owed exactly when the latest tag, with any leading `v`
/// stripped, compares numerically above the current version.
pub open spec fn update_available(rel: ReleaseMeta, current: Seq<char>) -> bool {
    cmp_versions(strip_v(rel.tag_name@), strip_v(current)) > 0
}

/// Exec counterpart of `strip_v`.
fn strip_v_str<'a>(s: &'a str) -> (r: &'a str)
    ensures
        r@ == strip_v(s@),
{
    let len = s.unicode_len();
    let mut start: usize = 0;
    proof {
        assert(s@.skip(0) =~= s@);
    }
    while start < len && s.get_char(start) == 'v'
        invariant
            0 <= start <= len,
            len == s@.len(),
            strip_v(s@) == strip_v(s@.skip(start as int)),
        decreases len - start,
    {
        proof {
            assert(s@.skip(start as int).skip(1) =~= s@.skip(start as int + 1));
        }
        start = start + 1;
    }
    proof {
        assert(strip_v(s@.skip(start as int)) == s@.skip(start as int));
        assert(s@.skip(start as int) =~= s@.subrange(start as int, len as int));
    }
    s.substring_char(start, len)
}

/// Exec counterpart of `rpm_url_of`.
fn find_rpm_url(assets: &Vec<ReleaseAsset>) -> (r: Option<String>)
    ensures
        match r {
            Some(u) => rpm_url_of(assets@) == Some(u@),
            None => rpm_url_of(assets@) is None,
        },
{
    let n = assets.len();
    let mut i: usize = 0;
    proof {
        assert(assets@.skip(0) =~= assets@);
    }
    while i < n
        invariant
            0 <= i <= n,
            n == assets@.len(),
            rpm_url_of(assets@) == rpm_url_of(assets@.skip(i as int)),
        decreases n - i,
    {
        proof {
            assert(assets@.skip(i as int)[0] == assets@[i as int]);
            assert(assets@.skip(i as int).skip(1) =~= assets@.skip(i as int + 1));
        }
        if str_ends_with(assets[i].name.as_str(), ".rpm") {
            return Some(assets[i].download_url.clone());
        }
        i = i + 1;
    }
    proof {
        assert(assets@.skip(n as int) =~= Seq::<ReleaseAsset>::empty());
    }
    None
}

/// Decide from the fetched release metadata whether an update is owed:
/// `has_update` exactly when the release's tag compares above the current
/// version; then the reported version is the stripped tag, the URL the
/// first `.rpm` asset's, and the notes the release body. `None` metadata
/// (fetch or parse failure) yields the no-update answer, never an error.
pub fn check_for_updates(release: Option<&ReleaseMeta>, current_version: &str) -> (r: UpdateInfo)
    ensures
        match release {
            None => !r.has_update,
            Some(rel) => {
                &&& r.has_update == update_available(*rel, current_version@)
                &&& r.has_update ==> {
                    &&& r.version@ == strip_v(rel.tag_name@)
                    &&& match r.download_url {
                        Some(u) => rpm_url_of(rel.assets@) == Some(u@),
                        None => rpm_url_of(rel.assets@) is None,
                    }
                    &&& r.release_notes@ == match rel.body {
                        Some(b) => b@,
                        None => Seq::<char>::empty(),
                    }
                }
            },
        },
        !r.has_update ==> {
            &&& r.version@.len() == 0
            &&& r.download_url is None
            &&& r.release_notes@.len() == 0
        },
{
    match release {
        None => UpdateInfo {
            has_update: false,
            version: String::new(),
            download_url: None,
            release_notes: String::new(),
        },
        Some(rel) => {
            let latest = strip_v_str(rel.tag_name.as_str());
            let current = strip_v_str(current_version);
            if compare_versions(latest, current) > 0 {
                let notes = match &rel.body {
                    Some(b) => b.clone(),
                    None => String::new(),
                };
                UpdateInfo {
                    has_update: true,
                    version: latest.to_owned(),
                    download_url: find_rpm_url(&rel.assets),
                    release_notes: notes,
                }
            } else {
                UpdateInfo {
                    has_update: false,
                    version: String::new(),
                    download_url: None,
                    release_notes: String::new(),
                }
            }
        },
    }
}

} // verus!
