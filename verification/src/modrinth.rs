//! The public Modrinth API (labrinth), which needs no key: the shape of its
//! version listings, the requests for them, and the choice of the release to
//! install.

use vstd::prelude::*;
use crate::http::{HttpRequest, success_status};
use crate::text::{bytes_before, newest_first, newest_index, text_key, text_keys};

verus! {

/// How one Modrinth project depends on another.
#[derive(Debug, Clone, Copy, PartialEq, Eq, Structural)]
pub enum DependencyType {
    Required,
    Optional,
    Incompatible,
    Embedded,
}

/// A dependency of a version: a project, a pinned version, or both.
#[derive(Debug, Clone)]
pub struct Dependency {
    pub version_id: Option<String>,
    pub project_id: Option<String>,
    pub dependency_type: DependencyType,
}

/// The hashes Modrinth publishes for a file, as lower-case hex.
#[derive(Debug, Clone)]
pub struct FileHashes {
    pub sha1: Option<String>,
    pub sha512: Option<String>,
}

impl Default for FileHashes {
    fn default() -> (res: Self)
        ensures
            res.sha1 is None,
            res.sha512 is None,
    {
        FileHashes { sha1: None, sha512: None }
    }
}

/// One downloadable file of a version.
#[derive(Debug, Clone)]
pub struct VersionFile {
    pub url: String,
    pub filename: String,
    pub primary: bool,
    pub hashes: FileHashes,
}

/// A published version of a project.
#[derive(Debug, Clone)]
pub struct Version {
    pub id: String,
    pub project_id: String,
    pub version_number: String,
    pub game_versions: Vec<String>,
    pub loaders: Vec<String>,
    pub date_published: String,
    pub dependencies: Vec<Dependency>,
    pub files: Vec<VersionFile>,
}

/// Position `k` is the first file marked primary.
pub open spec fn first_primary(files: Seq<VersionFile>, k: int) -> bool {
    &&& 0 <= k < files.len()
    &&& files[k].primary
    &&& forall|j: int| 0 <= j < k ==> !(#[trigger] files[j]).primary
}

/// The position of the file to download: the first marked primary, else the
/// first listed; `None` when there are no files.
pub open spec fn primary_position(files: Seq<VersionFile>) -> Option<int> {
    if exists|k: int| first_primary(files, k) {
        Some(choose|k: int| first_primary(files, k))
    } else if files.len() > 0 {
        Some(0)
    } else {
        None
    }
}

impl Version {
    /// The file to download for this version — the one marked `primary`, or
    /// the first listed.
    pub fn primary_file(&self) -> (res: Option<&VersionFile>)
        ensures
            match primary_position(self.files@) {
                Some(k) => res == Some(&self.files@[k]),
                None => res is None,
            },
    {
        let mut i: usize = 0;
        while i < self.files.len()
            invariant
                i <= self.files@.len(),
                forall|j: int| 0 <= j < i ==> !(#[trigger] self.files@[j]).primary,
            decreases self.files@.len() - i,
        {
            if self.files[i].primary {
                proof {
                    assert(first_primary(self.files@, i as int));
                    let c = choose|k: int| first_primary(self.files@, k);
                    assert(first_primary(self.files@, c));
                    if c < i {
                        assert(!self.files@[c].primary);
                    } else if c > i {
                        assert(!self.files@[i as int].primary);
                    }
                }
                return Some(&self.files[i]);
            }
            i = i + 1;
        }
        proof {
            assert forall|k: int| !first_primary(self.files@, k) by {
                if 0 <= k < self.files@.len() {
                    assert(!self.files@[k].primary);
                }
            }
        }
        if self.files.len() > 0 {
            Some(&self.files[0])
        } else {
            None
        }
    }
}

/// Why a Modrinth lookup failed.
#[derive(Debug)]
pub enum ModrinthError {
    /// The request could not be made or its body not read; the text says why.
    Request(String),
    /// The server answered with a status other than 2xx.
    Status(u16),
    /// No version of the project matches the loader and game version.
    NoCompatibleVersion(String),
}

/// The API root the client uses unless told otherwise.
pub open spec fn default_modrinth_base() -> Seq<char> {
    "https://api.modrinth.com/v2"@
}

/// A Modrinth API client: where it sends its requests.
#[derive(Debug)]
pub struct ModrinthClient {
    base_url: String,
}

impl Default for ModrinthClient {
    fn default() -> (res: Self)
        ensures
            res.base() == default_modrinth_base(),
    {
        Self::new()
    }
}

impl ModrinthClient {
    /// The API root requests go to.
    pub closed spec fn base(&self) -> Seq<char> {
        self.base_url@
    }

    /// A client for the public Modrinth API.
    pub fn new() -> (res: Self)
        ensures
            res.base() == default_modrinth_base(),
    {
        Self::with_base_url("https://api.modrinth.com/v2".to_owned())
    }

    /// A client whose requests go to `base_url`.
    pub fn with_base_url(base_url: String) -> (res: Self)
        ensures
            res.base() == base_url@,
    {
        ModrinthClient { base_url }
    }

    /// The API root requests go to.
    pub fn base_url(&self) -> (res: &str)
        ensures
            res@ == self.base(),
    {
        self.base_url.as_str()
    }

    /// The request for all versions of `project_id` compatible with the given
    /// loader and game version: `GET {base}/project/{project_id}/version` with
    /// `loaders=["{loader}"]` and `game_versions=["{game_version}"]`.
    pub fn versions_request(&self, project_id: &str, loader: &str, game_version: &str) -> (req:
        HttpRequest)
        ensures
            req.url@ == self.base() + "/project/"@ + project_id@ + "/version"@,
            req.query@.len() == 2,
            req.query@[0].0@ == "loaders"@,
            req.query@[0].1@ == "[\""@ + loader@ + "\"]"@,
            req.query@[1].0@ == "game_versions"@,
            req.query@[1].1@ == "[\""@ + game_version@ + "\"]"@,
            req.headers@.len() == 0,
    {
        let mut url = self.base_url.clone();
        url.append("/project/");
        url.append(project_id);
        url.append("/version");
        let mut loaders = "[\"".to_owned();
        loaders.append(loader);
        loaders.append("\"]");
        let mut game_versions = "[\"".to_owned();
        game_versions.append(game_version);
        game_versions.append("\"]");
        let mut query: Vec<(String, String)> = Vec::new();
        query.push(("loaders".to_owned(), loaders));
        query.push(("game_versions".to_owned(), game_versions));
        HttpRequest { url, query, headers: Vec::new() }
    }

    /// The request for the single version `version_id`:
    /// `GET {base}/version/{version_id}`.
    pub fn version_request(&self, version_id: &str) -> (req: HttpRequest)
        ensures
            req.url@ == self.base() + "/version/"@ + version_id@,
            req.query@.len() == 0,
            req.headers@.len() == 0,
    {
        let mut url = self.base_url.clone();
        url.append("/version/");
        url.append(version_id);
        HttpRequest { url, query: Vec::new(), headers: Vec::new() }
    }
}

/// A reply's status: `Ok` for 2xx, else the `Status` error.
pub fn check_status(status: u16) -> (res: Result<(), ModrinthError>)
    ensures
        success_status(status) <==> res is Ok,
        !success_status(status) ==> res == Err::<(), ModrinthError>(ModrinthError::Status(status)),
{
    if crate::http::is_success(status) {
        Ok(())
    } else {
        Err(ModrinthError::Status(status))
    }
}

/// The sort keys of the versions' publication dates.
pub open spec fn version_dates(versions: Seq<Version>) -> Seq<Seq<u8>> {
    versions.map_values(|v: Version| text_key(v.date_published@))
}

/// A version at the newest position by `version_dates` has a `date_published` that no other
/// version's `date_published` sorts after (in the byte order of `str`), and every version
/// listed before it has a `date_published` that sorts strictly before it.
pub proof fn lemma_newest_version_by_date(versions: Seq<Version>, k: int)
    requires
        newest_first(version_dates(versions), k),
    ensures
        0 <= k < versions.len(),
        forall|j: int|
            0 <= j < versions.len() ==> !bytes_before(
                text_key(versions[k].date_published@),
                text_key((#[trigger] versions[j]).date_published@),
            ),
        forall|j: int|
            0 <= j < k ==> bytes_before(
                text_key((#[trigger] versions[j]).date_published@),
                text_key(versions[k].date_published@),
            ),
{
    let keys = version_dates(versions);
    assert forall|j: int| 0 <= j < versions.len() implies #[trigger] keys[j] == text_key(
        versions[j].date_published@,
    ) by {}
    assert forall|j: int| 0 <= j < versions.len() implies !bytes_before(
        text_key(versions[k].date_published@),
        text_key((#[trigger] versions[j]).date_published@),
    ) by {
        assert(keys[j] == text_key(versions[j].date_published@));
        assert(keys[k] == text_key(versions[k].date_published@));
    }
    assert forall|j: int| 0 <= j < k implies bytes_before(
        text_key((#[trigger] versions[j]).date_published@),
        text_key(versions[k].date_published@),
    ) by {
        assert(keys[j] == text_key(versions[j].date_published@));
        assert(keys[k] == text_key(versions[k].date_published@));
    }
}

/// The most recently published of `versions` (the first listed among equally
/// dated ones), or `NoCompatibleVersion(project_id)` when there are none.
pub fn best_version_of(versions: Vec<Version>, project_id: &str) -> (res: Result<
    Version,
    ModrinthError,
>)
    ensures
        versions@.len() > 0 <==> res is Ok,
        res matches Ok(v) ==> exists|k: int|
            newest_first(version_dates(versions@), k) && v == #[trigger] versions@[k],
        res matches Ok(v) ==> exists|k: int|
            0 <= k < versions@.len() && v == #[trigger] versions@[k] && (forall|j: int|
                0 <= j < versions@.len() ==> !bytes_before(
                    text_key(v.date_published@),
                    text_key((#[trigger] versions@[j]).date_published@),
                )) && (forall|j: int|
                0 <= j < k ==> bytes_before(
                    text_key((#[trigger] versions@[j]).date_published@),
                    text_key(v.date_published@),
                )),
        res matches Err(e) ==> (e matches ModrinthError::NoCompatibleVersion(p) && p@
            == project_id@),
{
    if versions.len() == 0 {
        return Err(ModrinthError::NoCompatibleVersion(project_id.to_owned()));
    }
    let mut dates: Vec<String> = Vec::new();
    let mut i: usize = 0;
    while i < versions.len()
        invariant
            i <= versions@.len(),
            dates@.len() == i,
            forall|j: int| 0 <= j < i ==> #[trigger] dates@[j] == versions@[j].date_published,
        decreases versions@.len() - i,
    {
        dates.push(versions[i].date_published.clone());
        i = i + 1;
    }
    let k = newest_index(&dates);
    assert(text_keys(dates@) =~= version_dates(versions@));
    let mut versions = versions;
    let ghost before = versions@;
    let v = versions.remove(k);
    assert(v == before[k as int]);
    proof {
        lemma_newest_version_by_date(before, k as int);
    }
    Ok(v)
}

} // verus!
