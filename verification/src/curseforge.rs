//! The CurseForge API. Unlike Modrinth it needs a per-application API key
//! issued by Overwolf/CurseForge, which the caller supplies: the shape of its
//! file listings, the requests for them, and the choice of the file to
//! install.

use vstd::prelude::*;
use crate::http::{HttpRequest, success_status};
use crate::text::{bytes_before, decimal, decimal_string, newest_first, newest_index, text_key, text_keys};

verus! {

/// CurseForge's `relationType` value for a required dependency.
pub open spec fn relation_required_dependency() -> u8 {
    3
}

/// CurseForge's `algo` value for a SHA-1 hash.
pub open spec fn algo_sha1() -> u8 {
    1
}

/// A dependency of a file on another mod.
#[derive(Debug, Clone)]
pub struct FileDependency {
    pub mod_id: u32,
    pub relation_type: u8,
}

impl FileDependency {
    /// Whether the dependency is required (rather than optional, embedded,
    /// incompatible, ...).
    pub fn is_required(&self) -> (res: bool)
        ensures
            res == (self.relation_type == relation_required_dependency()),
    {
        self.relation_type == 3
    }
}

/// A hash CurseForge publishes for a file: its value and its algorithm.
#[derive(Debug, Clone)]
pub struct FileHash {
    pub value: String,
    pub algo: u8,
}

/// A file of a CurseForge mod.
#[derive(Debug, Clone)]
pub struct File {
    pub id: u32,
    pub mod_id: u32,
    pub file_name: String,
    pub file_date: String,
    pub download_url: Option<String>,
    pub dependencies: Vec<FileDependency>,
    pub hashes: Vec<FileHash>,
}

/// Position `k` is the first SHA-1 entry.
pub open spec fn first_sha1(hashes: Seq<FileHash>, k: int) -> bool {
    &&& 0 <= k < hashes.len()
    &&& hashes[k].algo == algo_sha1()
    &&& forall|j: int| 0 <= j < k ==> (#[trigger] hashes[j]).algo != algo_sha1()
}

/// The value of the first SHA-1 entry, if there is one.
pub open spec fn published_sha1(hashes: Seq<FileHash>) -> Option<Seq<char>> {
    if exists|k: int| first_sha1(hashes, k) {
        Some(hashes[choose|k: int| first_sha1(hashes, k)].value@)
    } else {
        None
    }
}

impl File {
    /// CurseForge's SHA-1 hash entry for this file, if it published one: the
    /// value of the first entry whose algorithm is SHA-1.
    pub fn sha1(&self) -> (res: Option<&str>)
        ensures
            match published_sha1(self.hashes@) {
                Some(h) => res matches Some(r) && r@ == h,
                None => res is None,
            },
    {
        let mut i: usize = 0;
        while i < self.hashes.len()
            invariant
                i <= self.hashes@.len(),
                forall|j: int| 0 <= j < i ==> (#[trigger] self.hashes@[j]).algo != algo_sha1(),
            decreases self.hashes@.len() - i,
        {
            if self.hashes[i].algo == 1 {
                proof {
                    assert(first_sha1(self.hashes@, i as int));
                    let c = choose|k: int| first_sha1(self.hashes@, k);
                    assert(first_sha1(self.hashes@, c));
                    if c < i {
                        assert(self.hashes@[c].algo != algo_sha1());
                    } else if c > i {
                        assert(self.hashes@[i as int].algo != algo_sha1());
                    }
                }
                return Some(self.hashes[i].value.as_str());
            }
            i = i + 1;
        }
        assert forall|k: int| !first_sha1(self.hashes@, k) by {
            if 0 <= k < self.hashes@.len() {
                assert(self.hashes@[k].algo != algo_sha1());
            }
        }
        None
    }
}

/// Why a CurseForge lookup failed.
#[derive(Debug)]
pub enum CurseForgeError {
    /// No API key is configured, so no request is made.
    MissingApiKey,
    /// The request could not be made or its body not read; the text says why.
    Request(String),
    /// The server answered with a status other than 2xx.
    Status(u16),
    /// No file of the mod matches the loader and game version.
    NoCompatibleFile(u32),
}

/// The API root the client uses unless told otherwise.
pub open spec fn default_curseforge_base() -> Seq<char> {
    "https://api.curseforge.com/v1"@
}

/// A CurseForge API client: where it sends its requests and the API key it
/// sends with them.
#[derive(Debug)]
pub struct CurseForgeClient {
    base_url: String,
    api_key: Option<String>,
}

impl CurseForgeClient {
    /// The API root requests go to.
    pub closed spec fn base(&self) -> Seq<char> {
        self.base_url@
    }

    /// The API key sent with requests, if any.
    pub closed spec fn key(&self) -> Option<Seq<char>> {
        match self.api_key {
            Some(k) => Some(k@),
            None => None,
        }
    }

    /// A client for the public CurseForge API.
    pub fn new(api_key: Option<String>) -> (res: Self)
        ensures
            res.base() == default_curseforge_base(),
            res.key() == (match api_key {
                Some(k) => Some(k@),
                None => None::<Seq<char>>,
            }),
    {
        Self::with_base_url("https://api.curseforge.com/v1".to_owned(), api_key)
    }

    /// A client whose requests go to `base_url`.
    pub fn with_base_url(base_url: String, api_key: Option<String>) -> (res: Self)
        ensures
            res.base() == base_url@,
            res.key() == (match api_key {
                Some(k) => Some(k@),
                None => None::<Seq<char>>,
            }),
    {
        CurseForgeClient { base_url, api_key }
    }

    /// The API root requests go to.
    pub fn base_url(&self) -> (res: &str)
        ensures
            res@ == self.base(),
    {
        self.base_url.as_str()
    }

    /// The request for all files of `mod_id` compatible with the given loader
    /// and game version: `GET {base}/mods/{mod_id}/files` with `gameVersion`
    /// and `modLoaderType` and the `x-api-key` header. `mod_loader_type` is
    /// CurseForge's numeric loader id (0 = any, 1 = Forge, 4 = Fabric,
    /// 5 = Quilt, 6 = NeoForge). Without an API key this is `MissingApiKey`,
    /// and no request is made.
    pub fn files_request(&self, mod_id: u32, mod_loader_type: u8, game_version: &str) -> (res:
        Result<HttpRequest, CurseForgeError>)
        ensures
            self.key() is None <==> res is Err,
            res matches Err(e) ==> e is MissingApiKey,
            res matches Ok(req) ==> {
                &&& req.url@ == self.base() + "/mods/"@ + decimal(mod_id as nat) + "/files"@
                &&& req.query@.len() == 2
                &&& req.query@[0].0@ == "gameVersion"@
                &&& req.query@[0].1@ == game_version@
                &&& req.query@[1].0@ == "modLoaderType"@
                &&& req.query@[1].1@ == decimal(mod_loader_type as nat)
                &&& req.headers@.len() == 1
                &&& req.headers@[0].0@ == "x-api-key"@
                &&& Some(req.headers@[0].1@) == self.key()
            },
    {
        let api_key = match &self.api_key {
            Some(k) => k,
            None => {
                return Err(CurseForgeError::MissingApiKey);
            },
        };
        let mut url = self.base_url.clone();
        url.append("/mods/");
        let id = decimal_string(mod_id as u64);
        url.append(id.as_str());
        url.append("/files");
        let mut query: Vec<(String, String)> = Vec::new();
        query.push(("gameVersion".to_owned(), game_version.to_owned()));
        query.push(("modLoaderType".to_owned(), decimal_string(mod_loader_type as u64)));
        let mut headers: Vec<(String, String)> = Vec::new();
        headers.push(("x-api-key".to_owned(), api_key.clone()));
        Ok(HttpRequest { url, query, headers })
    }
}

/// A reply's status: `Ok` for 2xx, else the `Status` error.
pub fn check_status(status: u16) -> (res: Result<(), CurseForgeError>)
    ensures
        success_status(status) <==> res is Ok,
        !success_status(status) ==> res == Err::<(), CurseForgeError>(
            CurseForgeError::Status(status),
        ),
{
    if crate::http::is_success(status) {
        Ok(())
    } else {
        Err(CurseForgeError::Status(status))
    }
}

/// The sort keys of the files' dates.
pub open spec fn file_dates(files: Seq<File>) -> Seq<Seq<u8>> {
    files.map_values(|f: File| text_key(f.file_date@))
}

/// A file at the newest position by `file_dates` has a `file_date` that no other
/// file's `file_date` sorts after (in the byte order of `str`), and every file
/// listed before it has a `file_date` that sorts strictly before it.
pub proof fn lemma_newest_file_by_date(files: Seq<File>, k: int)
    requires
        newest_first(file_dates(files), k),
    ensures
        0 <= k < files.len(),
        forall|j: int|
            0 <= j < files.len() ==> !bytes_before(
                text_key(files[k].file_date@),
                text_key((#[trigger] files[j]).file_date@),
            ),
        forall|j: int|
            0 <= j < k ==> bytes_before(
                text_key((#[trigger] files[j]).file_date@),
                text_key(files[k].file_date@),
            ),
{
    let keys = file_dates(files);
    assert forall|j: int| 0 <= j < files.len() implies #[trigger] keys[j] == text_key(
        files[j].file_date@,
    ) by {}
    assert forall|j: int| 0 <= j < files.len() implies !bytes_before(
        text_key(files[k].file_date@),
        text_key((#[trigger] files[j]).file_date@),
    ) by {
        assert(keys[j] == text_key(files[j].file_date@));
        assert(keys[k] == text_key(files[k].file_date@));
    }
    assert forall|j: int| 0 <= j < k implies bytes_before(
        text_key((#[trigger] files[j]).file_date@),
        text_key(files[k].file_date@),
    ) by {
        assert(keys[j] == text_key(files[j].file_date@));
        assert(keys[k] == text_key(files[k].file_date@));
    }
}

/// The most recently dated of `files` (the first listed among equally dated
/// ones), or `NoCompatibleFile(mod_id)` when there are none.
pub fn best_file_of(files: Vec<File>, mod_id: u32) -> (res: Result<File, CurseForgeError>)
    ensures
        files@.len() > 0 <==> res is Ok,
        res matches Ok(f) ==> exists|k: int|
            newest_first(file_dates(files@), k) && f == #[trigger] files@[k],
        res matches Ok(f) ==> exists|k: int|
            0 <= k < files@.len() && f == #[trigger] files@[k] && (forall|j: int|
                0 <= j < files@.len() ==> !bytes_before(
                    text_key(f.file_date@),
                    text_key((#[trigger] files@[j]).file_date@),
                )) && (forall|j: int|
                0 <= j < k ==> bytes_before(
                    text_key((#[trigger] files@[j]).file_date@),
                    text_key(f.file_date@),
                )),
        res matches Err(e) ==> e == CurseForgeError::NoCompatibleFile(mod_id),
{
    if files.len() == 0 {
        return Err(CurseForgeError::NoCompatibleFile(mod_id));
    }
    let mut dates: Vec<String> = Vec::new();
    let mut i: usize = 0;
    while i < files.len()
        invariant
            i <= files@.len(),
            dates@.len() == i,
            forall|j: int| 0 <= j < i ==> #[trigger] dates@[j] == files@[j].file_date,
        decreases files@.len() - i,
    {
        dates.push(files[i].file_date.clone());
        i = i + 1;
    }
    let k = newest_index(&dates);
    assert(text_keys(dates@) =~= file_dates(files@));
    let mut files = files;
    let ghost before = files@;
    let f = files.remove(k);
    assert(f == before[k as int]);
    proof {
        lemma_newest_file_by_date(before, k as int);
    }
    Ok(f)
}

} // verus!
