//! The decisions of installing resolved mods into an instance's `mods/`
//! directory: which instances take mods, which files already present are
//! kept, and whether a downloaded file matches its published hash.

use vstd::prelude::*;
use crate::instance::Instance;
use crate::mods::{ModError, ModLoader, ResolvedMod, text_views};
use crate::releases::opt_text;

verus! {

/// The loader to resolve mods for, or `VanillaInstance` for an instance
/// without one (nothing is resolved or downloaded then).
pub fn install_loader(instance: &Instance) -> (res: Result<ModLoader, ModError>)
    ensures
        match instance.mod_loader {
            Some(l) => res == Ok::<ModLoader, ModError>(l),
            None => res == Err::<ModLoader, ModError>(ModError::VanillaInstance),
        },
{
    match instance.mod_loader {
        Some(l) => Ok(l),
        None => Err(ModError::VanillaInstance),
    }
}

/// What is already at a mod's destination: nothing, or a file together with
/// its SHA-1 in lower-case hex when it was hashed.
#[derive(Debug)]
pub enum ExistingFile {
    Absent,
    Present(Option<String>),
}

/// Whether a mod's file is kept as it is or downloaded.
#[derive(Debug, Clone, Copy, PartialEq, Eq, Structural)]
pub enum FileAction {
    Keep,
    Download,
}

/// A present file is kept when the provider published no hash, or when the
/// file's hash equals the published one; otherwise (absent, or stale or
/// corrupt) the file is downloaded.
pub open spec fn keeps_existing(expected: Option<String>, existing: ExistingFile) -> bool {
    match existing {
        ExistingFile::Absent => false,
        ExistingFile::Present(actual) => match expected {
            None => true,
            Some(e) => actual matches Some(a) && a@ == e@,
        },
    }
}

/// Whether the file already at `m`'s destination is kept or downloaded
/// again. The existing file needs hashing only when `m.sha1` is `Some`.
pub fn existing_file_action(m: &ResolvedMod, existing: &ExistingFile) -> (res: FileAction)
    ensures
        res == (if keeps_existing(m.sha1, *existing) {
            FileAction::Keep
        } else {
            FileAction::Download
        }),
{
    match existing {
        ExistingFile::Absent => FileAction::Download,
        ExistingFile::Present(actual) => match &m.sha1 {
            None => FileAction::Keep,
            Some(expected) => match actual {
                Some(a) => {
                    if *a == *expected {
                        FileAction::Keep
                    } else {
                        FileAction::Download
                    }
                },
                None => FileAction::Download,
            },
        },
    }
}

/// A downloaded file passes when the provider published no hash or its hash
/// `actual` (lower-case hex) equals the published one; otherwise it is
/// `HashMismatch` naming the file.
pub fn verify_download(m: &ResolvedMod, actual: &String) -> (res: Result<(), ModError>)
    ensures
        res is Ok <==> (match m.sha1 {
            None => true,
            Some(e) => e@ == actual@,
        }),
        res matches Err(e) ==> (e matches ModError::HashMismatch(f) && f@ == m.filename@),
{
    match &m.sha1 {
        None => Ok(()),
        Some(expected) => {
            if *expected == *actual {
                Ok(())
            } else {
                Err(ModError::HashMismatch(m.filename.clone()))
            }
        },
    }
}

/// The file names of `mods`, in order.
pub open spec fn mod_filenames(mods: Seq<ResolvedMod>) -> Seq<Seq<char>> {
    mods.map_values(|m: ResolvedMod| m.filename@)
}

/// One installation's progress through its resolved mods, in order. For each
/// mod the caller reports what is at its destination; a file that is not kept
/// is downloaded and then reported again, with its hash. The installer keeps
/// the names installed and, as ghost state, the hash observed for each.
pub struct Installer {
    mods: Vec<ResolvedMod>,
    next: usize,
    downloading: bool,
    installed: Vec<String>,
    hashes: Ghost<Seq<Option<Seq<char>>>>,
}

impl Installer {
    /// The mods to install.
    pub closed spec fn mods(&self) -> Seq<ResolvedMod> {
        self.mods@
    }

    /// How many mods are installed so far.
    pub closed spec fn position(&self) -> nat {
        self.next as nat
    }

    /// The current mod is being downloaded.
    pub closed spec fn is_downloading(&self) -> bool {
        self.downloading
    }

    /// The file names installed so far, in order.
    pub closed spec fn installed(&self) -> Seq<Seq<char>> {
        text_views(self.installed@)
    }

    /// The SHA-1 observed for each installed file (when it was hashed).
    pub closed spec fn observed(&self) -> Seq<Option<Seq<char>>> {
        self.hashes@
    }

    /// Every mod is installed.
    pub open spec fn is_done(&self) -> bool {
        self.position() == self.mods().len()
    }

    /// The installer's invariant: the mods before the position are installed,
    /// in order, each under its file name, and each whose provider published
    /// a SHA-1 was observed with exactly that hash.
    pub closed spec fn wf(&self) -> bool {
        &&& self.next <= self.mods@.len()
        &&& self.downloading ==> self.next < self.mods@.len()
        &&& self.installed@.len() == self.next
        &&& self.hashes@.len() == self.next
        &&& forall|i: int|
            0 <= i < self.next ==> (#[trigger] self.installed@[i])@ == self.mods@[i].filename@
        &&& forall|i: int|
            0 <= i < self.next ==> match (#[trigger] self.mods@[i]).sha1 {
                Some(h) => self.hashes@[i] == Some(h@),
                None => true,
            }
    }

    /// An installer for `mods`, with nothing installed yet.
    pub fn new(mods: Vec<ResolvedMod>) -> (res: Self)
        ensures
            res.wf(),
            res.mods() == mods@,
            res.position() == 0,
            !res.is_downloading(),
            res.installed() == Seq::<Seq<char>>::empty(),
            res.observed() == Seq::<Option<Seq<char>>>::empty(),
    {
        let res = Installer {
            mods,
            next: 0,
            downloading: false,
            installed: Vec::new(),
            hashes: Ghost(Seq::empty()),
        };
        assert(res.installed() =~= Seq::<Seq<char>>::empty());
        res
    }

    /// The mod being installed, `None` when all are.
    pub fn current(&self) -> (res: Option<&ResolvedMod>)
        requires
            self.wf(),
        ensures
            match res {
                Some(m) => self.position() < self.mods().len() && *m == self.mods()[self.position() as int],
                None => self.is_done(),
            },
    {
        if self.next < self.mods.len() {
            Some(&self.mods[self.next])
        } else {
            None
        }
    }

    /// Hands in what is at the current mod's destination: a file kept as it
    /// is (see `keeps_existing`) counts as installed, with the hash it was
    /// seen with; otherwise the answer is to download it.
    pub fn on_existing(&mut self, existing: ExistingFile) -> (res: FileAction)
        requires
            old(self).wf(),
            !old(self).is_downloading(),
            old(self).position() < old(self).mods().len(),
        ensures
            final(self).wf(),
            final(self).mods() == old(self).mods(),
            res == (if keeps_existing(old(self).mods()[old(self).position() as int].sha1, existing) {
                FileAction::Keep
            } else {
                FileAction::Download
            }),
            res == FileAction::Keep ==> {
                &&& final(self).position() == old(self).position() + 1
                &&& !final(self).is_downloading()
                &&& final(self).installed() == old(self).installed().push(
                    old(self).mods()[old(self).position() as int].filename@,
                )
                &&& final(self).observed() == old(self).observed().push(
                    match existing {
                        ExistingFile::Present(a) => opt_text(a),
                        ExistingFile::Absent => None,
                    },
                )
            },
            res == FileAction::Download ==> {
                &&& final(self).position() == old(self).position()
                &&& final(self).is_downloading()
                &&& final(self).installed() == old(self).installed()
                &&& final(self).observed() == old(self).observed()
            },
    {
        let count: usize = self.mods.len();
        assert(self.next < count);
        let action = existing_file_action(&self.mods[self.next], &existing);
        match action {
            FileAction::Keep => {
                let ghost seen = match existing {
                    ExistingFile::Present(a) => opt_text(a),
                    ExistingFile::Absent => None,
                };
                let ghost before = self.installed@;
                let name = self.mods[self.next].filename.clone();
                self.installed.push(name);
                self.hashes = Ghost(self.hashes@.push(seen));
                self.next = self.next + 1;
                assert(text_views(self.installed@) =~= text_views(before).push(name@));
            },
            FileAction::Download => {
                self.downloading = true;
            },
        }
        action
    }

    /// Hands in the hash of the file just downloaded for the current mod
    /// (`None` when it was not hashed). The file is installed when the
    /// provider published no hash or `actual` is that hash; otherwise it is
    /// `HashMismatch` naming the file, and nothing changes.
    pub fn on_downloaded(&mut self, actual: Option<String>) -> (res: Result<(), ModError>)
        requires
            old(self).wf(),
            old(self).is_downloading(),
        ensures
            final(self).wf(),
            final(self).mods() == old(self).mods(),
            res is Ok <==> (match old(self).mods()[old(self).position() as int].sha1 {
                None => true,
                Some(h) => opt_text(actual) == Some(h@),
            }),
            res matches Err(e) ==> (e matches ModError::HashMismatch(f) && f@ == old(self).mods()[old(
                self,
            ).position() as int].filename@) && *final(self) == *old(self),
            res is Ok ==> {
                &&& final(self).position() == old(self).position() + 1
                &&& !final(self).is_downloading()
                &&& final(self).installed() == old(self).installed().push(
                    old(self).mods()[old(self).position() as int].filename@,
                )
                &&& final(self).observed() == old(self).observed().push(opt_text(actual))
            },
    {
        let count: usize = self.mods.len();
        assert(self.next < count);
        let checked = match &actual {
            Some(a) => verify_download(&self.mods[self.next], a),
            None => match &self.mods[self.next].sha1 {
                None => Ok(()),
                Some(_) => Err(ModError::HashMismatch(self.mods[self.next].filename.clone())),
            },
        };
        match checked {
            Ok(()) => {
                let ghost before = self.installed@;
                let name = self.mods[self.next].filename.clone();
                self.installed.push(name);
                self.hashes = Ghost(self.hashes@.push(opt_text(actual)));
                self.next = self.next + 1;
                self.downloading = false;
                assert(text_views(self.installed@) =~= text_views(before).push(name@));
                Ok(())
            },
            Err(e) => Err(e),
        }
    }

    /// The file names installed, in order.
    pub fn finish(self) -> (res: Vec<String>)
        ensures
            text_views(res@) == self.installed(),
    {
        self.installed
    }

    /// Once every mod is installed, the files installed are exactly the mods'
    /// files, in order, and every file whose provider published a SHA-1 was
    /// observed with that hash (whether it was kept or downloaded).
    pub proof fn lemma_done_installs_all(&self)
        requires
            self.wf(),
            self.is_done(),
        ensures
            self.installed() == mod_filenames(self.mods()),
            self.observed().len() == self.mods().len(),
            forall|i: int|
                0 <= i < self.mods().len() ==> match (#[trigger] self.mods()[i]).sha1 {
                    Some(h) => self.observed()[i] == Some(h@),
                    None => true,
                },
    {
        assert(self.installed() =~= mod_filenames(self.mods())) by {
            assert forall|i: int| 0 <= i < self.mods@.len() implies #[trigger] self.installed()[i]
                == mod_filenames(self.mods())[i] by {
                assert(self.installed@[i]@ == self.mods@[i].filename@);
            }
        }
    }
}

} // verus!
