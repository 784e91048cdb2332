//! A project's directory: what it is called, what is made in it, and why it could not be
//! had.
use crate::ids;
use crate::paths;
use crate::project::names;
use crate::project::names::{bundle_folder_name, unique_bundle_name};
use vstd::prelude::*;
use vstd::string::*;

verus! {

/// Why a project could not be made or opened.
#[derive(Debug, PartialEq)]
pub enum ProjectError {
    Io(String),
    Manifest(String),
    Journal(String),
    Lock(String),
    AlreadyExists(String),
    Serde(String),
}

fn joined(head: &str, tail: &str) -> (t: String)
    ensures
        t@ == head@ + tail@,
{
    let mut t: String = head.to_owned();
    t.append(tail);
    t
}

impl ProjectError {
    /// The message for people.
    pub open spec fn text(self) -> Seq<char> {
        match self {
            ProjectError::Io(e) => "IO error: "@ + e@,
            ProjectError::Manifest(e) => "Manifest error: "@ + e@,
            ProjectError::Journal(e) => "Journal error: "@ + e@,
            ProjectError::Lock(e) => "Lock error: "@ + e@,
            ProjectError::AlreadyExists(p) => "Project bundle already exists: "@ + p@,
            ProjectError::Serde(e) => "Serialization error: "@ + e@,
        }
    }

    /// The message for people.
    pub fn message(&self) -> (t: String)
        ensures
            t@ == self.text(),
    {
        match self {
            ProjectError::Io(e) => joined("IO error: ", e.as_str()),
            ProjectError::Manifest(e) => joined("Manifest error: ", e.as_str()),
            ProjectError::Journal(e) => joined("Journal error: ", e.as_str()),
            ProjectError::Lock(e) => joined("Lock error: ", e.as_str()),
            ProjectError::AlreadyExists(p) => joined(
                "Project bundle already exists: ",
                p.as_str(),
            ),
            ProjectError::Serde(e) => joined("Serialization error: ", e.as_str()),
        }
    }
}

/// How many names are tried for a project's directory before one is made up.
pub const MAX_ATTEMPTS: u32 = 10_000;

/// The search for the directory of a new project: the name that people see, and the
/// directory that is tried.
#[derive(Debug)]
pub struct NewBundle {
    pub display_name: String,
    pub folder_name: String,
    pub disambiguate: bool,
    pub attempt: u32,
    pub root: String,
}

/// What comes of a look at the directory that is tried.
#[derive(Debug)]
pub enum BundleStep {
    /// The project is made there.
    Create,
    /// Another directory is tried.
    Retry,
}

impl NewBundle {
    /// The directory that is tried has the name of its attempt; at the last one the name
    /// is made up.
    pub open spec fn wf(self, base: Seq<char>) -> bool {
        &&& 1 <= self.attempt <= MAX_ATTEMPTS
        &&& if self.attempt < MAX_ATTEMPTS {
            self.root@ == paths::joined(base, numbered(self.folder_name@, self.attempt as nat))
        } else {
            exists|id: Seq<char>|
                ids::is_id(id) && self.root@ == #[trigger] paths::joined(
                    base,
                    made_up(self.folder_name@, id),
                )
        }
    }

    /// Starts to look for the directory of a new project.
    pub fn start(base: &str, display_name: String, disambiguate: bool) -> (r: NewBundle)
        ensures
            r.wf(base@),
            r.display_name == display_name,
            r.disambiguate == disambiguate,
            r.attempt == 1,
            names::is_folder_name(r.folder_name@, display_name@),
    {
        let folder_name: String = bundle_folder_name(display_name.as_str());
        let root: String = paths::join(base, folder_name.as_str());
        NewBundle { display_name, folder_name, disambiguate, attempt: 1, root }
    }

    /// Goes on, now that it is known whether the directory that is tried exists.
    pub fn looked(&mut self, base: &str, exists: bool) -> (r: Result<BundleStep, ProjectError>)
        requires
            old(self).wf(base@),
        ensures
            final(self).wf(base@),
            match r {
                Ok(BundleStep::Create) => !exists && *final(self) == *old(self),
                Ok(BundleStep::Retry) => {
                    &&& exists
                    &&& old(self).disambiguate
                    &&& old(self).attempt < MAX_ATTEMPTS
                    &&& *final(self) == (NewBundle {
                        attempt: (old(self).attempt + 1) as u32,
                        root: final(self).root,
                        ..*old(self)
                    })
                },
                Err(e) => {
                    &&& exists
                    &&& !old(self).disambiguate || old(self).attempt == MAX_ATTEMPTS
                    &&& *final(self) == *old(self)
                    &&& e.text() == "Project bundle already exists: "@ + old(self).root@
                },
            },
    {
        if !exists {
            return Ok(BundleStep::Create);
        }
        if !self.disambiguate || self.attempt >= MAX_ATTEMPTS {
            return Err(ProjectError::AlreadyExists(self.root.clone()));
        }
        self.attempt = self.attempt + 1;
        let name: String = unique_bundle_name(self.folder_name.as_str(), self.attempt);
        self.root = paths::join(base, name.as_str());
        proof {
            if self.attempt == MAX_ATTEMPTS {
                let folder = self.folder_name@;
                let id = choose|id: Seq<char>|
                    ids::is_id(id) && name@ == #[trigger] (names::bundle_stem(folder) + " "@ + id
                        + ".aero"@);
                assert(self.root@ == paths::joined(base@, made_up(folder, id)));
            }
        }
        Ok(BundleStep::Retry)
    }
}

/// The name that is tried at an attempt, before one is made up.
pub open spec fn numbered(folder: Seq<char>, attempt: nat) -> Seq<char> {
    if attempt < 2 {
        folder
    } else {
        names::bundle_stem(folder) + " "@ + crate::text::decimal(attempt) + ".aero"@
    }
}

/// The name that is tried last: with an identifier of its own.
pub open spec fn made_up(folder: Seq<char>, id: Seq<char>) -> Seq<char> {
    names::bundle_stem(folder) + " "@ + id + ".aero"@
}

/// The directories that a project has from the start.
pub fn bundle_directories() -> (r: Vec<String>)
    ensures
        paths::texts(r@) == seq![
            "telemetry"@,
            "media/screen"@,
            "media/webcam"@,
            "media/system"@,
            "media/mic"@,
            "cache"@,
        ],
{
    let mut r: Vec<String> = Vec::new();
    r.push("telemetry".to_owned());
    r.push("media/screen".to_owned());
    r.push("media/webcam".to_owned());
    r.push("media/system".to_owned());
    r.push("media/mic".to_owned());
    r.push("cache".to_owned());
    assert(paths::texts(r@) =~= seq![
        "telemetry"@,
        "media/screen"@,
        "media/webcam"@,
        "media/system"@,
        "media/mic"@,
        "cache"@,
    ]);
    r
}

/// Every attempt tries a directory of its own: two different attempts have different names.
pub proof fn attempts_try_different_names(folder: Seq<char>, a: nat, b: nat)
    requires
        2 <= a,
        2 <= b,
        numbered(folder, a) == numbered(folder, b),
    ensures
        a == b,
{
    let stem = names::bundle_stem(folder);
    let head = stem + " "@;
    let x = crate::text::decimal(a);
    let y = crate::text::decimal(b);
    reveal_strlit(".aero");
    assert(x.len() == y.len()) by {
        assert(numbered(folder, a).len() == head.len() + x.len() + 5);
        assert(numbered(folder, b).len() == head.len() + y.len() + 5);
    }
    assert(x =~= y) by {
        assert forall|i: int| 0 <= i < x.len() implies x[i] == y[i] by {
            assert(numbered(folder, a)[head.len() + i] == x[i]);
            assert(numbered(folder, b)[head.len() + i] == y[i]);
        }
    }
    crate::text::numbers_are_told_apart(a, b);
}

/// The first attempt takes the name of the folder itself.
pub proof fn the_first_attempt_keeps_the_name(folder: Seq<char>)
    ensures
        numbered(folder, 0) == folder,
        numbered(folder, 1) == folder,
{
}

} // verus!
