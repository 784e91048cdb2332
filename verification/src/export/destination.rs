//! Where an export goes: never into a project, and never over a source.
use crate::export;
use crate::export::{default_export_filename, ExportFailure};
use crate::paths;
use crate::text;
use vstd::prelude::*;
use vstd::string::*;

verus! {

/// What the file system calls places: `None` where it knows none.
#[derive(Debug)]
pub struct CanonicalNames {
    pub bundle: Option<String>,
    pub parent: Option<String>,
    pub path: Option<String>,
}

/// Whether one place, where known, lies in another, where known.
pub open spec fn known_in(a: Option<String>, b: Option<String>) -> bool {
    match (a, b) {
        (Some(x), Some(y)) => paths::lies_in(x@, y@),
        _ => false,
    }
}

fn is_known_in(a: &Option<String>, b: &Option<String>) -> (r: bool)
    ensures
        r == known_in(*a, *b),
{
    match (a, b) {
        (Some(x), Some(y)) => paths::starts_with_path(x.as_str(), y.as_str()),
        _ => false,
    }
}

/// Whether a path lies in a bundle: in the given one, whose names the file system
/// gives in `known`, or, by its name, in any.
pub open spec fn inside_bundle(path: Seq<char>, bundle: Option<String>, known: CanonicalNames) -> bool {
    ||| bundle is Some && paths::has_parent_dir(path) && known_in(known.parent, known.bundle)
    ||| bundle is Some && known_in(known.path, known.bundle)
    ||| bundle matches Some(b) && paths::lies_in(path, b@)
    ||| paths::has_parent_dir(path) && paths::has_name_ending(paths::parent_parts(path), ".aero"@)
    ||| text::has_suffix(text::lowered(path), ".aero"@)
}

/// Whether a path lies in a bundle.
pub fn is_inside_bundle(path: &str, bundle_root: &Option<String>, known: &CanonicalNames) -> (r:
    bool)
    ensures
        r == inside_bundle(path@, *bundle_root, *known),
{
    match bundle_root {
        Some(bundle) => {
            if paths::has_parent(path) && is_known_in(&known.parent, &known.bundle) {
                return true;
            }
            if is_known_in(&known.path, &known.bundle) {
                return true;
            }
            if paths::starts_with_path(path, bundle.as_str()) {
                return true;
            }
        },
        None => {},
    }
    if paths::parent_has_name_ending(path, ".aero") {
        return true;
    }
    let low = text::to_ascii_lowercase(path);
    text::ends_with(low.as_str(), ".aero")
}

/// Where an export goes unless another place is asked for: beside the project.
pub fn default_destination(project_parent: &str, project_name: &str) -> (r: String)
    ensures
        r@ == paths::joined(project_parent@, export::export_stem(project_name@) + ".mp4"@),
{
    paths::join(project_parent, default_export_filename(project_name).as_str())
}

/// The place that is asked for, or beside the project.
pub open spec fn wanted(
    requested: Option<String>,
    project_parent: Seq<char>,
    project_name: Seq<char>,
) -> Seq<char> {
    match requested {
        Some(p) if text::trimmed(p@).len() > 0 => p@,
        _ => paths::joined(project_parent, export::export_stem(project_name) + ".mp4"@),
    }
}

/// The place that is asked for, or beside the project.
pub fn choose_destination(
    requested: &Option<String>,
    project_parent: &str,
    project_name: &str,
) -> (r: String)
    ensures
        r@ == wanted(*requested, project_parent@, project_name@),
{
    match requested {
        Some(p) => {
            if !text::trim(p.as_str()).as_str().is_empty() {
                return p.clone();
            }
        },
        None => {},
    }
    default_destination(project_parent, project_name)
}

/// What the file system says of the directory that an export goes to.
#[derive(Debug)]
pub struct ParentLook {
    pub exists: bool,
    pub is_file: bool,
    pub canonical: Result<String, String>,
}

/// Where an export goes: a file in a directory.
#[derive(Debug, PartialEq)]
pub struct Destination {
    pub parent: String,
    pub file_name: String,
}

impl Destination {
    /// The path of the file.
    pub open spec fn path(self) -> Seq<char> {
        paths::joined(self.parent@, self.file_name@)
    }

    /// The path of the file.
    pub fn to_path(&self) -> (r: String)
        ensures
            r@ == self.path(),
    {
        paths::join(self.parent.as_str(), self.file_name.as_str())
    }
}

/// Where an export to `dest` goes, or why it goes nowhere.
pub open spec fn placed(dest: Seq<char>, root: Result<String, String>, look: ParentLook) -> Result<
    (Seq<char>, Seq<char>),
    export::Refusal,
> {
    if root is Err {
        Err(export::Refusal::Io(root->Err_0@))
    } else if dest.len() == 0 {
        Err(export::Refusal::InvalidSettings("Export destination is empty"@))
    } else if !paths::has_parent_dir(dest) {
        Err(export::Refusal::Io("Export destination has no parent directory"@))
    } else if !look.exists {
        Err(export::Refusal::Io("Export destination directory does not exist"@))
    } else if look.is_file {
        Err(export::Refusal::Io("Export destination parent is not a directory"@))
    } else if look.canonical is Err {
        Err(export::Refusal::Io(look.canonical->Err_0@))
    } else {
        match paths::file_name_of(dest) {
            None => Err(export::Refusal::Io("Export destination is missing a file name"@)),
            Some(name) => Ok((look.canonical->Ok_0@, name)),
        }
    }
}

/// Where an export to `dest` goes.
pub fn place_destination(dest: &str, root: &Result<String, String>, look: &ParentLook) -> (r:
    Result<Destination, ExportFailure>)
    ensures
        match r {
            Ok(d) => placed(dest@, *root, *look) == Ok::<(Seq<char>, Seq<char>), export::Refusal>(
                (d.parent@, d.file_name@),
            ),
            Err(e) => placed(dest@, *root, *look) == Err::<
                (Seq<char>, Seq<char>),
                export::Refusal,
            >(e@),
        },
{
    match root {
        Ok(_) => {},
        Err(e) => {
            return Err(ExportFailure::Io { message: e.clone() });
        },
    }
    if dest.is_empty() {
        return Err(
            ExportFailure::InvalidSettings { message: "Export destination is empty".to_owned() },
        );
    }
    if !paths::has_parent(dest) {
        return Err(
            ExportFailure::Io { message: "Export destination has no parent directory".to_owned() },
        );
    }
    if !look.exists {
        return Err(
            ExportFailure::Io { message: "Export destination directory does not exist".to_owned() },
        );
    }
    if look.is_file {
        return Err(
            ExportFailure::Io {
                message: "Export destination parent is not a directory".to_owned(),
            },
        );
    }
    let parent: String = match &look.canonical {
        Ok(p) => p.clone(),
        Err(e) => {
            return Err(ExportFailure::Io { message: e.clone() });
        },
    };
    match paths::file_name(dest) {
        None => Err(
            ExportFailure::Io { message: "Export destination is missing a file name".to_owned() },
        ),
        Some(file_name) => Ok(Destination { parent, file_name }),
    }
}

/// A source of the project: its path, and what the file system calls it.
#[derive(Debug)]
pub struct SourceNames {
    pub path: String,
    pub canonical: Option<String>,
}

/// Whether an export to `path`, which the file system calls `known`, would be written
/// over a source.
pub open spec fn overwrites(s: SourceNames, path: Seq<char>, known: Option<String>) -> bool {
    ||| s.canonical matches Some(a) && known matches Some(b) && paths::parts(a@) == paths::parts(b@)
    ||| paths::parts(s.path@) == paths::parts(path)
}

/// Whether an export would be written over one of the sources.
pub open spec fn overwrites_any(
    sources: Seq<SourceNames>,
    path: Seq<char>,
    known: Option<String>,
) -> bool {
    exists|i: int| 0 <= i < sources.len() && overwrites(#[trigger] sources[i], path, known)
}

/// Why an export cannot go to `path`; `None` when it can.
pub open spec fn destination_refusal(
    path: Seq<char>,
    root: String,
    known: CanonicalNames,
    sources: Seq<SourceNames>,
) -> Option<export::Refusal> {
    if paths::lies_in(path, root@) || inside_bundle(path, Some(root), known) {
        Some(
            export::Refusal::SourcePath(
                "Export destination cannot be inside the project bundle"@,
            ),
        )
    } else if overwrites_any(sources, path, known.path) {
        Some(
            export::Refusal::SourcePath("Export destination cannot overwrite a source track"@),
        )
    } else {
        None
    }
}

fn same_path(a: &str, b: &str) -> (r: bool)
    ensures
        r == (paths::parts(a@) == paths::parts(b@)),
{
    let r: bool = paths::starts_with_path(a, b) && paths::starts_with_path(b, a);
    proof {
        let p = paths::parts(a@);
        let q = paths::parts(b@);
        assert(p.take(p.len() as int) =~= p);
        assert(q.take(q.len() as int) =~= q);
    }
    r
}

/// Checks that an export can go to `path`, in a project at `root`.
pub fn resolve_destination(
    path: &str,
    root: &String,
    known: &CanonicalNames,
    sources: &Vec<SourceNames>,
) -> (r: Result<(), ExportFailure>)
    ensures
        match r {
            Ok(()) => destination_refusal(path@, *root, *known, sources@) is None,
            Err(e) => destination_refusal(path@, *root, *known, sources@) == Some(e@),
        },
{
    let bundle: Option<String> = Some(root.clone());
    if paths::starts_with_path(path, root.as_str()) || is_inside_bundle(path, &bundle, known) {
        return Err(
            ExportFailure::SourcePath {
                message: "Export destination cannot be inside the project bundle".to_owned(),
            },
        );
    }
    let mut i: usize = 0;
    while i < sources.len()
        invariant
            i <= sources@.len(),
            !paths::lies_in(path@, root@),
            !inside_bundle(path@, Some(*root), *known),
            forall|k: int| 0 <= k < i ==> !overwrites(#[trigger] sources@[k], path@, known.path),
        decreases sources@.len() - i,
    {
        let same: bool = match (&sources[i].canonical, &known.path) {
            (Some(a), Some(b)) => same_path(a.as_str(), b.as_str()),
            _ => false,
        };
        if same || same_path(sources[i].path.as_str(), path) {
            assert(overwrites(sources@[i as int], path@, known.path));
            return Err(
                ExportFailure::SourcePath {
                    message: "Export destination cannot overwrite a source track".to_owned(),
                },
            );
        }
        i = i + 1;
    }
    Ok(())
}

/// An accepted destination lies neither in the project, by its own name or the file
/// system's, nor at one of its sources.
pub proof fn accepted_destinations_are_outside(
    path: Seq<char>,
    root: String,
    known: CanonicalNames,
    sources: Seq<SourceNames>,
)
    requires
        destination_refusal(path, root, known, sources) is None,
    ensures
        !paths::lies_in(path, root@),
        !known_in(known.path, known.bundle),
        forall|i: int|
            0 <= i < sources.len() ==> paths::parts((#[trigger] sources[i]).path@) != paths::parts(
                path,
            ),
{
    assert forall|i: int| 0 <= i < sources.len() implies paths::parts(
        (#[trigger] sources[i]).path@,
    ) != paths::parts(path) by {
        assert(!overwrites(sources[i], path, known.path));
    }
}

/// The stem of a file's name: what stands before its extension.
pub open spec fn stem_of(name: Seq<char>) -> Seq<char> {
    match crate::project::layout::last_dot(name) {
        Some(p) if p > 0 => name.take(p),
        _ => name,
    }
}

/// The name of the file that an export is first written to.
pub open spec fn partial_name(file_name: Seq<char>, job_id: Seq<char>) -> Seq<char> {
    "."@ + stem_of(file_name) + "-aeroshoot-partial-"@ + if job_id.len() > 8 {
        job_id.take(8)
    } else {
        job_id
    } + ".mp4"@
}

/// The path of the file that an export is first written to: beside its destination.
pub fn partial_path(d: &Destination, job_id: &str) -> (r: String)
    ensures
        r@ == paths::joined(d.parent@, partial_name(d.file_name@, job_id@)),
{
    let stem = file_stem(d.file_name.as_str());
    let mut name: String = ".".to_owned();
    name.append(stem.as_str());
    name.append("-aeroshoot-partial-");
    let v = text::to_chars(job_id);
    let n: usize = if v.len() > 8 {
        8
    } else {
        v.len()
    };
    let short = text::from_chars(&v, 0, n);
    assert(short@ =~= if job_id@.len() > 8 {
        job_id@.take(8)
    } else {
        job_id@
    });
    name.append(short.as_str());
    name.append(".mp4");
    paths::join(d.parent.as_str(), name.as_str())
}

fn file_stem(name: &str) -> (r: String)
    ensures
        r@ == stem_of(name@),
{
    let v = text::to_chars(name);
    let mut n: usize = v.len();
    assert(v@.take(n as int) =~= v@);
    while n > 0 && v[n - 1] != '.'
        invariant
            n <= v@.len(),
            crate::project::layout::last_dot(v@) == crate::project::layout::last_dot(
                v@.take(n as int),
            ),
        ensures
            n <= v@.len(),
            crate::project::layout::last_dot(v@) == if n > 0 {
                Some(n - 1)
            } else {
                None
            },
        decreases n,
    {
        assert(v@.take(n as int).drop_last() =~= v@.take(n - 1));
        n = n - 1;
    }
    if n > 1 {
        assert(v@.subrange(0, n - 1) =~= name@.take(n - 1));
        text::from_chars(&v, 0, n - 1)
    } else {
        name.to_owned()
    }
}

/// A destination is accepted exactly where it lies outside of the project and is none of its
/// source files, under any of the names that they go by.
pub proof fn destinations_outside_are_accepted(
    path: Seq<char>,
    root: String,
    known: CanonicalNames,
    sources: Seq<SourceNames>,
)
    ensures
        destination_refusal(path, root, known, sources) is None <==> {
            &&& !paths::lies_in(path, root@)
            &&& !(known.path is Some && known.bundle is Some && paths::lies_in(
                known.path->0@,
                known.bundle->0@,
            ))
            &&& !(paths::has_parent_dir(path) && known.parent is Some && known.bundle is Some
                && paths::lies_in(known.parent->0@, known.bundle->0@))
            &&& !(paths::has_parent_dir(path) && paths::has_name_ending(
                paths::parent_parts(path),
                ".aero"@,
            ))
            &&& !text::has_suffix(text::lowered(path), ".aero"@)
            &&& forall|i: int|
                0 <= i < sources.len() ==> paths::parts((#[trigger] sources[i]).path@)
                    != paths::parts(path) && !(sources[i].canonical is Some && known.path is Some
                    && paths::parts(sources[i].canonical->0@) == paths::parts(known.path->0@))
        },
        destination_refusal(path, root, known, sources) matches Some(r) ==> r is SourcePath,
{
    if forall|i: int|
        0 <= i < sources.len() ==> paths::parts((#[trigger] sources[i]).path@) != paths::parts(path)
            && !(sources[i].canonical is Some && known.path is Some && paths::parts(
            sources[i].canonical->0@,
        ) == paths::parts(known.path->0@)) {
        assert(!overwrites_any(sources, path, known.path));
    }
    if !overwrites_any(sources, path, known.path) {
        assert forall|i: int| 0 <= i < sources.len() implies paths::parts(
            (#[trigger] sources[i]).path@,
        ) != paths::parts(path) && !(sources[i].canonical is Some && known.path is Some
            && paths::parts(sources[i].canonical->0@) == paths::parts(known.path->0@)) by {
            assert(!overwrites(sources[i], path, known.path));
        }
    }
}

/// The partial file of a job lies beside the finished one under a hidden name of its own: it
/// is told from the finished file and from those of other jobs.
pub proof fn partial_files_have_their_own_name(file_name: Seq<char>, a: Seq<char>, b: Seq<char>)
    requires
        a.len() >= 8,
        b.len() >= 8,
    ensures
        partial_name(file_name, a)[0] == '.',
        text::has_suffix(partial_name(file_name, a), ".mp4"@),
        partial_name(file_name, a) == partial_name(file_name, b) ==> a.take(8) == b.take(8),
{
    reveal_strlit(".");
    reveal_strlit(".mp4");
    reveal_strlit("-aeroshoot-partial-");
    let head = "."@ + stem_of(file_name) + "-aeroshoot-partial-"@;
    let (p, q) = (partial_name(file_name, a), partial_name(file_name, b));
    assert(a.len() == 8 ==> a.take(8) =~= a);
    assert(b.len() == 8 ==> b.take(8) =~= b);
    assert(p =~= head + a.take(8) + ".mp4"@);
    assert(q =~= head + b.take(8) + ".mp4"@);
    assert(p.skip(p.len() - 4) =~= ".mp4"@);
    assert(p[0] == "."@[0]);
    if p == q {
        assert(a.take(8) =~= b.take(8)) by {
            assert forall|i: int| 0 <= i < 8 implies a.take(8)[i] == b.take(8)[i] by {
                assert(p[head.len() + i] == a.take(8)[i]);
                assert(q[head.len() + i] == b.take(8)[i]);
            }
        }
    }
}

/// A destination that is asked for is taken as it is. Without one, and where it is blank, the
/// file goes beside the project, under the project's name.
pub proof fn asked_destinations_are_taken(
    requested: Option<String>,
    project_parent: Seq<char>,
    project_name: Seq<char>,
)
    ensures
        requested matches Some(p) && text::trimmed(p@).len() > 0 ==> wanted(
            requested,
            project_parent,
            project_name,
        ) == requested->0@,
        requested is None || text::trimmed(requested->0@).len() == 0 ==> wanted(
            requested,
            project_parent,
            project_name,
        ) == paths::joined(project_parent, export::export_stem(project_name) + ".mp4"@),
{
}

/// A destination is placed exactly where the project is known and its directory is one that
/// can be found, under its last part.
pub proof fn destinations_are_placed_in_directories(
    dest: Seq<char>,
    root: Result<String, String>,
    look: ParentLook,
)
    ensures
        placed(dest, root, look) is Ok <==> root is Ok && dest.len() > 0 && paths::has_parent_dir(
            dest,
        ) && look.exists && !look.is_file && look.canonical is Ok && paths::file_name_of(
            dest,
        ) is Some,
        placed(dest, root, look) matches Ok(d) ==> d.0 == look.canonical->Ok_0@ && Some(d.1)
            == paths::file_name_of(dest),
{
}

} // verus!
