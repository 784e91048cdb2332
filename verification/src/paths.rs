//! Project-relative paths: their parts, and which of them stay inside a project.
//! The separator is the slash.
use crate::text;
use vstd::prelude::*;
use vstd::string::*;

verus! {

/// The pieces of `s` between slashes; a path without a slash is one piece.
pub open spec fn pieces(s: Seq<char>) -> Seq<Seq<char>>
    decreases s.len(),
{
    if s.len() == 0 {
        seq![Seq::<char>::empty()]
    } else {
        let before = pieces(s.drop_last());
        if s.last() == '/' {
            before.push(Seq::<char>::empty())
        } else {
            before.update(before.len() - 1, before.last().push(s.last()))
        }
    }
}

/// A part of a path.
pub enum Part {
    Root,
    Current,
    Parent,
    Normal(Seq<char>),
}

/// The part that piece `i` stands for. Empty pieces and, but at the start, single
/// dots stand for nothing.
pub open spec fn part_of(piece: Seq<char>, i: int) -> Option<Part> {
    if piece.len() == 0 {
        None
    } else if piece == "."@ {
        if i == 0 {
            Some(Part::Current)
        } else {
            None
        }
    } else if piece == ".."@ {
        Some(Part::Parent)
    } else {
        Some(Part::Normal(piece))
    }
}

/// The parts of the first `n` pieces, added to `known`.
pub open spec fn parts_upto(p: Seq<Seq<char>>, n: int, known: Seq<Part>) -> Seq<Part>
    decreases n,
{
    if n <= 0 {
        known
    } else {
        match part_of(p[n - 1], n - 1) {
            Some(part) => parts_upto(p, n - 1, known).push(part),
            None => parts_upto(p, n - 1, known),
        }
    }
}

/// The parts of a path. A leading slash is its root; repeated and trailing slashes
/// do not count.
pub open spec fn parts(s: Seq<char>) -> Seq<Part> {
    parts_upto(
        pieces(s),
        pieces(s).len() as int,
        if s.len() > 0 && s[0] == '/' {
            seq![Part::Root]
        } else {
            Seq::empty()
        },
    )
}

/// A part of a path, with its name as a string.
#[derive(Debug, PartialEq, Eq)]
pub enum PathPart {
    Root,
    Current,
    Parent,
    Normal(String),
}

impl View for PathPart {
    type V = Part;

    open spec fn view(&self) -> Part {
        match self {
            PathPart::Root => Part::Root,
            PathPart::Current => Part::Current,
            PathPart::Parent => Part::Parent,
            PathPart::Normal(s) => Part::Normal(s@),
        }
    }
}

/// Parts with their names as characters.
pub open spec fn part_views(v: Seq<PathPart>) -> Seq<Part> {
    v.map_values(|p: PathPart| p@)
}

/// Strings as characters.
pub open spec fn texts(v: Seq<String>) -> Seq<Seq<char>> {
    v.map_values(|s: String| s@)
}

fn split(s: &str) -> (v: Vec<String>)
    ensures
        texts(v@) == pieces(s@),
{
    let chars = text::to_chars(s);
    let mut done: Vec<String> = Vec::new();
    let mut piece: String = String::new();
    let mut i: usize = 0;
    assert(s@.take(0) =~= Seq::<char>::empty());
    assert(texts(done@).push(piece@) =~= pieces(s@.take(0)));
    while i < chars.len()
        invariant
            i <= chars@.len(),
            chars@ == s@,
            texts(done@).push(piece@) == pieces(s@.take(i as int)),
        decreases chars@.len() - i,
    {
        let c: char = chars[i];
        let ghost known = pieces(s@.take(i as int));
        proof {
            assert(s@.take(i + 1).drop_last() =~= s@.take(i as int));
            assert(s@.take(i + 1).last() == c);
        }
        if c == '/' {
            let ghost d = texts(done@);
            done.push(piece);
            piece = String::new();
            assert(texts(done@) =~= known);
        } else {
            let ghost p = piece@;
            piece.push(c);
            assert(texts(done@).push(piece@) =~= known.update(known.len() - 1, p.push(c)));
        }
        i = i + 1;
    }
    done.push(piece);
    assert(s@.take(s@.len() as int) =~= s@);
    assert(texts(done@) =~= pieces(s@));
    done
}

/// The parts of a path.
pub fn components(s: &str) -> (v: Vec<PathPart>)
    ensures
        part_views(v@) == parts(s@),
{
    let split_pieces = split(s);
    let chars = text::to_chars(s);
    let mut v: Vec<PathPart> = Vec::new();
    if chars.len() > 0 && chars[0] == '/' {
        v.push(PathPart::Root);
    }
    let ghost known = part_views(v@);
    proof {
        if s@.len() > 0 && s@[0] == '/' {
            assert(known =~= seq![Part::Root]);
        } else {
            assert(known =~= Seq::<Part>::empty());
        }
    }
    let mut i: usize = 0;
    while i < split_pieces.len()
        invariant
            i <= split_pieces@.len(),
            texts(split_pieces@) == pieces(s@),
            part_views(v@) == parts_upto(pieces(s@), i as int, known),
        decreases split_pieces@.len() - i,
    {
        let piece: &String = &split_pieces[i];
        assert(piece@ == pieces(s@)[i as int]);
        let ghost before = part_views(v@);
        if piece.as_str().is_empty() {
        } else if text::str_eq(piece.as_str(), ".") {
            if i == 0 {
                v.push(PathPart::Current);
                assert(part_views(v@) =~= before.push(Part::Current));
            }
        } else if text::str_eq(piece.as_str(), "..") {
            v.push(PathPart::Parent);
            assert(part_views(v@) =~= before.push(Part::Parent));
        } else {
            v.push(PathPart::Normal(piece.clone()));
            assert(part_views(v@) =~= before.push(Part::Normal(piece@)));
        }
        i = i + 1;
    }
    v
}

/// Whether a path starts at the root.
pub open spec fn absolute(s: Seq<char>) -> bool {
    s.len() > 0 && s[0] == '/'
}

/// Whether some part of a path is its parent directory.
pub open spec fn climbs(s: Seq<char>) -> bool {
    exists|i: int| 0 <= i < parts(s).len() && #[trigger] parts(s)[i] == Part::Parent
}

/// Whether a path starts at the root.
pub fn is_absolute(s: &str) -> (r: bool)
    ensures
        r == absolute(s@),
{
    let chars = text::to_chars(s);
    chars.len() > 0 && chars[0] == '/'
}

/// Whether some part of a path is its parent directory.
pub fn has_parent_part(s: &str) -> (r: bool)
    ensures
        r == climbs(s@),
{
    let v = components(s);
    let mut i: usize = 0;
    while i < v.len()
        invariant
            i <= v@.len(),
            part_views(v@) == parts(s@),
            forall|k: int| 0 <= k < i ==> #[trigger] parts(s@)[k] != Part::Parent,
        decreases v@.len() - i,
    {
        assert(parts(s@)[i as int] == v@[i as int]@);
        if matches!(v[i], PathPart::Parent) {
            return true;
        }
        i = i + 1;
    }
    false
}

/// What the file system says of a path: of one of its prefixes, below the project's
/// root.
#[derive(Debug, PartialEq, Eq)]
pub enum PathProbe {
    /// Something other than a symbolic link.
    Present,
    Missing,
    Symlink,
    /// It could not be looked at, and why.
    Failed(String),
}

/// Whether `c` occurs in `s`.
pub open spec fn has_char(s: Seq<char>, c: char) -> bool {
    s.contains(c)
}

/// Whether `c` occurs in `s`.
pub fn contains_char(s: &str, c: char) -> (r: bool)
    ensures
        r == has_char(s@, c),
{
    let chars = text::to_chars(s);
    let mut i: usize = 0;
    while i < chars.len()
        invariant
            i <= chars@.len(),
            chars@ == s@,
            forall|k: int| 0 <= k < i ==> s@[k] != c,
        decreases chars@.len() - i,
    {
        if chars[i] == c {
            assert(s@[i as int] == c);
            return true;
        }
        i = i + 1;
    }
    false
}

/// Why the parts from `i` on do not lead to a place inside the project; `None` when
/// they do. Part `i` has been looked at in `probes[i]`.
pub open spec fn walk_fault(p: Seq<Part>, probes: Seq<PathProbe>, i: int) -> Option<Seq<char>>
    decreases p.len() - i,
{
    if i >= p.len() {
        None
    } else if !(p[i] is Normal) {
        Some("Unsafe project-relative path"@)
    } else {
        match probes[i] {
            PathProbe::Symlink => Some("Symlink in project path"@),
            PathProbe::Failed(e) => Some(e@),
            _ => walk_fault(p, probes, i + 1),
        }
    }
}

/// Why a relative path cannot be used in a project; `None` when it can.
pub open spec fn path_fault(s: Seq<char>, probes: Seq<PathProbe>) -> Option<Seq<char>> {
    if s.len() == 0 || has_char(s, '\\') || has_char(s, ':') {
        Some("Invalid project-relative path"@)
    } else {
        walk_fault(parts(s), probes, 0)
    }
}

/// Checks that a relative path leads, part by part and without symbolic links, to a
/// place inside the project. There is a probe for each part that is a plain name,
/// up to the first that is not.
pub fn safe_path(relative: &str, probes: &Vec<PathProbe>) -> (r: Result<(), String>)
    requires
        parts(relative@).len() <= probes@.len(),
    ensures
        match r {
            Ok(()) => path_fault(relative@, probes@) is None,
            Err(e) => path_fault(relative@, probes@) == Some(e@),
        },
{
    if relative.is_empty() || contains_char(relative, '\\') || contains_char(relative, ':') {
        return Err("Invalid project-relative path".to_owned());
    }
    let v = components(relative);
    let ghost p = parts(relative@);
    let mut i: usize = 0;
    while i < v.len()
        invariant
            i <= v@.len() == p.len() <= probes@.len(),
            p == part_views(v@),
            walk_fault(p, probes@, 0) == walk_fault(p, probes@, i as int),
            p == parts(relative@),
            relative@.len() > 0,
            !has_char(relative@, '\\'),
            !has_char(relative@, ':'),
        decreases v@.len() - i,
    {
        assert(p[i as int] == v@[i as int]@);
        if !matches!(v[i], PathPart::Normal(_)) {
            return Err("Unsafe project-relative path".to_owned());
        }
        match &probes[i] {
            PathProbe::Symlink => {
                return Err("Symlink in project path".to_owned());
            },
            PathProbe::Failed(e) => {
                return Err(e.clone());
            },
            _ => {},
        }
        i = i + 1;
    }
    Ok(())
}

/// A path that may be used in a project consists of plain names: it does not start
/// at the root and does not climb out.
pub proof fn usable_paths_stay_inside(s: Seq<char>, probes: Seq<PathProbe>)
    requires
        path_fault(s, probes) is None,
    ensures
        !absolute(s),
        !climbs(s),
        forall|i: int| 0 <= i < parts(s).len() ==> #[trigger] parts(s)[i] is Normal,
{
    lemma_walk_normal(parts(s), probes, 0);
    if absolute(s) {
        lemma_first_kept(pieces(s), pieces(s).len() as int, seq![Part::Root]);
        assert(parts(s)[0] == Part::Root);
    }
}

proof fn lemma_walk_normal(p: Seq<Part>, probes: Seq<PathProbe>, i: int)
    requires
        walk_fault(p, probes, i) is None,
        0 <= i,
    ensures
        forall|k: int| i <= k < p.len() ==> #[trigger] p[k] is Normal,
    decreases p.len() - i,
{
    if i < p.len() {
        lemma_walk_normal(p, probes, i + 1);
    }
}

proof fn lemma_first_kept(p: Seq<Seq<char>>, n: int, known: Seq<Part>)
    requires
        known.len() > 0,
    ensures
        parts_upto(p, n, known).len() >= known.len(),
        parts_upto(p, n, known)[0] == known[0],
    decreases n,
{
    if n > 0 {
        lemma_first_kept(p, n - 1, known);
    }
}

/// Whether an identifier names a directory of its own: not empty, no dots alone, no
/// separators, drives or zero characters.
pub open spec fn safe_id(id: Seq<char>) -> bool {
    &&& id.len() > 0
    &&& id != "."@
    &&& id != ".."@
    &&& !has_char(id, '/')
    &&& !has_char(id, '\\')
    &&& !has_char(id, '\0')
    &&& !has_char(id, ':')
}

/// Whether an identifier names a directory of its own.
pub fn is_safe_track_id(id: &str) -> (r: bool)
    ensures
        r == safe_id(id@),
{
    !id.is_empty() && !text::str_eq(id, ".") && !text::str_eq(id, "..") && !contains_char(id, '/')
        && !contains_char(id, '\\') && !contains_char(id, '\0') && !contains_char(id, ':')
}

/// The directory of a track's media.
pub open spec fn media_dir(id: Seq<char>) -> Seq<Part> {
    seq![Part::Normal("media"@), Part::Normal(id)]
}

/// The directory of a track's media, as a path.
pub fn track_media_dir(track_id: &str) -> (r: Result<String, String>)
    ensures
        match r {
            Ok(dir) => safe_id(track_id@) && dir@ == "media/"@ + track_id@,
            Err(e) => !safe_id(track_id@) && e@ == "Invalid track ID"@,
        },
{
    if !is_safe_track_id(track_id) {
        return Err("Invalid track ID".to_owned());
    }
    let mut dir: String = "media/".to_owned();
    dir.append(track_id);
    Ok(dir)
}

/// Why a path is not that of a segment of the track; `None` when it is: below the
/// track's directory.
pub open spec fn belonging_fault(id: Seq<char>, path: Seq<char>) -> Option<Seq<char>> {
    if !safe_id(id) {
        Some("Invalid track ID"@)
    } else if parts(path).len() > 2 && parts(path).take(2) == media_dir(id) {
        None
    } else {
        Some("Segment is outside its track directory"@)
    }
}

/// Checks that a path is that of a segment of the track.
pub fn segment_belongs_to_track(track_id: &str, relative_path: &str) -> (r: Result<(), String>)
    ensures
        match r {
            Ok(()) => belonging_fault(track_id@, relative_path@) is None,
            Err(e) => belonging_fault(track_id@, relative_path@) == Some(e@),
        },
{
    if !is_safe_track_id(track_id) {
        return Err("Invalid track ID".to_owned());
    }
    let v = components(relative_path);
    let ghost p = parts(relative_path@);
    if v.len() > 2 {
        assert(p[0] == v@[0]@ && p[1] == v@[1]@);
        let first: bool = match &v[0] {
            PathPart::Normal(s) => text::str_eq(s.as_str(), "media"),
            _ => false,
        };
        let second: bool = match &v[1] {
            PathPart::Normal(s) => text::str_eq(s.as_str(), track_id),
            _ => false,
        };
        proof {
            if first && second {
                assert(p.take(2) =~= media_dir(track_id@));
            } else if p.take(2) == media_dir(track_id@) {
                assert(p.take(2)[0] == p[0] && p.take(2)[1] == p[1]);
            }
        }
        if first && second {
            return Ok(());
        }
    }
    Err("Segment is outside its track directory".to_owned())
}

/// Whether `path` lies at or below `root`, part by part.
pub open spec fn lies_in(path: Seq<char>, root: Seq<char>) -> bool {
    parts(root).len() <= parts(path).len() && parts(path).take(parts(root).len() as int) == parts(
        root,
    )
}

fn same_part(a: &PathPart, b: &PathPart) -> (r: bool)
    ensures
        r == (a@ == b@),
{
    match (a, b) {
        (PathPart::Root, PathPart::Root) => true,
        (PathPart::Current, PathPart::Current) => true,
        (PathPart::Parent, PathPart::Parent) => true,
        (PathPart::Normal(x), PathPart::Normal(y)) => text::str_eq(x.as_str(), y.as_str()),
        _ => false,
    }
}

/// Whether `path` lies at or below `root`, part by part.
pub fn starts_with_path(path: &str, root: &str) -> (r: bool)
    ensures
        r == lies_in(path@, root@),
{
    let p = components(path);
    let q = components(root);
    if q.len() > p.len() {
        return false;
    }
    let mut i: usize = 0;
    while i < q.len()
        invariant
            i <= q@.len() <= p@.len(),
            part_views(p@) == parts(path@),
            part_views(q@) == parts(root@),
            forall|k: int| 0 <= k < i ==> parts(path@)[k] == #[trigger] parts(root@)[k],
        decreases q@.len() - i,
    {
        assert(parts(path@)[i as int] == p@[i as int]@);
        assert(parts(root@)[i as int] == q@[i as int]@);
        if !same_part(&p[i], &q[i]) {
            assert(parts(path@).take(parts(root@).len() as int)[i as int] != parts(root@)[i as int]);
            return false;
        }
        i = i + 1;
    }
    assert(parts(path@).take(parts(root@).len() as int) =~= parts(root@));
    true
}

/// Whether a text is one plain name in a path.
pub open spec fn plain_name(s: Seq<char>) -> bool {
    s.len() > 0 && s != "."@ && s != ".."@ && !has_char(s, '/')
}

/// The last part of a path, when it is a plain name.
pub open spec fn file_name_of(s: Seq<char>) -> Option<Seq<char>> {
    let p = parts(s);
    if p.len() > 0 && p.last() is Normal {
        Some(p.last()->Normal_0)
    } else {
        None
    }
}

/// The last part of a path, when it is a plain name.
pub fn file_name(s: &str) -> (r: Option<String>)
    ensures
        match r {
            Some(name) => file_name_of(s@) == Some(name@),
            None => file_name_of(s@) is None,
        },
{
    let v = components(s);
    let n: usize = v.len();
    assert(n == parts(s@).len());
    if n == 0 {
        return None;
    }
    assert(parts(s@).last() == v@[n - 1]@);
    match &v[n - 1] {
        PathPart::Normal(name) => Some(name.clone()),
        _ => None,
    }
}

proof fn lemma_pieces_join(a: Seq<char>, b: Seq<char>)
    requires
        !has_char(b, '/'),
    ensures
        pieces(a.push('/') + b) == pieces(a).push(b),
    decreases b.len(),
{
    let s = a.push('/') + b;
    if b.len() == 0 {
        assert(s =~= a.push('/'));
        assert(s.drop_last() =~= a);
        assert(b =~= Seq::<char>::empty());
    } else {
        let c = b.drop_last();
        assert forall|i: int| 0 <= i < c.len() implies c[i] != '/' by {
            assert(b[i] == c[i]);
            assert(has_char(b, b[i]));
        }
        lemma_pieces_join(a, c);
        assert(s.drop_last() =~= a.push('/') + c);
        assert(s.last() == b.last());
        assert(has_char(b, b.last()));
        assert(c.push(b.last()) =~= b);
        assert(pieces(s) =~= pieces(a).push(b));
    }
}

proof fn lemma_pieces_plain(s: Seq<char>)
    requires
        !has_char(s, '/'),
    ensures
        pieces(s) == seq![s],
    decreases s.len(),
{
    if s.len() == 0 {
        assert(s =~= Seq::<char>::empty());
    } else {
        let c = s.drop_last();
        assert forall|i: int| 0 <= i < c.len() implies c[i] != '/' by {
            assert(has_char(s, s[i]));
        }
        lemma_pieces_plain(c);
        assert(has_char(s, s.last()));
        assert(c.push(s.last()) =~= s);
        assert(pieces(s) =~= seq![s]);
    }
}

proof fn lemma_parts_upto_same(p: Seq<Seq<char>>, q: Seq<Seq<char>>, n: int, known: Seq<Part>)
    requires
        n <= p.len(),
        n <= q.len(),
        forall|i: int| 0 <= i < n ==> p[i] == q[i],
    ensures
        parts_upto(p, n, known) == parts_upto(q, n, known),
    decreases n,
{
    if n > 0 {
        lemma_parts_upto_same(p, q, n - 1, known);
    }
}

/// A plain name is a path of one part.
pub proof fn a_plain_name_is_one_part(s: Seq<char>)
    requires
        plain_name(s),
    ensures
        parts(s) == seq![Part::Normal(s)],
{
    lemma_pieces_plain(s);
    assert(has_char(s, s[0]));
    assert(parts_upto(pieces(s), 0, Seq::empty()) =~= Seq::<Part>::empty());
    assert(parts(s) =~= seq![Part::Normal(s)]);
}

/// A plain name behind a slash adds one part to the path before it.
pub proof fn joining_a_name_adds_a_part(a: Seq<char>, b: Seq<char>)
    requires
        a.len() > 0,
        plain_name(b),
    ensures
        parts(a.push('/') + b) == parts(a).push(Part::Normal(b)),
{
    let s = a.push('/') + b;
    lemma_pieces_join(a, b);
    let n = pieces(a).len() as int;
    let known = if a[0] == '/' {
        seq![Part::Root]
    } else {
        Seq::<Part>::empty()
    };
    assert(s[0] == a[0]);
    lemma_pieces_nonempty(a);
    lemma_parts_upto_same(pieces(s), pieces(a), n, known);
    assert(pieces(s)[n] == b);
}

proof fn lemma_pieces_nonempty(s: Seq<char>)
    ensures
        pieces(s).len() > 0,
    decreases s.len(),
{
    if s.len() > 0 {
        lemma_pieces_nonempty(s.drop_last());
    }
}

proof fn lemma_pieces_concat(a: Seq<char>, b: Seq<char>)
    ensures
        pieces(a.push('/') + b) == pieces(a) + pieces(b),
    decreases b.len(),
{
    let s = a.push('/') + b;
    if b.len() == 0 {
        assert(s =~= a.push('/'));
        assert(s.drop_last() =~= a);
        assert(pieces(s) =~= pieces(a) + pieces(b));
    } else {
        let c = b.drop_last();
        lemma_pieces_concat(a, c);
        lemma_pieces_nonempty(c);
        assert(s.drop_last() =~= a.push('/') + c);
        assert(s.last() == b.last());
        assert(pieces(s) =~= pieces(a) + pieces(b));
    }
}

/// A piece of two dots is a part that climbs.
proof fn lemma_piece_climbs(p: Seq<Seq<char>>, n: int, known: Seq<Part>, j: int) -> (k: int)
    requires
        0 <= j < n <= p.len(),
        part_of(p[j], j) == Some(Part::Parent),
    ensures
        0 <= k < parts_upto(p, n, known).len(),
        parts_upto(p, n, known)[k] == Part::Parent,
    decreases n,
{
    if j == n - 1 {
        parts_upto(p, n - 1, known).len() as int
    } else {
        lemma_piece_climbs(p, n - 1, known, j)
    }
}

/// The parts of the first `m` pieces go on from those of the first `n`, and climb only
/// where a piece does.
proof fn lemma_parts_go_on(p: Seq<Seq<char>>, n: int, m: int, known: Seq<Part>)
    requires
        0 <= n <= m <= p.len(),
        forall|j: int| n <= j < m ==> part_of(#[trigger] p[j], j) != Some(Part::Parent),
    ensures
        ({
            let before = parts_upto(p, n, known);
            let after = parts_upto(p, m, known);
            &&& before.len() <= after.len()
            &&& after.take(before.len() as int) == before
            &&& forall|i: int|
                before.len() <= i < after.len() ==> #[trigger] after[i] != Part::Parent
        }),
    decreases m,
{
    let before = parts_upto(p, n, known);
    let after = parts_upto(p, m, known);
    if n == m {
        assert(after.take(before.len() as int) =~= before);
    } else {
        lemma_parts_go_on(p, n, m - 1, known);
        let mid = parts_upto(p, m - 1, known);
        assert(p[m - 1] == p[m - 1]);
        assert(after.take(before.len() as int) =~= mid.take(before.len() as int));
    }
}

/// A relative path that does not climb stays below the path that it is joined to.
pub proof fn joined_paths_stay_below(root: Seq<char>, relative: Seq<char>)
    requires
        root.len() > 0,
        !absolute(relative),
        !climbs(relative),
    ensures
        lies_in(joined(root, relative), root),
        forall|i: int|
            parts(root).len() <= i < parts(joined(root, relative)).len() ==> #[trigger] parts(
                joined(root, relative),
            )[i] != Part::Parent,
{
    let s = joined(root, relative);
    let base = if root.last() == '/' {
        root.drop_last()
    } else {
        root
    };
    let known = if root[0] == '/' {
        seq![Part::Root]
    } else {
        Seq::<Part>::empty()
    };
    let n = pieces(base).len() as int;
    let q = pieces(relative);
    lemma_pieces_concat(base, relative);
    lemma_pieces_nonempty(base);
    assert(s =~= base.push('/') + relative);
    let p = pieces(s);
    assert(p == pieces(base) + q);
    assert(s[0] == root[0]);
    lemma_parts_upto_same(p, pieces(base), n, known);
    assert(parts(root) == parts_upto(p, n, known)) by {
        if root.last() == '/' {
            assert(pieces(root) == pieces(base).push(Seq::<char>::empty()));
            lemma_parts_upto_same(pieces(root), pieces(base), n, known);
        }
    }
    assert forall|j: int| n <= j < p.len() implies part_of(#[trigger] p[j], j) != Some(
        Part::Parent,
    ) by {
        assert(p[j] == q[j - n]);
        if part_of(p[j], j) == Some(Part::Parent) {
            assert(part_of(q[j - n], j - n) == Some(Part::Parent));
            let k = lemma_piece_climbs(q, q.len() as int, Seq::empty(), j - n);
            assert(parts(relative)[k] == Part::Parent);
        }
    }
    lemma_parts_go_on(p, n, p.len() as int, known);
}

/// A path as `Debug` prints it, quoted and escaped.
pub uninterp spec fn path_debug(s: Seq<char>) -> Seq<char>;

/// Formatting a `std::path::Path` with `{:?}` quotes and escapes it. Which
/// characters are escaped, and how, is left to the standard library.
#[verifier::external_body]
pub(crate) fn debug_path(s: &str) -> (t: String)
    ensures
        t@ == path_debug(s@),
{
    format!("{:?}", std::path::Path::new(s))
}

/// A path below another one.
pub open spec fn joined(a: Seq<char>, b: Seq<char>) -> Seq<char> {
    if absolute(b) || a.len() == 0 {
        b
    } else if a.last() == '/' {
        a + b
    } else {
        a.push('/') + b
    }
}

/// A path below another one.
pub fn join(a: &str, b: &str) -> (r: String)
    ensures
        r@ == joined(a@, b@),
{
    if is_absolute(b) || a.is_empty() {
        return b.to_owned();
    }
    let v = text::to_chars(a);
    let mut r: String = a.to_owned();
    if v[v.len() - 1] != '/' {
        r.push('/');
    }
    r.append(b);
    assert(r@ =~= joined(a@, b@));
    r
}

/// Whether a path has a parent: it is not empty and no root.
pub open spec fn has_parent_dir(s: Seq<char>) -> bool {
    parts(s).len() > 0 && !(parts(s).last() is Root)
}

/// The parts of a path's parent.
pub open spec fn parent_parts(s: Seq<char>) -> Seq<Part> {
    parts(s).drop_last()
}

/// Whether a path has a parent: it is not empty and no root.
pub fn has_parent(s: &str) -> (r: bool)
    ensures
        r == has_parent_dir(s@),
{
    let v = components(s);
    let n: usize = v.len();
    assert(n == parts(s@).len());
    if n == 0 {
        return false;
    }
    assert(parts(s@).last() == v@[n - 1]@);
    match &v[n - 1] {
        PathPart::Root => false,
        _ => true,
    }
}

/// Whether some part is a name that ends, in any case, with `end`.
pub open spec fn has_name_ending(p: Seq<Part>, end: Seq<char>) -> bool {
    exists|i: int|
        0 <= i < p.len() && (#[trigger] p[i] matches Part::Normal(n) && text::has_suffix(
            text::lowered(n),
            end,
        ))
}

/// Whether some part of a path's parent is a name that ends, in any case, with
/// `end`.
pub fn parent_has_name_ending(s: &str, end: &str) -> (r: bool)
    ensures
        r == (has_parent_dir(s@) && has_name_ending(parent_parts(s@), end@)),
{
    if !has_parent(s) {
        return false;
    }
    let v = components(s);
    let ghost p = parts(s@);
    let n: usize = v.len() - 1;
    let mut i: usize = 0;
    while i < n
        invariant
            i <= n,
            n + 1 == v@.len() == p.len(),
            p == part_views(v@),
            p == parts(s@),
            has_parent_dir(s@),
            forall|k: int|
                0 <= k < i ==> !(#[trigger] p[k] matches Part::Normal(x) && text::has_suffix(
                    text::lowered(x),
                    end@,
                )),
        decreases n - i,
    {
        assert(p[i as int] == v@[i as int]@);
        assert(p.drop_last()[i as int] == p[i as int]);
        match &v[i] {
            PathPart::Normal(name) => {
                let low = text::to_ascii_lowercase(name.as_str());
                if text::ends_with(low.as_str(), end) {
                    assert(p.drop_last()[i as int] matches Part::Normal(x) && text::has_suffix(
                        text::lowered(x),
                        end@,
                    ));
                    return true;
                }
            },
            _ => {},
        }
        i = i + 1;
    }
    proof {
        let q = p.drop_last();
        assert forall|k: int| 0 <= k < q.len() implies !(#[trigger] q[k] matches Part::Normal(x)
            && text::has_suffix(text::lowered(x), end@)) by {
            assert(q[k] == p[k]);
        }
    }
    false
}

/// A name that is joined to a directory lies in it, as its last part.
pub proof fn joined_names_lie_in_their_directory(a: Seq<char>, b: Seq<char>)
    requires
        a.len() > 0,
        a.last() != '/',
        plain_name(b),
    ensures
        parts(joined(a, b)) == parts(a).push(Part::Normal(b)),
        file_name_of(joined(a, b)) == Some(b),
        lies_in(joined(a, b), a),
        parent_parts(joined(a, b)) == parts(a),
        has_parent_dir(joined(a, b)),
{
    assert(!absolute(b)) by {
        if absolute(b) {
            assert(b.contains(b[0]));
        }
    }
    joining_a_name_adds_a_part(a, b);
    assert(parts(a).push(Part::Normal(b)).take(parts(a).len() as int) =~= parts(a));
    assert(parts(a).push(Part::Normal(b)).drop_last() =~= parts(a));
}

/// A path that starts at the root stays as it is, whatever it is joined to.
pub proof fn absolute_paths_stay(a: Seq<char>, b: Seq<char>)
    requires
        b.len() > 0,
        b[0] == '/',
    ensures
        joined(a, b) == b,
{
}

proof fn lemma_walk(p: Seq<Part>, probes: Seq<PathProbe>, i: int)
    requires
        0 <= i,
    ensures
        walk_fault(p, probes, i) is None <==> forall|k: int|
            i <= k < p.len() ==> (#[trigger] p[k]) is Normal && !(probes[k] is Symlink) && !(
            probes[k] is Failed),
    decreases p.len() - i,
{
    if i < p.len() {
        lemma_walk(p, probes, i + 1);
        if p[i] is Normal && !(probes[i] is Symlink) && !(probes[i] is Failed) {
            assert(walk_fault(p, probes, i) == walk_fault(p, probes, i + 1));
            if walk_fault(p, probes, i + 1) is None {
                assert forall|k: int| i <= k < p.len() implies (#[trigger] p[k]) is Normal && !(
                probes[k] is Symlink) && !(probes[k] is Failed) by {
                    if k > i {
                        assert(p[k] is Normal);
                    }
                }
            }
        } else {
            assert(walk_fault(p, probes, i) is Some);
        }
    }
}

/// A path can be used exactly where it is written plainly and none of its parts leads up, is a
/// link or cannot be looked at.
pub proof fn plain_paths_can_be_used(s: Seq<char>, probes: Seq<PathProbe>)
    ensures
        path_fault(s, probes) is None <==> s.len() > 0 && !s.contains('\\') && !s.contains(':')
            && forall|k: int|
            0 <= k < parts(s).len() ==> (#[trigger] parts(s)[k]) is Normal && !(
            probes[k] is Symlink) && !(probes[k] is Failed),
{
    lemma_walk(parts(s), probes, 0);
}

} // verus!
