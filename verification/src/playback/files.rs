//! The media files that playback holds open: a few, of which the one that was used
//! longest ago is closed first.
use crate::text;
use vstd::prelude::*;
use vstd::string::*;

verus! {

pub const MAX_OPEN_FILES: usize = 8;

/// The open files, the one used last at the end.
#[derive(Debug)]
pub struct OpenFiles {
    paths: Vec<String>,
}

impl View for OpenFiles {
    type V = Seq<Seq<char>>;

    closed spec fn view(&self) -> Seq<Seq<char>> {
        self.paths@.map_values(|p: String| p@)
    }
}

/// Files after one of them was used.
pub open spec fn used(s: Seq<Seq<char>>, path: Seq<char>) -> Seq<Seq<char>> {
    s.remove(s.index_of(path)).push(path)
}

/// Files after another one was opened.
pub open spec fn opened(s: Seq<Seq<char>>, path: Seq<char>) -> Seq<Seq<char>> {
    if s.len() >= MAX_OPEN_FILES {
        s.drop_first().push(path)
    } else {
        s.push(path)
    }
}

impl OpenFiles {
    /// There are few of them, and none twice.
    pub open spec fn wf(&self) -> bool {
        self@.len() <= MAX_OPEN_FILES && self@.no_duplicates()
    }

    /// None is open.
    pub fn new() -> (r: Self)
        ensures
            r@ == Seq::<Seq<char>>::empty(),
            r.wf(),
    {
        let r = OpenFiles { paths: Vec::new() };
        assert(r@ =~= Seq::<Seq<char>>::empty());
        r
    }

    pub fn len(&self) -> (r: usize)
        ensures
            r == self@.len(),
    {
        self.paths.len()
    }

    fn find(&self, path: &str) -> (r: Option<usize>)
        requires
            self.wf(),
        ensures
            match r {
                Some(i) => i < self@.len() && self@[i as int] == path@ && self@.index_of(path@)
                    == i,
                None => !self@.contains(path@),
            },
    {
        let mut i: usize = 0;
        while i < self.paths.len()
            invariant
                i <= self.paths@.len(),
                self@.len() == self.paths@.len(),
                self.wf(),
                forall|k: int| 0 <= k < i ==> #[trigger] self@[k] != path@,
            decreases self.paths@.len() - i,
        {
            assert(self@[i as int] == self.paths@[i as int]@);
            if text::str_eq(self.paths[i].as_str(), path) {
                assert(self@.contains(path@));
                return Some(i);
            }
            i = i + 1;
        }
        None
    }

    /// Uses a file, if it is open.
    pub fn touch(&mut self, path: &str) -> (r: bool)
        requires
            old(self).wf(),
        ensures
            final(self).wf(),
            r == old(self)@.contains(path@),
            final(self)@ == if r {
                used(old(self)@, path@)
            } else {
                old(self)@
            },
    {
        let ghost before = self@;
        match self.find(path) {
            Some(i) => {
                let p: String = self.paths.remove(i);
                self.paths.push(p);
                proof {
                    assert(before.contains(path@));
                    assert(self@ =~= used(before, path@));
                    lemma_used(before, path@);
                }
                true
            },
            None => false,
        }
    }

    /// Notes a file that was opened; gives back the one that is to be closed for it.
    pub fn opened(&mut self, path: String) -> (r: Option<String>)
        requires
            old(self).wf(),
            !old(self)@.contains(path@),
        ensures
            final(self).wf(),
            final(self)@ == opened(old(self)@, path@),
            match r {
                Some(p) => old(self)@.len() >= MAX_OPEN_FILES && p@ == old(self)@[0],
                None => old(self)@.len() < MAX_OPEN_FILES,
            },
    {
        let ghost before = self@;
        let ghost name = path@;
        let mut closed: Option<String> = None;
        if self.paths.len() >= MAX_OPEN_FILES {
            assert(before[0] == self.paths@[0]@);
            closed = Some(self.paths.remove(0));
        }
        self.paths.push(path);
        proof {
            assert(self@ =~= opened(before, name));
            lemma_opened(before, name);
        }
        closed
    }
}

proof fn lemma_used(s: Seq<Seq<char>>, path: Seq<char>)
    requires
        s.no_duplicates(),
        s.contains(path),
    ensures
        used(s, path).no_duplicates(),
        used(s, path).len() == s.len(),
{
    let i = s.index_of(path);
    let r = s.remove(i);
    assert forall|a: int, b: int| 0 <= a < used(s, path).len() && 0 <= b < used(s, path).len()
        && a != b implies used(s, path)[a] != used(s, path)[b] by {
        let x = if a < i {
            a
        } else {
            a + 1
        };
        let y = if b < i {
            b
        } else {
            b + 1
        };
        if a < r.len() {
            assert(r[a] == s[x]);
        }
        if b < r.len() {
            assert(r[b] == s[y]);
        }
    }
}

proof fn lemma_opened(s: Seq<Seq<char>>, path: Seq<char>)
    requires
        s.no_duplicates(),
        !s.contains(path),
        s.len() <= MAX_OPEN_FILES,
    ensures
        opened(s, path).no_duplicates(),
        opened(s, path).len() <= MAX_OPEN_FILES,
{
    let o = opened(s, path);
    let shift: int = if s.len() >= MAX_OPEN_FILES {
        1
    } else {
        0
    };
    assert forall|a: int| 0 <= a < o.len() - 1 implies o[a] == s[a + shift] && o[a] != path by {
        assert(s.contains(s[a + shift]));
    }
}

/// The file that was used last is the last to be closed: opening a new one closes the
/// first of the others.
pub proof fn the_oldest_file_goes_first(s: Seq<Seq<char>>, path: Seq<char>, other: Seq<char>)
    requires
        s.no_duplicates(),
        1 < s.len() <= MAX_OPEN_FILES,
        s.contains(path),
        !s.contains(other),
    ensures
        opened(used(s, path), other).contains(path),
{
    let u = used(s, path);
    lemma_used(s, path);
    assert(u.last() == path);
    let o = opened(u, other);
    assert(o[o.len() - 2] == path);
}

/// A file that is used becomes the last one, and the others keep their order.
pub proof fn used_files_come_last(s: Seq<Seq<char>>, i: int)
    requires
        s.no_duplicates(),
        0 <= i < s.len(),
    ensures
        used(s, s[i]).len() == s.len(),
        used(s, s[i]).last() == s[i],
        forall|k: int| 0 <= k < i ==> #[trigger] used(s, s[i])[k] == s[k],
        forall|k: int| i <= k < s.len() - 1 ==> #[trigger] used(s, s[i])[k] == s[k + 1],
{
    let at = s.index_of(s[i]);
    assert(s.contains(s[i]));
    assert(s[at] == s[i]);
    assert(at == i);
}

/// A file that is opened is the last one. Where too many are open the one that was used
/// longest ago goes, and no other.
pub proof fn opened_files_come_last(s: Seq<Seq<char>>, path: Seq<char>)
    requires
        s.len() <= 8,
    ensures
        opened(s, path).len() <= 8,
        opened(s, path).last() == path,
        s.len() < 8 ==> opened(s, path).drop_last() == s,
        s.len() == 8 ==> opened(s, path).drop_last() == s.skip(1),
{
    if s.len() < 8 {
        assert(opened(s, path).drop_last() =~= s);
    } else {
        assert(opened(s, path).drop_last() =~= s.skip(1));
    }
}

} // verus!
