//! Who may write to a project.
use crate::paths;
use crate::text;
use crate::zoom::contains_text;
use vstd::prelude::*;
use vstd::string::*;

verus! {

/// Why a project could not be locked.
#[derive(Debug, PartialEq)]
pub enum LockError {
    Io(String),
    AlreadyLocked { pid: u32 },
}

impl LockError {
    /// The message for people.
    pub open spec fn text(self) -> Seq<char> {
        match self {
            LockError::Io(e) => "IO error: "@ + e@,
            LockError::AlreadyLocked { pid } => "Project is locked by another writer (PID: "@
                + text::decimal(pid as nat) + ")"@,
        }
    }

    /// The message for people.
    pub fn message(&self) -> (t: String)
        ensures
            t@ == self.text(),
    {
        match self {
            LockError::Io(e) => {
                let mut t: String = "IO error: ".to_owned();
                t.append(e.as_str());
                t
            },
            LockError::AlreadyLocked { pid } => {
                let mut t: String = "Project is locked by another writer (PID: ".to_owned();
                text::push_decimal(&mut t, *pid as u64);
                t.append(")");
                t
            },
        }
    }
}

/// The process that a lock file names; zero when it names none.
pub fn lock_holder(content: &str) -> (pid: u32)
    ensures
        pid == text::number_of(text::trimmed(content@), u32::MAX).unwrap_or(0),
{
    let t = text::trim(content);
    match text::parse_number(t.as_str(), u32::MAX) {
        Some(n) => n,
        None => 0,
    }
}

/// The projects that this process has locked.
#[derive(Debug)]
pub struct LockRegistry {
    held: Vec<String>,
}

impl View for LockRegistry {
    type V = Seq<Seq<char>>;

    closed spec fn view(&self) -> Seq<Seq<char>> {
        paths::texts(self.held@)
    }
}

impl LockRegistry {
    /// No project is held twice.
    pub open spec fn wf(&self) -> bool {
        forall|i: int, j: int| 0 <= i < j < self@.len() ==> #[trigger] self@[i] != #[trigger] self@[j]
    }

    pub fn new() -> (r: LockRegistry)
        ensures
            r.wf(),
            r@ == Seq::<Seq<char>>::empty(),
    {
        let r = LockRegistry { held: Vec::new() };
        assert(r@ =~= Seq::<Seq<char>>::empty());
        r
    }

    /// Takes a project for this process, whose number is `pid`.
    pub fn acquire(&mut self, dir: &str, pid: u32) -> (r: Result<(), LockError>)
        requires
            old(self).wf(),
        ensures
            final(self).wf(),
            match r {
                Ok(()) => !old(self)@.contains(dir@) && final(self)@ == old(self)@.push(dir@),
                Err(e) => old(self)@.contains(dir@) && *final(self) == *old(self) && e
                    == (LockError::AlreadyLocked { pid }),
            },
    {
        if contains_text(&self.held, dir) {
            return Err(LockError::AlreadyLocked { pid });
        }
        let ghost before = self@;
        self.held.push(dir.to_owned());
        assert(self@ =~= before.push(dir@));
        assert forall|i: int, j: int| 0 <= i < j < self@.len() implies #[trigger] self@[i]
            != #[trigger] self@[j] by {
            if j == before.len() {
                assert(before.contains(before[i]));
            }
        }
        Ok(())
    }

    /// Gives a project back.
    pub fn release(&mut self, dir: &str)
        requires
            old(self).wf(),
        ensures
            final(self).wf(),
            !final(self)@.contains(dir@),
            forall|d: Seq<char>|
                d != dir@ ==> (#[trigger] final(self)@.contains(d) <==> old(self)@.contains(d)),
    {
        let ghost before = self@;
        let mut i: usize = 0;
        while i < self.held.len()
            invariant
                i <= self.held@.len(),
                self@ == before,
                *self == *old(self),
                self.wf(),
                forall|k: int| 0 <= k < i ==> #[trigger] self@[k] != dir@,
            decreases self.held@.len() - i,
        {
            assert(self@[i as int] == self.held@[i as int]@);
            if text::str_eq(self.held[i].as_str(), dir) {
                let _ = self.held.remove(i);
                proof {
                    let after = self@;
                    assert(after =~= before.remove(i as int));
                    assert forall|k: int| 0 <= k < after.len() implies #[trigger] after[k]
                        != dir@ by {
                        if k < i {
                            assert(after[k] == before[k]);
                        } else {
                            assert(after[k] == before[k + 1]);
                        }
                    }
                    assert forall|a: int, b: int| 0 <= a < b < after.len() implies #[trigger] after[a]
                        != #[trigger] after[b] by {
                        let x = if a < i {
                            a
                        } else {
                            a + 1
                        };
                        let y = if b < i {
                            b
                        } else {
                            b + 1
                        };
                        assert(before[x] != before[y]);
                    }
                    assert forall|d: Seq<char>| d != dir@ implies (#[trigger] after.contains(d)
                        <==> before.contains(d)) by {
                        if before.contains(d) {
                            let k = choose|k: int| 0 <= k < before.len() && before[k] == d;
                            assert(k != i);
                            assert(after[if k < i {
                                k
                            } else {
                                k - 1
                            }] == d);
                        }
                        if after.contains(d) {
                            let k = choose|k: int| 0 <= k < after.len() && after[k] == d;
                            assert(before[if k < i {
                                k
                            } else {
                                k + 1
                            }] == d);
                        }
                    }
                }
                return;
            }
            i = i + 1;
        }
    }
}

} // verus!
