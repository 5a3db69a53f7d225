//! The store model: a collection of named entries together with the log of
//! revision messages that `add` and `update` pair with their changes. The
//! abstract state is a map from entry names to stored (filtered) contents;
//! every operation's contract says exactly how it moves that map and the
//! revision log, and exactly when it fails.

use vstd::prelude::*;
use vstd::pervasive::VecAdditionalExecFns;

use crate::bytes::{bytes_eq, copy_bytes};
use crate::filter::{filter_content, filtered};
use crate::revision::{commit_message, message_spec, Action};

verus! {

/// Why a store operation was refused.
#[derive(Clone, Copy, Debug, PartialEq, Eq, Structural)]
pub enum StoreError {
    /// `add`: an entry of that name already exists.
    NameConflict,
    /// `update`, `remove` or `show`: no entry of that name exists.
    NameNotFound,
}

struct Entry {
    name: Vec<u8>,
    content: Vec<u8>,
}

/// The store: named entries plus the revision log.
pub struct Store {
    entries: Vec<Entry>,
    revisions: Vec<Vec<u8>>,
    contents: Ghost<Map<Seq<u8>, Seq<u8>>>,
}

impl View for Store {
    type V = Map<Seq<u8>, Seq<u8>>;

    /// The abstract state: entry name to stored content.
    closed spec fn view(&self) -> Map<Seq<u8>, Seq<u8>> {
        self.contents@
    }
}

impl Store {
    /// The revision messages recorded so far, oldest first.
    pub closed spec fn log(&self) -> Seq<Seq<u8>> {
        Seq::new(self.revisions@.len(), |i: int| self.revisions@[i]@)
    }

    /// The entries and the abstract map agree: entry names are unique, each
    /// entry is in the map, and each key of the map names an entry.
    pub closed spec fn wf(&self) -> bool {
        &&& forall|i: int, j: int|
            #![trigger self.entries[i].name, self.entries[j].name]
            0 <= i < j < self.entries.len() ==> self.entries[i].name@ != self.entries[j].name@
        &&& forall|i: int|
            0 <= i < self.entries.len() ==> self.contents@.contains_key(
                #[trigger] self.entries[i].name@,
            ) && self.contents@[self.entries[i].name@] == self.entries[i].content@
        &&& forall|k: Seq<u8>|
            #[trigger] self.contents@.contains_key(k) ==> exists|i: int|
                0 <= i < self.entries.len() && (#[trigger] self.entries[i].name@) == k
    }

    /// An empty store with an empty revision log.
    pub fn new() -> (s: Store)
        ensures
            s.wf(),
            s@ == Map::<Seq<u8>, Seq<u8>>::empty(),
            s.log() == Seq::<Seq<u8>>::empty(),
    {
        let s = Store {
            entries: Vec::new(),
            revisions: Vec::new(),
            contents: Ghost(Map::empty()),
        };
        proof {
            assert(s.log() =~= Seq::<Seq<u8>>::empty());
        }
        s
    }

    /// The position of the entry called `name`, if one exists.
    fn index_of(&self, name: &Vec<u8>) -> (r: Option<usize>)
        requires
            self.wf(),
        ensures
            match r {
                Some(i) => i < self.entries.len() && self.entries[i as int].name@ == name@
                    && self@.contains_key(name@),
                None => !self@.contains_key(name@),
            },
    {
        let mut j: usize = 0;
        while j < self.entries.len()
            invariant
                self.wf(),
                j <= self.entries.len(),
                forall|k: int| 0 <= k < j ==> self.entries[k].name@ != name@,
            decreases self.entries.len() - j,
        {
            if bytes_eq(&self.entries[j].name, name) {
                return Some(j);
            }
            j += 1;
        }
        proof {
            if self.contents@.contains_key(name@) {
                let i = choose|i: int|
                    0 <= i < self.entries.len() && (#[trigger] self.entries[i].name@)
                        == name@;
                assert(false);
            }
        }
        None
    }

    /// Whether an entry of that name exists.
    pub fn contains(&self, name: &Vec<u8>) -> (r: bool)
        requires
            self.wf(),
        ensures
            r == self@.contains_key(name@),
    {
        self.index_of(name).is_some()
    }

    /// Put an entry back as it already stands in the store on disk: no
    /// filtering, no revision. Fails with a name conflict when the name is
    /// already present.
    pub fn restore(&mut self, name: &Vec<u8>, content: &Vec<u8>) -> (r: Result<
        (),
        StoreError,
    >)
        requires
            old(self).wf(),
        ensures
            final(self).wf(),
            final(self).log() == old(self).log(),
            old(self)@.contains_key(name@) ==> r == Err::<(), StoreError>(
                StoreError::NameConflict,
            ) && final(self)@ == old(self)@,
            !old(self)@.contains_key(name@) ==> r == Ok::<(), StoreError>(()) && final(self)@ == old(self)@.insert(name@, content@),
    {
        match self.index_of(name) {
            Some(_) => Err(StoreError::NameConflict),
            None => {
                let entry = Entry { name: copy_bytes(name), content: copy_bytes(content) };
                self.entries.push(entry);
                let ghost m = self.contents@.insert(name@, content@);
                self.contents = Ghost(m);
                proof {
                    self.lemma_wf_after_push(*old(self), name@, content@);
                }
                Ok(())
            },
        }
    }

    /// Pushing a fresh entry and inserting its name preserves agreement.
    proof fn lemma_wf_after_push(&self, prev: Store, name: Seq<u8>, content: Seq<u8>)
        requires
            prev.wf(),
            !prev@.contains_key(name),
            self.entries@.len() == prev.entries@.len() + 1,
            forall|i: int|
                0 <= i < prev.entries@.len() ==> self.entries[i] == prev.entries[i],
            self.entries[prev.entries@.len() as int].name@ == name,
            self.entries[prev.entries@.len() as int].content@ == content,
            self.contents@ == prev.contents@.insert(name, content),
        ensures
            self.wf(),
    {
        let n = prev.entries@.len() as int;
        assert forall|i: int| 0 <= i < n implies (#[trigger] prev.entries[i].name@)
            != name by {
            assert(prev.contents@.contains_key(prev.entries[i].name@));
        }
        assert forall|k: Seq<u8>| #[trigger] self.contents@.contains_key(k) implies exists|
            i: int,
        | 0 <= i < self.entries.len() && (#[trigger] self.entries[i].name@) == k by {
            if k == name {
                assert(self.entries[n].name@ == k);
            } else {
                assert(prev.contents@.contains_key(k));
                let i = choose|i: int|
                    0 <= i < prev.entries.len() && (#[trigger] prev.entries[i].name@) == k;
                assert(self.entries[i].name@ == k);
            }
        }
    }

    /// Add a new entry: refuse with a name conflict if the name is already
    /// present (leaving the store unchanged); otherwise store the filtered
    /// source text under the name and record one `add` revision.
    pub fn add(&mut self, name: &Vec<u8>, source: &Vec<u8>) -> (r: Result<(), StoreError>)
        requires
            old(self).wf(),
        ensures
            final(self).wf(),
            old(self)@.contains_key(name@) ==> r == Err::<(), StoreError>(
                StoreError::NameConflict,
            ) && final(self)@ == old(self)@ && final(self).log() == old(self).log(),
            !old(self)@.contains_key(name@) ==> r == Ok::<(), StoreError>(()) && final(self)@ == old(self)@.insert(name@, filtered(source@)) && final(self).log() == old(self).log().push(message_spec(name@, Action::Add)),
    {
        match self.index_of(name) {
            Some(_) => Err(StoreError::NameConflict),
            None => {
                let content = filter_content(source);
                let entry = Entry { name: copy_bytes(name), content };
                self.entries.push(entry);
                let msg = commit_message(name, Action::Add);
                self.revisions.push(msg);
                let ghost m = self.contents@.insert(name@, filtered(source@));
                self.contents = Ghost(m);
                proof {
                    self.lemma_wf_after_push(*old(self), name@, filtered(source@));
                    assert(self.log() =~= old(self).log().push(
                        message_spec(name@, Action::Add),
                    ));
                }
                Ok(())
            },
        }
    }

    /// Update an existing entry: refuse with name-not-found if no entry of
    /// that name exists (creating none); otherwise overwrite its content
    /// with the filtered source text and record one `update` revision.
    pub fn update(&mut self, name: &Vec<u8>, source: &Vec<u8>) -> (r: Result<
        (),
        StoreError,
    >)
        requires
            old(self).wf(),
        ensures
            final(self).wf(),
            !old(self)@.contains_key(name@) ==> r == Err::<(), StoreError>(
                StoreError::NameNotFound,
            ) && final(self)@ == old(self)@ && final(self).log() == old(self).log(),
            old(self)@.contains_key(name@) ==> r == Ok::<(), StoreError>(()) && final(self)@ == old(self)@.insert(name@, filtered(source@)) && final(self).log() == old(self).log().push(message_spec(name@, Action::Update)),
    {
        match self.index_of(name) {
            None => Err(StoreError::NameNotFound),
            Some(i) => {
                let content = filter_content(source);
                let entry = Entry { name: copy_bytes(name), content };
                self.entries.set(i, entry);
                let msg = commit_message(name, Action::Update);
                self.revisions.push(msg);
                let ghost m = self.contents@.insert(name@, filtered(source@));
                self.contents = Ghost(m);
                proof {
                    let prev = *old(self);
                    let n = prev.entries@.len() as int;
                    assert forall|k: Seq<u8>|
                        #[trigger] self.contents@.contains_key(k) implies exists|j: int|
                        0 <= j < self.entries.len() && (#[trigger] self.entries[j].name@)
                            == k by {
                        if k == name@ {
                            assert(self.entries[i as int].name@ == k);
                        } else {
                            assert(prev.contents@.contains_key(k));
                            let j = choose|j: int|
                                0 <= j < prev.entries.len() && (
                                #[trigger] prev.entries[j].name@) == k;
                            assert(j != i);
                            assert(self.entries[j].name@ == k);
                        }
                    }
                    assert(self.log() =~= old(self).log().push(
                        message_spec(name@, Action::Update),
                    ));
                }
                Ok(())
            },
        }
    }

    /// Remove an entry: refuse with name-not-found if no entry of that name
    /// exists; otherwise delete it. No revision is recorded for a removal.
    pub fn remove(&mut self, name: &Vec<u8>) -> (r: Result<(), StoreError>)
        requires
            old(self).wf(),
        ensures
            final(self).wf(),
            final(self).log() == old(self).log(),
            !old(self)@.contains_key(name@) ==> r == Err::<(), StoreError>(
                StoreError::NameNotFound,
            ) && final(self)@ == old(self)@,
            old(self)@.contains_key(name@) ==> r == Ok::<(), StoreError>(()) && final(self)@ == old(self)@.remove(name@),
    {
        match self.index_of(name) {
            None => Err(StoreError::NameNotFound),
            Some(i) => {
                self.entries.remove(i);
                let ghost m = self.contents@.remove(name@);
                self.contents = Ghost(m);
                proof {
                    let prev = *old(self);
                    assert forall|k: Seq<u8>|
                        #[trigger] self.contents@.contains_key(k) implies exists|j: int|
                        0 <= j < self.entries.len() && (#[trigger] self.entries[j].name@)
                            == k by {
                        assert(prev.contents@.contains_key(k));
                        let j = choose|j: int|
                            0 <= j < prev.entries.len() && (#[trigger] prev.entries[j].name@)
                                == k;
                        assert(j != i);
                        if j < i {
                            assert(self.entries[j].name@ == k);
                        } else {
                            assert(self.entries[j - 1].name@ == k);
                        }
                    }
                }
                Ok(())
            },
        }
    }

    /// Show an entry's stored content: exactly what the abstract map holds
    /// under the name; name-not-found if no entry of that name exists.
    pub fn show(&self, name: &Vec<u8>) -> (r: Result<Vec<u8>, StoreError>)
        requires
            self.wf(),
        ensures
            self@.contains_key(name@) ==> r is Ok && r.unwrap()@ == self@[name@],
            !self@.contains_key(name@) ==> r == Err::<Vec<u8>, StoreError>(
                StoreError::NameNotFound,
            ),
    {
        match self.index_of(name) {
            None => Err(StoreError::NameNotFound),
            Some(i) => Ok(copy_bytes(&self.entries[i].content)),
        }
    }

    /// List the entry names: exactly the keys of the abstract map, each
    /// once, in no promised order.
    pub fn list(&self) -> (r: Vec<Vec<u8>>)
        requires
            self.wf(),
        ensures
            forall|k: Seq<u8>| #[trigger] self@.contains_key(k) <==> exists|i: int|
                0 <= i < r@.len() && (#[trigger] r@[i]@) == k,
            forall|i: int, j: int|
                #![trigger r@[i], r@[j]]
                0 <= i < j < r@.len() ==> r@[i]@ != r@[j]@,
    {
        let mut r: Vec<Vec<u8>> = Vec::new();
        let mut j: usize = 0;
        while j < self.entries.len()
            invariant
                self.wf(),
                j <= self.entries.len(),
                r@.len() == j,
                forall|k: int| 0 <= k < j ==> (#[trigger] r@[k]@) == self.entries[k].name@,
            decreases self.entries.len() - j,
        {
            r.push(copy_bytes(&self.entries[j].name));
            j += 1;
        }
        proof {
            assert forall|k: Seq<u8>| #[trigger] self@.contains_key(k) implies exists|
                i: int,
            | 0 <= i < r@.len() && (#[trigger] r@[i]@) == k by {
                let i = choose|i: int|
                    0 <= i < self.entries.len() && (#[trigger] self.entries[i].name@) == k;
                assert(r@[i]@ == k);
            }
            assert forall|k: Seq<u8>|
                exists|i: int| 0 <= i < r@.len() && (#[trigger] r@[i]@) == k implies self@
                .contains_key(k) by {
                let i = choose|i: int| 0 <= i < r@.len() && (#[trigger] r@[i]@) == k;
                assert(self.contents@.contains_key(self.entries[i].name@));
            }
        }
        r
    }

    /// The recorded revision messages, oldest first.
    pub fn revision_log(&self) -> (r: &Vec<Vec<u8>>)
        ensures
            r@.len() == self.log().len(),
            forall|i: int| 0 <= i < r@.len() ==> (#[trigger] r@[i]@) == self.log()[i],
    {
        &self.revisions
    }
}

} // verus!
