//! The in-memory authoritative store of wish notes.
//!
//! The store owns every note. Authors are unique, a santa is named by at
//! most one note, and a santa, once set, is never cleared or changed.
//! Durable storage is written by the caller between validating a mutation
//! and committing it, so a failed write never becomes visible here.

use vstd::prelude::*;
use crate::note::NoteView;
use crate::note::WishNote;

verus! {

/// Every note in the sequence is a complete submission.
pub open spec fn notes_valid(s: Seq<NoteView>) -> bool {
    forall|i: int| 0 <= i < s.len() ==> s[i].valid()
}

/// No two notes share an author.
pub open spec fn authors_distinct(s: Seq<NoteView>) -> bool {
    forall|i: int, j: int| 0 <= i < j < s.len() ==> s[i].author != s[j].author
}

/// No two notes name the same santa (empty means unassigned and may repeat).
pub open spec fn santas_distinct(s: Seq<NoteView>) -> bool {
    forall|i: int, j: int|
        0 <= i < j < s.len() ==> (s[i].santa.len() == 0 || s[i].santa != s[j].santa)
}

/// The store's invariant over its abstract contents.
pub open spec fn store_wf(s: Seq<NoteView>) -> bool {
    notes_valid(s) && authors_distinct(s) && santas_distinct(s)
}

/// Some note was written by this author.
pub open spec fn spec_has_author(s: Seq<NoteView>, a: Seq<char>) -> bool {
    exists|i: int| 0 <= i < s.len() && s[i].author == a
}

/// The position of the note this author wrote (meaningful when authors are
/// distinct and the author is present).
pub open spec fn author_index(s: Seq<NoteView>, a: Seq<char>) -> int {
    choose|i: int| 0 <= i < s.len() && s[i].author == a
}

/// Some note names this identity as its santa.
pub open spec fn spec_is_santa(s: Seq<NoteView>, t: Seq<char>) -> bool {
    exists|i: int| 0 <= i < s.len() && s[i].santa == t
}

/// The abstract contents of the notes in a vector, in order.
pub open spec fn views_of(ns: Seq<WishNote>) -> Seq<NoteView> {
    Seq::new(ns.len(), |i: int| ns[i]@)
}

/// The author identities of the notes, in order.
pub open spec fn store_authors(s: Seq<NoteView>) -> Seq<Seq<char>> {
    Seq::new(s.len(), |i: int| s[i].author)
}

/// The contents of a sequence of tokens, in order.
pub open spec fn token_views(ss: Seq<String>) -> Seq<Seq<char>> {
    Seq::new(ss.len(), |i: int| ss[i]@)
}

/// The eligible pool of a draw: the authors of the unassigned notes, in
/// store order.
pub open spec fn avail_of(s: Seq<NoteView>) -> Seq<Seq<char>>
    decreases s.len(),
{
    if s.len() == 0 {
        Seq::empty()
    } else {
        let rest = avail_of(s.drop_last());
        if s.last().santa.len() == 0 {
            rest.push(s.last().author)
        } else {
            rest
        }
    }
}

/// Some unassigned note was written by this author.
pub open spec fn author_available(s: Seq<NoteView>, a: Seq<char>) -> bool {
    exists|i: int| 0 <= i < s.len() && s[i].santa.len() == 0 && s[i].author == a
}

/// When authors are distinct, the eligible pool holds exactly the authors
/// of the unassigned notes, each once.
pub proof fn lemma_avail_props(s: Seq<NoteView>)
    requires
        authors_distinct(s),
    ensures
        forall|k: int|
            0 <= k < avail_of(s).len() ==> author_available(s, #[trigger] avail_of(s)[k]),
        forall|i: int|
            0 <= i < s.len() && s[i].santa.len() == 0 ==> avail_of(s).contains(s[i].author),
        forall|a: int, b: int|
            0 <= a < b < avail_of(s).len() ==> avail_of(s)[a] != avail_of(s)[b],
    decreases s.len(),
{
    if s.len() > 0 {
        let head = s.drop_last();
        let rest = avail_of(head);
        let av = avail_of(s);
        assert(authors_distinct(head)) by {
            assert(forall|i: int| 0 <= i < head.len() ==> head[i] == s[i]);
        }
        lemma_avail_props(head);
        assert(forall|i: int| 0 <= i < head.len() ==> head[i] == s[i]);
        assert forall|k: int| 0 <= k < av.len() implies author_available(
            s,
            #[trigger] av[k],
        ) by {
            if k < rest.len() {
                assert(av[k] == rest[k]);
                assert(author_available(head, rest[k]));
                let i = choose|i: int|
                    0 <= i < head.len() && head[i].santa.len() == 0 && head[i].author == rest[k];
                assert(s[i].santa.len() == 0 && s[i].author == av[k]);
            } else {
                let i = s.len() - 1;
                assert(s[i].santa.len() == 0 && s[i].author == av[k]);
            }
        }
        assert forall|i: int| 0 <= i < s.len() && s[i].santa.len() == 0 implies av.contains(
            s[i].author,
        ) by {
            if i < s.len() - 1 {
                assert(head[i].santa.len() == 0);
                assert(rest.contains(head[i].author));
                let k = choose|k: int| 0 <= k < rest.len() && rest[k] == head[i].author;
                assert(av[k] == s[i].author);
            } else {
                assert(av[av.len() - 1] == s[i].author);
            }
        }
        assert forall|a: int, b: int| 0 <= a < b < av.len() implies av[a] != av[b] by {
            if b < rest.len() {
                assert(rest[a] != rest[b]);
            } else {
                // b names the freshly pushed last author; a names an author
                // of an earlier note, and authors are distinct.
                assert(av[b] == s.last().author);
                assert(av[a] == rest[a]);
                assert(author_available(head, rest[a]));
                let i = choose|i: int|
                    0 <= i < head.len() && head[i].santa.len() == 0 && head[i].author == rest[a];
                if av[a] == av[b] {
                    assert(s[i].author == s[s.len() - 1].author);
                }
            }
        }
    }
}

/// The store after the note at `j` is claimed by `santa`.
pub open spec fn spec_assign(s: Seq<NoteView>, j: int, santa: Seq<char>) -> Seq<NoteView> {
    s.update(j, s[j].with_santa(santa))
}

/// The author present in a store with distinct authors has exactly one
/// note, and `author_index` names it.
pub proof fn lemma_author_index(s: Seq<NoteView>, a: Seq<char>)
    requires
        authors_distinct(s),
        spec_has_author(s, a),
    ensures
        0 <= author_index(s, a) < s.len(),
        s[author_index(s, a)].author == a,
        forall|j: int| 0 <= j < s.len() && s[j].author == a ==> j == author_index(s, a),
{
    let i = author_index(s, a);
    assert(0 <= i < s.len() && s[i].author == a);
    assert forall|j: int| 0 <= j < s.len() && s[j].author == a implies j == i by {
        if j < i {
            assert(s[j].author != s[i].author);
        } else if i < j {
            assert(s[i].author != s[j].author);
        }
    }
}

/// Law: claiming an unassigned note by a fresh santa touches only that
/// note, never rewrites a santa that is already set, and leaves exactly
/// one note naming the new santa.
pub proof fn lemma_single_assignment(s: Seq<NoteView>, j: int, r: Seq<char>)
    requires
        santas_distinct(s),
        0 <= j < s.len(),
        s[j].santa.len() == 0,
        r.len() > 0,
        !spec_is_santa(s, r),
    ensures
        spec_assign(s, j, r).len() == s.len(),
        spec_assign(s, j, r)[j].santa == r,
        forall|i: int| 0 <= i < s.len() && i != j ==> spec_assign(s, j, r)[i] == s[i],
        forall|i: int|
            0 <= i < s.len() && s[i].santa.len() > 0 ==> spec_assign(s, j, r)[i].santa
                == s[i].santa,
        santas_distinct(spec_assign(s, j, r)),
        forall|i: int|
            0 <= i < s.len() && spec_assign(s, j, r)[i].santa == r ==> i == j,
{
    let s2 = spec_assign(s, j, r);
    assert forall|i: int| 0 <= i < s.len() && s2[i].santa == r implies i == j by {
        if i != j {
            assert(s[i].santa == r);
        }
    }
    assert forall|i: int, k: int|
        0 <= i < k < s2.len() implies (s2[i].santa.len() == 0 || s2[i].santa != s2[k].santa) by {
        if i == j {
            if s[k].santa == r {
                assert(spec_is_santa(s, r));
            }
        } else if k == j {
            if s[i].santa == r {
                assert(spec_is_santa(s, r));
            }
        }
    }
}

/// The authoritative collection of wish notes, in insertion order.
pub struct NoteStore {
    notes: Vec<WishNote>,
}

impl View for NoteStore {
    type V = Seq<NoteView>;

    closed spec fn view(&self) -> Seq<NoteView> {
        views_of(self.notes@)
    }
}

impl NoteStore {
    /// The store's invariant: valid notes, distinct authors, distinct
    /// non-empty santas.
    pub open spec fn wf(self) -> bool {
        store_wf(self@)
    }

    /// An empty store.
    pub fn new() -> (s: NoteStore)
        ensures
            s.wf(),
            s@ == Seq::<NoteView>::empty(),
    {
        let s = NoteStore { notes: Vec::new() };
        proof {
            assert(s@ =~= Seq::<NoteView>::empty());
        }
        s
    }

    /// Rebuilds a store from previously persisted records, in order.
    /// Succeeds exactly when the records satisfy the store's invariant.
    pub fn from_records(records: &Vec<WishNote>) -> (r: Option<NoteStore>)
        ensures
            r.is_some() <==> store_wf(views_of(records@)),
            match r {
                Some(s) => s.wf() && s@ == views_of(records@),
                None => !store_wf(views_of(records@)),
            },
    {
        let ghost all = views_of(records@);
        let mut store = NoteStore::new();
        let mut i: usize = 0;
        while i < records.len()
            invariant
                i <= records@.len(),
                all == views_of(records@),
                store@ =~= all.take(i as int),
                store.wf(),
            decreases records@.len() - i,
        {
            let rec = &records[i];
            assert(all[i as int] == rec@);
            if !rec.is_valid() {
                assert(!notes_valid(all));
                return None;
            }
            if store.has_author(&rec.author_id) {
                proof {
                    let j = choose|j: int| 0 <= j < store@.len() && store@[j].author
                        == rec.author_id@;
                    assert(all[j] == store@[j]);
                    assert(!authors_distinct(all));
                }
                return None;
            }
            if !rec.santa_id.as_str().is_empty() && store.find_by_santa(&rec.santa_id).is_some() {
                proof {
                    let j = choose|j: int| 0 <= j < store@.len() && store@[j].santa
                        == rec.santa_id@;
                    assert(all[j] == store@[j]);
                    assert(!santas_distinct(all));
                }
                return None;
            }
            let note = rec.clone();
            proof {
                assert(store@.push(note@) =~= all.take(i + 1));
                lemma_push_keeps_wf(store@, note@);
            }
            store.notes.push(note);
            proof {
                assert(store@ =~= all.take(i + 1));
            }
            i += 1;
        }
        proof {
            assert(all.take(records@.len() as int) =~= all);
        }
        Some(store)
    }

    /// How many notes the store holds.
    pub fn len(&self) -> (n: usize)
        ensures
            n == self@.len(),
    {
        self.notes.len()
    }

    /// The notes in insertion order, for display and for persistence.
    pub fn list(&self) -> (r: &Vec<WishNote>)
        ensures
            r@.len() == self@.len(),
            forall|i: int| 0 <= i < self@.len() ==> r@[i]@ == self@[i],
    {
        &self.notes
    }

    /// Whether this identity has already submitted a note.
    pub fn has_author(&self, id: &String) -> (r: bool)
        ensures
            r == spec_has_author(self@, id@),
    {
        let mut i: usize = 0;
        while i < self.notes.len()
            invariant
                i <= self.notes@.len(),
                self@.len() == self.notes@.len(),
                forall|j: int| 0 <= j < i ==> self@[j].author != id@,
                forall|j: int| 0 <= j < self.notes@.len() ==> self@[j] == self.notes@[j]@,
            decreases self.notes@.len() - i,
        {
            if self.notes[i].author_id == *id {
                assert(self@[i as int].author == id@);
                return true;
            }
            i += 1;
        }
        false
    }

    /// The note this identity wrote, if any.
    pub fn find_by_author(&self, id: &String) -> (r: Option<&WishNote>)
        requires
            self.wf(),
        ensures
            match r {
                Some(n) => spec_has_author(self@, id@) && n@ == self@[author_index(self@, id@)],
                None => !spec_has_author(self@, id@),
            },
    {
        let mut i: usize = 0;
        while i < self.notes.len()
            invariant
                i <= self.notes@.len(),
                self@.len() == self.notes@.len(),
                forall|j: int| 0 <= j < i ==> self@[j].author != id@,
                forall|j: int| 0 <= j < self.notes@.len() ==> self@[j] == self.notes@[j]@,
                self.wf(),
            decreases self.notes@.len() - i,
        {
            if self.notes[i].author_id == *id {
                assert(self@[i as int].author == id@);
                proof {
                    lemma_author_index(self@, id@);
                }
                return Some(&self.notes[i]);
            }
            i += 1;
        }
        None
    }

    /// The first note naming this identity as its santa, if any.
    pub fn find_by_santa(&self, id: &String) -> (r: Option<&WishNote>)
        ensures
            match r {
                Some(n) => exists|i: int|
                    0 <= i < self@.len() && self@[i].santa == id@ && n@ == self@[i] && (
                    forall|j: int| 0 <= j < i ==> self@[j].santa != id@),
                None => !spec_is_santa(self@, id@),
            },
    {
        let mut i: usize = 0;
        while i < self.notes.len()
            invariant
                i <= self.notes@.len(),
                self@.len() == self.notes@.len(),
                forall|j: int| 0 <= j < i ==> self@[j].santa != id@,
                forall|j: int| 0 <= j < self.notes@.len() ==> self@[j] == self.notes@[j]@,
            decreases self.notes@.len() - i,
        {
            if self.notes[i].santa_id == *id {
                assert(self@[i as int].santa == id@);
                return Some(&self.notes[i]);
            }
            i += 1;
        }
        None
    }

    /// The eligible pool of a draw: the authors of the notes that have no
    /// santa yet, in store order.
    pub fn available_authors(&self) -> (r: Vec<String>)
        ensures
            token_views(r@) == avail_of(self@),
    {
        let mut r: Vec<String> = Vec::new();
        let mut i: usize = 0;
        while i < self.notes.len()
            invariant
                i <= self.notes@.len(),
                self@.len() == self.notes@.len(),
                forall|j: int| 0 <= j < self.notes@.len() ==> self@[j] == self.notes@[j]@,
                token_views(r@) =~= avail_of(self@.take(i as int)),
            decreases self.notes@.len() - i,
        {
            let ghost prefix = self@.take(i as int);
            let ghost prev = r@;
            proof {
                assert(self@.take(i + 1).drop_last() =~= prefix);
                assert(self@.take(i + 1).last() == self@[i as int]);
            }
            if self.notes[i].santa_id.as_str().is_empty() {
                r.push(self.notes[i].author_id.clone());
                proof {
                    assert(token_views(r@) =~= token_views(prev).push(self@[i as int].author));
                }
            }
            i += 1;
        }
        proof {
            assert(self@.take(self.notes@.len() as int) =~= self@);
        }
        r
    }

    /// Commits a validated note to memory. The caller has already checked
    /// the note and written it durably; this step makes it visible.
    pub fn append(&mut self, note: WishNote)
        requires
            old(self).wf(),
            note@.valid(),
            note@.santa.len() == 0,
            !spec_has_author(old(self)@, note@.author),
        ensures
            final(self).wf(),
            final(self)@ == old(self)@.push(note@),
    {
        proof {
            lemma_push_keeps_wf(self@, note@);
        }
        let ghost prev = self@;
        let ghost nv = note@;
        self.notes.push(note);
        proof {
            assert(self@ =~= prev.push(nv));
        }
    }

    /// Sets the santa of the note written by `author_id`. Only the draw
    /// engine calls this, under exclusive access, after checking that the
    /// note is unassigned and that the santa has not drawn yet.
    pub fn assign_santa(&mut self, author_id: &String, santa_id: &String)
        requires
            old(self).wf(),
            spec_has_author(old(self)@, author_id@),
            old(self)@[author_index(old(self)@, author_id@)].santa.len() == 0,
            santa_id@.len() > 0,
            !spec_is_santa(old(self)@, santa_id@),
        ensures
            final(self).wf(),
            final(self)@ == spec_assign(old(self)@, author_index(old(self)@, author_id@), santa_id@),
    {
        let ghost prev = self@;
        let ghost target = author_index(prev, author_id@);
        proof {
            lemma_author_index(prev, author_id@);
        }
        let mut i: usize = 0;
        while i < self.notes.len()
            invariant
                i <= self.notes@.len(),
                self@.len() == self.notes@.len(),
                forall|j: int| 0 <= j < i ==> self@[j].author != author_id@,
                forall|j: int| 0 <= j < self.notes@.len() ==> self@[j] == self.notes@[j]@,
                self.wf(),
                self@ == prev,
                prev == old(self)@,
                spec_has_author(prev, author_id@),
                target == author_index(prev, author_id@),
                0 <= target < prev.len(),
                prev[target].author == author_id@,
                prev[target].santa.len() == 0,
                santa_id@.len() > 0,
                !spec_is_santa(prev, santa_id@),
                forall|j: int| 0 <= j < prev.len() && prev[j].author == author_id@ ==> j == target,
            decreases self.notes@.len() - i,
        {
            if self.notes[i].author_id == *author_id {
                assert(self@[i as int].author == author_id@);
                assert(i as int == target);
                let ghost pre_notes = self.notes@;
                let mut note = self.notes.remove(i);
                note.santa_id = santa_id.clone();
                assert(note@ == prev[target].with_santa(santa_id@));
                self.notes.insert(i, note);
                proof {
                    assert(self.notes@ =~= pre_notes.update(target, self.notes@[target]));
                    assert(self@ =~= spec_assign(prev, target, santa_id@));
                    lemma_single_assignment(prev, target, santa_id@);
                    assert(notes_valid(self@)) by {
                        assert(forall|k: int|
                            0 <= k < self@.len() && k != target ==> self@[k] == prev[k]);
                        assert(self@[target].valid());
                    }
                    assert(authors_distinct(self@)) by {
                        assert(forall|k: int|
                            0 <= k < self@.len() ==> self@[k].author == prev[k].author);
                    }
                }
                return;
            }
            i += 1;
        }
        proof {
            assert(prev[target].author == author_id@);
            assert(false);
        }
    }
}

/// A complete note with a fresh author may join a well-formed store, as
/// long as its santa, when already set, is not named by any stored note.
proof fn lemma_push_keeps_wf(s: Seq<NoteView>, n: NoteView)
    requires
        store_wf(s),
        n.valid(),
        n.santa.len() == 0 || !spec_is_santa(s, n.santa),
        !spec_has_author(s, n.author),
    ensures
        store_wf(s.push(n)),
{
    let s2 = s.push(n);
    assert forall|i: int, j: int| 0 <= i < j < s2.len() implies s2[i].author != s2[j].author by {
        if j == s.len() {
            if s[i].author == n.author {
                assert(spec_has_author(s, n.author));
            }
        }
    }
    assert forall|i: int, j: int|
        0 <= i < j < s2.len() implies (s2[i].santa.len() == 0 || s2[i].santa != s2[j].santa) by {
        if j == s.len() {
            if s2[i].santa.len() > 0 && s2[i].santa == n.santa {
                assert(spec_is_santa(s, n.santa));
                assert(n.santa.len() > 0);
            }
        }
    }
}

} // verus!
