//! The exchange coordinator: one shared state that ties the session
//! registry, the wish-note store and the draw engine together.
//!
//! Each operation mirrors one user action. Durable storage is not written
//! here: a submission is validated by `prepare_submit`, persisted by the
//! caller, and only then committed by `commit_submit`, so a failed write
//! never becomes visible. A draw mutates memory and returns the picked
//! author so the caller can persist the updated note.

use vstd::prelude::*;
use crate::flash::Flash;
use crate::note::NoteField;
use crate::note::NoteView;
use crate::note::WishNote;
use crate::note::first_missing_field;
use crate::registry::SessionRegistry;
use crate::registry::author_baseline;
use crate::registry::authors_of;
use crate::registry::flash_set;
use crate::registry::flash_take;
use crate::registry::flash_value;
use crate::registry::registered;
use crate::rng::alphanumeric;
use crate::rng::fresh_token;
use crate::rng::rand_index;
use crate::store::NoteStore;
use crate::store::author_available;
use crate::store::author_index;
use crate::store::avail_of;
use crate::store::lemma_author_index;
use crate::store::lemma_avail_props;
use crate::store::spec_assign;
use crate::store::spec_has_author;
use crate::store::spec_is_santa;
use crate::store::store_authors;
use crate::store::store_wf;
use crate::store::token_views;
use crate::store::views_of;

verus! {

/// Everything that can go wrong in the core, one variant per user-facing
/// failure plus the fatal storage failure the caller maps I/O errors to.
#[derive(Clone, Copy, PartialEq, Eq, Structural, Debug)]
pub enum ExchangeError {
    /// A submitted field was empty; names the first missing one.
    ValidationError(NoteField),
    /// This author already submitted a note.
    DuplicateSubmission,
    /// The supplied token was never registered.
    UnknownSession,
    /// The requester has not submitted a note yet.
    NotYetSubmitted,
    /// The requester already drew a note.
    AlreadyDrawn,
    /// Every note already has its santa.
    NothingAvailable,
    /// A durable write failed; the operation was aborted.
    StorageError,
}

impl ExchangeError {
    /// The fixed user-facing message for this error, one per kind.
    pub fn message(&self) -> (r: String)
        ensures
            r@.len() > 0,
            *self == ExchangeError::ValidationError(NoteField::Present1) ==> r@
                == "the first present is required"@,
            *self == ExchangeError::ValidationError(NoteField::Present2) ==> r@
                == "the second present is required"@,
            *self == ExchangeError::ValidationError(NoteField::Present3) ==> r@
                == "the third present is required"@,
            *self == ExchangeError::ValidationError(NoteField::Place) ==> r@
                == "the unvisited place is required"@,
            *self == ExchangeError::DuplicateSubmission ==> r@ == "you already submitted a note"@,
            *self == ExchangeError::UnknownSession ==> r@ == "internal error"@,
            *self == ExchangeError::NotYetSubmitted ==> r@
                == "you have not handed in a wish note yet"@,
            *self == ExchangeError::AlreadyDrawn ==> r@ == "you already drew"@,
            *self == ExchangeError::NothingAvailable ==> r@ == "every note has been drawn"@,
            *self == ExchangeError::StorageError ==> r@ == "storage failure"@,
    {
        let m = match self {
            ExchangeError::ValidationError(NoteField::Present1) => "the first present is required",
            ExchangeError::ValidationError(NoteField::Present2) => "the second present is required",
            ExchangeError::ValidationError(NoteField::Present3) => "the third present is required",
            ExchangeError::ValidationError(NoteField::Place) => "the unvisited place is required",
            ExchangeError::DuplicateSubmission => "you already submitted a note",
            ExchangeError::UnknownSession => "internal error",
            ExchangeError::NotYetSubmitted => "you have not handed in a wish note yet",
            ExchangeError::AlreadyDrawn => "you already drew",
            ExchangeError::NothingAvailable => "every note has been drawn",
            ExchangeError::StorageError => "storage failure",
        };
        proof {
            reveal_strlit("the first present is required");
            reveal_strlit("the second present is required");
            reveal_strlit("the third present is required");
            reveal_strlit("the unvisited place is required");
            reveal_strlit("you already submitted a note");
            reveal_strlit("internal error");
            reveal_strlit("you have not handed in a wish note yet");
            reveal_strlit("you already drew");
            reveal_strlit("every note has been drawn");
            reveal_strlit("storage failure");
        }
        m.to_owned()
    }
}

/// The outcome of the submission checks, made in order: unknown session
/// first, then duplicate author, then the first missing field. `None`
/// means the submission is accepted.
pub open spec fn submit_outcome(
    known: bool,
    duplicate: bool,
    missing: Option<NoteField>,
) -> Option<ExchangeError> {
    if !known {
        Some(ExchangeError::UnknownSession)
    } else if duplicate {
        Some(ExchangeError::DuplicateSubmission)
    } else {
        match missing {
            Some(f) => Some(ExchangeError::ValidationError(f)),
            None => None,
        }
    }
}

/// What one page visit shows: the resolved token, whether this session
/// already submitted, the consumed one-shot flash flags, and the note
/// this session drew, if any.
pub struct VisitData {
    pub token: String,
    pub filled: bool,
    pub fill_success: bool,
    pub draw_success: bool,
    pub drawn: Option<WishNote>,
}

/// The whole coordinated state: the wish-note store and the session
/// registry, owned together and mutated only through the operations
/// below.
pub struct Exchange {
    pub store: NoteStore,
    pub registry: SessionRegistry,
}

impl Exchange {
    /// Both components satisfy their invariants.
    pub open spec fn wf(self) -> bool {
        self.store.wf() && self.registry.wf()
    }

    /// Couples an already well-formed store and registry.
    pub fn new(store: NoteStore, registry: SessionRegistry) -> (e: Exchange)
        requires
            store.wf(),
            registry.wf(),
        ensures
            e.wf(),
            e.store == store,
            e.registry == registry,
    {
        Exchange { store, registry }
    }

    /// Seeds the exchange from previously persisted records: the store
    /// holds them in order, and the registry starts with one empty-flash
    /// session per known author. Fails exactly when the records break the
    /// store's invariant.
    pub fn bootstrap(records: &Vec<WishNote>) -> (r: Option<Exchange>)
        ensures
            r is Some <==> store_wf(views_of(records@)),
            match r {
                Some(e) => {
                    &&& e.wf()
                    &&& e.store@ == views_of(records@)
                    &&& e.registry.as_map() == author_baseline(store_authors(e.store@))
                    &&& e.registry.size() == records@.len()
                },
                None => !store_wf(views_of(records@)),
            },
    {
        match NoteStore::from_records(records) {
            None => None,
            Some(store) => {
                let mut registry = SessionRegistry::new();
                let notes = store.list();
                proof {
                    assert forall|i: int, j: int|
                        0 <= i < j < notes@.len() implies notes@[i].author_id@
                        != notes@[j].author_id@ by {
                        assert(notes@[i]@ == store@[i]);
                        assert(notes@[j]@ == store@[j]);
                    }
                }
                registry.compact(notes);
                proof {
                    assert(authors_of(notes@) =~= store_authors(store@));
                }
                Some(Exchange { store, registry })
            },
        }
    }

    /// Checks a submission without changing anything: the session must be
    /// known, the author must be new, and all four fields must be
    /// non-empty, reported in that order. On success, returns the note to
    /// persist; `commit_submit` then makes it visible.
    pub fn prepare_submit(
        &self,
        token: &String,
        present1: String,
        present2: String,
        present3: String,
        my_place: String,
    ) -> (r: Result<WishNote, ExchangeError>)
        requires
            self.wf(),
        ensures
            match r {
                Ok(note) => {
                    &&& submit_outcome(
                        self.registry.as_map().contains_key(token@),
                        spec_has_author(self.store@, token@),
                        first_missing_field(present1@, present2@, present3@, my_place@),
                    ) is None
                    &&& note@ == (NoteView {
                        presents: seq![present1@, present2@, present3@],
                        my_place: my_place@,
                        author: token@,
                        santa: Seq::<char>::empty(),
                    })
                    &&& note@.valid()
                    &&& note@.santa.len() == 0
                },
                Err(e) => Some(e) == submit_outcome(
                    self.registry.as_map().contains_key(token@),
                    spec_has_author(self.store@, token@),
                    first_missing_field(present1@, present2@, present3@, my_place@),
                ),
            },
    {
        if !self.registry.contains(token) {
            return Err(ExchangeError::UnknownSession);
        }
        if self.store.has_author(token) {
            return Err(ExchangeError::DuplicateSubmission);
        }
        if present1.as_str().is_empty() {
            return Err(ExchangeError::ValidationError(NoteField::Present1));
        }
        if present2.as_str().is_empty() {
            return Err(ExchangeError::ValidationError(NoteField::Present2));
        }
        if present3.as_str().is_empty() {
            return Err(ExchangeError::ValidationError(NoteField::Present3));
        }
        if my_place.as_str().is_empty() {
            return Err(ExchangeError::ValidationError(NoteField::Place));
        }
        let note = WishNote {
            present1,
            present2,
            present3,
            my_place,
            author_id: token.clone(),
            santa_id: String::new(),
        };
        proof {
            assert(note@.presents[0] == note.present1@);
            assert(note@.presents[1] == note.present2@);
            assert(note@.presents[2] == note.present3@);
        }
        Ok(note)
    }

    /// Commits a prepared and durably written submission: the note joins
    /// the store and the author's session gets the fill-success flash.
    pub fn commit_submit(&mut self, note: WishNote)
        requires
            old(self).wf(),
            note@.valid(),
            note@.santa.len() == 0,
            !spec_has_author(old(self).store@, note@.author),
            old(self).registry.as_map().contains_key(note@.author),
        ensures
            final(self).wf(),
            final(self).store@ == old(self).store@.push(note@),
            final(self).registry.as_map() == flash_set(
                old(self).registry.as_map(),
                note@.author,
                Flash::FillSuccess,
            ),
            final(self).registry.size() == old(self).registry.size(),
    {
        let author = note.author_id.clone();
        self.store.append(note);
        let _ = self.registry.set_flash(&author, Flash::FillSuccess);
    }

    /// Draws a note for the requester: the whole check, pick and
    /// assignment is one operation against the store, so a note is
    /// claimed by at most one santa. On success the picked author's note
    /// carries the requester as its santa, the requester's session gets
    /// the draw-success flash, and the picked author is returned for the
    /// caller to persist the updated note.
    pub fn draw(&mut self, requester: &String) -> (r: Result<String, ExchangeError>)
        requires
            old(self).wf(),
        ensures
            final(self).wf(),
            r is Ok <==> spec_has_author(old(self).store@, requester@) && !spec_is_santa(
                old(self).store@,
                requester@,
            ) && avail_of(old(self).store@).len() > 0,
            match r {
                Ok(picked) => {
                    &&& avail_of(old(self).store@).contains(picked@)
                    &&& (avail_of(old(self).store@).len() == 1 ==> picked@ == avail_of(
                        old(self).store@,
                    )[0])
                    &&& (avail_of(old(self).store@).len() == 2 ==> picked@ == (
                    if requester@ == avail_of(old(self).store@)[0] {
                        avail_of(old(self).store@)[1]
                    } else {
                        avail_of(old(self).store@)[0]
                    }))
                    &&& (avail_of(old(self).store@).len() >= 3 ==> picked@ != requester@)
                    &&& final(self).store@ == spec_assign(
                        old(self).store@,
                        author_index(old(self).store@, picked@),
                        requester@,
                    )
                    &&& old(self).store@[author_index(old(self).store@, picked@)].santa.len() == 0
                    &&& final(self).registry.as_map() == flash_set(
                        old(self).registry.as_map(),
                        requester@,
                        Flash::DrawSuccess,
                    )
                },
                Err(e) => {
                    &&& *final(self) == *old(self)
                    &&& (e == ExchangeError::NotYetSubmitted <==> !spec_has_author(
                        old(self).store@,
                        requester@,
                    ))
                    &&& (e == ExchangeError::AlreadyDrawn <==> spec_has_author(
                        old(self).store@,
                        requester@,
                    ) && spec_is_santa(old(self).store@, requester@))
                    &&& (e == ExchangeError::NothingAvailable <==> spec_has_author(
                        old(self).store@,
                        requester@,
                    ) && !spec_is_santa(old(self).store@, requester@) && avail_of(
                        old(self).store@,
                    ).len() == 0)
                },
            },
    {
        if !self.store.has_author(requester) {
            return Err(ExchangeError::NotYetSubmitted);
        }
        if self.store.find_by_santa(requester).is_some() {
            return Err(ExchangeError::AlreadyDrawn);
        }
        let avail = self.store.available_authors();
        let ghost s = self.store@;
        let ghost av = avail_of(s);
        proof {
            lemma_avail_props(s);
            assert(av.len() == avail@.len()) by {
                assert(token_views(avail@).len() == avail@.len());
            }
        }
        if avail.len() == 0 {
            return Err(ExchangeError::NothingAvailable);
        }
        proof {
            assert forall|a: int, b: int| 0 <= a < b < avail@.len() implies avail@[a]@
                != avail@[b]@ by {
                assert(token_views(avail@)[a] == avail@[a]@);
                assert(token_views(avail@)[b] == avail@[b]@);
                assert(av[a] != av[b]);
            }
            assert(token_views(avail@)[0] == avail@[0]@);
            assert(author_available(s, av[0]));
            let i0 = choose|i: int|
                0 <= i < s.len() && s[i].santa.len() == 0 && s[i].author == av[0];
            if requester@.len() == 0 {
                assert(s[i0].santa =~= requester@);
                assert(spec_is_santa(s, requester@));
            }
            assert(requester@.len() > 0);
        }
        let picked = pick_target(&avail, requester);
        proof {
            assert(av.contains(picked@));
            let k = choose|k: int| 0 <= k < av.len() && av[k] == picked@;
            assert(author_available(s, av[k]));
            let i = choose|i: int|
                0 <= i < s.len() && s[i].santa.len() == 0 && s[i].author == picked@;
            assert(spec_has_author(s, picked@));
            lemma_author_index(s, picked@);
            assert(author_index(s, picked@) == i);
        }
        self.store.assign_santa(&picked, requester);
        let _ = self.registry.set_flash(requester, Flash::DrawSuccess);
        Ok(picked)
    }

    /// One page visit. A supplied token is trusted as it is; with none, a
    /// fresh random token is registered, after a wholesale compaction of
    /// the registry whenever it has grown past the author count by more
    /// than 1024. The result carries the resolved token, whether that
    /// session already submitted, the consumed flash flags, and the note
    /// it drew, if any.
    pub fn visit(&mut self, token: Option<String>) -> (r: VisitData)
        requires
            old(self).wf(),
        ensures
            final(self).wf(),
            final(self).store == old(self).store,
            r.filled == spec_has_author(old(self).store@, r.token@),
            match r.drawn {
                Some(n) => exists|i: int|
                    0 <= i < old(self).store@.len() && old(self).store@[i].santa == r.token@
                        && n@ == old(self).store@[i] && (forall|j: int|
                        0 <= j < i ==> old(self).store@[j].santa != r.token@),
                None => !spec_is_santa(old(self).store@, r.token@),
            },
            match token {
                Some(t) => {
                    &&& r.token@ == t@
                    &&& final(self).registry.as_map() == flash_take(
                        old(self).registry.as_map(),
                        t@,
                    )
                    &&& final(self).registry.size() == old(self).registry.size()
                    &&& r.fill_success == (flash_value(old(self).registry.as_map(), t@)
                        == Flash::FillSuccess)
                    &&& r.draw_success == (flash_value(old(self).registry.as_map(), t@)
                        == Flash::DrawSuccess)
                },
                None => {
                    &&& r.token@.len() == 10
                    &&& alphanumeric(r.token@)
                    &&& final(self).registry.as_map() == registered(
                        if old(self).registry.size() > old(self).store@.len() + 1024 {
                            author_baseline(store_authors(old(self).store@))
                        } else {
                            old(self).registry.as_map()
                        },
                        r.token@,
                    )
                    &&& r.fill_success == false
                    &&& r.draw_success == false
                    &&& final(self).registry.size() <= (if old(self).registry.size() > old(
                        self,
                    ).store@.len() + 1024 {
                        old(self).store@.len()
                    } else {
                        old(self).registry.size()
                    }) + 1
                },
            },
    {
        match token {
            Some(t) => {
                let filled = self.store.has_author(&t);
                let f = self.registry.take_flash(&t);
                let fill_success = f == Flash::FillSuccess;
                let draw_success = f == Flash::DrawSuccess;
                let drawn = match self.store.find_by_santa(&t) {
                    Some(n) => Some(n.clone()),
                    None => None,
                };
                VisitData { token: t, filled, fill_success, draw_success, drawn }
            },
            None => {
                let tok = fresh_token();
                let rl = self.registry.len();
                let sl = self.store.len();
                if rl > sl && rl - sl > 1024 {
                    let notes = self.store.list();
                    proof {
                        assert forall|i: int, j: int|
                            0 <= i < j < notes@.len() implies notes@[i].author_id@
                            != notes@[j].author_id@ by {
                            assert(notes@[i]@ == self.store@[i]);
                            assert(notes@[j]@ == self.store@[j]);
                        }
                    }
                    self.registry.compact(notes);
                    proof {
                        assert(authors_of(notes@) =~= store_authors(self.store@));
                    }
                }
                let ghost base = self.registry.as_map();
                self.registry.register(&tok);
                let f = self.registry.take_flash(&tok);
                proof {
                    assert(f == Flash::Empty);
                    assert(flash_take(registered(base, tok@), tok@) =~= registered(base, tok@));
                }
                let filled = self.store.has_author(&tok);
                let fill_success = f == Flash::FillSuccess;
                let draw_success = f == Flash::DrawSuccess;
                let drawn = match self.store.find_by_santa(&tok) {
                    Some(n) => Some(n.clone()),
                    None => None,
                };
                VisitData { token: tok, filled, fill_success, draw_success, drawn }
            },
        }
    }
}

/// Applies the draw selection policy to a non-empty eligible pool of
/// pairwise-distinct identities: the sole entry when there is one (even
/// when it is the requester); for two, the first entry unless the
/// requester is that entry; for three or more, a uniform random draw with
/// the requester excluded.
fn pick_target(avail: &Vec<String>, requester: &String) -> (r: String)
    requires
        avail@.len() > 0,
        forall|a: int, b: int| 0 <= a < b < avail@.len() ==> avail@[a]@ != avail@[b]@,
    ensures
        token_views(avail@).contains(r@),
        avail@.len() == 1 ==> r@ == avail@[0]@,
        avail@.len() == 2 ==> r@ == (if requester@ == avail@[0]@ {
            avail@[1]@
        } else {
            avail@[0]@
        }),
        avail@.len() >= 3 ==> r@ != requester@,
{
    if avail.len() == 1 {
        let r = avail[0].clone();
        proof {
            assert(token_views(avail@)[0] == avail@[0]@);
        }
        r
    } else if avail.len() == 2 {
        let r = if avail[0] == *requester {
            avail[1].clone()
        } else {
            avail[0].clone()
        };
        proof {
            assert(token_views(avail@)[0] == avail@[0]@);
            assert(token_views(avail@)[1] == avail@[1]@);
        }
        r
    } else {
        let mut eligible: Vec<String> = Vec::new();
        let mut i: usize = 0;
        while i < avail.len()
            invariant
                i <= avail@.len(),
                avail@.len() >= 3,
                forall|k: int|
                    0 <= k < eligible@.len() ==> (#[trigger] eligible@[k])@ != requester@
                        && token_views(avail@).contains(eligible@[k]@),
                forall|j: int|
                    #![trigger avail@[j]]
                    0 <= j < i && avail@[j]@ != requester@ ==> exists|k: int|
                        0 <= k < eligible@.len() && (#[trigger] eligible@[k])@ == avail@[j]@,
            decreases avail@.len() - i,
        {
            if !(avail[i] == *requester) {
                let ghost prev = eligible@;
                eligible.push(avail[i].clone());
                proof {
                    assert(token_views(avail@)[i as int] == avail@[i as int]@);
                    assert(token_views(avail@).contains(avail@[i as int]@));
                    assert(eligible@[prev.len() as int]@ == avail@[i as int]@);
                    assert(forall|k: int| 0 <= k < prev.len() ==> eligible@[k] == prev[k]);
                }
            }
            i += 1;
        }
        proof {
            if avail@[0]@ == requester@ {
                assert(avail@[1]@ != avail@[0]@);
                assert(exists|k: int|
                    0 <= k < eligible@.len() && (#[trigger] eligible@[k])@ == avail@[1]@);
            } else {
                assert(exists|k: int|
                    0 <= k < eligible@.len() && (#[trigger] eligible@[k])@ == avail@[0]@);
            }
            assert(eligible@.len() > 0);
        }
        let idx = rand_index(eligible.len());
        eligible[idx].clone()
    }
}

} // verus!
