//! The identity and session registry.
//!
//! It tracks opaque session tokens and a one-shot flash signal per token.
//! Abstractly the registry is a map from token to pending flash; the
//! entries are held in insertion order with no duplicate tokens, so the
//! registry's size is the number of known tokens.

use vstd::prelude::*;
use vstd::map::*;
use crate::flash::Flash;
use crate::note::WishNote;

verus! {

/// One registered session: an opaque token and its pending flash signal.
pub struct SessionEntry {
    pub token: String,
    pub flash: Flash,
}

/// What reading a token's flash yields: the pending value for a known
/// token, `Empty` for an unknown one.
pub open spec fn flash_value(m: Map<Seq<char>, Flash>, t: Seq<char>) -> Flash {
    if m.contains_key(t) {
        m[t]
    } else {
        Flash::Empty
    }
}

/// The registry after a flash write: the pending value is overwritten for
/// a known token; an unknown token is left alone.
pub open spec fn flash_set(m: Map<Seq<char>, Flash>, t: Seq<char>, v: Flash) -> Map<
    Seq<char>,
    Flash,
> {
    if m.contains_key(t) {
        m.insert(t, v)
    } else {
        m
    }
}

/// The registry after a flash read: the pending value is consumed.
pub open spec fn flash_take(m: Map<Seq<char>, Flash>, t: Seq<char>) -> Map<Seq<char>, Flash> {
    flash_set(m, t, Flash::Empty)
}

/// The registry after a token is registered with no pending flash.
pub open spec fn registered(m: Map<Seq<char>, Flash>, t: Seq<char>) -> Map<Seq<char>, Flash> {
    m.insert(t, Flash::Empty)
}

/// The registry rebuilt by compaction: one empty-flash entry per author,
/// everything else discarded.
pub open spec fn author_baseline(authors: Seq<Seq<char>>) -> Map<Seq<char>, Flash> {
    Map::new(|t: Seq<char>| authors.contains(t), |t: Seq<char>| Flash::Empty)
}

/// The author identities of a sequence of notes, in order.
pub open spec fn authors_of(ns: Seq<WishNote>) -> Seq<Seq<char>> {
    Seq::new(ns.len(), |i: int| ns[i].author_id@)
}

/// Law: a flash signal is delivered exactly once. After a write stores `v`
/// for a registered token, the first read returns `v` and consumes it;
/// every further read before the next write returns `Empty` and changes
/// nothing, and a read never disturbs any other token's flash.
pub proof fn lemma_flash_one_shot(m: Map<Seq<char>, Flash>, t: Seq<char>, v: Flash)
    requires
        m.contains_key(t),
    ensures
        flash_value(flash_set(m, t, v), t) == v,
        flash_value(flash_take(flash_set(m, t, v), t), t) == Flash::Empty,
        flash_take(flash_take(flash_set(m, t, v), t), t) == flash_take(flash_set(m, t, v), t),
        forall|u: Seq<char>| u != t ==> flash_value(flash_take(m, t), u) == flash_value(m, u),
{
    assert(flash_take(flash_take(flash_set(m, t, v), t), t) =~= flash_take(
        flash_set(m, t, v),
        t,
    ));
}

/// Issues and tracks session tokens and their one-shot flash signals.
pub struct SessionRegistry {
    entries: Vec<SessionEntry>,
}

impl SessionRegistry {
    /// Tokens are pairwise distinct.
    pub closed spec fn wf(self) -> bool {
        forall|i: int, j: int|
            0 <= i < j < self.entries@.len() ==> self.entries@[i].token@ != self.entries@[j].token@
    }

    /// How many sessions are registered.
    pub closed spec fn size(self) -> nat {
        self.entries@.len()
    }

    spec fn spec_contains(self, t: Seq<char>) -> bool {
        exists|i: int| 0 <= i < self.entries@.len() && self.entries@[i].token@ == t
    }

    spec fn index_of(self, t: Seq<char>) -> int {
        choose|i: int| 0 <= i < self.entries@.len() && self.entries@[i].token@ == t
    }

    spec fn spec_flash(self, t: Seq<char>) -> Flash {
        if self.spec_contains(t) {
            self.entries@[self.index_of(t)].flash
        } else {
            Flash::Empty
        }
    }

    /// The registry's abstract contents: pending flash by token.
    pub closed spec fn as_map(self) -> Map<Seq<char>, Flash> {
        Map::new(|t: Seq<char>| self.spec_contains(t), |t: Seq<char>| self.spec_flash(t))
    }

    /// An empty registry.
    pub fn new() -> (r: SessionRegistry)
        ensures
            r.wf(),
            r.size() == 0,
            r.as_map() == Map::<Seq<char>, Flash>::empty(),
    {
        let r = SessionRegistry { entries: Vec::new() };
        proof {
            assert(r.as_map() =~= Map::<Seq<char>, Flash>::empty());
        }
        r
    }

    /// How many sessions are registered.
    pub fn len(&self) -> (n: usize)
        ensures
            n == self.size(),
    {
        self.entries.len()
    }

    /// Whether this token has been registered.
    pub fn contains(&self, token: &String) -> (r: bool)
        ensures
            r == self.as_map().contains_key(token@),
    {
        let r = self.find_index(token);
        r.is_some()
    }

    fn find_index(&self, token: &String) -> (r: Option<usize>)
        ensures
            match r {
                Some(i) => i < self.entries@.len() && self.entries@[i as int].token@ == token@,
                None => !self.spec_contains(token@),
            },
    {
        let mut i: usize = 0;
        while i < self.entries.len()
            invariant
                i <= self.entries@.len(),
                forall|j: int| 0 <= j < i ==> self.entries@[j].token@ != token@,
            decreases self.entries@.len() - i,
        {
            if self.entries[i].token == *token {
                return Some(i);
            }
            i += 1;
        }
        None
    }

    /// Registers a token with an empty flash. A token already known merely
    /// has its pending flash cleared, as a fresh registration would.
    pub fn register(&mut self, token: &String)
        requires
            old(self).wf(),
        ensures
            final(self).wf(),
            final(self).as_map() == registered(old(self).as_map(), token@),
            final(self).size() == if old(self).as_map().contains_key(token@) {
                old(self).size()
            } else {
                old(self).size() + 1
            },
    {
        let ghost pre = *self;
        match self.find_index(token) {
            Some(i) => {
                let e = self.entries.remove(i);
                self.entries.insert(i, SessionEntry { token: e.token, flash: Flash::Empty });
                proof {
                    assert(self.entries@ =~= pre.entries@.update(
                        i as int,
                        SessionEntry { token: pre.entries@[i as int].token, flash: Flash::Empty },
                    ));
                    lemma_map_after_update(pre, *self, i as int, Flash::Empty);
                }
            },
            None => {
                self.entries.push(SessionEntry { token: token.clone(), flash: Flash::Empty });
                proof {
                    assert(self.entries@.subrange(0, pre.entries@.len() as int) =~= pre.entries@);
                    lemma_map_after_push(pre, *self, token@, Flash::Empty);
                    assert(!pre.as_map().contains_key(token@));
                }
            },
        }
    }

    /// Overwrites the token's pending flash. An unknown token is left
    /// alone, and the write reports whether the token was known.
    pub fn set_flash(&mut self, token: &String, value: Flash) -> (r: bool)
        requires
            old(self).wf(),
        ensures
            final(self).wf(),
            r == old(self).as_map().contains_key(token@),
            final(self).as_map() == flash_set(old(self).as_map(), token@, value),
            final(self).size() == old(self).size(),
    {
        let ghost pre = *self;
        match self.find_index(token) {
            Some(i) => {
                let e = self.entries.remove(i);
                self.entries.insert(i, SessionEntry { token: e.token, flash: value });
                proof {
                    assert(self.entries@ =~= pre.entries@.update(
                        i as int,
                        SessionEntry { token: pre.entries@[i as int].token, flash: value },
                    ));
                    lemma_map_after_update(pre, *self, i as int, value);
                }
                true
            },
            None => {
                proof {
                    assert(!pre.as_map().contains_key(token@));
                }
                false
            },
        }
    }

    /// Reads the token's pending flash and consumes it: the value is reset
    /// to `Empty` the instant it is read, so a repeated read before the
    /// next write returns `Empty`. An unknown token reads as `Empty`.
    pub fn take_flash(&mut self, token: &String) -> (r: Flash)
        requires
            old(self).wf(),
        ensures
            final(self).wf(),
            r == flash_value(old(self).as_map(), token@),
            final(self).as_map() == flash_take(old(self).as_map(), token@),
            final(self).size() == old(self).size(),
    {
        let ghost pre = *self;
        match self.find_index(token) {
            Some(i) => {
                let e = self.entries.remove(i);
                let value = e.flash;
                self.entries.insert(i, SessionEntry { token: e.token, flash: Flash::Empty });
                proof {
                    assert(self.entries@ =~= pre.entries@.update(
                        i as int,
                        SessionEntry { token: pre.entries@[i as int].token, flash: Flash::Empty },
                    ));
                    lemma_map_after_update(pre, *self, i as int, Flash::Empty);
                    lemma_token_index(pre, token@);
                    assert(value == pre.spec_flash(token@));
                }
                value
            },
            None => {
                proof {
                    assert(!pre.as_map().contains_key(token@));
                }
                Flash::Empty
            },
        }
    }

    /// Wholesale compaction: every entry is discarded and replaced by one
    /// fresh empty-flash entry per known author. In-flight flash state of
    /// anonymous sessions is lost by design, to bound the registry's size.
    pub fn compact(&mut self, notes: &Vec<WishNote>)
        requires
            old(self).wf(),
            forall|i: int, j: int|
                0 <= i < j < notes@.len() ==> notes@[i].author_id@ != notes@[j].author_id@,
        ensures
            final(self).wf(),
            final(self).as_map() == author_baseline(authors_of(notes@)),
            final(self).size() == notes@.len(),
    {
        self.entries.clear();
        let mut i: usize = 0;
        while i < notes.len()
            invariant
                i <= notes@.len(),
                self.entries@.len() == i,
                forall|j: int|
                    0 <= j < i ==> self.entries@[j].token@ == notes@[j].author_id@
                        && self.entries@[j].flash == Flash::Empty,
                forall|a: int, b: int|
                    0 <= a < b < notes@.len() ==> notes@[a].author_id@ != notes@[b].author_id@,
            decreases notes@.len() - i,
        {
            let entry = SessionEntry { token: notes[i].author_id.clone(), flash: Flash::Empty };
            self.entries.push(entry);
            i += 1;
        }
        proof {
            assert forall|a: int, b: int|
                0 <= a < b < self.entries@.len() implies self.entries@[a].token@
                != self.entries@[b].token@ by {
                assert(notes@[a].author_id@ != notes@[b].author_id@);
            }
            let au = authors_of(notes@);
            assert forall|t: Seq<char>| self.spec_contains(t) == au.contains(t) by {
                if self.spec_contains(t) {
                    let j = choose|j: int|
                        0 <= j < self.entries@.len() && self.entries@[j].token@ == t;
                    assert(au[j] == t);
                }
                if au.contains(t) {
                    let j = choose|j: int| 0 <= j < au.len() && au[j] == t;
                    assert(self.entries@[j].token@ == t);
                }
            }
            assert forall|t: Seq<char>| self.spec_contains(t) implies self.spec_flash(t)
                == Flash::Empty by {
                lemma_token_index(*self, t);
            }
            assert(self.as_map() =~= author_baseline(authors_of(notes@)));
        }
    }
}

/// The token present in a registry with distinct tokens has exactly one
/// entry, and `index_of` names it.
proof fn lemma_token_index(r: SessionRegistry, t: Seq<char>)
    requires
        r.wf(),
        r.spec_contains(t),
    ensures
        0 <= r.index_of(t) < r.entries@.len(),
        r.entries@[r.index_of(t)].token@ == t,
        forall|j: int| 0 <= j < r.entries@.len() && r.entries@[j].token@ == t ==> j == r.index_of(
            t,
        ),
{
    let i = r.index_of(t);
    assert(0 <= i < r.entries@.len() && r.entries@[i].token@ == t);
    assert forall|j: int| 0 <= j < r.entries@.len() && r.entries@[j].token@ == t implies j
        == i by {
        if j < i {
            assert(r.entries@[j].token@ != r.entries@[i].token@);
        } else if i < j {
            assert(r.entries@[i].token@ != r.entries@[j].token@);
        }
    }
}

/// Overwriting the flash of the entry at `i` updates the abstract map at
/// that entry's token and nothing else.
proof fn lemma_map_after_update(r0: SessionRegistry, r1: SessionRegistry, i: int, v: Flash)
    requires
        r0.wf(),
        0 <= i < r0.entries@.len(),
        r1.entries@ == r0.entries@.update(
            i,
            SessionEntry { token: r0.entries@[i].token, flash: v },
        ),
    ensures
        r1.wf(),
        r1.size() == r0.size(),
        r1.as_map() == r0.as_map().insert(r0.entries@[i].token@, v),
{
    let t0 = r0.entries@[i].token@;
    assert(forall|j: int|
        0 <= j < r1.entries@.len() ==> r1.entries@[j].token == r0.entries@[j].token);
    assert forall|t: Seq<char>| r1.spec_contains(t) == r0.spec_contains(t) by {
        if r1.spec_contains(t) {
            let j = choose|j: int| 0 <= j < r1.entries@.len() && r1.entries@[j].token@ == t;
            assert(r0.entries@[j].token@ == t);
        }
        if r0.spec_contains(t) {
            let j = choose|j: int| 0 <= j < r0.entries@.len() && r0.entries@[j].token@ == t;
            assert(r1.entries@[j].token@ == t);
        }
    }
    assert forall|t: Seq<char>| r0.spec_contains(t) implies r1.spec_flash(t) == (if t == t0 {
        v
    } else {
        r0.spec_flash(t)
    }) by {
        lemma_token_index(r0, t);
        lemma_token_index(r1, t);
        let j0 = r0.index_of(t);
        let j1 = r1.index_of(t);
        assert(r0.entries@[j1].token@ == t);
        assert(j1 == j0);
        if t == t0 {
            assert(j0 == i);
        }
    }
    assert(r1.as_map() =~= r0.as_map().insert(t0, v));
}

/// Appending a fresh token adds exactly one binding to the abstract map.
proof fn lemma_map_after_push(r0: SessionRegistry, r1: SessionRegistry, t: Seq<char>, v: Flash)
    requires
        r0.wf(),
        !r0.spec_contains(t),
        r1.entries@.len() == r0.entries@.len() + 1,
        r1.entries@.subrange(0, r0.entries@.len() as int) == r0.entries@,
        r1.entries@.last().token@ == t,
        r1.entries@.last().flash == v,
    ensures
        r1.wf(),
        r1.size() == r0.size() + 1,
        r1.as_map() == r0.as_map().insert(t, v),
{
    let n = r0.entries@.len() as int;
    assert(forall|j: int| 0 <= j < n ==> r1.entries@[j] == r0.entries@[j]);
    assert forall|a: int, b: int| 0 <= a < b < r1.entries@.len() implies r1.entries@[a].token@
        != r1.entries@[b].token@ by {
        if b == n {
            if r0.entries@[a].token@ == t {
                assert(r0.spec_contains(t));
            }
        }
    }
    assert forall|u: Seq<char>| r1.spec_contains(u) == (r0.spec_contains(u) || u == t) by {
        if r1.spec_contains(u) {
            let j = choose|j: int| 0 <= j < r1.entries@.len() && r1.entries@[j].token@ == u;
            if j < n {
                assert(r0.entries@[j].token@ == u);
            }
        }
        if r0.spec_contains(u) {
            let j = choose|j: int| 0 <= j < n && r0.entries@[j].token@ == u;
            assert(r1.entries@[j].token@ == u);
        }
        if u == t {
            assert(r1.entries@[n].token@ == u);
        }
    }
    assert forall|u: Seq<char>| r1.spec_contains(u) implies r1.spec_flash(u) == (if u == t {
        v
    } else {
        r0.spec_flash(u)
    }) by {
        lemma_token_index(r1, u);
        let j1 = r1.index_of(u);
        if u == t {
            assert(j1 == n);
        } else {
            assert(r1.entries@[j1].token@ != t);
            assert(j1 != n);
            assert(r0.entries@[j1].token@ == u);
            lemma_token_index(r0, u);
        }
    }
    assert(r1.as_map() =~= r0.as_map().insert(t, v));
}

} // verus!
