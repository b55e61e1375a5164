use secret_santa::Exchange;
use secret_santa::ExchangeError;
use secret_santa::NoteStore;
use secret_santa::SessionRegistry;

fn fresh_exchange() -> Exchange {
    Exchange::new(NoteStore::new(), SessionRegistry::new())
}

fn register(ex: &mut Exchange, token: &str) {
    ex.registry.register(&token.to_string());
}

fn submit(ex: &mut Exchange, token: &str, p1: &str, p2: &str, p3: &str, place: &str) {
    let note = ex
        .prepare_submit(
            &token.to_string(),
            p1.to_string(),
            p2.to_string(),
            p3.to_string(),
            place.to_string(),
        )
        .expect("submission should be accepted");
    ex.commit_submit(note);
}

#[test]
fn empty_store_no_token_issues_fresh_session() {
    let mut ex = fresh_exchange();
    let view = ex.visit(None);
    assert_eq!(view.token.len(), 10);
    assert!(view.token.chars().all(|c| c.is_ascii_alphanumeric()));
    assert!(!view.filled);
    assert!(!view.fill_success);
    assert!(!view.draw_success);
    assert!(view.drawn.is_none());
    assert_eq!(ex.store.list().len(), 0);
}

#[test]
fn submit_then_revisit_shows_filled_and_flash_once() {
    let mut ex = fresh_exchange();
    let view = ex.visit(None);
    let token = view.token.clone();
    let note = ex
        .prepare_submit(
            &token,
            "socks".to_string(),
            "book".to_string(),
            "game".to_string(),
            "lighthouse".to_string(),
        )
        .expect("fresh submission should be accepted");
    // The redirect carries the same token: the note is keyed by it.
    assert_eq!(note.author_id, token);
    ex.commit_submit(note);

    let revisit = ex.visit(Some(token.clone()));
    assert_eq!(revisit.token, token);
    assert!(revisit.filled);
    assert!(revisit.fill_success);
    assert!(!revisit.draw_success);

    let again = ex.visit(Some(token.clone()));
    assert!(again.filled);
    assert!(!again.fill_success);
    assert!(!again.draw_success);
}

#[test]
fn two_authors_draw_is_deterministic_and_single() {
    let mut ex = fresh_exchange();
    register(&mut ex, "A");
    register(&mut ex, "B");
    submit(&mut ex, "A", "socks", "book", "game", "lighthouse");
    submit(&mut ex, "B", "pen", "mug", "hat", "desert");

    let picked = ex.draw(&"A".to_string()).expect("draw should succeed");
    assert_eq!(picked, "B");
    let b_note = ex
        .store
        .find_by_author(&"B".to_string())
        .expect("B's note is stored");
    assert_eq!(b_note.santa_id, "A");

    let second = ex.draw(&"A".to_string());
    assert_eq!(second, Err(ExchangeError::AlreadyDrawn));

    let view = ex.visit(Some("A".to_string()));
    assert!(view.draw_success);
    let drawn = view.drawn.expect("A drew B's note");
    assert_eq!(drawn.author_id, "B");
    assert_eq!(drawn.present1, "pen");
    assert_eq!(drawn.my_place, "desert");
}

#[test]
fn pool_of_two_picks_first_when_requester_is_second() {
    let mut ex = fresh_exchange();
    register(&mut ex, "A");
    register(&mut ex, "B");
    submit(&mut ex, "A", "socks", "book", "game", "lighthouse");
    submit(&mut ex, "B", "pen", "mug", "hat", "desert");

    let picked = ex.draw(&"B".to_string()).expect("draw should succeed");
    assert_eq!(picked, "A");
}

#[test]
fn sole_eligible_note_is_self_assigned() {
    // Pinned current behavior: with a pool of one holding only the
    // requester's own note, the requester becomes their own santa.
    let mut ex = fresh_exchange();
    register(&mut ex, "A");
    submit(&mut ex, "A", "socks", "book", "game", "lighthouse");

    let picked = ex.draw(&"A".to_string()).expect("draw should succeed");
    assert_eq!(picked, "A");
    let note = ex
        .store
        .find_by_author(&"A".to_string())
        .expect("A's note is stored");
    assert_eq!(note.santa_id, "A");
}

#[test]
fn every_note_ends_with_exactly_one_santa() {
    let mut ex = fresh_exchange();
    register(&mut ex, "A");
    register(&mut ex, "B");
    submit(&mut ex, "A", "socks", "book", "game", "lighthouse");
    submit(&mut ex, "B", "pen", "mug", "hat", "desert");

    assert_eq!(ex.draw(&"A".to_string()).expect("pool holds A and B"), "B");
    assert_eq!(ex.draw(&"B".to_string()).expect("pool holds only A"), "A");

    let listed = ex.store.list();
    assert_eq!(listed[0].author_id, "A");
    assert_eq!(listed[0].santa_id, "B");
    assert_eq!(listed[1].author_id, "B");
    assert_eq!(listed[1].santa_id, "A");

    // A santa, once set, stays: any further draw finds nothing to claim
    // and leaves both notes as they are.
    assert_eq!(ex.draw(&"A".to_string()), Err(ExchangeError::AlreadyDrawn));
    assert_eq!(ex.store.list()[0].santa_id, "B");
    assert_eq!(ex.store.list()[1].santa_id, "A");
}

#[test]
fn draw_without_note_is_rejected() {
    let mut ex = fresh_exchange();
    register(&mut ex, "A");
    register(&mut ex, "B");
    submit(&mut ex, "A", "socks", "book", "game", "lighthouse");

    let r = ex.draw(&"B".to_string());
    assert_eq!(r, Err(ExchangeError::NotYetSubmitted));
}

#[test]
fn draw_with_everything_taken_is_rejected() {
    let mut ex = fresh_exchange();
    register(&mut ex, "A");
    register(&mut ex, "B");
    submit(&mut ex, "A", "socks", "book", "game", "lighthouse");
    submit(&mut ex, "B", "pen", "mug", "hat", "desert");
    // Both notes get outside santas, so the pool is empty while A has
    // neither drawn nor been blocked any other way.
    ex.store.assign_santa(&"A".to_string(), &"Y".to_string());
    ex.store.assign_santa(&"B".to_string(), &"Z".to_string());

    let r = ex.draw(&"A".to_string());
    assert_eq!(r, Err(ExchangeError::NothingAvailable));
}

#[test]
fn large_pool_excludes_requester_and_spreads_roughly_uniformly() {
    let mut counts = [0usize; 3];
    let others = ["B", "C", "D"];
    for _ in 0..300 {
        let mut ex = fresh_exchange();
        for t in ["A", "B", "C", "D"] {
            register(&mut ex, t);
            submit(&mut ex, t, "socks", "book", "game", "lighthouse");
        }
        let picked = ex.draw(&"A".to_string()).expect("draw should succeed");
        assert_ne!(picked, "A");
        let slot = others
            .iter()
            .position(|o| *o == picked)
            .expect("picked one of the eligible authors");
        counts[slot] += 1;
    }
    // Each eligible author is expected about 100 times out of 300; a
    // count below 40 is far outside any plausible run of a uniform draw.
    for c in counts {
        assert!(c >= 40, "selection badly skewed: {:?}", counts);
    }
}

#[test]
fn registry_is_compacted_when_it_outgrows_the_authors() {
    let mut ex = fresh_exchange();
    for _ in 0..1030 {
        let view = ex.visit(None);
        assert_eq!(view.token.len(), 10);
    }
    // Without the wholesale compaction the registry would hold one entry
    // per visit.
    assert!(ex.registry.len() <= 10);
}
