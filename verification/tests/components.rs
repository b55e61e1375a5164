use secret_santa::Exchange;
use secret_santa::ExchangeError;
use secret_santa::Flash;
use secret_santa::NoteField;
use secret_santa::NoteStore;
use secret_santa::SessionRegistry;
use secret_santa::WishNote;

fn note(author: &str, santa: &str) -> WishNote {
    WishNote {
        present1: "socks".to_string(),
        present2: "book".to_string(),
        present3: "game".to_string(),
        my_place: "lighthouse".to_string(),
        author_id: author.to_string(),
        santa_id: santa.to_string(),
    }
}

fn exchange_with(tokens: &[&str]) -> Exchange {
    let mut ex = Exchange::new(NoteStore::new(), SessionRegistry::new());
    for t in tokens {
        ex.registry.register(&t.to_string());
    }
    ex
}

#[test]
fn flash_is_returned_exactly_once() {
    let mut reg = SessionRegistry::new();
    reg.register(&"A".to_string());
    assert!(reg.set_flash(&"A".to_string(), Flash::FillSuccess));
    assert_eq!(reg.take_flash(&"A".to_string()), Flash::FillSuccess);
    assert_eq!(reg.take_flash(&"A".to_string()), Flash::Empty);
    assert!(reg.set_flash(&"A".to_string(), Flash::DrawSuccess));
    assert_eq!(reg.take_flash(&"A".to_string()), Flash::DrawSuccess);
    assert_eq!(reg.take_flash(&"A".to_string()), Flash::Empty);
}

#[test]
fn unknown_token_reads_empty_and_rejects_writes() {
    let mut reg = SessionRegistry::new();
    assert!(!reg.set_flash(&"ghost".to_string(), Flash::FillSuccess));
    assert_eq!(reg.take_flash(&"ghost".to_string()), Flash::Empty);
    assert!(!reg.contains(&"ghost".to_string()));
}

#[test]
fn submission_requires_a_known_session() {
    let ex = exchange_with(&[]);
    let r = ex.prepare_submit(
        &"nobody".to_string(),
        "socks".to_string(),
        "book".to_string(),
        "game".to_string(),
        "lighthouse".to_string(),
    );
    assert_eq!(r.unwrap_err(), ExchangeError::UnknownSession);
}

#[test]
fn duplicate_author_is_rejected() {
    let mut ex = exchange_with(&["A"]);
    let first = ex
        .prepare_submit(
            &"A".to_string(),
            "socks".to_string(),
            "book".to_string(),
            "game".to_string(),
            "lighthouse".to_string(),
        )
        .expect("first submission is accepted");
    ex.commit_submit(first);
    let second = ex.prepare_submit(
        &"A".to_string(),
        "pen".to_string(),
        "mug".to_string(),
        "hat".to_string(),
        "desert".to_string(),
    );
    assert_eq!(second.unwrap_err(), ExchangeError::DuplicateSubmission);
}

#[test]
fn validation_names_the_first_missing_field_in_order() {
    let ex = exchange_with(&["A"]);
    let cases: [(&str, &str, &str, &str, NoteField); 5] = [
        ("", "book", "game", "lighthouse", NoteField::Present1),
        ("socks", "", "game", "lighthouse", NoteField::Present2),
        ("socks", "book", "", "lighthouse", NoteField::Present3),
        ("socks", "book", "game", "", NoteField::Place),
        ("", "", "", "", NoteField::Present1),
    ];
    for (p1, p2, p3, place, field) in cases {
        let r = ex.prepare_submit(
            &"A".to_string(),
            p1.to_string(),
            p2.to_string(),
            p3.to_string(),
            place.to_string(),
        );
        assert_eq!(r.unwrap_err(), ExchangeError::ValidationError(field));
    }
}

#[test]
fn complete_submission_is_accepted() {
    let ex = exchange_with(&["A"]);
    let note = ex
        .prepare_submit(
            &"A".to_string(),
            "socks".to_string(),
            "book".to_string(),
            "game".to_string(),
            "lighthouse".to_string(),
        )
        .expect("complete submission is accepted");
    assert_eq!(note.author_id, "A");
    assert_eq!(note.present1, "socks");
    assert_eq!(note.present2, "book");
    assert_eq!(note.present3, "game");
    assert_eq!(note.my_place, "lighthouse");
    assert_eq!(note.santa_id, "");
}

#[test]
fn bootstrap_restores_notes_and_authors() {
    let records = vec![note("A", ""), note("B", "A"), note("C", "")];
    let ex = Exchange::bootstrap(&records).expect("records are well formed");
    assert_eq!(ex.store.list().len(), 3);
    assert_eq!(ex.registry.len(), 3);
    let b = ex
        .store
        .find_by_author(&"B".to_string())
        .expect("B's note was restored");
    assert_eq!(b.santa_id, "A");
    let by_santa = ex
        .store
        .find_by_santa(&"A".to_string())
        .expect("A is B's santa");
    assert_eq!(by_santa.author_id, "B");
    assert!(ex.store.find_by_santa(&"Z".to_string()).is_none());
}

#[test]
fn bootstrap_rejects_duplicate_authors() {
    let records = vec![note("A", ""), note("A", "")];
    assert!(Exchange::bootstrap(&records).is_none());
}

#[test]
fn bootstrap_rejects_incomplete_notes() {
    let mut bad = note("A", "");
    bad.present2 = String::new();
    assert!(Exchange::bootstrap(&vec![bad]).is_none());
}

#[test]
fn bootstrap_rejects_a_repeated_santa() {
    let records = vec![note("A", "Z"), note("B", "Z")];
    assert!(Exchange::bootstrap(&records).is_none());
}

#[test]
fn listing_keeps_insertion_order() {
    let mut ex = exchange_with(&["A", "B"]);
    for t in ["A", "B"] {
        let n = ex
            .prepare_submit(
                &t.to_string(),
                "socks".to_string(),
                "book".to_string(),
                "game".to_string(),
                "lighthouse".to_string(),
            )
            .expect("submission is accepted");
        ex.commit_submit(n);
    }
    let listed = ex.store.list();
    assert_eq!(listed.len(), 2);
    assert_eq!(listed[0].author_id, "A");
    assert_eq!(listed[1].author_id, "B");
}

#[test]
fn error_messages_are_fixed_and_non_empty() {
    let msgs = [
        ExchangeError::ValidationError(NoteField::Present1).message(),
        ExchangeError::DuplicateSubmission.message(),
        ExchangeError::UnknownSession.message(),
        ExchangeError::NotYetSubmitted.message(),
        ExchangeError::AlreadyDrawn.message(),
        ExchangeError::NothingAvailable.message(),
        ExchangeError::StorageError.message(),
    ];
    for m in msgs {
        assert!(!m.is_empty());
    }
    assert_eq!(
        ExchangeError::DuplicateSubmission.message(),
        "you already submitted a note"
    );
}
