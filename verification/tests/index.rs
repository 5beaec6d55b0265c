use kibo_agent::index::{
    check_batch, check_size, plan_sync, read_source, resolve_text, ChunkTextError, EmbedSyncError, SourceSkip, SyncRun,
};

#[test]
fn text_under_the_limit_is_read() {
    assert_eq!(read_source(b"fn main() {}\n", 1024).unwrap(), "fn main() {}\n");
}

#[test]
fn a_file_over_the_limit_is_refused_with_its_size() {
    let skip = read_source("x".repeat(2_000).as_bytes(), 1_000).unwrap_err();
    assert!(matches!(skip, SourceSkip::TooLarge { size: 2_000, limit: 1_000 }), "{skip:?}");
    assert_eq!(skip.message(), "too large: 2000 bytes, the limit is 1000");
    assert_eq!(check_size(2_000, 1_000), Err(SourceSkip::TooLarge { size: 2_000, limit: 1_000 }));
    assert_eq!(check_size(1_000, 1_000), Ok(()));
}

#[test]
fn a_file_exactly_at_the_limit_is_read() {
    assert!(read_source("x".repeat(1_000).as_bytes(), 1_000).is_ok());
}

#[test]
fn binary_and_foreign_text_are_named() {
    assert_eq!(read_source(b"PNG\0\0", 100), Err(SourceSkip::Binary));
    assert_eq!(read_source(&[0x61, 0xff], 100), Err(SourceSkip::NotUtf8));
    assert_eq!(SourceSkip::NotUtf8.message(), "not UTF-8");
}

#[test]
fn a_chunk_is_read_only_from_the_file_it_was_cut_from() {
    let content = b"fn one() {}\nfn two() {}\n";
    let hash = *blake3::hash(content).as_bytes();
    assert_eq!(resolve_text(content, &hash, 12, 23, "a.rs", "a.rs#2").unwrap(), "fn two() {}");
    let stale = resolve_text(b"changed", &hash, 0, 3, "a.rs", "a.rs#2").unwrap_err();
    assert_eq!(stale, ChunkTextError::Stale("a.rs".into()));
    assert_eq!(stale.message(), "changed since it was indexed: a.rs");
    assert_eq!(resolve_text(content, &hash, 5, 99, "a.rs", "a.rs#2"), Err(ChunkTextError::OutOfBounds("a.rs#2".into())));
}

#[test]
fn the_model_returning_too_few_vectors_is_said_plainly() {
    let e = EmbedSyncError::WrongCount { expected: 64, got: 63 };
    assert_eq!(e.message(), "the model returned 63 vectors for 64 texts");
}

#[test]
fn a_request_during_a_sync_folds_into_it() {
    let mut run = SyncRun::new();
    assert!(run.claim(), "nothing running: this caller runs it");
    assert!(!run.claim(), "one is running: this request folds into it");
    assert!(run.go_again(), "the folded request costs one more pass");
    assert!(!run.go_again(), "nothing more asked: the run is given up");
    assert!(run.claim(), "the next request runs a sync of its own");
    run.release();
    assert!(run.claim());
}

fn key(id: &str, text: &str) -> (String, [u8; 32]) {
    (id.to_string(), *blake3::hash(text.as_bytes()).as_bytes())
}

#[test]
fn a_first_sync_embeds_every_chunk_and_a_second_embeds_none() {
    let chunks = vec![key("store.rs#1", "fn open_store() {}"), key("store.rs#2", "fn close_store() {}"), key("notes.md#1", "# Keyring")];
    let first = plan_sync(&vec![], &chunks);
    assert_eq!((first.pending.clone(), first.unchanged, first.removed), (vec![0, 1, 2], 0, 0));

    let held = chunks.clone();
    let second = plan_sync(&held, &chunks);
    assert_eq!((second.pending.len(), second.unchanged), (0, 3), "the model is asked again for nothing");
    assert_eq!(second.keep, vec![true, true, true]);
}

#[test]
fn a_changed_or_vanished_chunk_is_re_embedded_or_dropped() {
    let held = vec![key("a#1", "old"), key("gone#1", "x")];
    let chunks = vec![key("a#1", "new"), key("b#1", "fresh")];
    let plan = plan_sync(&held, &chunks);
    assert_eq!(plan.keep, vec![true, false]);
    assert_eq!(plan.removed, 1);
    assert_eq!(plan.pending, vec![0, 1]);
    assert_eq!(plan.unchanged, 0);
}

#[test]
fn a_model_that_returns_the_wrong_count_is_an_error() {
    assert_eq!(check_batch(2, 1), Err(EmbedSyncError::WrongCount { expected: 2, got: 1 }));
    assert_eq!(check_batch(2, 2), Ok(()));
}
