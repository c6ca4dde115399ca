//! Scenario tests for the navigator worker: prefetch order, direction
//! reversal, boundaries, list repair and caption saves, all against an
//! in-memory store with real image payloads.

use tagnav::protocol::{BufferCommand, BufferResult};
use tagnav::store::Store;
use tagnav::worker::{load_valid_image, try_load_image, StartupError, Worker};

/// A valid 1x1 RGB PNG.
fn png_1x1() -> Vec<u8> {
    vec![
        137, 80, 78, 71, 13, 10, 26, 10, 0, 0, 0, 13, 73, 72, 68, 82, 0, 0, 0, 1, 0, 0, 0, 1, 8,
        2, 0, 0, 0, 144, 119, 83, 222, 0, 0, 0, 12, 73, 68, 65, 84, 120, 156, 99, 248, 207, 192,
        0, 0, 3, 1, 1, 0, 201, 254, 146, 239, 0, 0, 0, 0, 73, 69, 78, 68, 174, 66, 96, 130,
    ]
}

fn corrupt_bytes() -> Vec<u8> {
    vec![1, 2, 3, 4, 5, 6, 7, 8]
}

fn names(list: &[&str]) -> Vec<String> {
    list.iter().map(|s| s.to_string()).collect()
}

fn listed(worker: &Worker) -> Vec<String> {
    worker.file_list().clone()
}

#[test]
fn concrete_scenario_skips_corrupt_entry() {
    // Directory: a.png / a.txt = "x", b.png corrupt, c.png / c.txt = "y".
    let mut store = Store::new();
    store.add_entry("a".to_string(), Some(png_1x1()), Some("x".to_string()));
    store.add_entry("b".to_string(), Some(corrupt_bytes()), None);
    store.add_entry("c".to_string(), Some(png_1x1()), Some("y".to_string()));
    let mut worker = Worker::new(&store, names(&["a", "b", "c"])).unwrap();

    let first = worker.handle_next(&store).unwrap();
    assert_eq!(first.name(), "a");
    assert_eq!(first.caption(), "x");

    let second = worker.handle_next(&store).unwrap();
    assert_eq!(second.name(), "c");
    assert_eq!(second.caption(), "y");

    assert!(worker.handle_next(&store).is_none());
    assert_eq!(listed(&worker), names(&["a", "c"]));
}

#[test]
fn empty_directory_is_fatal() {
    let store = Store::new();
    let result = Worker::new(&store, Vec::new());
    match result {
        Err(StartupError::NoCandidates) => {}
        _ => panic!("construction over an empty list must fail"),
    }
    assert_eq!(
        StartupError::NoCandidates.describe(),
        "no candidate images found at startup"
    );
}

#[test]
fn forward_sweep_delivers_in_list_order() {
    let mut store = Store::new();
    store.add_entry("a".to_string(), Some(png_1x1()), Some("1".to_string()));
    store.add_entry("b".to_string(), Some(png_1x1()), Some("2".to_string()));
    store.add_entry("c".to_string(), Some(png_1x1()), Some("3".to_string()));
    let mut worker = Worker::new(&store, names(&["a", "b", "c"])).unwrap();

    assert_eq!(worker.handle_next(&store).unwrap().name(), "a");
    assert_eq!(worker.handle_next(&store).unwrap().name(), "b");
    assert_eq!(worker.handle_next(&store).unwrap().name(), "c");
    assert!(worker.handle_next(&store).is_none());
    assert_eq!(worker.position(), Some(2));
    assert_eq!(listed(&worker), names(&["a", "b", "c"]));
}

#[test]
fn first_next_does_not_double_advance() {
    let mut store = Store::new();
    store.add_entry("a".to_string(), Some(png_1x1()), None);
    store.add_entry("b".to_string(), Some(png_1x1()), None);
    let mut worker = Worker::new(&store, names(&["a", "b"])).unwrap();

    assert_eq!(worker.handle_next(&store).unwrap().name(), "a");
    assert_eq!(worker.position(), Some(0));
    assert_eq!(worker.handle_next(&store).unwrap().name(), "b");
    assert_eq!(worker.position(), Some(1));
}

#[test]
fn reversal_returns_item_at_new_position() {
    let mut store = Store::new();
    store.add_entry("a".to_string(), Some(png_1x1()), None);
    store.add_entry("b".to_string(), Some(png_1x1()), None);
    store.add_entry("c".to_string(), Some(png_1x1()), None);
    let mut worker = Worker::new(&store, names(&["a", "b", "c"])).unwrap();

    worker.handle_next(&store).unwrap();
    let second = worker.handle_next(&store).unwrap();
    assert_eq!(second.name(), "b");
    // The slot now holds the forward neighbour "c"; going back must deliver
    // "a", the item at the new position, never that stale neighbour.
    let back = worker.handle_previous(&store).unwrap();
    assert_eq!(back.name(), "a");
    assert_eq!(worker.position(), Some(0));
}

#[test]
fn backward_sweep_delivers_in_reverse_order() {
    let mut store = Store::new();
    store.add_entry("a".to_string(), Some(png_1x1()), None);
    store.add_entry("b".to_string(), Some(png_1x1()), None);
    store.add_entry("c".to_string(), Some(png_1x1()), None);
    let mut worker = Worker::new(&store, names(&["a", "b", "c"])).unwrap();

    worker.handle_next(&store);
    worker.handle_next(&store);
    worker.handle_next(&store);
    assert_eq!(worker.handle_previous(&store).unwrap().name(), "b");
    assert_eq!(worker.handle_previous(&store).unwrap().name(), "a");
    assert!(worker.handle_previous(&store).is_none());
    assert_eq!(worker.position(), Some(0));
}

#[test]
fn boundaries_are_idempotent() {
    let mut store = Store::new();
    store.add_entry("a".to_string(), Some(png_1x1()), None);
    store.add_entry("b".to_string(), Some(png_1x1()), None);
    let mut worker = Worker::new(&store, names(&["a", "b"])).unwrap();

    // Before the first delivery, Previous moves nothing.
    assert!(worker.handle_previous(&store).is_none());
    worker.handle_next(&store).unwrap();
    // At index 0, Previous moves nothing, repeatedly.
    assert!(worker.handle_previous(&store).is_none());
    assert!(worker.handle_previous(&store).is_none());
    assert_eq!(worker.position(), Some(0));

    worker.handle_next(&store).unwrap();
    // At the last index, Next moves nothing, repeatedly.
    assert!(worker.handle_next(&store).is_none());
    assert!(worker.handle_next(&store).is_none());
    assert_eq!(worker.position(), Some(1));
}

#[test]
fn list_only_shrinks_and_removed_names_stay_gone() {
    let mut store = Store::new();
    store.add_entry("a".to_string(), Some(png_1x1()), None);
    store.add_entry("b".to_string(), Some(corrupt_bytes()), None);
    store.add_entry("c".to_string(), Some(png_1x1()), None);
    store.add_entry("d".to_string(), Some(corrupt_bytes()), None);
    let mut worker = Worker::new(&store, names(&["a", "b", "c", "d"])).unwrap();

    let mut last_len = listed(&worker).len();
    for _ in 0..6 {
        worker.handle_next(&store);
        let now = listed(&worker);
        assert!(now.len() <= last_len);
        last_len = now.len();
    }
    for _ in 0..6 {
        worker.handle_previous(&store);
        let now = listed(&worker);
        assert!(now.len() <= last_len);
        last_len = now.len();
    }
    let now = listed(&worker);
    assert!(!now.contains(&"b".to_string()));
    assert!(!now.contains(&"d".to_string()));
    assert_eq!(now, names(&["a", "c"]));
}

#[test]
fn save_round_trip_returns_caption_exactly() {
    let mut store = Store::new();
    store.add_entry("a".to_string(), Some(png_1x1()), Some("old".to_string()));
    let mut worker = Worker::new(&store, names(&["a"])).unwrap();

    let reply = worker.handle_command(
        &mut store,
        BufferCommand::Save("a".to_string(), "tag a, tag b".to_string()),
    );
    assert!(reply.is_none());

    let fresh = try_load_image(&store, &"a".to_string()).unwrap();
    assert_eq!(fresh.caption(), "tag a, tag b");
    assert_eq!(fresh.name(), "a");
}

#[test]
fn save_creates_missing_sidecar() {
    let mut store = Store::new();
    store.add_entry("a".to_string(), Some(png_1x1()), None);
    let loaded = try_load_image(&store, &"a".to_string()).unwrap();
    assert_eq!(loaded.caption(), "");

    let mut worker = Worker::new(&store, names(&["a"])).unwrap();
    worker.handle_command(
        &mut store,
        BufferCommand::Save("a".to_string(), "fresh".to_string()),
    );
    let reloaded = try_load_image(&store, &"a".to_string()).unwrap();
    assert_eq!(reloaded.caption(), "fresh");
}

#[test]
fn reversal_reloads_saved_caption() {
    let mut store = Store::new();
    store.add_entry("a".to_string(), Some(png_1x1()), Some("before".to_string()));
    store.add_entry("b".to_string(), Some(png_1x1()), None);
    let mut worker = Worker::new(&store, names(&["a", "b"])).unwrap();

    worker.handle_next(&store);
    worker.handle_next(&store);
    worker.handle_command(
        &mut store,
        BufferCommand::Save("a".to_string(), "after".to_string()),
    );
    // The reversal discards the stale slot and loads "a" fresh, so the
    // saved caption is visible.
    let back = worker.handle_previous(&store).unwrap();
    assert_eq!(back.name(), "a");
    assert_eq!(back.caption(), "after");
}

#[test]
fn exhausted_list_yields_placeholder_from_repair() {
    let mut store = Store::new();
    store.add_entry("x".to_string(), Some(corrupt_bytes()), None);
    let mut files = names(&["x"]);
    let (item, index) = load_valid_image(&store, &mut files, 0);
    assert!(files.is_empty());
    assert_eq!(index, 0);
    assert_eq!(item.name(), "no image");
    assert_eq!(item.caption(), "");
}

#[test]
fn repair_steps_back_when_the_tail_is_removed() {
    let mut store = Store::new();
    store.add_entry("a".to_string(), Some(png_1x1()), None);
    store.add_entry("b".to_string(), Some(corrupt_bytes()), None);
    let mut files = names(&["a", "b"]);
    // The scan starts on the corrupt last entry, removes it, and steps back
    // onto the new last entry.
    let (item, index) = load_valid_image(&store, &mut files, 1);
    assert_eq!(item.name(), "a");
    assert_eq!(index, 0);
    assert_eq!(files, names(&["a"]));
}

#[test]
fn priming_repairs_an_unloadable_head() {
    let mut store = Store::new();
    store.add_entry("x".to_string(), Some(corrupt_bytes()), None);
    store.add_entry("a".to_string(), Some(png_1x1()), Some("kept".to_string()));
    let mut worker = Worker::new(&store, names(&["x", "a"])).unwrap();
    assert_eq!(listed(&worker), names(&["a"]));
    let first = worker.handle_next(&store).unwrap();
    assert_eq!(first.name(), "a");
    assert_eq!(first.caption(), "kept");
    assert_eq!(worker.position(), Some(0));
}

#[test]
fn worker_over_unloadable_candidates_moves_nowhere() {
    let mut store = Store::new();
    store.add_entry("x".to_string(), Some(corrupt_bytes()), None);
    store.add_entry("y".to_string(), Some(corrupt_bytes()), None);
    let mut worker = Worker::new(&store, names(&["x", "y"])).unwrap();
    // Priming already repaired the list down to nothing.
    assert!(listed(&worker).is_empty());
    assert!(worker.handle_next(&store).is_none());
    assert!(worker.handle_previous(&store).is_none());
}

#[test]
fn handle_command_tags_replies_by_direction() {
    let mut store = Store::new();
    store.add_entry("a".to_string(), Some(png_1x1()), None);
    store.add_entry("b".to_string(), Some(png_1x1()), None);
    let mut worker = Worker::new(&store, names(&["a", "b"])).unwrap();

    match worker.handle_command(&mut store, BufferCommand::LoadNext) {
        Some(BufferResult::Next(img)) => assert_eq!(img.name(), "a"),
        _ => panic!("a LoadNext must draw a Next reply"),
    }
    match worker.handle_command(&mut store, BufferCommand::LoadPrevious) {
        Some(BufferResult::NoMove) => {}
        _ => panic!("a LoadPrevious at index 0 must draw NoMove"),
    }
    match worker.handle_command(&mut store, BufferCommand::LoadNext) {
        Some(BufferResult::Next(img)) => assert_eq!(img.name(), "b"),
        _ => panic!("a LoadNext must draw a Next reply"),
    }
    match worker.handle_command(&mut store, BufferCommand::LoadNext) {
        Some(BufferResult::NoMove) => {}
        _ => panic!("a LoadNext at the end must draw NoMove"),
    }
    assert!(worker.handle_command(&mut store, BufferCommand::Stop).is_none());
}
