//! Tests of the parts around the worker: the item entity, the store, the
//! candidate-list building and the protocol types.

use tagnav::file_list::{image_stem, setup_file_list};
use tagnav::item::{get_std_img, CaptionedImg};
use tagnav::protocol::{BufferCommand, BufferResult};
use tagnav::store::Store;

/// A valid 1x1 RGB PNG.
fn png_1x1() -> Vec<u8> {
    vec![
        137, 80, 78, 71, 13, 10, 26, 10, 0, 0, 0, 13, 73, 72, 68, 82, 0, 0, 0, 1, 0, 0, 0, 1, 8,
        2, 0, 0, 0, 144, 119, 83, 222, 0, 0, 0, 12, 73, 68, 65, 84, 120, 156, 99, 248, 207, 192,
        0, 0, 3, 1, 1, 0, 201, 254, 146, 239, 0, 0, 0, 0, 73, 69, 78, 68, 174, 66, 96, 130,
    ]
}

#[test]
fn item_is_built_from_decodable_bytes() {
    let bytes = png_1x1();
    let item = CaptionedImg::new("pic", "a tag", &bytes).unwrap();
    assert_eq!(item.name(), "pic");
    assert_eq!(item.caption(), "a tag");
    assert_eq!(item.img(), bytes);
    assert_eq!(item.width(), 1);
    assert_eq!(item.height(), 1);
    // 1x1 differs from the canonical 512x512, so the advisory flag is set.
    assert!(item.is_wrong_size());
}

#[test]
fn item_is_refused_for_undecodable_bytes() {
    assert!(CaptionedImg::new("pic", "", &[0, 1, 2, 3]).is_none());
    assert!(CaptionedImg::new("pic", "", &[]).is_none());
}

#[test]
fn item_caption_can_be_edited() {
    let bytes = png_1x1();
    let mut item = CaptionedImg::new("pic", "old", &bytes).unwrap();
    item.set_caption("new".to_string());
    assert_eq!(item.caption(), "new");
    assert_eq!(item.name(), "pic");
}

#[test]
fn placeholder_needs_no_storage() {
    let item = get_std_img();
    assert_eq!(item.name(), "no image");
    assert_eq!(item.caption(), "");
    assert!(item.img().is_empty());
    assert!(item.is_wrong_size());
}

#[test]
fn store_reads_missing_files_as_empty() {
    let mut store = Store::new();
    store.add_entry("only-caption".to_string(), None, Some("words".to_string()));
    let (bytes, caption) = store.read(&"only-caption".to_string());
    assert!(bytes.is_empty());
    assert_eq!(caption, "words");

    let (bytes, caption) = store.read(&"absent".to_string());
    assert!(bytes.is_empty());
    assert_eq!(caption, "");

    store.add_entry("only-image".to_string(), Some(vec![9, 9]), None);
    let (bytes, caption) = store.read(&"only-image".to_string());
    assert_eq!(bytes, vec![9, 9]);
    assert_eq!(caption, "");
}

#[test]
fn store_write_overwrites_wholesale() {
    let mut store = Store::new();
    store.add_entry("a".to_string(), Some(vec![1]), Some("first".to_string()));
    store.write(&"a".to_string(), &"second".to_string());
    let (bytes, caption) = store.read(&"a".to_string());
    assert_eq!(bytes, vec![1]);
    assert_eq!(caption, "second");

    // A write under a fresh name creates a sidecar-only entry.
    store.write(&"new".to_string(), &"made".to_string());
    let (bytes, caption) = store.read(&"new".to_string());
    assert!(bytes.is_empty());
    assert_eq!(caption, "made");
}

#[test]
fn image_stems_follow_the_extension() {
    assert_eq!(image_stem(&"a.png".to_string()), Some("a".to_string()));
    assert_eq!(image_stem(&"b.jpg".to_string()), Some("b".to_string()));
    assert_eq!(image_stem(&"c.jpeg".to_string()), Some("c".to_string()));
    assert_eq!(image_stem(&"notes.txt".to_string()), None);
    assert_eq!(image_stem(&"plain".to_string()), None);
    assert_eq!(image_stem(&"tricky.png.txt".to_string()), None);
}

#[test]
fn file_list_keeps_image_stems_in_order() {
    let listing = vec![
        "a.png".to_string(),
        "a.txt".to_string(),
        "b.jpeg".to_string(),
        "readme".to_string(),
        "c.jpg".to_string(),
    ];
    let list = setup_file_list(&listing);
    assert_eq!(
        list,
        vec!["a".to_string(), "b".to_string(), "c".to_string()]
    );

    assert!(setup_file_list(&Vec::new()).is_empty());
}

#[test]
fn protocol_replies_carry_their_direction() {
    let bytes = png_1x1();
    let img = CaptionedImg::new("pic", "", &bytes).unwrap();
    let next = BufferResult::Next(img);
    assert!(next.is_next());
    assert!(!next.is_previous());
    assert!(!next.is_none());
    assert!(next.matches_direction(true));
    assert!(!next.matches_direction(false));
    assert_eq!(next.unwrap().name(), "pic");

    let img = CaptionedImg::new("pic", "", &bytes).unwrap();
    let previous = BufferResult::Previous(img);
    assert!(previous.is_previous());
    assert!(previous.matches_direction(false));
    assert_eq!(previous.into_option().unwrap().name(), "pic");

    let nothing = BufferResult::NoMove;
    assert!(nothing.is_none());
    assert!(!nothing.matches_direction(true));
    assert!(!nothing.matches_direction(false));
    assert!(nothing.into_option().is_none());
}

#[test]
fn commands_follow_the_requested_direction() {
    assert!(matches!(
        BufferCommand::for_direction(true),
        BufferCommand::LoadNext
    ));
    assert!(matches!(
        BufferCommand::for_direction(false),
        BufferCommand::LoadPrevious
    ));
}
