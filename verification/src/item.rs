//! The item entity: a loaded image + caption pair ready for display and
//! editing, together with the model of what decoding an image payload yields.

use vstd::prelude::*;

verus! {

/// Canonical width expected of every dataset image.
pub const EXPECTED_WIDTH: usize = 512;

/// Canonical height expected of every dataset image.
pub const EXPECTED_HEIGHT: usize = 512;

/// What decoding an image byte payload yields: the decoded width and height,
/// or nothing when the bytes are not a valid image.  The outcome depends on
/// the bytes alone.
pub uninterp spec fn decode_of(bytes: Seq<u8>) -> Option<(usize, usize)>;

/// Mathematical model of an item.
pub struct ItemView {
    /// Unique base identifier, stable for the process lifetime.
    pub name: Seq<char>,
    /// Mutable tag text.
    pub caption: Seq<char>,
    /// Raw encoded image payload.
    pub img: Seq<u8>,
    /// Decoded width.
    pub width: usize,
    /// Decoded height.
    pub height: usize,
    /// Whether the decoded dimensions differ from the canonical size.
    pub wrong_size: bool,
}

/// The item a successful load of `img` under `name` and `caption` produces.
/// Meaningful only when `decode_of(img)` is `Some`.
pub open spec fn loaded_item(name: Seq<char>, caption: Seq<char>, img: Seq<u8>) -> ItemView {
    let dims = decode_of(img)->0;
    ItemView {
        name,
        caption,
        img,
        width: dims.0,
        height: dims.1,
        wrong_size: !(dims.0 == EXPECTED_WIDTH && dims.1 == EXPECTED_HEIGHT),
    }
}

/// The built-in "no image" item served when the list is exhausted: a fixed
/// name, an empty caption and an empty payload, rendered by the display layer
/// without touching storage.
pub open spec fn placeholder_view() -> ItemView {
    ItemView {
        name: "no image"@,
        caption: Seq::<char>::empty(),
        img: Seq::<u8>::empty(),
        width: 0,
        height: 0,
        wrong_size: true,
    }
}

/// A loaded image + caption pair.  Unloadable candidates never become items:
/// apart from the placeholder, a value of this type always carries a payload
/// that decoded to the recorded dimensions.
pub struct CaptionedImg {
    name: String,
    caption: String,
    img: Vec<u8>,
    width: usize,
    height: usize,
    wrong_size: bool,
}

impl View for CaptionedImg {
    type V = ItemView;

    closed spec fn view(&self) -> ItemView {
        ItemView {
            name: self.name@,
            caption: self.caption@,
            img: self.img@,
            width: self.width,
            height: self.height,
            wrong_size: self.wrong_size,
        }
    }
}

/// Relies on `egui_extras::RetainedImage::from_image_bytes`, which decodes the
/// byte payload: success and the decoded dimensions depend on the bytes alone,
/// and the debug name only labels error messages.
#[verifier::external_body]
fn decode_image(name: &str, img: &[u8]) -> (r: Option<(usize, usize)>)
    ensures
        r == decode_of(img@),
{
    match egui_extras::RetainedImage::from_image_bytes(name, img) {
        Ok(decoded) => Some((decoded.width(), decoded.height())),
        Err(_) => None,
    }
}

impl CaptionedImg {
    /// The item's unique base identifier.
    pub fn name(&self) -> (r: String)
        ensures
            r@ == self@.name,
    {
        self.name.clone()
    }

    /// The item's current caption text.
    pub fn caption(&self) -> (r: String)
        ensures
            r@ == self@.caption,
    {
        self.caption.clone()
    }

    /// The raw encoded image payload.
    pub fn img(&self) -> (r: Vec<u8>)
        ensures
            r@ == self@.img,
    {
        vstd::slice::slice_to_vec(self.img.as_slice())
    }

    /// The decoded width.
    pub fn width(&self) -> (r: usize)
        ensures
            r == self@.width,
    {
        self.width
    }

    /// The decoded height.
    pub fn height(&self) -> (r: usize)
        ensures
            r == self@.height,
    {
        self.height
    }

    /// Whether the decoded dimensions differ from the canonical size; purely
    /// advisory, never blocks usage.
    pub fn is_wrong_size(&self) -> (r: bool)
        ensures
            r == self@.wrong_size,
    {
        self.wrong_size
    }

    /// Replaces the caption text, as the editor does while the item is shown.
    pub fn set_caption(&mut self, caption: String)
        ensures
            final(self)@ == (ItemView { caption: caption@, ..old(self)@ }),
    {
        self.caption = caption;
    }

    /// Builds an item from a candidate's name, caption and image payload.
    /// Decode failure is the only condition that yields no item; a dimension
    /// mismatch is recorded as the advisory flag instead.
    pub fn new(name: &str, caption: &str, img: &[u8]) -> (r: Option<Self>)
        ensures
            match r {
                Some(item) => decode_of(img@) is Some && item@ == loaded_item(name@, caption@, img@),
                None => decode_of(img@) is None,
            },
    {
        match decode_image(name, img) {
            Some(dims) => {
                let wrong_size = !(dims.0 == EXPECTED_WIDTH && dims.1 == EXPECTED_HEIGHT);
                Some(CaptionedImg {
                    name: name.to_owned(),
                    caption: caption.to_owned(),
                    img: vstd::slice::slice_to_vec(img),
                    width: dims.0,
                    height: dims.1,
                    wrong_size,
                })
            },
            None => None,
        }
    }
}

/// The built-in "no image" item, available without any storage access.
pub fn get_std_img() -> (r: CaptionedImg)
    ensures
        r@ == placeholder_view(),
{
    CaptionedImg {
        name: String::from_str("no image"),
        caption: String::new(),
        img: Vec::new(),
        width: 0,
        height: 0,
        wrong_size: true,
    }
}

} // verus!
