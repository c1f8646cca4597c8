//! The icon in the system tray, and its menu.
use vstd::prelude::*;

use crate::app::TrayEvent;
use crate::text;

verus! {

/// A picture: four bytes for each of its points, line by line.
pub struct Picture {
    pub rgba: Vec<u8>,
    pub width: u32,
    pub height: u32,
}

/// Why there is no icon.
#[derive(Clone, Copy, Debug, PartialEq, Eq, Structural)]
pub enum IconError {
    /// The data is no picture that can be read.
    Unreadable,
}

/// The error of the crate `image`; nothing is known of what it holds.
#[verifier::external_type_specification]
#[verifier::external_body]
pub struct ExImageError(image::ImageError);

/// The points, the width and the height of the picture in the format PNG that the crate `image` reads
/// in `data`, if it reads one.
pub uninterp spec fn picture_in(data: Seq<u8>) -> Option<(Seq<u8>, u32, u32)>;

/// `image::load_from_memory_with_format`, for the format PNG, and `DynamicImage::to_rgba8` of the crate
/// `image`: the picture in `data`. What it is, and when there is one, is only named.
#[verifier::external_body]
fn decode_picture(data: &[u8]) -> (r: Result<Picture, image::ImageError>)
    ensures
        match r {
            Ok(p) => picture_in(data@) == Some((p.rgba@, p.width, p.height)),
            Err(_) => picture_in(data@) is None,
        },
{
    let image = image::load_from_memory_with_format(data, image::ImageFormat::Png)?.to_rgba8();
    let (width, height) = (image.width(), image.height());
    Ok(Picture { rgba: image.into_raw(), width, height })
}

/// Reads the icon.
pub fn load_icon(data: &[u8]) -> (r: Result<Picture, IconError>)
    ensures
        match r {
            Ok(p) => picture_in(data@) == Some((p.rgba@, p.width, p.height)),
            Err(e) => e == IconError::Unreadable && picture_in(data@) is None,
        },
{
    match decode_picture(data) {
        Ok(p) => Ok(p),
        Err(_) => Err(IconError::Unreadable),
    }
}

/// What was chosen from the menu, by the names of its items.
pub fn menu_event(id: &str, show_id: &str, quit_id: &str) -> (r: Option<TrayEvent>)
    ensures
        r == (if id@ == show_id@ {
            Some(TrayEvent::ShowWindow)
        } else if id@ == quit_id@ {
            Some(TrayEvent::Quit)
        } else {
            None
        }),
{
    if text::same_text(id, show_id) {
        Some(TrayEvent::ShowWindow)
    } else if text::same_text(id, quit_id) {
        Some(TrayEvent::Quit)
    } else {
        None
    }
}

/// The items of the menu do what they are named for, and nothing else does anything.
pub proof fn items_do_what_they_say(id: &str, show: &str, quit: &str, r: Option<TrayEvent>)
    requires
        call_ensures(menu_event, (id, show, quit), r),
        show@ != quit@,
    ensures
        id@ == show@ <==> r == Some(TrayEvent::ShowWindow),
        id@ == quit@ <==> r == Some(TrayEvent::Quit),
        id@ != show@ && id@ != quit@ ==> r is None,
{
}

} // verus!
