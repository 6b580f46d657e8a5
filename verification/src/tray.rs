use vstd::prelude::*;

verus! {

#[verifier::external_type_specification]
#[verifier::external_body]
pub struct ExImageError(image::ImageError);

/// Id of the tray menu entry that starts tracking.
pub const MENU_ID_START: &'static str = "start";
/// Id of the tray menu entry that stops tracking.
pub const MENU_ID_STOP: &'static str = "stop";
/// Id of the tray menu entry that pauses tracking.
pub const MENU_ID_PAUSE: &'static str = "pause";
/// Id of the tray menu entry that resumes tracking.
pub const MENU_ID_RESUME: &'static str = "resume";
/// Id of the tray menu entry that shows or hides the window.
pub const MENU_ID_TOGGLE: &'static str = "toggle";
/// Id of the tray menu entry that quits.
pub const MENU_ID_QUIT: &'static str = "quit";

/// Side of the square tray icon, in pixels.
pub const ICON_SIZE: u32 = 32;

/// What a tray menu entry asks for.
#[derive(Debug, Clone, Copy, PartialEq, Eq, Structural)]
pub enum TrayCommand {
    Start,
    Stop,
    Pause,
    Resume,
    Toggle,
    Quit,
}

/// The command of the tray menu entry with id `id`, if it is one of ours.
pub open spec fn command_of(id: Seq<char>) -> Option<TrayCommand> {
    if id == "start"@ {
        Some(TrayCommand::Start)
    } else if id == "stop"@ {
        Some(TrayCommand::Stop)
    } else if id == "pause"@ {
        Some(TrayCommand::Pause)
    } else if id == "resume"@ {
        Some(TrayCommand::Resume)
    } else if id == "toggle"@ {
        Some(TrayCommand::Toggle)
    } else if id == "quit"@ {
        Some(TrayCommand::Quit)
    } else {
        None
    }
}

/// The command of the tray menu entry with id `id`.
pub fn tray_command(id: &str) -> (r: Option<TrayCommand>)
    ensures
        r == command_of(id@),
{
    let id = String::from_str(id);
    if id == String::from_str(MENU_ID_START) {
        Some(TrayCommand::Start)
    } else if id == String::from_str(MENU_ID_STOP) {
        Some(TrayCommand::Stop)
    } else if id == String::from_str(MENU_ID_PAUSE) {
        Some(TrayCommand::Pause)
    } else if id == String::from_str(MENU_ID_RESUME) {
        Some(TrayCommand::Resume)
    } else if id == String::from_str(MENU_ID_TOGGLE) {
        Some(TrayCommand::Toggle)
    } else if id == String::from_str(MENU_ID_QUIT) {
        Some(TrayCommand::Quit)
    } else {
        None
    }
}

/// Why the tray icon could not be made.
#[derive(Debug, Clone, Copy, PartialEq, Eq, Structural)]
pub enum IconError {
    /// The bytes are not an image that the decoder reads.
    Decode,
}

/// Whether `image::load_from_memory` decodes `bytes`.
pub uninterp spec fn decodes(bytes: Seq<u8>) -> bool;

/// Decodes `bytes` with `image::load_from_memory`, which guesses the format from the bytes,
/// then scales the image to `width` by `height` with `DynamicImage::resize_exact` and the
/// Lanczos3 filter and takes its pixels with `to_rgba8` and `into_raw`. Whether decoding
/// succeeds depends on the bytes alone and is named by [`decodes`]; the pixels are four
/// bytes for each of the `width * height` points, which `resize_exact` makes exactly that
/// size. Their values are not claimed: the filter computes with `f32::sin`, whose precision
/// std does not fix, so two runs need not give the same pixels.
#[verifier::external_body]
fn decode_scaled(bytes: &[u8], width: u32, height: u32) -> (r: Result<Vec<u8>, image::ImageError>)
    requires
        width <= 4096,
        height <= 4096,
    ensures
        r is Ok <==> decodes(bytes@),
        r matches Ok(px) ==> px@.len() == width * height * 4,
{
    match image::load_from_memory(bytes) {
        Ok(img) => Ok(img.resize_exact(width, height, image::imageops::FilterType::Lanczos3).to_rgba8().into_raw()),
        Err(e) => Err(e),
    }
}

/// The pixels of the tray icon: the image in `png` scaled to [`ICON_SIZE`] square, as RGBA
/// bytes; an error when `png` does not decode.
pub fn icon_rgba(png: &[u8]) -> (r: Result<Vec<u8>, IconError>)
    ensures
        r is Ok <==> decodes(png@),
        r matches Ok(px) ==> px@.len() == ICON_SIZE * ICON_SIZE * 4,
        r matches Err(e) ==> e == IconError::Decode,
{
    match decode_scaled(png, ICON_SIZE, ICON_SIZE) {
        Ok(px) => Ok(px),
        Err(_) => Err(IconError::Decode),
    }
}

} // verus!
