//! Decoded images.

use crate::error::LoadError;
use vstd::prelude::*;

verus! {

/// A decoded image: its size in pixels and its samples, row after row.
#[derive(Debug, PartialEq, Eq)]
pub struct Image {
    pub width: u32,
    pub height: u32,
    pub data: Vec<u8>,
}

/// The model of an [`Image`].
pub struct ImageView {
    pub width: u32,
    pub height: u32,
    pub data: Seq<u8>,
}

impl View for Image {
    type V = ImageView;

    open spec fn view(&self) -> ImageView {
        ImageView { width: self.width, height: self.height, data: self.data@ }
    }
}

/// `png::DecodingError`: why the decoder gave up. Nothing is read out of
/// it.
#[verifier::external_type_specification]
#[verifier::external_body]
pub struct ExDecodingError(png::DecodingError);

/// The first frame of the PNG image that `bytes` encode, as the decoder
/// hands it out with its default transformations: the width and the height
/// from the header, and the samples of the frame. `None` where the decoder
/// reports an error.
pub uninterp spec fn png_frame(bytes: Seq<u8>) -> Option<ImageView>;

/// Calls `png::Decoder::new(bytes).read_info()`, makes a buffer of the size
/// that the returned `OutputInfo::buffer_size` asks for, and fills it with
/// `Reader::next_frame`. Trusted: the image is the one that [`png_frame`]
/// names, and an error of either call is returned in place of it.
///
/// The contract speaks of the calls that return. The buffer is as large as
/// the header of the image says, and as with any allocation a size that
/// cannot be had is not covered; nor is it known of the decoder that it
/// returns on every byte sequence there is.
#[verifier::external_body]
fn decode_png(bytes: &[u8]) -> (r: Result<Image, png::DecodingError>)
    ensures
        match png_frame(bytes@) {
            Some(frame) => r matches Ok(image) && image@ == frame,
            None => r is Err,
        },
{
    let (info, mut reader) = png::Decoder::new(bytes).read_info()?;
    let mut data = vec![0; info.buffer_size()];
    reader.next_frame(&mut data)?;
    Ok(Image { width: info.width, height: info.height, data })
}

/// What decoding an image from `bytes` comes to.
pub open spec fn loaded_image(bytes: Seq<u8>) -> Result<ImageView, LoadError> {
    match png_frame(bytes) {
        Some(frame) => Ok(frame),
        None => Err(LoadError::MalformedStream),
    }
}

/// Decodes the first frame of a PNG image. Bytes that the decoder does not
/// accept are a malformed stream.
///
/// The contract speaks of the calls that return. The buffer for the
/// samples is made as large as the header of the image says, so an image
/// that announces more than the machine can reserve aborts the process; and
/// of the image decoder underneath it is not known that it returns on every
/// byte sequence there is. An image from a source that is not trusted
/// should be decoded where that can be borne.
pub fn load_image(bytes: &[u8]) -> (r: Result<Image, LoadError>)
    ensures
        match loaded_image(bytes@) {
            Ok(frame) => r matches Ok(image) && image@ == frame,
            Err(e) => r matches Err(failure) && failure == e,
        },
{
    match decode_png(bytes) {
        Ok(image) => Ok(image),
        Err(_) => Err(LoadError::MalformedStream),
    }
}

} // verus!
