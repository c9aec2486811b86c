//! Writing a grid as a PNG file that keeps the text of another PNG file.
//!
//! A sheet's catalogue travels in compressed text chunks of its PNG file.
//! A merged grid is written with the chunks of the file it was built on,
//! which are carried over without being read for what they mean.

use crate::grid::{GridView, PixelGrid};
use vstd::prelude::*;

verus! {

/// One compressed Latin-1 text chunk of a PNG file.
#[derive(Debug, Clone, PartialEq, Eq)]
pub struct TextChunk {
    pub keyword: String,
    pub text: String,
}

impl View for TextChunk {
    type V = (Seq<char>, Seq<char>);

    open spec fn view(&self) -> (Seq<char>, Seq<char>) {
        (self.keyword@, self.text@)
    }
}

/// The views of a vector of chunks.
pub open spec fn chunk_views(chunks: Seq<TextChunk>) -> Seq<(Seq<char>, Seq<char>)> {
    Seq::new(chunks.len(), |i: int| chunks[i]@)
}

/// `png::DecodingError`, of which nothing is known here.
#[verifier::external_type_specification]
#[verifier::external_body]
pub struct ExDecodingError(png::DecodingError);

/// `png::EncodingError`, of which nothing is known here.
#[verifier::external_type_specification]
#[verifier::external_body]
pub struct ExEncodingError(png::EncodingError);

/// The compressed text chunks that the `png` decoder finds before the image
/// data of a file, each with its keyword and its inflated text; none where
/// it refuses the file or cannot inflate a text.
pub uninterp spec fn png_text_chunks(file: Seq<u8>) -> Option<Seq<(Seq<char>, Seq<char>)>>;

/// The file that the `png` encoder writes for an eight-bit RGBA image of
/// the given width and height with the given samples, after the given
/// compressed text chunks; none where it refuses to write.
pub uninterp spec fn png_file(
    width: nat,
    height: nat,
    samples: Seq<u8>,
    chunks: Seq<(Seq<char>, Seq<char>)>,
) -> Option<Seq<u8>>;

/// `png::Decoder::read_info` on the bytes of a file, then
/// `ZTXtChunk::get_text` on each compressed text chunk of the `Info` it
/// read. The contract names what comes back and claims no more of it.
#[verifier::external_body]
fn read_text_chunks(file: &[u8]) -> (r: Result<Vec<TextChunk>, png::DecodingError>)
    ensures
        match r {
            Ok(chunks) => png_text_chunks(file@) == Some(chunk_views(chunks@)),
            Err(_) => png_text_chunks(file@) is None,
        },
{
    let reader = png::Decoder::new(file).read_info()?;
    let mut chunks = Vec::new();
    for z in &reader.info().compressed_latin1_text {
        chunks.push(TextChunk { keyword: z.keyword.clone(), text: z.get_text()? });
    }
    Ok(chunks)
}

/// A `png::Encoder` into a vector: `add_ztxt_chunk` for each chunk,
/// `set_color` to RGBA, `write_header`, then `write_image_data` with the
/// samples and `finish`. The contract names what comes back and claims no
/// more of it.
#[verifier::external_body]
fn write_png(width: u32, height: u32, samples: &[u8], chunks: &Vec<TextChunk>) -> (r: Result<
    Vec<u8>,
    png::EncodingError,
>)
    requires
        samples@.len() == 4 * width * height,
    ensures
        match r {
            Ok(file) => png_file(width as nat, height as nat, samples@, chunk_views(chunks@))
                == Some(file@),
            Err(_) => png_file(width as nat, height as nat, samples@, chunk_views(chunks@))
                is None,
        },
{
    let mut file = Vec::new();
    let mut encoder = png::Encoder::new(&mut file, width, height);
    for c in chunks {
        encoder.add_ztxt_chunk(c.keyword.clone(), c.text.clone())?;
    }
    encoder.set_color(png::ColorType::Rgba);
    let mut writer = encoder.write_header()?;
    writer.write_image_data(samples)?;
    writer.finish()?;
    Ok(file)
}

/// Why a grid was not written.
#[derive(Debug, PartialEq, Eq, Clone, Copy, Structural)]
pub enum EncodeError {
    /// The file whose text chunks were to be kept could not be read.
    BaseUnreadable,
    /// The encoder refused the grid or a chunk.
    Refused,
}

/// The file for a grid with the given text chunks.
pub open spec fn encoding_with(grid: GridView, chunks: Seq<(Seq<char>, Seq<char>)>) -> Result<
    Seq<u8>,
    EncodeError,
> {
    match png_file(grid.width, grid.height, grid.samples(), chunks) {
        Some(file) => Ok(file),
        None => Err(EncodeError::Refused),
    }
}

/// The file for a grid with the text chunks of the file `base`.
pub open spec fn encoding(grid: GridView, base: Seq<u8>) -> Result<Seq<u8>, EncodeError> {
    match png_text_chunks(base) {
        Some(chunks) => encoding_with(grid, chunks),
        None => Err(EncodeError::BaseUnreadable),
    }
}

/// The compressed text chunks of a PNG file.
pub fn text_chunks(file: &[u8]) -> (r: Result<Vec<TextChunk>, EncodeError>)
    ensures
        match r {
            Ok(chunks) => png_text_chunks(file@) == Some(chunk_views(chunks@)),
            Err(e) => e == EncodeError::BaseUnreadable && png_text_chunks(file@) is None,
        },
{
    match read_text_chunks(file) {
        Ok(chunks) => Ok(chunks),
        Err(_) => Err(EncodeError::BaseUnreadable),
    }
}

/// Writes a grid as an eight-bit RGBA PNG file that carries the given text
/// chunks.
pub fn encode_with_chunks(grid: &PixelGrid, chunks: &Vec<TextChunk>) -> (r: Result<
    Vec<u8>,
    EncodeError,
>)
    ensures
        match r {
            Ok(file) => encoding_with(grid@, chunk_views(chunks@)) == Ok::<Seq<u8>, EncodeError>(
                file@,
            ),
            Err(e) => encoding_with(grid@, chunk_views(chunks@)) == Err::<Seq<u8>, EncodeError>(e),
        },
{
    let samples = grid.to_samples();
    proof {
        grid@.lemma_samples_len();
    }
    match write_png(grid.width(), grid.height(), samples.as_slice(), chunks) {
        Ok(file) => Ok(file),
        Err(_) => Err(EncodeError::Refused),
    }
}

/// Writes a grid as a PNG file that carries the compressed text chunks of
/// the file `base`.
pub fn encode(grid: &PixelGrid, base: &[u8]) -> (r: Result<Vec<u8>, EncodeError>)
    ensures
        match r {
            Ok(file) => encoding(grid@, base@) == Ok::<Seq<u8>, EncodeError>(file@),
            Err(e) => encoding(grid@, base@) == Err::<Seq<u8>, EncodeError>(e),
        },
{
    match text_chunks(base) {
        Ok(chunks) => encode_with_chunks(grid, &chunks),
        Err(e) => Err(e),
    }
}

} // verus!
