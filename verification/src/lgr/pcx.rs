//! Decoding of the PCX images inside an archive, by the `pcx` crate.
//!
//! What the crate makes of given bytes is a matter of the PCX format and
//! of the crate's reading of it. The library does not restate it: it gives
//! each outcome a name and says how the outcomes are put together.

use vstd::prelude::*;

verus! {

/// Width and height of the PCX image in `data`, as `pcx::Reader::new`
/// reads them from its header; nothing where it turns the header down.
pub uninterp spec fn pcx_size(data: Seq<u8>) -> Option<(u16, u16)>;

/// The palette indices of row `index` of the PCX image in `data`, from left
/// to right, as the call of `pcx::Reader::next_row_paletted` that follows
/// `index` successful ones hands them out; nothing where that call fails.
pub uninterp spec fn pcx_row(data: Seq<u8>, index: nat) -> Option<Seq<u8>>;

/// The palette of the PCX image in `data` as `pcx::Reader::read_palette`
/// leaves it in a buffer of 768 zero bytes, once `rows` rows were read;
/// nothing where that call fails.
pub uninterp spec fn pcx_palette(data: Seq<u8>, rows: nat) -> Option<Seq<u8>>;

/// A `pcx::Reader` over bytes in memory.
#[verifier::external_body]
pub struct PcxReader<'a> {
    inner: pcx::Reader<&'a [u8]>,
}

/// The bytes that `reader` was opened on.
pub uninterp spec fn reader_source(reader: PcxReader) -> Seq<u8>;

/// Number of rows that `reader` has handed out.
pub uninterp spec fn reader_rows(reader: PcxReader) -> nat;

/// `pcx::Reader::new` on bytes in memory: a reader at the first row of the
/// image, or nothing where the header is turned down.
#[verifier::external_body]
fn open<'a>(data: &'a [u8]) -> (opened: Option<PcxReader<'a>>)
    ensures
        opened.is_some() == pcx_size(data@).is_some(),
        opened matches Some(reader) ==> reader_source(reader) == data@ && reader_rows(reader)
            == 0,
{
    match pcx::Reader::new(data) {
        Ok(inner) => Some(PcxReader { inner }),
        Err(_) => None,
    }
}

/// `pcx::Reader::dimensions`: width and height from the header that the
/// reader was opened on.
#[verifier::external_body]
fn dimensions(reader: &PcxReader) -> (size: (u16, u16))
    ensures
        pcx_size(reader_source(*reader)) == Some(size),
{
    reader.inner.dimensions()
}

/// `pcx::Reader::next_row_paletted`: fills `row`, which must be as long as
/// the image is wide, with the next row of palette indices and says whether
/// that worked. After a failure nothing is known of `row` but its length,
/// and nothing of the reader but its source.
#[verifier::external_body]
fn next_row(reader: &mut PcxReader, row: &mut Vec<u8>) -> (done: bool)
    requires
        pcx_size(reader_source(*old(reader))) matches Some(size) && old(row)@.len() == size.0,
    ensures
        reader_source(*final(reader)) == reader_source(*old(reader)),
        final(row)@.len() == old(row)@.len(),
        done == pcx_row(reader_source(*old(reader)), reader_rows(*old(reader))).is_some(),
        done ==> reader_rows(*final(reader)) == reader_rows(*old(reader)) + 1,
        done ==> Some(final(row)@) == pcx_row(
            reader_source(*old(reader)),
            reader_rows(*old(reader)),
        ),
{
    reader.inner.next_row_paletted(row.as_mut_slice()).is_ok()
}

/// `pcx::Reader::read_palette`: writes the palette over the front of
/// `palette`, which must hold 768 zero bytes, and says whether that worked.
#[verifier::external_body]
fn read_palette(reader: PcxReader, palette: &mut Vec<u8>) -> (done: bool)
    requires
        old(palette)@ == Seq::new(768, |i: int| 0u8),
    ensures
        final(palette)@.len() == 768,
        done == pcx_palette(reader_source(reader), reader_rows(reader)).is_some(),
        done ==> Some(final(palette)@) == pcx_palette(
            reader_source(reader),
            reader_rows(reader),
        ),
{
    reader.inner.read_palette(palette.as_mut_slice()).is_ok()
}

/// What is taken from one PCX image.
pub struct Decoded {
    /// Width of the image.
    pub width: u16,
    /// Height of the image.
    pub height: u16,
    /// The palette indices of all pixels, row by row; empty where pixels
    /// were not asked for.
    pub pixels: Vec<u8>,
    /// The palette, 768 bytes, where it was asked for.
    pub palette: Option<Vec<u8>>,
}

/// Mathematical model of [`Decoded`].
pub struct DecodedModel {
    pub width: u16,
    pub height: u16,
    pub pixels: Seq<u8>,
    pub palette: Option<Seq<u8>>,
}

impl View for Decoded {
    type V = DecodedModel;

    open spec fn view(&self) -> DecodedModel {
        DecodedModel {
            width: self.width,
            height: self.height,
            pixels: self.pixels@,
            palette: match self.palette {
                Some(palette) => Some(palette@),
                None => None,
            },
        }
    }
}

/// The first `rows` rows of the image in `data`, one after the other;
/// nothing where one of them cannot be read.
pub open spec fn spec_pixels(data: Seq<u8>, rows: nat) -> Option<Seq<u8>>
    decreases rows,
{
    if rows == 0 {
        Some(Seq::empty())
    } else {
        match (spec_pixels(data, (rows - 1) as nat), pcx_row(data, (rows - 1) as nat)) {
            (Some(above), Some(row)) => Some(above + row),
            _ => None,
        }
    }
}

/// What [`decode`] takes from the image in `data`; nothing where the
/// header, a row that was asked for or the palette that was asked for
/// cannot be read.
pub open spec fn spec_decode(data: Seq<u8>, load_pixels: bool, load_palette: bool) -> Option<
    DecodedModel,
> {
    match pcx_size(data) {
        None => None,
        Some((width, height)) => {
            let rows = if load_pixels {
                height as nat
            } else {
                0
            };
            match spec_pixels(data, rows) {
                None => None,
                Some(pixels) => if !load_palette {
                    Some(DecodedModel { width, height, pixels, palette: None })
                } else {
                    match pcx_palette(data, rows) {
                        None => None,
                        Some(palette) => Some(
                            DecodedModel { width, height, pixels, palette: Some(palette) },
                        ),
                    }
                },
            }
        },
    }
}

/// Decodes the PCX image in `data`: its size, its pixels if `load_pixels`
/// is set, and its palette if `load_palette` is set.
pub fn decode(data: &[u8], load_pixels: bool, load_palette: bool) -> (decoded: Option<Decoded>)
    ensures
        match decoded {
            Some(d) => spec_decode(data@, load_pixels, load_palette) == Some(d@),
            None => spec_decode(data@, load_pixels, load_palette) is None,
        },
        decoded matches Some(d) ==> {
            &&& d.pixels@.len() == if load_pixels {
                d.width * d.height
            } else {
                0
            }
            &&& d.palette matches Some(palette) ==> palette@.len() == 768
        },
{
    let mut reader = match open(data) {
        Some(reader) => reader,
        None => {
            return None;
        },
    };
    let (width, height) = dimensions(&reader);
    let mut pixels: Vec<u8> = Vec::new();
    if load_pixels {
        let mut row: Vec<u8> = vec![0u8; width as usize];
        let mut y: u16 = 0;
        while y < height
            invariant
                load_pixels,
                y <= height,
                reader_source(reader) == data@,
                reader_rows(reader) == y,
                pcx_size(data@) == Some((width, height)),
                row@.len() == width,
                spec_pixels(data@, y as nat) == Some(pixels@),
                pixels@.len() == width * y,
            decreases height - y,
        {
            if !next_row(&mut reader, &mut row) {
                proof {
                    lemma_pixels_fail(data@, y as nat, height as nat);
                }
                return None;
            }
            pixels.extend_from_slice(row.as_slice());
            assert(width * (y + 1) == width * y + width) by (nonlinear_arith);
            y += 1;
        }
    }
    let palette = if load_palette {
        let mut palette: Vec<u8> = vec![0u8; 768];
        assert(palette@ == Seq::new(768, |i: int| 0u8));
        if !read_palette(reader, &mut palette) {
            return None;
        }
        Some(palette)
    } else {
        None
    };
    Some(Decoded { width, height, pixels, palette })
}

/// Once a row cannot be read, no run of rows that reaches past it can.
proof fn lemma_pixels_fail(data: Seq<u8>, row: nat, rows: nat)
    requires
        row < rows,
        pcx_row(data, row) is None,
    ensures
        spec_pixels(data, rows) is None,
    decreases rows,
{
    if row + 1 < rows {
        lemma_pixels_fail(data, row, (rows - 1) as nat);
    }
}

} // verus!
