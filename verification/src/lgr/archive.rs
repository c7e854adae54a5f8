//! The archive as a whole.

use vstd::prelude::*;
use vstd::slice::slice_to_vec;
use crate::lgr::error::{LgrError, error};
use crate::lgr::image::{Image, ImageModel};
use crate::lgr::name::{
    lemma_precedes_one_way,
    lemma_precedes_total,
    lemma_precedes_transitive,
    name_precedes,
    precedes,
};
use crate::lgr::pcx::{Decoded, DecodedModel, decode, spec_decode};
use crate::lgr::picture::{
    Picture,
    PictureKind,
    PictureList,
    base_name,
    read_pictures,
    spec_base_name,
    spec_lookup,
    spec_pictures,
    spec_without,
};
use crate::lgr::stream::{Stream, read_string, spec_string, spec_u32, spec_word};

verus! {

/// Content of an archive.
#[derive(Debug, Clone)]
pub struct Lgr {
    /// All images of the archive by name, each name once, in the order of
    /// the names. Names include the `.pcx` at their end.
    pub images: Vec<(String, Image)>,
    /// The palette of 256 colours: red, green and blue of the first colour,
    /// then of the second, and so on. Empty where no image gave one.
    pub palette: Vec<u8>,
}

/// Mathematical model of [`Lgr`].
pub struct LgrModel {
    pub images: Seq<(Seq<char>, ImageModel)>,
    pub palette: Seq<u8>,
}

impl View for Lgr {
    type V = LgrModel;

    open spec fn view(&self) -> LgrModel {
        LgrModel {
            images: Seq::new(self.images@.len(), |i: int| (self.images@[i].0@, self.images@[i].1@)),
            palette: self.palette@,
        }
    }
}

/// The bytes at the start of every archive: `LGR12`.
pub open spec fn spec_magic() -> Seq<u8> {
    seq![0x4Cu8, 0x47u8, 0x52u8, 0x31u8, 0x32u8]
}

/// Number of images at the front whose names come before `name`.
pub open spec fn spec_rank(images: Seq<(Seq<char>, ImageModel)>, name: Seq<char>) -> nat
    decreases images.len(),
{
    if images.len() == 0 || !precedes(images[0].0, name) {
        0
    } else {
        1 + spec_rank(images.drop_first(), name)
    }
}

/// The images with `image` under `name`: behind the images whose names
/// come before `name`, in the place of the image that had the name where
/// there was one.
pub open spec fn spec_put(
    images: Seq<(Seq<char>, ImageModel)>,
    name: Seq<char>,
    image: ImageModel,
) -> Seq<(Seq<char>, ImageModel)> {
    let at = spec_rank(images, name) as int;
    if at < images.len() && images[at].0 == name {
        images.update(at, (name, image))
    } else {
        images.insert(at, (name, image))
    }
}

/// Whether the palette is asked of an image with the description `info`:
/// the archive has none yet, and the image is no mask.
pub open spec fn wants_palette(info: Option<Picture>, palette: Seq<u8>) -> bool {
    palette.len() == 0 && !(info matches Some(picture) && picture.kind == PictureKind::Mask)
}

impl LgrModel {
    /// The archive without images.
    pub open spec fn empty() -> LgrModel {
        LgrModel { images: Seq::empty(), palette: Seq::empty() }
    }

    /// The archive once the image `name`, decoded as `decoded` from the
    /// bytes kept as `pcx`, has been stored: the image stands under its
    /// name, and a palette that came with it is the archive's.
    pub open spec fn stored(
        self,
        name: Seq<char>,
        info: Option<Picture>,
        decoded: DecodedModel,
        pcx: Seq<u8>,
    ) -> LgrModel {
        LgrModel {
            images: spec_put(
                self.images,
                name,
                ImageModel {
                    info,
                    width: decoded.width,
                    height: decoded.height,
                    pixels: decoded.pixels,
                    pcx,
                },
            ),
            palette: match decoded.palette {
                Some(palette) => palette,
                None => self.palette,
            },
        }
    }

    /// Whether the images stand in the order of their names, each name
    /// once.
    pub open spec fn sorted(self) -> bool {
        forall|i: int, j: int|
            0 <= i < j < self.images.len() ==> precedes(
                (#[trigger] self.images[i]).0,
                (#[trigger] self.images[j]).0,
            )
    }

    /// What holds of every archive that was read with the given options:
    /// the images stand in the order of their names, the palette is whole
    /// or empty, and the images hold their pixels and raw bytes as the
    /// options say.
    pub open spec fn loaded(self, load_pixels: bool, load_raw_pcx: bool) -> bool {
        &&& self.palette.len() == 0 || self.palette.len() == 768
        &&& self.sorted()
        &&& forall|i: int|
            0 <= i < self.images.len() ==> (#[trigger] self.images[i]).1.pixels.len()
                == if load_pixels {
                self.images[i].1.width * self.images[i].1.height
            } else {
                0
            }
        &&& !load_raw_pcx ==> forall|i: int|
            0 <= i < self.images.len() ==> (#[trigger] self.images[i]).1.pcx.len() == 0
    }

    /// Red, green and blue of the colour `i` of the palette.
    pub open spec fn color(self, i: int) -> (u8, u8, u8) {
        (self.palette[3 * i], self.palette[3 * i + 1], self.palette[3 * i + 2])
    }
}

/// What is known while the images of an archive are read.
pub struct Loading {
    /// The descriptions that no image has claimed yet.
    pub pictures: Seq<(Seq<char>, Picture)>,
    /// The archive so far.
    pub archive: LgrModel,
}

/// Reads the image at the front of `bytes`: a name of twelve bytes, eight
/// bytes that are passed over, the length of the PCX file and the file
/// itself. The image claims the description under its base name. Returns
/// what is known afterwards and the number of bytes that the image takes
/// up.
pub open spec fn spec_image(
    bytes: Seq<u8>,
    state: Loading,
    load_pixels: bool,
    load_raw_pcx: bool,
) -> Result<(Loading, nat), LgrError> {
    match spec_string(bytes, 12) {
        Err(reason) => Err(reason),
        Ok(name) => if bytes.len() < 24 {
            Err(LgrError::UnexpectedEof)
        } else {
            let length = spec_u32(bytes.subrange(20, 24)) as nat;
            if bytes.len() < 24 + length {
                Err(LgrError::UnexpectedEof)
            } else {
                let data = bytes.subrange(24, 24 + length as int);
                let info = spec_lookup(state.pictures, spec_base_name(name));
                match spec_decode(
                    data,
                    load_pixels,
                    wants_palette(info, state.archive.palette),
                ) {
                    None => Err(LgrError::InvalidPcx),
                    Some(decoded) => Ok(
                        (
                            Loading {
                                pictures: spec_without(state.pictures, spec_base_name(name)),
                                archive: state.archive.stored(
                                    name,
                                    info,
                                    decoded,
                                    if load_raw_pcx {
                                        data
                                    } else {
                                        Seq::empty()
                                    },
                                ),
                            },
                            24 + length,
                        ),
                    ),
                }
            }
        },
    }
}

/// Reads `count` images one after the other from the front of `bytes`.
pub open spec fn spec_images(
    bytes: Seq<u8>,
    count: nat,
    state: Loading,
    load_pixels: bool,
    load_raw_pcx: bool,
) -> Result<Loading, LgrError>
    decreases count,
{
    if count == 0 {
        Ok(state)
    } else {
        match spec_image(bytes, state, load_pixels, load_raw_pcx) {
            Err(reason) => Err(reason),
            Ok((next, taken)) => spec_images(
                bytes.skip(taken as int),
                (count - 1) as nat,
                next,
                load_pixels,
                load_raw_pcx,
            ),
        }
    }
}

/// The archive in `bytes`: the magic bytes, the number of images, the word
/// 1002, the number of picture descriptions, the table of descriptions and
/// the images. Bytes after the last image are of no account. The first
/// field, in this order, that is cut short or does not hold what it must
/// decides the failure.
pub open spec fn spec_lgr(bytes: Seq<u8>, load_pixels: bool, load_raw_pcx: bool) -> Result<
    LgrModel,
    LgrError,
> {
    if bytes.len() < 5 {
        Err(LgrError::UnexpectedEof)
    } else if bytes.take(5) != spec_magic() {
        Err(LgrError::NotAnLgr)
    } else if bytes.len() < 13 {
        Err(LgrError::UnexpectedEof)
    } else if spec_u32(bytes.subrange(9, 13)) != 1002 {
        Err(LgrError::InvalidVersion)
    } else if bytes.len() < 17 {
        Err(LgrError::UnexpectedEof)
    } else {
        let total = spec_u32(bytes.subrange(5, 9)) as nat;
        let listed = spec_u32(bytes.subrange(13, 17)) as nat;
        match spec_pictures(bytes.skip(17), listed) {
            Err(reason) => Err(reason),
            Ok(pictures) => match spec_images(
                bytes.skip(17 + 26 * listed as int),
                total,
                Loading { pictures, archive: LgrModel::empty() },
                load_pixels,
                load_raw_pcx,
            ) {
                Err(reason) => Err(reason),
                Ok(state) => Ok(state.archive),
            },
        }
    }
}

/// `spec_rank` counts the images at the front that come before the name.
proof fn lemma_rank(images: Seq<(Seq<char>, ImageModel)>, name: Seq<char>, at: int)
    requires
        0 <= at <= images.len(),
        forall|i: int| 0 <= i < at ==> precedes((#[trigger] images[i]).0, name),
        at < images.len() ==> !precedes(images[at].0, name),
    ensures
        spec_rank(images, name) == at,
    decreases at,
{
    if at > 0 {
        let rest = images.drop_first();
        assert(precedes(images[0].0, name));
        assert forall|i: int| 0 <= i < at - 1 implies precedes((#[trigger] rest[i]).0, name) by {
            assert(rest[i] == images[i + 1]);
        }
        lemma_rank(rest, name, at - 1);
    }
}

/// `spec_rank` lies within the images or right behind them; every image
/// before it comes before the name, and the image at it does not.
pub proof fn lemma_rank_bounds(images: Seq<(Seq<char>, ImageModel)>, name: Seq<char>)
    ensures
        spec_rank(images, name) <= images.len(),
        forall|i: int|
            0 <= i < spec_rank(images, name) ==> precedes((#[trigger] images[i]).0, name),
        spec_rank(images, name) < images.len() ==> !precedes(
            images[spec_rank(images, name) as int].0,
            name,
        ),
    decreases images.len(),
{
    if images.len() > 0 && precedes(images[0].0, name) {
        let rest = images.drop_first();
        lemma_rank_bounds(rest, name);
        assert forall|i: int| 0 <= i < spec_rank(images, name) implies precedes(
            (#[trigger] images[i]).0,
            name,
        ) by {
            if i > 0 {
                assert(rest[i - 1] == images[i]);
            }
        }
    }
}

/// In an archive whose images stand in the order of their names, no name
/// stands twice.
pub proof fn lemma_sorted_names_differ(archive: LgrModel, i: int, j: int)
    requires
        archive.sorted(),
        0 <= i < archive.images.len(),
        0 <= j < archive.images.len(),
        i != j,
    ensures
        archive.images[i].0 != archive.images[j].0,
{
    lemma_precedes_one_way(archive.images[i].0, archive.images[j].0);
}

/// Storing an image keeps the images in the order of their names.
pub proof fn lemma_stored_is_sorted(
    archive: LgrModel,
    name: Seq<char>,
    info: Option<Picture>,
    decoded: DecodedModel,
    pcx: Seq<u8>,
)
    requires
        archive.sorted(),
    ensures
        archive.stored(name, info, decoded, pcx).sorted(),
{
    let images = archive.images;
    let at = spec_rank(images, name) as int;
    let after = archive.stored(name, info, decoded, pcx).images;
    lemma_rank_bounds(images, name);
    assert forall|k: int| at <= k < images.len() && images[k].0 != name implies precedes(
        name,
        (#[trigger] images[k]).0,
    ) by {
        lemma_precedes_total(images[at].0, name);
        if k > at {
            if images[at].0 == name {
            } else {
                lemma_precedes_transitive(name, images[at].0, images[k].0);
            }
        }
    }
    assert forall|k: int| at < k < images.len() implies images[k].0 != name by {
        lemma_precedes_total(images[at].0, name);
        lemma_precedes_one_way(images[at].0, images[k].0);
        if images[k].0 == name && images[at].0 != name {
            lemma_precedes_one_way(name, images[at].0);
        }
    }
    assert forall|i: int, j: int| 0 <= i < j < after.len() implies precedes(
        (#[trigger] after[i]).0,
        (#[trigger] after[j]).0,
    ) by {
        if at < images.len() && images[at].0 == name {
            assert(after[i].0 == images[i].0);
            assert(after[j].0 == images[j].0);
        } else {
            if i < at {
                assert(after[i] == images[i]);
            } else if i > at {
                assert(after[i] == images[i - 1]);
            }
            if j < at {
                assert(after[j] == images[j]);
            } else if j > at {
                assert(after[j] == images[j - 1]);
            }
        }
    }
}

/// Storing an image that was decoded with the same options keeps an
/// archive as it is after reading.
pub proof fn lemma_stored_is_loaded(
    archive: LgrModel,
    name: Seq<char>,
    info: Option<Picture>,
    decoded: DecodedModel,
    pcx: Seq<u8>,
    load_pixels: bool,
    load_raw_pcx: bool,
)
    requires
        archive.loaded(load_pixels, load_raw_pcx),
        decoded.pixels.len() == if load_pixels {
            decoded.width * decoded.height
        } else {
            0
        },
        decoded.palette matches Some(palette) ==> palette.len() == 768,
        !load_raw_pcx ==> pcx.len() == 0,
    ensures
        archive.stored(name, info, decoded, pcx).loaded(load_pixels, load_raw_pcx),
{
    lemma_rank_bounds(archive.images, name);
    lemma_stored_is_sorted(archive, name, info, decoded, pcx);
    let at = spec_rank(archive.images, name) as int;
    let after = archive.stored(name, info, decoded, pcx).images;
    assert forall|i: int| 0 <= i < after.len() implies (#[trigger] after[i]).1.pixels.len()
        == if load_pixels {
        after[i].1.width * after[i].1.height
    } else {
        0
    } by {
        if !(at < archive.images.len() && archive.images[at].0 == name) {
            if i < at {
                assert(after[i] == archive.images[i]);
            } else if i > at {
                assert(after[i] == archive.images[i - 1]);
            }
        }
    }
    if !load_raw_pcx {
        assert forall|i: int| 0 <= i < after.len() implies (#[trigger] after[i]).1.pcx.len()
            == 0 by {
            if !(at < archive.images.len() && archive.images[at].0 == name) {
                if i < at {
                    assert(after[i] == archive.images[i]);
                } else if i > at {
                    assert(after[i] == archive.images[i - 1]);
                }
            }
        }
    }
}

impl Lgr {
    /// An archive without images.
    pub fn new() -> (lgr: Lgr)
        ensures
            lgr@ == LgrModel::empty(),
    {
        let lgr = Lgr { images: Vec::new(), palette: Vec::new() };
        assert(lgr@.images =~= Seq::empty());
        lgr
    }

    /// Red, green and blue of the colour `i` of the palette.
    pub fn get_palette_color(&self, i: u8) -> (color: (u8, u8, u8))
        requires
            3 * i + 2 < self.palette@.len(),
        ensures
            color == self@.color(i as int),
    {
        (
            self.palette[(i as usize) * 3],
            self.palette[(i as usize) * 3 + 1],
            self.palette[(i as usize) * 3 + 2],
        )
    }

    /// Stores the image `name`, decoded as `decoded` from the bytes kept as
    /// `pcx`: it goes behind the images whose names come before its own,
    /// into the place of the image that had its name where there was one. A
    /// palette that came with it becomes the archive's.
    pub fn store(&mut self, name: String, info: Option<Picture>, decoded: Decoded, pcx: Vec<u8>)
        ensures
            final(self)@ == old(self)@.stored(name@, info, decoded@, pcx@),
    {
        let ghost before = self@;
        let ghost model = ImageModel {
            info,
            width: decoded.width,
            height: decoded.height,
            pixels: decoded.pixels@,
            pcx: pcx@,
        };
        let ghost text = name@;
        let Decoded { width, height, pixels, palette } = decoded;
        let image = Image { info, width, height, pixels, pcx };
        match palette {
            Some(palette) => {
                self.palette = palette;
            },
            None => {},
        }
        let mut at: usize = 0;
        while at < self.images.len() && name_precedes(&self.images[at].0, &name)
            invariant
                at <= self.images@.len(),
                self@.images == before.images,
                forall|i: int| 0 <= i < at ==> precedes((#[trigger] before.images[i]).0, name@),
            decreases self.images@.len() - at,
        {
            assert(before.images[at as int].0 == self.images@[at as int].0@);
            at += 1;
        }
        proof {
            if at < self.images@.len() {
                assert(before.images[at as int].0 == self.images@[at as int].0@);
            }
            lemma_rank(before.images, text, at as int);
        }
        if at < self.images.len() && self.images[at].0 == name {
            self.images[at] = (name, image);
            assert(self@.images =~= before.images.update(at as int, (text, model)));
        } else {
            self.images.insert(at, (name, image));
            assert(self@.images =~= before.images.insert(at as int, (text, model)));
        }
    }

    /// The place of the first image under `name`, where there is one.
    pub fn position(&self, name: &String) -> (place: Option<usize>)
        ensures
            match place {
                Some(at) => at < self@.images.len() && self@.images[at as int].0 == name@
                    && forall|i: int| 0 <= i < at ==> (#[trigger] self@.images[i]).0 != name@,
                None => forall|i: int|
                    0 <= i < self@.images.len() ==> (#[trigger] self@.images[i]).0 != name@,
            },
    {
        let mut at: usize = 0;
        while at < self.images.len()
            invariant
                at <= self.images@.len(),
                forall|i: int| 0 <= i < at ==> (#[trigger] self@.images[i]).0 != name@,
            decreases self.images@.len() - at,
        {
            assert(self@.images[at as int].0 == self.images@[at as int].0@);
            if self.images[at].0 == *name {
                return Some(at);
            }
            at += 1;
        }
        None
    }

    /// Reads an archive from `stream`. With `load_pixels` the pixels of
    /// every image are decoded; with `load_raw_pcx` every image keeps the
    /// bytes of its PCX file.
    pub fn load_from_stream(stream: &[u8], load_pixels: bool, load_raw_pcx: bool) -> (loaded:
        Result<Lgr, LgrError>)
        ensures
            match loaded {
                Ok(lgr) => spec_lgr(stream@, load_pixels, load_raw_pcx) == Ok::<
                    LgrModel,
                    LgrError,
                >(lgr@) && lgr@.loaded(load_pixels, load_raw_pcx),
                Err(reason) => spec_lgr(stream@, load_pixels, load_raw_pcx) == Err::<
                    LgrModel,
                    LgrError,
                >(reason),
            },
    {
        let mut input = Stream::new(stream);
        let magic = match input.read_exact(5) {
            Ok(magic) => magic,
            Err(reason) => {
                return Err(reason);
            },
        };
        if magic[0] != 0x4C || magic[1] != 0x47 || magic[2] != 0x52 || magic[3] != 0x31
            || magic[4] != 0x32 {
            assert(stream@.take(5) != spec_magic()) by {
                if stream@.take(5) == spec_magic() {
                    assert(magic@[0] == spec_magic()[0]);
                    assert(magic@[1] == spec_magic()[1]);
                    assert(magic@[2] == spec_magic()[2]);
                    assert(magic@[3] == spec_magic()[3]);
                    assert(magic@[4] == spec_magic()[4]);
                }
            }
            return error(LgrError::NotAnLgr);
        }
        assert(stream@.take(5) =~= spec_magic());
        assert(input@ == stream@.skip(5));
        let total = match input.read_u32() {
            Ok(total) => total as usize,
            Err(reason) => {
                return Err(reason);
            },
        };
        assert(stream@.skip(5).take(4) =~= stream@.subrange(5, 9));
        assert(input@ =~= stream@.skip(9));
        let version = match input.read_u32() {
            Ok(version) => version,
            Err(reason) => {
                return Err(reason);
            },
        };
        assert(stream@.skip(9).take(4) =~= stream@.subrange(9, 13));
        assert(input@ =~= stream@.skip(13));
        if version != 1002 {
            return error(LgrError::InvalidVersion);
        }
        let listed = match input.read_u32() {
            Ok(listed) => listed as usize,
            Err(reason) => {
                return Err(reason);
            },
        };
        assert(stream@.skip(13).take(4) =~= stream@.subrange(13, 17));
        assert(input@ =~= stream@.skip(17));
        let mut pictures = match read_pictures(&mut input, listed) {
            Ok(pictures) => pictures,
            Err(reason) => {
                return Err(reason);
            },
        };
        assert(input@ =~= stream@.skip(17 + 26 * listed));
        let mut lgr = Lgr::new();
        let ghost images = input@;
        let ghost first = Loading { pictures: pictures@, archive: LgrModel::empty() };
        let mut done: usize = 0;
        while done < total
            invariant
                done <= total,
                lgr@.loaded(load_pixels, load_raw_pcx),
                spec_lgr(stream@, load_pixels, load_raw_pcx) == match spec_images(
                    images,
                    total as nat,
                    first,
                    load_pixels,
                    load_raw_pcx,
                ) {
                    Ok(state) => Ok::<LgrModel, LgrError>(state.archive),
                    Err(reason) => Err::<LgrModel, LgrError>(reason),
                },
                spec_images(images, total as nat, first, load_pixels, load_raw_pcx) == spec_images(
                    input@,
                    (total - done) as nat,
                    Loading { pictures: pictures@, archive: lgr@ },
                    load_pixels,
                    load_raw_pcx,
                ),
            decreases total - done,
        {
            let ghost bytes = input@;
            let ghost state = Loading { pictures: pictures@, archive: lgr@ };
            let name = match read_string(&mut input, 12) {
                Ok(name) => name,
                Err(reason) => {
                    return Err(reason);
                },
            };
            match input.read_exact(8) {
                Ok(_) => {},
                Err(reason) => {
                    return Err(reason);
                },
            }
            assert(input@ =~= bytes.skip(20));
            let length = match input.read_u32() {
                Ok(length) => length as usize,
                Err(reason) => {
                    return Err(reason);
                },
            };
            assert(bytes.skip(20).take(4) =~= bytes.subrange(20, 24));
            assert(input@ =~= bytes.skip(24));
            let data = match input.read_exact(length) {
                Ok(data) => data,
                Err(reason) => {
                    return Err(reason);
                },
            };
            assert(data@ =~= bytes.subrange(24, 24 + length));
            assert(input@ =~= bytes.skip(24 + length));
            let base = base_name(&name);
            let info = pictures.take(&base);
            let mask = match info {
                Some(picture) => match picture.kind {
                    PictureKind::Mask => true,
                    _ => false,
                },
                None => false,
            };
            let load_palette = lgr.palette.len() == 0 && !mask;
            let decoded = match decode(data, load_pixels, load_palette) {
                Some(decoded) => decoded,
                None => {
                    return error(LgrError::InvalidPcx);
                },
            };
            let pcx = if load_raw_pcx {
                slice_to_vec(data)
            } else {
                Vec::new()
            };
            proof {
                lemma_stored_is_loaded(
                    lgr@,
                    name@,
                    info,
                    decoded@,
                    pcx@,
                    load_pixels,
                    load_raw_pcx,
                );
            }
            lgr.store(name, info, decoded, pcx);
            done += 1;
        }
        Ok(lgr)
    }
}

} // verus!
