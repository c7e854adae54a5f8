//! The table of picture descriptions at the head of an archive.

use vstd::prelude::*;
use vstd::string::StrSliceExecFns;
use crate::lgr::error::{LgrError, error};
use crate::lgr::stream::{Stream, read_string, spec_string, spec_word};

verus! {

/// Kind of a picture.
#[derive(Debug, Copy, Clone, PartialEq, Eq, Structural)]
pub enum PictureKind {
    /// A simple picture; its top-left pixel gives the transparent colour.
    Picture,
    /// Texture.
    Texture,
    /// Masks are used to draw textures.
    Mask,
}

/// Clipping property.
#[derive(Debug, Copy, Clone, PartialEq, Eq, Structural)]
pub enum ClippingMode {
    /// The picture is seen above everything.
    Unclipped,
    /// The picture is seen only above the ground.
    Ground,
    /// The picture is seen only above the sky.
    Sky,
}

/// Picture description.
#[derive(Debug, Copy, Clone, PartialEq, Eq, Structural)]
pub struct Picture {
    /// Whether this is a picture, a texture or a mask.
    pub kind: PictureKind,
    /// A picture with less distance hides one with more.
    pub distance: u32,
    /// Whether the picture is seen above the sky, the ground, or both.
    pub clipping: ClippingMode,
}

/// The four columns of numbers in the table.
#[derive(Debug, Copy, Clone, PartialEq, Eq, Structural)]
pub enum Column {
    Kind,
    Distance,
    Clipping,
    Closing,
}

/// Whether `word` may stand in `column`.
pub open spec fn spec_check(column: Column, word: u32) -> Result<(), LgrError> {
    match column {
        Column::Kind => if 100 <= word <= 102 {
            Ok(())
        } else {
            Err(LgrError::UnknownPictureKind)
        },
        Column::Distance => Ok(()),
        Column::Clipping => if word <= 2 {
            Ok(())
        } else {
            Err(LgrError::UnknownClippingMode)
        },
        Column::Closing => if word == 12 {
            Ok(())
        } else {
            Err(LgrError::InvalidPictureEntry)
        },
    }
}

/// `front` followed by what `rest` holds, or the failure of `rest`.
pub open spec fn spec_prepend<T>(front: Seq<T>, rest: Result<Seq<T>, LgrError>) -> Result<
    Seq<T>,
    LgrError,
> {
    match rest {
        Ok(rest) => Ok(front + rest),
        Err(reason) => Err(reason),
    }
}

/// The `count` numbers of a column that starts at the front of `bytes`. The
/// first number that is cut short or may not stand in the column decides
/// the failure.
pub open spec fn spec_column(bytes: Seq<u8>, count: nat, column: Column) -> Result<
    Seq<u32>,
    LgrError,
>
    decreases count,
{
    if count == 0 {
        Ok(Seq::empty())
    } else {
        match spec_word(bytes) {
            Err(reason) => Err(reason),
            Ok(word) => match spec_check(column, word) {
                Err(reason) => Err(reason),
                Ok(_) => spec_prepend(
                    seq![word],
                    spec_column(bytes.skip(4), (count - 1) as nat, column),
                ),
            },
        }
    }
}

/// The `count` names, of ten bytes each, that start at the front of
/// `bytes`.
pub open spec fn spec_names(bytes: Seq<u8>, count: nat) -> Result<Seq<Seq<char>>, LgrError>
    decreases count,
{
    if count == 0 {
        Ok(Seq::empty())
    } else {
        match spec_string(bytes, 10) {
            Err(reason) => Err(reason),
            Ok(name) => spec_prepend(
                seq![name],
                spec_names(bytes.skip(10), (count - 1) as nat),
            ),
        }
    }
}

/// The kind that a number of the kind column stands for.
pub open spec fn spec_kind(word: u32) -> PictureKind {
    if word == 100 {
        PictureKind::Picture
    } else if word == 101 {
        PictureKind::Texture
    } else {
        PictureKind::Mask
    }
}

/// The clipping mode that a number of the clipping column stands for.
pub open spec fn spec_clipping(word: u32) -> ClippingMode {
    if word == 0 {
        ClippingMode::Unclipped
    } else if word == 1 {
        ClippingMode::Ground
    } else {
        ClippingMode::Sky
    }
}

/// The table of `listed` picture descriptions at the front of `bytes`: all
/// names, then all kinds, all distances, all clipping modes and all closing
/// words. It takes up 26 bytes for each description.
pub open spec fn spec_pictures(bytes: Seq<u8>, listed: nat) -> Result<
    Seq<(Seq<char>, Picture)>,
    LgrError,
> {
    match spec_names(bytes, listed) {
        Err(reason) => Err(reason),
        Ok(names) => match spec_column(bytes.skip(10 * listed as int), listed, Column::Kind) {
            Err(reason) => Err(reason),
            Ok(kinds) => match spec_column(bytes.skip(14 * listed as int), listed, Column::Distance) {
                Err(reason) => Err(reason),
                Ok(distances) => match spec_column(
                    bytes.skip(18 * listed as int),
                    listed,
                    Column::Clipping,
                ) {
                    Err(reason) => Err(reason),
                    Ok(clippings) => match spec_column(
                        bytes.skip(22 * listed as int),
                        listed,
                        Column::Closing,
                    ) {
                        Err(reason) => Err(reason),
                        Ok(_) => Ok(
                            Seq::new(
                                listed,
                                |i: int|
                                    (
                                        names[i],
                                        Picture {
                                            kind: spec_kind(kinds[i]),
                                            distance: distances[i],
                                            clipping: spec_clipping(clippings[i]),
                                        },
                                    ),
                            ),
                        ),
                    },
                },
            },
        },
    }
}

/// The description under `name`: where several carry the name, the last
/// one.
pub open spec fn spec_lookup(list: Seq<(Seq<char>, Picture)>, name: Seq<char>) -> Option<
    Picture,
>
    decreases list.len(),
{
    if list.len() == 0 {
        None
    } else if list.last().0 == name {
        Some(list.last().1)
    } else {
        spec_lookup(list.drop_last(), name)
    }
}

/// The list without the descriptions under `name`.
pub open spec fn spec_without(list: Seq<(Seq<char>, Picture)>, name: Seq<char>) -> Seq<
    (Seq<char>, Picture),
>
    decreases list.len(),
{
    if list.len() == 0 {
        Seq::empty()
    } else if list.last().0 == name {
        spec_without(list.drop_last(), name)
    } else {
        spec_without(list.drop_last(), name).push(list.last())
    }
}

/// Whether `name` ends in `.pcx`.
pub open spec fn ends_in_pcx(name: Seq<char>) -> bool {
    &&& name.len() >= 4
    &&& name[name.len() - 4] == '.'
    &&& name[name.len() - 3] == 'p'
    &&& name[name.len() - 2] == 'c'
    &&& name[name.len() - 1] == 'x'
}

/// The name under which a picture is listed: the name of its image without
/// the `.pcx` at its end, however often it stands there.
pub open spec fn spec_base_name(name: Seq<char>) -> Seq<char>
    decreases name.len(),
{
    if ends_in_pcx(name) {
        spec_base_name(name.take(name.len() - 4))
    } else {
        name
    }
}

/// Picture descriptions by name, in the order of the table.
pub struct PictureList {
    names: Vec<String>,
    pictures: Vec<Picture>,
}

impl View for PictureList {
    type V = Seq<(Seq<char>, Picture)>;

    closed spec fn view(&self) -> Seq<(Seq<char>, Picture)> {
        Seq::new(self.names@.len(), |i: int| (self.names@[i]@, self.pictures@[i]))
    }
}

impl PictureList {
    #[verifier::type_invariant]
    spec fn well_formed(self) -> bool {
        self.names@.len() == self.pictures@.len()
    }

    /// Number of descriptions.
    pub fn len(&self) -> (len: usize)
        ensures
            len == self@.len(),
    {
        self.names.len()
    }

    /// Takes the description under `name` out of the list. Where several
    /// carry the name, the last one is returned and all of them leave.
    pub fn take(&mut self, name: &String) -> (picture: Option<Picture>)
        ensures
            picture == spec_lookup(old(self)@, name@),
            final(self)@ == spec_without(old(self)@, name@),
    {
        proof {
            use_type_invariant(&*self);
        }
        let mut names: Vec<String> = Vec::new();
        let mut pictures: Vec<Picture> = Vec::new();
        let mut found: Option<Picture> = None;
        let ghost list = self@;
        let mut i: usize = 0;
        while i < self.names.len()
            invariant
                i <= self.names@.len(),
                self.names@.len() == self.pictures@.len(),
                self@ == list,
                list.len() == self.names@.len(),
                names@.len() == pictures@.len(),
                found == spec_lookup(list.take(i as int), name@),
                Seq::new(names@.len(), |k: int| (names@[k]@, pictures@[k])) == spec_without(
                    list.take(i as int),
                    name@,
                ),
            decreases self.names@.len() - i,
        {
            assert(list.take(i as int + 1).drop_last() == list.take(i as int));
            assert(list.take(i as int + 1).last() == (self.names@[i as int]@, self.pictures@[i as int]));
            if self.names[i] == *name {
                found = Some(self.pictures[i]);
            } else {
                let ghost kept = Seq::new(names@.len(), |k: int| (names@[k]@, pictures@[k]));
                names.push(self.names[i].clone());
                pictures.push(self.pictures[i]);
                assert(Seq::new(names@.len(), |k: int| (names@[k]@, pictures@[k])) == kept.push(
                    (self.names@[i as int]@, self.pictures@[i as int]),
                ));
            }
            i += 1;
        }
        assert(list.take(i as int) == list);
        *self = PictureList { names, pictures };
        found
    }
}

/// The name under which the picture of the image `name` is listed.
pub fn base_name(name: &String) -> (base: String)
    ensures
        base@ == spec_base_name(name@),
{
    let text = name.as_str();
    let mut len: usize = text.unicode_len();
    assert(name@.take(len as int) == name@);
    while len >= 4 && text.get_char(len - 4) == '.' && text.get_char(len - 3) == 'p'
        && text.get_char(len - 2) == 'c' && text.get_char(len - 1) == 'x'
        invariant
            len <= text@.len(),
            text@ == name@,
            spec_base_name(name@) == spec_base_name(name@.take(len as int)),
        decreases len,
    {
        assert(name@.take(len as int).take(len - 4) == name@.take(len - 4));
        len -= 4;
    }
    assert(!ends_in_pcx(name@.take(len as int)));
    assert(name@.take(len as int) == name@.subrange(0, len as int));
    text.substring_char(0, len).to_owned()
}

/// The kind for a number that may stand in the kind column.
fn kind_of(word: u32) -> (kind: PictureKind)
    ensures
        kind == spec_kind(word),
{
    if word == 100 {
        PictureKind::Picture
    } else if word == 101 {
        PictureKind::Texture
    } else {
        PictureKind::Mask
    }
}

/// The clipping mode for a number that may stand in the clipping column.
fn clipping_of(word: u32) -> (clipping: ClippingMode)
    ensures
        clipping == spec_clipping(word),
{
    if word == 0 {
        ClippingMode::Unclipped
    } else if word == 1 {
        ClippingMode::Ground
    } else {
        ClippingMode::Sky
    }
}

/// Whether `word` may stand in `column`.
fn check(column: Column, word: u32) -> (checked: Result<(), LgrError>)
    ensures
        checked == spec_check(column, word),
{
    match column {
        Column::Kind => if 100 <= word && word <= 102 {
            Ok(())
        } else {
            error(LgrError::UnknownPictureKind)
        },
        Column::Distance => Ok(()),
        Column::Clipping => if word <= 2 {
            Ok(())
        } else {
            error(LgrError::UnknownClippingMode)
        },
        Column::Closing => if word == 12 {
            Ok(())
        } else {
            error(LgrError::InvalidPictureEntry)
        },
    }
}

/// Reads the `count` numbers of a column.
fn read_column(stream: &mut Stream, count: usize, column: Column) -> (words: Result<
    Vec<u32>,
    LgrError,
>)
    ensures
        match words {
            Ok(w) => spec_column(old(stream)@, count as nat, column) == Ok::<Seq<u32>, LgrError>(
                w@,
            ) && w@.len() == count && old(stream)@.len() >= 4 * count && final(stream)@ == old(
                stream,
            )@.skip(4 * count),
            Err(reason) => spec_column(old(stream)@, count as nat, column) == Err::<
                Seq<u32>,
                LgrError,
            >(reason),
        },
{
    let mut words: Vec<u32> = Vec::new();
    let mut i: usize = 0;
    while i < count
        invariant
            i <= count,
            words@.len() == i,
            old(stream)@.len() >= 4 * i,
            stream@ == old(stream)@.skip(4 * i),
            spec_column(old(stream)@, count as nat, column) == spec_prepend(
                words@,
                spec_column(stream@, (count - i) as nat, column),
            ),
        decreases count - i,
    {
        let ghost before = stream@;
        let ghost read = words@;
        let word = match stream.read_u32() {
            Ok(word) => word,
            Err(reason) => {
                return Err(reason);
            },
        };
        match check(column, word) {
            Ok(_) => {},
            Err(reason) => {
                return Err(reason);
            },
        }
        words.push(word);
        proof {
            assert(stream@ == old(stream)@.skip(4 * (i + 1)));
            let rest = spec_column(stream@, (count - i - 1) as nat, column);
            match rest {
                Ok(rest) => {
                    assert(read + (seq![word] + rest) == words@ + rest);
                },
                Err(_) => {},
            }
        }
        i += 1;
    }
    assert(words@ + Seq::<u32>::empty() == words@);
    Ok(words)
}

/// Reads the `count` names of the table.
fn read_names(stream: &mut Stream, count: usize) -> (names: Result<Vec<String>, LgrError>)
    ensures
        match names {
            Ok(n) => spec_names(old(stream)@, count as nat) == Ok::<Seq<Seq<char>>, LgrError>(
                Seq::new(n@.len(), |i: int| n@[i]@),
            ) && n@.len() == count && old(stream)@.len() >= 10 * count && final(stream)@ == old(
                stream,
            )@.skip(10 * count),
            Err(reason) => spec_names(old(stream)@, count as nat) == Err::<
                Seq<Seq<char>>,
                LgrError,
            >(reason),
        },
{
    let mut names: Vec<String> = Vec::new();
    let mut i: usize = 0;
    while i < count
        invariant
            i <= count,
            names@.len() == i,
            old(stream)@.len() >= 10 * i,
            stream@ == old(stream)@.skip(10 * i),
            spec_names(old(stream)@, count as nat) == spec_prepend(
                Seq::new(names@.len(), |k: int| names@[k]@),
                spec_names(stream@, (count - i) as nat),
            ),
        decreases count - i,
    {
        let ghost read = Seq::new(names@.len(), |k: int| names@[k]@);
        let name = match read_string(stream, 10) {
            Ok(name) => name,
            Err(reason) => {
                return Err(reason);
            },
        };
        let ghost text = name@;
        names.push(name);
        proof {
            assert(stream@ == old(stream)@.skip(10 * (i + 1)));
            let now = Seq::new(names@.len(), |k: int| names@[k]@);
            assert(now == read.push(text));
            let rest = spec_names(stream@, (count - i - 1) as nat);
            match rest {
                Ok(rest) => {
                    assert(read + (seq![text] + rest) == now + rest);
                },
                Err(_) => {},
            }
        }
        i += 1;
    }
    assert(Seq::new(names@.len(), |k: int| names@[k]@) + Seq::<Seq<char>>::empty() == Seq::new(
        names@.len(),
        |k: int| names@[k]@,
    ));
    Ok(names)
}

/// Reads the table of `listed_images` picture descriptions.
pub fn read_pictures(stream: &mut Stream, listed_images: usize) -> (pictures: Result<
    PictureList,
    LgrError,
>)
    ensures
        match pictures {
            Ok(list) => spec_pictures(old(stream)@, listed_images as nat) == Ok::<
                Seq<(Seq<char>, Picture)>,
                LgrError,
            >(list@) && list@.len() == listed_images && old(stream)@.len() >= 26 * listed_images
                && final(stream)@ == old(stream)@.skip(26 * listed_images),
            Err(reason) => spec_pictures(old(stream)@, listed_images as nat) == Err::<
                Seq<(Seq<char>, Picture)>,
                LgrError,
            >(reason),
        },
{
    let ghost start = stream@;
    let names = match read_names(stream, listed_images) {
        Ok(names) => names,
        Err(reason) => {
            return Err(reason);
        },
    };
    let kinds = match read_column(stream, listed_images, Column::Kind) {
        Ok(kinds) => kinds,
        Err(reason) => {
            return Err(reason);
        },
    };
    assert(stream@ == start.skip(14 * listed_images)) by {
        assert(start.skip(10 * listed_images).skip(4 * listed_images) =~= start.skip(
            14 * listed_images,
        ));
    }
    let distances = match read_column(stream, listed_images, Column::Distance) {
        Ok(distances) => distances,
        Err(reason) => {
            return Err(reason);
        },
    };
    assert(stream@ == start.skip(18 * listed_images)) by {
        assert(start.skip(14 * listed_images).skip(4 * listed_images) =~= start.skip(
            18 * listed_images,
        ));
    }
    let clippings = match read_column(stream, listed_images, Column::Clipping) {
        Ok(clippings) => clippings,
        Err(reason) => {
            return Err(reason);
        },
    };
    assert(stream@ == start.skip(22 * listed_images)) by {
        assert(start.skip(18 * listed_images).skip(4 * listed_images) =~= start.skip(
            22 * listed_images,
        ));
    }
    match read_column(stream, listed_images, Column::Closing) {
        Ok(_) => {},
        Err(reason) => {
            return Err(reason);
        },
    }
    assert(stream@ == start.skip(26 * listed_images)) by {
        assert(start.skip(22 * listed_images).skip(4 * listed_images) =~= start.skip(
            26 * listed_images,
        ));
    }
    let mut pictures: Vec<Picture> = Vec::new();
    let mut i: usize = 0;
    while i < listed_images
        invariant
            i <= listed_images,
            pictures@.len() == i,
            kinds@.len() == listed_images,
            distances@.len() == listed_images,
            clippings@.len() == listed_images,
            forall|k: int|
                0 <= k < i ==> #[trigger] pictures@[k] == (Picture {
                    kind: spec_kind(kinds@[k]),
                    distance: distances@[k],
                    clipping: spec_clipping(clippings@[k]),
                }),
        decreases listed_images - i,
    {
        pictures.push(
            Picture {
                kind: kind_of(kinds[i]),
                distance: distances[i],
                clipping: clipping_of(clippings[i]),
            },
        );
        i += 1;
    }
    let list = PictureList { names, pictures };
    assert(list@ == spec_pictures(start, listed_images as nat)->Ok_0);
    Ok(list)
}

} // verus!
