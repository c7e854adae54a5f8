use elma_physics::lgr::archive::Lgr;
use elma_physics::lgr::error::{error, LgrError};
use elma_physics::lgr::image::Image;
use elma_physics::lgr::name::name_precedes;
use elma_physics::lgr::pcx::decode;
use elma_physics::lgr::picture::{
    base_name, read_pictures, ClippingMode, Picture, PictureKind,
};
use elma_physics::lgr::stream::{read_string, trim_at_zero, Stream};

fn palette() -> Vec<u8> {
    let mut palette = Vec::new();
    for i in 0..256u32 {
        palette.push(i as u8);
        palette.push((255 - i) as u8);
        palette.push((i * 7 % 256) as u8);
    }
    palette
}

fn pcx_image(width: u16, height: u16, seed: u8) -> Vec<u8> {
    let mut bytes = Vec::new();
    {
        let mut writer = pcx::WriterPaletted::new(&mut bytes, (width, height), (300, 300)).unwrap();
        for y in 0..height {
            let row: Vec<u8> =
                (0..width).map(|x| seed.wrapping_add((y * width + x) as u8)).collect();
            writer.write_row(&row).unwrap();
        }
        writer.write_palette(&palette()).unwrap();
    }
    bytes
}

fn field(name: &str, len: usize) -> Vec<u8> {
    let mut bytes = name.as_bytes().to_vec();
    bytes.resize(len, 0);
    bytes
}

fn word(value: u32) -> Vec<u8> {
    value.to_le_bytes().to_vec()
}

fn table(pictures: &[(&str, u32, u32, u32)]) -> Vec<u8> {
    let mut bytes = Vec::new();
    for p in pictures {
        bytes.extend(field(p.0, 10));
    }
    for p in pictures {
        bytes.extend(word(p.1));
    }
    for p in pictures {
        bytes.extend(word(p.2));
    }
    for p in pictures {
        bytes.extend(word(p.3));
    }
    for _ in pictures {
        bytes.extend(word(12));
    }
    bytes
}

fn archive(pictures: &[(&str, u32, u32, u32)], images: &[(&str, Vec<u8>)]) -> Vec<u8> {
    let mut bytes = b"LGR12".to_vec();
    bytes.extend(word(images.len() as u32));
    bytes.extend(word(1002));
    bytes.extend(word(pictures.len() as u32));
    bytes.extend(table(pictures));
    for (name, pcx) in images {
        bytes.extend(field(name, 12));
        bytes.extend(word(0));
        bytes.extend(word(0));
        bytes.extend(word(pcx.len() as u32));
        bytes.extend(pcx.iter());
    }
    bytes
}

fn sample() -> Vec<u8> {
    archive(
        &[("barrel", 100, 380, 0), ("brick", 101, 750, 1), ("maskbig", 102, 1, 2)],
        &[
            ("maskbig.pcx", pcx_image(3, 2, 200)),
            ("barrel.pcx", pcx_image(4, 3, 10)),
            ("q1body.pcx", pcx_image(2, 2, 50)),
        ],
    )
}

#[test]
fn load_reads_all_images() {
    let bytes = sample();
    for (pixels, raw) in [(false, false), (false, true), (true, false), (true, true)] {
        let lgr = Lgr::load_from_stream(&bytes, pixels, raw).unwrap();
        assert_eq!(lgr.images.len(), 3);
        assert_eq!(lgr.palette, palette());
        for (_, image) in &lgr.images {
            assert_eq!(image.pixels.is_empty(), !pixels);
            assert_eq!(image.pcx.is_empty(), !raw);
        }
    }
}

#[test]
fn load_keeps_names_sizes_and_descriptions() {
    let lgr = Lgr::load_from_stream(&sample(), true, true).unwrap();
    let names: Vec<&str> = lgr.images.iter().map(|(name, _)| name.as_str()).collect();
    assert_eq!(names, vec!["barrel.pcx", "maskbig.pcx", "q1body.pcx"]);
    let mask = &lgr.images[1].1;
    assert_eq!((mask.width, mask.height), (3, 2));
    assert_eq!(
        mask.info,
        Some(Picture { kind: PictureKind::Mask, distance: 1, clipping: ClippingMode::Sky })
    );
    let barrel = &lgr.images[0].1;
    assert_eq!((barrel.width, barrel.height), (4, 3));
    assert_eq!(
        barrel.info,
        Some(Picture { kind: PictureKind::Picture, distance: 380, clipping: ClippingMode::Unclipped })
    );
    assert_eq!(barrel.pcx, pcx_image(4, 3, 10));
    assert_eq!(lgr.images[2].1.info, None);
}

#[test]
fn get_pixel_reads_row_by_row() {
    let lgr = Lgr::load_from_stream(&sample(), true, false).unwrap();
    let barrel = &lgr.images[0].1;
    assert_eq!(barrel.get_pixel(0, 0), 10);
    assert_eq!(barrel.get_pixel(3, 0), 13);
    assert_eq!(barrel.get_pixel(0, 1), 14);
    assert_eq!(barrel.get_pixel(3, 2), 21);
    let image = Image { info: None, width: 2, height: 2, pixels: vec![1, 2, 3, 4], pcx: vec![] };
    assert_eq!(image.get_pixel(1, 0), 2);
    assert_eq!(image.get_pixel(0, 1), 3);
}

#[test]
fn get_palette_color_returns_the_triple() {
    let lgr = Lgr::load_from_stream(&sample(), false, false).unwrap();
    assert_eq!(lgr.get_palette_color(0), (0, 255, 0));
    assert_eq!(lgr.get_palette_color(1), (1, 254, 7));
    assert_eq!(lgr.get_palette_color(255), (255, 0, (255u32 * 7 % 256) as u8));
}

#[test]
fn palette_comes_from_the_first_image_that_is_no_mask() {
    let mut other = pcx_image(1, 1, 0);
    let len = other.len();
    for byte in &mut other[len - 768..] {
        *byte = 9;
    }
    let bytes = archive(
        &[("m", 102, 1, 0)],
        &[("m.pcx", other.clone()), ("a.pcx", pcx_image(1, 1, 0)), ("b.pcx", other)],
    );
    let lgr = Lgr::load_from_stream(&bytes, false, false).unwrap();
    assert_eq!(lgr.palette, palette());
    let only_mask = archive(&[("m", 102, 1, 0)], &[("m.pcx", pcx_image(1, 1, 0))]);
    let lgr = Lgr::load_from_stream(&only_mask, false, false).unwrap();
    assert!(lgr.palette.is_empty());
}

#[test]
fn later_image_replaces_earlier_one_of_the_same_name() {
    let bytes = archive(
        &[("a", 100, 5, 0)],
        &[("a.pcx", pcx_image(1, 1, 0)), ("b.pcx", pcx_image(2, 1, 0)), ("a.pcx", pcx_image(3, 1, 0))],
    );
    let lgr = Lgr::load_from_stream(&bytes, false, false).unwrap();
    assert_eq!(lgr.images.len(), 2);
    assert_eq!(lgr.images[0].0, "a.pcx");
    assert_eq!(lgr.images[0].1.width, 3);
    assert_eq!(lgr.images[0].1.info, None);
    assert_eq!(lgr.images[1].0, "b.pcx");
}

#[test]
fn last_description_of_a_name_counts() {
    let bytes = archive(
        &[("a", 100, 5, 0), ("a", 101, 6, 1)],
        &[("a.pcx.pcx", pcx_image(1, 1, 0))],
    );
    let lgr = Lgr::load_from_stream(&bytes, false, false).unwrap();
    assert_eq!(
        lgr.images[0].1.info,
        Some(Picture { kind: PictureKind::Texture, distance: 6, clipping: ClippingMode::Ground })
    );
}

#[test]
fn empty_archive_loads() {
    let bytes = archive(&[], &[]);
    let lgr = Lgr::load_from_stream(&bytes, true, true).unwrap();
    assert!(lgr.images.is_empty());
    assert!(lgr.palette.is_empty());
}

#[test]
fn trailing_bytes_are_ignored() {
    let mut bytes = sample();
    bytes.extend([1, 2, 3]);
    assert_eq!(Lgr::load_from_stream(&bytes, false, false).unwrap().images.len(), 3);
}

#[test]
fn wrong_magic_is_not_an_lgr() {
    let mut bytes = sample();
    bytes[4] = b'3';
    assert_eq!(Lgr::load_from_stream(&bytes, false, false).unwrap_err(), LgrError::NotAnLgr);
    assert_eq!(Lgr::load_from_stream(b"LGR1", false, false).unwrap_err(), LgrError::UnexpectedEof);
    assert_eq!(Lgr::load_from_stream(b"", false, false).unwrap_err(), LgrError::UnexpectedEof);
}

#[test]
fn wrong_version_is_refused() {
    let mut bytes = archive(&[], &[]);
    bytes[9] = 0xEB;
    assert_eq!(Lgr::load_from_stream(&bytes, false, false).unwrap_err(), LgrError::InvalidVersion);
}

#[test]
fn truncated_archive_is_unexpected_eof() {
    let bytes = sample();
    for cut in [5, 8, 12, 16, 20, 60, 100, bytes.len() - 1] {
        assert_eq!(
            Lgr::load_from_stream(&bytes[..cut], false, false).unwrap_err(),
            LgrError::UnexpectedEof
        );
    }
}

#[test]
fn bad_table_entries_are_refused() {
    let image = [("a.pcx", pcx_image(1, 1, 0))];
    let bytes = archive(&[("a", 99, 1, 0)], &image);
    assert_eq!(Lgr::load_from_stream(&bytes, false, false).unwrap_err(), LgrError::UnknownPictureKind);
    let bytes = archive(&[("a", 103, 1, 0)], &image);
    assert_eq!(Lgr::load_from_stream(&bytes, false, false).unwrap_err(), LgrError::UnknownPictureKind);
    let bytes = archive(&[("a", 100, 1, 3)], &image);
    assert_eq!(Lgr::load_from_stream(&bytes, false, false).unwrap_err(), LgrError::UnknownClippingMode);
    let mut bytes = archive(&[("a", 100, 1, 0)], &image);
    bytes[17 + 22] = 13;
    assert_eq!(Lgr::load_from_stream(&bytes, false, false).unwrap_err(), LgrError::InvalidPictureEntry);
    let mut bytes = archive(&[("a", 100, 1, 0)], &image);
    bytes[17] = 0xFF;
    assert_eq!(Lgr::load_from_stream(&bytes, false, false).unwrap_err(), LgrError::InvalidName);
}

#[test]
fn first_failure_in_reading_order_decides() {
    let bytes = archive(&[("a", 99, 1, 7)], &[]);
    assert_eq!(
        Lgr::load_from_stream(&bytes[..17 + 14], false, false).unwrap_err(),
        LgrError::UnknownPictureKind
    );
    assert_eq!(
        Lgr::load_from_stream(&bytes[..17 + 13], false, false).unwrap_err(),
        LgrError::UnexpectedEof
    );
}

#[test]
fn broken_pcx_is_refused() {
    let bytes = archive(&[], &[("a.pcx", vec![1, 2, 3])]);
    assert_eq!(Lgr::load_from_stream(&bytes, false, false).unwrap_err(), LgrError::InvalidPcx);
    let mut cut = pcx_image(4, 4, 0);
    cut.truncate(130);
    let bytes = archive(&[], &[("a.pcx", cut)]);
    assert_eq!(Lgr::load_from_stream(&bytes, true, false).unwrap_err(), LgrError::InvalidPcx);
}

#[test]
fn decode_takes_what_is_asked() {
    let bytes = pcx_image(3, 2, 100);
    let all = decode(&bytes, true, true).unwrap();
    assert_eq!((all.width, all.height), (3, 2));
    assert_eq!(all.pixels, vec![100, 101, 102, 103, 104, 105]);
    assert_eq!(all.palette, Some(palette()));
    let size = decode(&bytes, false, false).unwrap();
    assert_eq!((size.width, size.height), (3, 2));
    assert!(size.pixels.is_empty());
    assert_eq!(size.palette, None);
    assert!(decode(&bytes[..100], false, false).is_none());
    assert!(decode(&bytes[..bytes.len() - 1], false, true).is_none());
}

#[test]
fn store_replaces_or_appends() {
    let mut lgr = Lgr::new();
    let one = decode(&pcx_image(1, 1, 0), true, false).unwrap();
    lgr.store("a.pcx".to_string(), None, one, vec![]);
    assert_eq!(lgr.images.len(), 1);
    assert!(lgr.palette.is_empty());
    let two = decode(&pcx_image(2, 1, 0), true, true).unwrap();
    lgr.store("b.pcx".to_string(), None, two, vec![7]);
    assert_eq!(lgr.images.len(), 2);
    assert_eq!(lgr.palette, palette());
    let three = decode(&pcx_image(3, 1, 0), true, false).unwrap();
    lgr.store("a.pcx".to_string(), None, three, vec![]);
    assert_eq!(lgr.images.len(), 2);
    assert_eq!(lgr.images[0].1.width, 3);
    assert_eq!(lgr.images[1].1.pcx, vec![7]);
    assert_eq!(lgr.palette, palette());
}

#[test]
fn trim_at_zero_cuts_at_first_zero() {
    let mut bytes = vec![b'a', b'b', 0, b'c', 0];
    trim_at_zero(&mut bytes);
    assert_eq!(bytes, b"ab".to_vec());
    let mut bytes = vec![b'a', b'b'];
    trim_at_zero(&mut bytes);
    assert_eq!(bytes, b"ab".to_vec());
    let mut bytes = vec![0, 1];
    trim_at_zero(&mut bytes);
    assert!(bytes.is_empty());
    let mut bytes: Vec<u8> = vec![];
    trim_at_zero(&mut bytes);
    assert!(bytes.is_empty());
}

#[test]
fn read_string_reads_a_field() {
    let data = b"abc\0\0\0rest";
    let mut stream = Stream::new(data);
    assert_eq!(read_string(&mut stream, 6).unwrap(), "abc");
    assert_eq!(stream.remaining(), 4);
    assert_eq!(read_string(&mut stream, 4).unwrap(), "rest");
    assert_eq!(read_string(&mut stream, 1).unwrap_err(), LgrError::UnexpectedEof);
    let mut stream = Stream::new(&[0xC3, 0x28]);
    assert_eq!(read_string(&mut stream, 2).unwrap_err(), LgrError::InvalidName);
    let mut stream = Stream::new(&[0xC3, 0xA9, 0]);
    assert_eq!(read_string(&mut stream, 3).unwrap(), "é");
}

#[test]
fn read_u32_is_little_endian() {
    let mut stream = Stream::new(&[0xEA, 0x03, 0, 0, 1, 2, 3, 4, 9]);
    assert_eq!(stream.read_u32().unwrap(), 1002);
    assert_eq!(stream.read_u32().unwrap(), 0x04030201);
    assert_eq!(stream.read_u32().unwrap_err(), LgrError::UnexpectedEof);
    assert_eq!(stream.remaining(), 1);
    assert_eq!(stream.read_exact(1).unwrap(), &[9]);
    assert_eq!(stream.read_exact(0).unwrap(), &[] as &[u8]);
}

#[test]
fn read_pictures_reads_the_table() {
    let mut bytes = table(&[("one", 100, 10, 0), ("two", 102, 999, 2)]);
    bytes.push(42);
    let mut stream = Stream::new(&bytes);
    let mut list = read_pictures(&mut stream, 2).unwrap();
    assert_eq!(stream.remaining(), 1);
    assert_eq!(list.len(), 2);
    assert_eq!(
        list.take(&"two".to_string()),
        Some(Picture { kind: PictureKind::Mask, distance: 999, clipping: ClippingMode::Sky })
    );
    assert_eq!(list.len(), 1);
    assert_eq!(list.take(&"two".to_string()), None);
    assert_eq!(list.take(&"three".to_string()), None);
    assert_eq!(list.len(), 1);
}

#[test]
fn base_name_drops_every_trailing_pcx() {
    assert_eq!(base_name(&"barrel.pcx".to_string()), "barrel");
    assert_eq!(base_name(&"a.pcx.pcx".to_string()), "a");
    assert_eq!(base_name(&".pcx".to_string()), "");
    assert_eq!(base_name(&"a.PCX".to_string()), "a.PCX");
    assert_eq!(base_name(&"pcx".to_string()), "pcx");
    assert_eq!(base_name(&"é.pcx".to_string()), "é");
    assert_eq!(base_name(&"".to_string()), "");
}

#[test]
fn error_wraps_the_reason() {
    let failed: Result<u8, LgrError> = error(LgrError::NotAnLgr);
    assert_eq!(failed, Err(LgrError::NotAnLgr));
    assert_eq!(LgrError::NotAnLgr.message(), "Not an LGR");
    assert_eq!(LgrError::InvalidVersion.message(), "LGR: invalid unknown value != 1002");
    assert_eq!(LgrError::InvalidName.message(), "LGR: invalid ASCII");
    assert_eq!(LgrError::UnknownPictureKind.message(), "LGR: unknown picture kind");
    assert_eq!(LgrError::UnknownClippingMode.message(), "LGR: unknown clipping mode");
    assert_eq!(LgrError::InvalidPictureEntry.message(), "LGR: invalid unknown value != 12");
}

#[test]
fn load() {
    let images: Vec<(String, Vec<u8>)> = (0..77u8)
        .map(|i| (format!("img{:02}.pcx", i), pcx_image(1 + u16::from(i % 5), 2, i)))
        .collect();
    let images: Vec<(&str, Vec<u8>)> =
        images.iter().map(|(name, pcx)| (name.as_str(), pcx.clone())).collect();
    let bytes = archive(&[("img00", 100, 500, 0), ("img76", 101, 1, 2)], &images);

    let lgr = Lgr::load_from_stream(&bytes, false, false).unwrap();
    assert_eq!(lgr.images.len(), 77);

    let lgr = Lgr::load_from_stream(&bytes, false, true).unwrap();
    assert_eq!(lgr.images.len(), 77);

    let lgr = Lgr::load_from_stream(&bytes, true, false).unwrap();
    assert_eq!(lgr.images.len(), 77);

    let lgr = Lgr::load_from_stream(&bytes, true, true).unwrap();
    assert_eq!(lgr.images.len(), 77);
}

#[test]
fn images_stand_in_the_order_of_their_names() {
    let names = [
        "zebra.pcx", "a.pcx", "B.pcx", "a", "ab.pcx", "", "a.pcx.pcx", "\u{e9}t\u{e9}.pcx", "Zz", "b", "a.pcx",
        "\u{10348}.pcx", "~.pcx", "\u{7f}", "\u{80}",
    ];
    let images: Vec<(&str, Vec<u8>)> = names.iter().map(|name| (*name, pcx_image(1, 1, 0))).collect();
    let lgr = Lgr::load_from_stream(&archive(&[], &images), false, false).unwrap();
    let found: Vec<String> = lgr.images.iter().map(|(name, _)| name.clone()).collect();
    let mut expected: Vec<String> = names.iter().map(|name| name.to_string()).collect();
    expected.sort();
    expected.dedup();
    assert_eq!(found, expected);
}

#[test]
fn position_finds_an_image_by_name() {
    let lgr = Lgr::load_from_stream(&sample(), false, false).unwrap();
    assert_eq!(lgr.position(&"barrel.pcx".to_string()), Some(0));
    assert_eq!(lgr.position(&"q1body.pcx".to_string()), Some(2));
    assert_eq!(lgr.position(&"barrel".to_string()), None);
    assert_eq!(Lgr::new().position(&"barrel.pcx".to_string()), None);
}

#[test]
fn name_order_is_that_of_strings() {
    let names = ["", "a", "ab", "b", "B", "\u{e9}", "e\u{301}", "\u{10348}", "\u{ffff}", "a\u{0}"];
    for a in names {
        for b in names {
            assert_eq!(name_precedes(&a.to_string(), &b.to_string()), a < b, "{:?} {:?}", a, b);
        }
    }
}
