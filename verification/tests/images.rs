use crossref_core::image::{
    Image, ImageId, ImageParseError, ImageStore, RasterImage, RasterParseError, Svg,
    SvgParseError,
};

const SVG_10_BY_20: &[u8] =
    b"<svg xmlns='http://www.w3.org/2000/svg' width='10' height='20'></svg>";

fn png_bytes(width: u32, height: u32) -> Vec<u8> {
    let img = image::DynamicImage::new_rgb8(width, height);
    let mut buf: Vec<u8> = Vec::new();
    img.write_to(&mut std::io::Cursor::new(&mut buf), image::ImageFormat::Png).unwrap();
    buf
}

#[test]
fn image_id_round_trips() {
    let id = ImageId::from_raw(7);
    assert_eq!(id.into_raw(), 7);
    assert_eq!(ImageId::from_raw(id.into_raw()), id);
}

#[test]
fn svg_parses_with_nominal_size() {
    let svg = Svg::parse(SVG_10_BY_20).unwrap();
    assert_eq!(svg.width(), 10);
    assert_eq!(svg.height(), 20);
}

#[test]
fn svg_rejects_garbage() {
    assert!(matches!(
        Svg::parse(b"not an svg at all"),
        Err(SvgParseError::ParsingFailed)
    ));
    assert!(matches!(
        Svg::parse(&[0xff, 0xfe, 0x00, 0x01]),
        Err(SvgParseError::NotUtf8) | Err(SvgParseError::ParsingFailed)
    ));
}

#[test]
fn raster_parses_png() {
    let bytes = png_bytes(2, 3);
    let raster = RasterImage::parse(&bytes).unwrap();
    assert_eq!(raster.width(), 2);
    assert_eq!(raster.height(), 3);
    assert_eq!(raster.format, image::ImageFormat::Png);
}

#[test]
fn raster_rejects_unknown_format() {
    assert!(matches!(
        RasterImage::parse(&[1, 2, 3, 4]),
        Err(RasterParseError::UnknownFormat)
    ));
}

#[test]
fn image_parse_prioritizes_svg() {
    let vector = Image::parse(SVG_10_BY_20).unwrap();
    assert!(vector.is_vector());
    assert_eq!(vector.width(), 10);
    assert_eq!(vector.height(), 20);
    let raster = Image::parse(&png_bytes(4, 5)).unwrap();
    assert!(!raster.is_vector());
    assert_eq!(raster.width(), 4);
    assert_eq!(raster.height(), 5);
    assert!(matches!(
        Image::parse(&[1, 2, 3, 4]),
        Err(ImageParseError::Raster(RasterParseError::UnknownFormat))
    ));
}

#[test]
fn image_store_caches_by_hash() {
    let mut store = ImageStore::new();
    let first = store.insert(11, Image::parse(SVG_10_BY_20).unwrap());
    let again = store.insert(11, Image::parse(SVG_10_BY_20).unwrap());
    assert_eq!(first, again);
    assert_eq!(store.len(), 1);
    let second = store.insert(22, Image::parse(&png_bytes(1, 1)).unwrap());
    assert_ne!(first, second);
    assert_eq!(store.len(), 2);
    assert!(store.get(first).is_vector());
    assert!(!store.get(second).is_vector());
}
