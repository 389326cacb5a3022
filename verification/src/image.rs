//! Image handling: identifiers, decoded images, and the image store cache.
//!
//! Decoding itself belongs to outside libraries — usvg for vector images,
//! the raster codecs for pixel images — and is reached through trusted
//! wrappers.  Both decoders are functions of the byte buffer alone, so
//! their outcomes carry names: which error, if any, each parse reports,
//! and the pixel dimensions of a successful parse.  The contracts of the
//! parse and size functions here are exact over those names; what this
//! module owns and verifies is the shape around the decoders: the
//! identifier arithmetic, the error taxonomy, the vector-first dispatch,
//! and the hash-keyed cache that hands out one identifier per distinct
//! file.  Reading files from disk stays outside the library; the store is
//! fed plain bytes.

use vstd::prelude::*;
use std::collections::HashMap;

verus! {

/// A unique identifier for a loaded image.
#[derive(Debug, Copy, Clone, Eq, PartialEq, Hash, Structural)]
pub struct ImageId(u32);

impl ImageId {
    /// The raw value underneath.
    pub closed spec fn raw(&self) -> u32 {
        self.0
    }

    /// Create an image id from the raw underlying value.
    ///
    /// This should only be called with values returned by
    /// [`into_raw`](Self::into_raw).
    pub fn from_raw(v: u32) -> (r: Self)
        ensures
            r.raw() == v,
    {
        ImageId(v)
    }

    /// Convert into the raw underlying value.
    pub fn into_raw(self) -> (r: u32)
        ensures
            r == self.raw(),
    {
        self.0
    }
}

/// Why an SVG buffer failed to parse; one case per failure of the vector
/// parser.
#[derive(Debug, Clone, Copy, PartialEq, Eq, Structural)]
pub enum SvgParseError {
    /// The buffer is not UTF-8 text.
    NotUtf8,
    /// A compressed buffer could not be extracted.
    MalformedGZip,
    /// The file holds more elements than the parser admits.
    ElementsLimitReached,
    /// The declared width or height is not greater than zero.
    InvalidSize,
    /// The XML itself did not parse.
    ParsingFailed,
}

#[verifier::external_type_specification]
#[verifier::external_body]
pub struct ExUsvgTree(usvg::Tree);

/// The failure, if any, that the vector parse of a byte buffer reports.
/// The parse runs under default options with an empty font set, so the
/// outcome depends on the bytes alone.
pub uninterp spec fn svg_parse_err_of(data: Seq<u8>) -> Option<SvgParseError>;

/// The nominal width a successfully vector-parsed buffer declares, rounded
/// up to whole pixels.
pub uninterp spec fn svg_width_of(data: Seq<u8>) -> u32;

/// The nominal height a successfully vector-parsed buffer declares,
/// rounded up to whole pixels.
pub uninterp spec fn svg_height_of(data: Seq<u8>) -> u32;

/// Relies on usvg::Tree::from_data and usvg::Tree::size: parses an SVG or
/// compressed SVG buffer under default options, whose outcome is a
/// function of the bytes alone, and on success reads the tree's nominal
/// size, which usvg guarantees positive and finite, rounded up to whole
/// pixels (the cast saturates, so no panic path exists).  The match
/// converts the parser's error, one case per variant, with the two
/// gzip-related cases folded into one.
#[verifier::external_body]
fn tree_from_data(data: &[u8]) -> (r: Result<(usvg::Tree, u32, u32), SvgParseError>)
    ensures
        r is Ok <==> svg_parse_err_of(data@) is None,
        r matches Result::Ok(t) ==> t.1 == svg_width_of(data@) && t.2 == svg_height_of(data@)
            && t.1 >= 1 && t.2 >= 1,
        r matches Result::Err(e) ==> svg_parse_err_of(data@) == Option::Some(e),
{
    match usvg::Tree::from_data(data, &usvg::Options::default()) {
        Ok(tree) => {
            let size = tree.size();
            Ok((tree, size.width().ceil() as u32, size.height().ceil() as u32))
        },
        Err(usvg::Error::NotAnUtf8Str) => Err(SvgParseError::NotUtf8),
        Err(usvg::Error::MalformedGZip) => Err(SvgParseError::MalformedGZip),
        Err(usvg::Error::SvgzFeatureNotEnabled) => Err(SvgParseError::MalformedGZip),
        Err(usvg::Error::ElementsLimitReached) => Err(SvgParseError::ElementsLimitReached),
        Err(usvg::Error::InvalidSize) => Err(SvgParseError::InvalidSize),
        Err(usvg::Error::ParsingFailed(_)) => Err(SvgParseError::ParsingFailed),
    }
}

/// An SVG image, supported through the vector parser's tree, with its
/// nominal pixel size fixed at parse time.
pub struct Svg {
    /// The parsed tree.
    pub tree: usvg::Tree,
    width: u32,
    height: u32,
}

impl Svg {
    /// The width fixed at parse time.
    pub closed spec fn nominal_width(&self) -> u32 {
        self.width
    }

    /// The height fixed at parse time.
    pub closed spec fn nominal_height(&self) -> u32 {
        self.height
    }

    /// Parse an SVG file from a data buffer.  This also handles compressed
    /// files.  Succeeds exactly when the vector parse of the bytes
    /// succeeds, and hands any failure through unchanged.
    pub fn parse(data: &[u8]) -> (r: Result<Self, SvgParseError>)
        ensures
            r is Ok <==> svg_parse_err_of(data@) is None,
            r matches Result::Ok(svg) ==> svg.nominal_width() == svg_width_of(data@)
                && svg.nominal_height() == svg_height_of(data@) && svg.nominal_width() >= 1
                && svg.nominal_height() >= 1,
            r matches Result::Err(e) ==> svg_parse_err_of(data@) == Option::Some(e),
    {
        match tree_from_data(data) {
            Result::Ok((tree, width, height)) => Result::Ok(Svg { tree, width, height }),
            Result::Err(e) => Result::Err(e),
        }
    }

    /// The width of the image in rounded-up nominal SVG pixels.
    pub fn width(&self) -> (r: u32)
        ensures
            r == self.nominal_width(),
    {
        self.width
    }

    /// The height of the image in rounded-up nominal SVG pixels.
    pub fn height(&self) -> (r: u32)
        ensures
            r == self.nominal_height(),
    {
        self.height
    }
}

/// Why a raster buffer failed to parse.
#[derive(Debug, Clone, Copy, PartialEq, Eq, Structural)]
pub enum RasterParseError {
    /// No supported format matched the buffer.
    UnknownFormat,
    /// The format was recognized but the pixel data did not decode.
    DecodeFailed,
}

#[verifier::external_type_specification]
#[verifier::external_body]
pub struct ExImageFormat(image::ImageFormat);

#[verifier::external_type_specification]
#[verifier::external_body]
pub struct ExDynamicImage(image::DynamicImage);

/// The failure, if any, that the raster parse of a byte buffer reports:
/// the format guess over the magic bytes, then the decode in the guessed
/// format.  Both are functions of the bytes alone.
pub uninterp spec fn raster_parse_err_of(data: Seq<u8>) -> Option<RasterParseError>;

/// The pixel width of a successfully raster-parsed buffer.
pub uninterp spec fn raster_width_of(data: Seq<u8>) -> u32;

/// The pixel height of a successfully raster-parsed buffer.
pub uninterp spec fn raster_height_of(data: Seq<u8>) -> u32;

/// Relies on image::guess_format, image::load_from_memory_with_format and
/// DynamicImage::width/height: recognizes the encoded format from the
/// buffer's magic bytes, decodes the buffer in that format, and reads the
/// decoded pixel dimensions.  The whole chain is a function of the bytes
/// alone, which is why the three calls share one wrapper: a separate
/// decode wrapper could not tie its opaque format argument back to the
/// bytes.  The decoders return errors, never panic.
#[verifier::external_body]
fn raster_from_data(data: &[u8]) -> (r: Result<
    (image::ImageFormat, image::DynamicImage, u32, u32),
    RasterParseError,
>)
    ensures
        r is Ok <==> raster_parse_err_of(data@) is None,
        r matches Result::Ok(t) ==> t.2 == raster_width_of(data@) && t.3 == raster_height_of(
            data@,
        ),
        r matches Result::Err(e) ==> raster_parse_err_of(data@) == Option::Some(e),
{
    let format = match image::guess_format(data) {
        Ok(f) => f,
        Err(_) => return Err(RasterParseError::UnknownFormat),
    };
    match image::load_from_memory_with_format(data, format) {
        Ok(buf) => {
            let (w, h) = (buf.width(), buf.height());
            Ok((format, buf, w, h))
        },
        Err(_) => Err(RasterParseError::DecodeFailed),
    }
}

/// A raster image, supported through the raster codecs, with its pixel
/// size fixed at parse time.
pub struct RasterImage {
    /// The original format the image was encoded in.
    pub format: image::ImageFormat,
    /// The decoded image.
    pub buf: image::DynamicImage,
    width: u32,
    height: u32,
}

impl RasterImage {
    /// The decoded pixel width, fixed at parse time.
    pub closed spec fn pixel_width(&self) -> u32 {
        self.width
    }

    /// The decoded pixel height, fixed at parse time.
    pub closed spec fn pixel_height(&self) -> u32 {
        self.height
    }

    /// Parse an image from raw data in a supported format.  The format is
    /// determined automatically.  Succeeds exactly when the raster parse
    /// of the bytes succeeds, and hands any failure through unchanged.
    pub fn parse(data: &[u8]) -> (r: Result<Self, RasterParseError>)
        ensures
            r is Ok <==> raster_parse_err_of(data@) is None,
            r matches Result::Ok(img) ==> img.pixel_width() == raster_width_of(data@)
                && img.pixel_height() == raster_height_of(data@),
            r matches Result::Err(e) ==> raster_parse_err_of(data@) == Option::Some(e),
    {
        match raster_from_data(data) {
            Result::Ok((format, buf, width, height)) => Result::Ok(
                RasterImage { format, buf, width, height },
            ),
            Result::Err(e) => Result::Err(e),
        }
    }

    /// The width of the image.
    pub fn width(&self) -> (r: u32)
        ensures
            r == self.pixel_width(),
    {
        self.width
    }

    /// The height of the image.
    pub fn height(&self) -> (r: u32)
        ensures
            r == self.pixel_height(),
    {
        self.height
    }
}

/// Why an image buffer failed to parse under both readings.
#[derive(Debug, Clone, Copy, PartialEq, Eq, Structural)]
pub enum ImageParseError {
    /// The vector parser gave up for a reason other than the buffer not
    /// being vector data at all.
    Svg(SvgParseError),
    /// The buffer is not vector data and the raster parse failed too.
    Raster(RasterParseError),
}

/// A loaded image.
pub enum Image {
    Raster(RasterImage),
    Svg(Svg),
}

/// What parsing a byte buffer as an image must yield: the vector reading
/// if it succeeds; its error surfaced only when the file is a vector image
/// too large to admit; otherwise the buffer falls through to the raster
/// reading — skipping the preferred decoder is not itself an error — whose
/// outcome then decides.
pub open spec fn image_parse_post(data: Seq<u8>, r: Result<Image, ImageParseError>) -> bool {
    match svg_parse_err_of(data) {
        Option::None => r matches Result::Ok(img) && (img matches Image::Svg(svg)
            && svg.nominal_width() == svg_width_of(data) && svg.nominal_height()
            == svg_height_of(data)),
        Option::Some(se) => {
            if se == SvgParseError::ElementsLimitReached {
                r matches Result::Err(e) && e == (ImageParseError::Svg(se))
            } else {
                match raster_parse_err_of(data) {
                    Option::None => r matches Result::Ok(img) && (img matches Image::Raster(ri)
                        && ri.pixel_width() == raster_width_of(data) && ri.pixel_height()
                        == raster_height_of(data)),
                    Option::Some(re) => r matches Result::Err(e) && e == (
                    ImageParseError::Raster(re)),
                }
            }
        },
    }
}

impl Image {
    /// What an image's width is: the decoded buffer's pixel width for a
    /// raster image, the rounded-up nominal SVG pixel width for a vector
    /// image.
    pub open spec fn spec_width(&self) -> u32 {
        match self {
            Image::Raster(img) => img.pixel_width(),
            Image::Svg(img) => img.nominal_width(),
        }
    }

    /// What an image's height is, variant for variant.
    pub open spec fn spec_height(&self) -> u32 {
        match self {
            Image::Raster(img) => img.pixel_height(),
            Image::Svg(img) => img.nominal_height(),
        }
    }

    /// Parse an image from raw data.  This will prioritize SVG images and
    /// then try to decode a supported raster format; only an SVG that is
    /// too large to admit stops the raster attempt.
    pub fn parse(data: &[u8]) -> (r: Result<Self, ImageParseError>)
        ensures
            image_parse_post(data@, r),
            r is Ok <==> (svg_parse_err_of(data@) is None || (svg_parse_err_of(data@)
                != Option::Some(SvgParseError::ElementsLimitReached) && raster_parse_err_of(
                data@,
            ) is None)),
    {
        match Svg::parse(data) {
            Result::Ok(svg) => Result::Ok(Image::Svg(svg)),
            Result::Err(SvgParseError::ElementsLimitReached) => Result::Err(
                ImageParseError::Svg(SvgParseError::ElementsLimitReached),
            ),
            Result::Err(_) => match RasterImage::parse(data) {
                Result::Ok(raster) => Result::Ok(Image::Raster(raster)),
                Result::Err(e) => Result::Err(ImageParseError::Raster(e)),
            },
        }
    }

    /// The width of the image in pixels.
    pub fn width(&self) -> (r: u32)
        ensures
            r == self.spec_width(),
    {
        match self {
            Image::Raster(image) => image.width(),
            Image::Svg(image) => image.width(),
        }
    }

    /// The height of the image in pixels.
    pub fn height(&self) -> (r: u32)
        ensures
            r == self.spec_height(),
    {
        match self {
            Image::Raster(image) => image.height(),
            Image::Svg(image) => image.height(),
        }
    }

    /// Whether the image is vector rather than raster data.
    pub fn is_vector(&self) -> (r: bool)
        ensures
            r == (self is Svg),
    {
        matches!(self, Image::Svg(_))
    }
}

/// Storage for loaded and decoded images: one identifier per distinct file
/// hash.  Reading and hashing the file is the caller's business; the store
/// caches the decoded image under the hash.
pub struct ImageStore {
    files: HashMap<u64, ImageId>,
    images: Vec<Image>,
}

impl ImageStore {
    /// Every cached id points into the image table.
    pub closed spec fn wf(&self) -> bool {
        forall|h: u64|
            self.files@.dom().contains(h) ==> ((#[trigger] self.files@[h]).raw() as int)
                < self.images@.len()
    }

    /// The cache contents: which id each file hash is held under.
    pub closed spec fn cache(&self) -> Map<u64, ImageId> {
        self.files@
    }

    /// The decoded images, in identifier order.
    pub closed spec fn table(&self) -> Seq<Image> {
        self.images@
    }

    /// Create a new, empty image store.
    pub fn new() -> (r: ImageStore)
        ensures
            r.wf(),
            r.cache() == Map::<u64, ImageId>::empty(),
            r.table().len() == 0,
    {
        ImageStore { files: HashMap::new(), images: Vec::new() }
    }

    /// The id a file hash is already cached under, if any.
    pub fn lookup(&self, hash: u64) -> (r: Option<ImageId>)
        ensures
            match r {
                Option::Some(id) => self.cache().contains_key(hash) && id == self.cache()[hash],
                Option::None => !self.cache().contains_key(hash),
            },
    {
        broadcast use vstd::std_specs::hash::group_hash_axioms;

        match self.files.get(&hash) {
            Option::Some(id) => Option::Some(*id),
            Option::None => Option::None,
        }
    }

    /// Caches a decoded image under its file hash and hands back its id.
    /// A hash already cached keeps its id and the store is unchanged; a
    /// fresh hash is assigned the next id in order.
    pub fn insert(&mut self, hash: u64, image: Image) -> (id: ImageId)
        requires
            old(self).wf(),
            old(self).table().len() < u32::MAX,
        ensures
            final(self).wf(),
            old(self).cache().contains_key(hash) ==> (id == old(self).cache()[hash]
                && final(self).cache() == old(self).cache() && final(self).table() == old(
                self,
            ).table()),
            !old(self).cache().contains_key(hash) ==> {
                &&& id.raw() == old(self).table().len()
                &&& final(self).table() == old(self).table().push(image)
                &&& final(self).cache() == old(self).cache().insert(hash, id)
            },
    {
        broadcast use vstd::std_specs::hash::group_hash_axioms;

        if let Option::Some(id) = self.lookup(hash) {
            return id;
        }
        let id = ImageId(self.images.len() as u32);
        self.images.push(image);
        self.files.insert(hash, id);
        id
    }

    /// How many images the store holds.
    pub fn len(&self) -> (r: usize)
        ensures
            r == self.table().len(),
    {
        self.images.len()
    }

    /// Get a reference to a cached image.  Only identifiers this store
    /// handed out index the table.
    pub fn get(&self, id: ImageId) -> (r: &Image)
        requires
            self.wf(),
            id.raw() < self.table().len(),
        ensures
            *r == self.table()[id.raw() as int],
    {
        &self.images[id.0 as usize]
    }
}

} // verus!
