use vstd::prelude::*;

use crate::common::identifier::{Identifier, IdentifierModel};
use crate::common::meta::{HasItemMeta, ItemMeta, MetaModel, meta_index};
use crate::common::text::{before_char, split_once_at, text_eq};
use crate::common::util::{get_mime_type, mime_type_of};
use crate::error::FreError;
use crate::lua::source::starts_with;
use crate::stat::statblock::index_pairs;
use crate::stat::value::{IndexModel, IndexValue};

verus! {

//==============================================================================================
//        Encodings
//==============================================================================================

/// The image formats an asset can hold.
#[derive(PartialEq, Eq, Structural, Clone, Copy, Debug)]
pub enum ImageKind {
    Png,
    Jpeg,
    WebP,
}

/// The character of the standard base64 alphabet for the six bits `n`: `A`-`Z`, `a`-`z`,
/// `0`-`9`, `+` and `/`.
pub open spec fn base64_char(n: int) -> char {
    if n < 26 {
        (65 + n) as char
    } else if n < 52 {
        (71 + n) as char
    } else if n < 62 {
        (n - 4) as char
    } else if n == 62 {
        '+'
    } else {
        '/'
    }
}

/// The text base64's standard engine (with padding) makes of `bytes`: each three bytes
/// give four characters of six bits each, and a last group of one or two bytes is padded
/// with `=`.
pub open spec fn base64_standard(bytes: Seq<u8>) -> Seq<char>
    decreases bytes.len(),
{
    if bytes.len() == 0 {
        Seq::empty()
    } else if bytes.len() == 1 {
        let x = bytes[0] as int;
        seq![base64_char(x / 4), base64_char((x % 4) * 16), '=', '=']
    } else if bytes.len() == 2 {
        let x = bytes[0] as int;
        let y = bytes[1] as int;
        seq![base64_char(x / 4), base64_char((x % 4) * 16 + y / 16), base64_char((y % 16) * 4), '=']
    } else {
        let x = bytes[0] as int;
        let y = bytes[1] as int;
        let z = bytes[2] as int;
        seq![base64_char(x / 4), base64_char((x % 4) * 16 + y / 16), base64_char((y % 16) * 4 + z / 64), base64_char(z % 64)]
            + base64_standard(bytes.skip(3))
    }
}

/// What image's `load_from_memory_with_format` followed by `DynamicImage::write_to` in the
/// same format make of `bytes`: the re-encoded image, or the text of the image error.
pub uninterp spec fn reencoded_image(bytes: Seq<u8>, kind: ImageKind) -> Result<Seq<u8>, Seq<char>>;

/// The text std's `Debug` gives for the OS string that holds the text `s`, as a file
/// extension is held: `s` quoted, with its special characters escaped.
pub uninterp spec fn debug_quoted(s: Seq<char>) -> Seq<char>;

/// base64's `Engine::encode` with `BASE64_STANDARD`: the standard alphabet, with `=`
/// padding.
#[verifier::external_body]
pub(crate) fn base64_encode(bytes: &[u8]) -> (r: String)
    ensures
        r@ == base64_standard(bytes@),
{
    base64::Engine::encode(&base64::prelude::BASE64_STANDARD, bytes)
}

/// image's `load_from_memory_with_format`, and `DynamicImage::write_to` of the image read,
/// in the same format, into a new buffer; an image error is taken as its text.
#[verifier::external_body]
pub(crate) fn reencode_image(bytes: &[u8], kind: ImageKind) -> (r: Result<Vec<u8>, String>)
    ensures
        match r {
            Ok(v) => reencoded_image(bytes@, kind) == Ok::<Seq<u8>, Seq<char>>(v@),
            Err(e) => reencoded_image(bytes@, kind) == Err::<Seq<u8>, Seq<char>>(e@),
        },
{
    let format = match kind {
        ImageKind::Png => image::ImageFormat::Png,
        ImageKind::Jpeg => image::ImageFormat::Jpeg,
        ImageKind::WebP => image::ImageFormat::WebP,
    };
    let image = image::load_from_memory_with_format(bytes, format).map_err(|e| e.to_string())?;
    let mut buffer = std::io::Cursor::new(Vec::new());
    image.write_to(&mut buffer, format).map_err(|e| e.to_string())?;
    Ok(buffer.into_inner())
}

/// std's `Debug` formatting of the OS string that holds `s`; a `Path` formats as the OS
/// string it wraps.
#[verifier::external_body]
pub(crate) fn debug_text(s: &str) -> (r: String)
    ensures
        r@ == debug_quoted(s@),
{
    format!("{:?}", std::path::Path::new(s))
}

/// The image format of a known image mime type.
pub open spec fn image_kind_of(mime: Seq<char>) -> ImageKind {
    if mime == "image/png"@ {
        ImageKind::Png
    } else if mime == "image/jpeg"@ {
        ImageKind::Jpeg
    } else {
        ImageKind::WebP
    }
}

fn kind_for_mime(mime: &str) -> (r: ImageKind)
    ensures
        r == image_kind_of(mime@),
{
    proof {
        reveal_strlit("image/png");
        reveal_strlit("image/jpeg");
    }
    if text_eq(mime, "image/png") {
        ImageKind::Png
    } else if text_eq(mime, "image/jpeg") {
        ImageKind::Jpeg
    } else {
        ImageKind::WebP
    }
}

//==============================================================================================
//        Asset
//==============================================================================================

/// An image of a rulebook, kept as base64 text with its mime type.
#[derive(Debug, PartialEq)]
pub struct Asset {
    data: String,
    mime: String,
    meta: ItemMeta,
}

/// The content of an `Asset`.
pub struct AssetModel {
    pub data: Seq<char>,
    pub mime: Seq<char>,
    pub meta: MetaModel,
}

impl View for Asset {
    type V = AssetModel;

    closed spec fn view(&self) -> AssetModel {
        AssetModel { data: self.data@, mime: self.mime@, meta: self.meta@ }
    }
}

/// The extensions of the image files an asset can be made from.
pub open spec fn is_asset_extension(ext: Seq<char>) -> bool {
    ext == "png"@ || ext == "jpeg"@ || ext == "jpg"@ || ext == "webp"@
}

/// The kind part of a mime type: what comes before the first `/`.
pub open spec fn asset_type_of(mime: Seq<char>) -> Seq<char> {
    before_char(mime, '/')
}

impl Asset {
    /// Whether a file with extension `extension` can be loaded as an asset: a png, jpeg or
    /// webp image.
    pub fn accepts_extension(extension: &str) -> (r: bool)
        ensures
            r == is_asset_extension(extension@),
    {
        proof {
            reveal_strlit("png");
            reveal_strlit("jpeg");
            reveal_strlit("jpg");
            reveal_strlit("webp");
        }
        text_eq(extension, "png") || text_eq(extension, "jpeg") || text_eq(extension, "jpg") || text_eq(extension, "webp")
    }

    /// An asset named `name` made from the content `bytes` of an image file with extension
    /// `extension`: a png, jpeg or webp image, re-encoded and kept as base64. A file
    /// without extension, or with another one, is refused with `FileTypeNotValidAsset`
    /// (`NONE`, or the extension quoted), and an image that cannot be read with
    /// `ImageError`.
    pub fn load(name: &str, extension: Option<&str>, bytes: &[u8]) -> (r: Result<Asset, FreError>)
        ensures
            match extension {
                None => r is Err && (r->Err_0 matches FreError::FileTypeNotValidAsset(m) && m@ == "NONE"@),
                Some(ext) => if !is_asset_extension(ext@) {
                    r is Err && (r->Err_0 matches FreError::FileTypeNotValidAsset(m) && m@ == debug_quoted(ext@))
                } else {
                    let mime = mime_type_of(ext@)->0;
                    match reencoded_image(bytes@, image_kind_of(mime)) {
                        Ok(b) => r is Ok && r->Ok_0@.data == base64_standard(b) && r->Ok_0@.mime == mime
                            && r->Ok_0@.meta.name == name@ && r->Ok_0@.meta.kind == "Asset"@
                            && r->Ok_0@.meta.desc.len() == 0 && r->Ok_0@.meta.tags.len() == 0,
                        Err(e) => r is Err && (r->Err_0 matches FreError::ImageError(m) && m@ == e),
                    }
                },
            },
    {
        proof {
            reveal_strlit("NONE");
            reveal_strlit("png");
            reveal_strlit("jpeg");
            reveal_strlit("jpg");
            reveal_strlit("webp");
            reveal_strlit("Asset");
        }
        let ext = match extension {
            None => return Err(FreError::FileTypeNotValidAsset("NONE".to_owned())),
            Some(ext) => ext,
        };
        if text_eq(ext, "png") || text_eq(ext, "jpeg") || text_eq(ext, "jpg") || text_eq(ext, "webp") {
            let mime = match get_mime_type(ext) {
                Ok(m) => m,
                Err(e) => return Err(e),
            };
            let kind = kind_for_mime(mime.as_str());
            match reencode_image(bytes, kind) {
                Ok(encoded) => {
                    let data = base64_encode(encoded.as_slice());
                    Ok(Asset { meta: ItemMeta::new(name, "Asset"), data, mime })
                },
                Err(e) => Err(FreError::ImageError(e)),
            }
        } else {
            Err(FreError::FileTypeNotValidAsset(debug_text(ext)))
        }
    }

    /// An asset made of the parts it was stored as.
    pub fn from_parts(data: String, mime: String, meta: ItemMeta) -> (r: Asset)
        ensures
            r@ == (AssetModel { data: data@, mime: mime@, meta: meta@ }),
    {
        Asset { data, mime, meta }
    }

    /// The image as base64 text.
    pub fn data(&self) -> (r: &str)
        ensures
            r@ == self@.data,
    {
        self.data.as_str()
    }

    pub fn mime(&self) -> (r: &str)
        ensures
            r@ == self@.mime,
    {
        self.mime.as_str()
    }

    /// The kind part of the mime type, as `image` for `image/png`.
    pub fn get_asset_type(&self) -> (r: String)
        ensures
            r@ == asset_type_of(self@.mime),
    {
        let (head, _) = split_once_at(self.mime.as_str(), '/');
        head.to_owned()
    }

    pub fn is_image(&self) -> (r: bool)
        ensures
            r == starts_with(self@.mime, "image"@),
    {
        proof {
            reveal_strlit("image");
        }
        crate::lua::source::text_starts_with(self.mime.as_str(), "image")
    }

    pub fn id(&self) -> (r: Identifier)
        ensures
            r@ == (IdentifierModel { rulebook: None, uuid: self@.meta.uuid, kind: self@.meta.kind }),
    {
        Identifier::new(self.meta.uuid(), self.meta.kind())
    }

    /// Adds the index entries of the asset: those of its meta, and its asset type.
    pub fn get_indices(&self, indices: &mut Vec<(String, IndexValue)>)
        ensures
            index_pairs(final(indices)@) == index_pairs(old(indices)@) + meta_index(self@.meta) + seq![
                ("asset_type"@, IndexModel::String(asset_type_of(self@.mime))),
            ],
    {
        let ghost start = indices@;
        self.meta.get_indices(indices);
        let ghost mid = indices@;
        indices.push(("asset_type".to_owned(), IndexValue::String(self.get_asset_type())));
        proof {
            reveal_strlit("asset_type");
            assert(index_pairs(indices@) =~= index_pairs(mid) + seq![
                ("asset_type"@, IndexModel::String(asset_type_of(self@.mime))),
            ]);
        }
    }
}

impl Clone for Asset {
    fn clone(&self) -> (r: Self)
        ensures
            r@ == self@,
    {
        Asset { data: self.data.clone(), mime: self.mime.clone(), meta: self.meta.clone() }
    }
}

impl HasItemMeta for Asset {
    open spec fn meta_view(&self) -> MetaModel {
        self@.meta
    }

    fn get_meta(&self) -> (r: &ItemMeta) {
        &self.meta
    }

    fn get_meta_mut(&mut self) -> (r: &mut ItemMeta) {
        &mut self.meta
    }
}

} // verus!
