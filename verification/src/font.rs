//! An owned font: the bytes of a font file, the offset of one face's table
//! directory in them, and the key under which swash caches that face.
//!
//! swash works on `FontRef`, a borrowed and transient value. `Font` owns the
//! bytes and hands out a `FontRef` on demand, always with the same key, so
//! that swash's caches keep recognising the face.

use swash::{Attributes, CacheKey, Charmap, FontRef};
use vstd::prelude::*;

verus! {

#[verifier::external_type_specification]
#[verifier::external_body]
pub struct ExCacheKey(CacheKey);

/// `swash::FontRef`, with the three public fields that it is made of: the
/// bytes of the file, the offset of the face's table directory, and the key
/// of the face in swash's caches.
#[verifier::external_type_specification]
pub struct ExFontRef<'a>(FontRef<'a>);

#[verifier::external_type_specification]
#[verifier::external_body]
pub struct ExAttributes(Attributes);

#[verifier::external_type_specification]
#[verifier::external_body]
pub struct ExCharmap<'a>(Charmap<'a>);

/// The greatest index that a face can have. Offsets in a font file are 32
/// bits wide, and a collection lists the offsets of its faces from byte 12
/// on, four bytes each: the entry of a face beyond this index would start
/// past every place that an offset can name.
pub const MAX_FACE_INDEX: usize = 0x3FFF_FFFC;

/// The tag at the start of a face with TrueType outlines.
pub const TAG_TRUETYPE: u32 = 0x0001_0000;

/// The tag `OTTO`, at the start of a face with PostScript outlines.
pub const TAG_OPENTYPE: u32 = 0x4F54_544F;

/// The tag `true`, at the start of a face in Apple's flavour of TrueType.
pub const TAG_APPLE: u32 = 0x7472_7565;

/// The tag `ttcf`, at the start of a collection of faces.
pub const TAG_COLLECTION: u32 = 0x7474_6366;

/// The number that the four bytes from `at` on spell, the most significant
/// byte first, or `None` where `data` has no four bytes there.
pub open spec fn be_u32(data: Seq<u8>, at: int) -> Option<u32> {
    if 0 <= at && at + 4 <= data.len() {
        Some(
            (data[at] as int * 0x100_0000 + data[at + 1] as int * 0x1_0000 + data[at + 2] as int
                * 0x100 + data[at + 3] as int) as u32,
        )
    } else {
        None
    }
}

/// A face starts at `offset`: the four bytes there spell one of the three
/// tags of a face.
pub open spec fn is_face_at(data: Seq<u8>, offset: int) -> bool {
    be_u32(data, offset) == Some(TAG_TRUETYPE) || be_u32(data, offset) == Some(TAG_OPENTYPE)
        || be_u32(data, offset) == Some(TAG_APPLE)
}

/// The file is a collection: it starts with the tag of one.
pub open spec fn is_collection(data: Seq<u8>) -> bool {
    be_u32(data, 0) == Some(TAG_COLLECTION)
}

/// How many faces the file says it holds: the number at byte 8 of a
/// collection, one for a file that starts with a face, zero for any other.
pub open spec fn face_count(data: Seq<u8>) -> nat {
    if is_collection(data) {
        match be_u32(data, 8) {
            Some(count) => count as nat,
            None => 0,
        }
    } else if is_face_at(data, 0) {
        1
    } else {
        0
    }
}

/// The offset of the table directory of face `index` in the font file
/// `data`, or `None` where the file holds no such face. A file that starts
/// with a face holds that one face, at offset zero. A collection lists the
/// offsets of its faces from byte 12 on, four bytes each; a listed offset
/// counts only where a face starts there.
pub open spec fn face_offset(data: Seq<u8>, index: usize) -> Option<u32> {
    if index >= face_count(data) {
        None
    } else {
        let listed = if is_collection(data) {
            be_u32(data, 12 + 4 * index)
        } else {
            Some(0u32)
        };
        match listed {
            Some(offset) => if is_face_at(data, offset as int) {
                Some(offset)
            } else {
                None
            },
            None => None,
        }
    }
}

/// `swash::FontRef::from_index`: looks up face `index` in `data`. The
/// contract claims that it finds the face exactly where `face_offset` says
/// that the file holds it, and that the reference it builds carries that
/// offset: swash reads the tags, the count and the listed offset as
/// `face_offset` does, four bytes at a time and only inside the data. Of the
/// cache key nothing is claimed: swash draws it from a counter of the
/// process. swash multiplies the index by four and adds twelve without a
/// test, so indices for which that could leave a 32-bit `usize` are kept out.
#[verifier::external_body]
fn locate_face(data: &[u8], index: usize) -> (r: Option<(u32, CacheKey)>)
    requires
        index <= MAX_FACE_INDEX,
    ensures
        r.is_some() == face_offset(data@, index).is_some(),
        r matches Some(found) ==> face_offset(data@, index) == Some(found.0),
{
    match FontRef::from_index(data, index) {
        Some(font) => Some((font.offset, font.key)),
        None => None,
    }
}

/// The stretch, weight and style that swash reads for the face whose table
/// directory lies at `offset` in the font file `data`. They depend on the
/// bytes and the offset alone.
pub uninterp spec fn face_attributes(data: Seq<u8>, offset: u32) -> Attributes;

/// The character map that swash reads for the face whose table directory
/// lies at `offset` in the font file `data`. It depends on the bytes and the
/// offset alone.
pub uninterp spec fn face_charmap(data: Seq<u8>, offset: u32) -> Charmap<'static>;

/// `swash::FontRef::attributes`. The contract claims that the result is
/// `face_attributes` of the reference's bytes and offset: swash finds the
/// face's tables through the bytes and the offset and reads the attributes
/// from them; it never looks at the key.
pub assume_specification<'a>[ FontRef::<'a>::attributes ](font: &FontRef<'a>) -> (r: Attributes)
    ensures
        r == face_attributes(font.data@, font.offset),
;

/// `swash::FontRef::charmap`. The contract claims that the result is
/// `face_charmap` of the reference's bytes and offset: a character map holds
/// the bytes and the place and kind of the face's mapping table in them,
/// which swash finds through the bytes and the offset; it never looks at the
/// key.
pub assume_specification<'a>[ FontRef::<'a>::charmap ](font: &FontRef<'a>) -> (r: Charmap<'a>)
    ensures
        r == face_charmap(font.data@, font.offset),
;

/// A font face that owns the bytes of its file.
pub struct Font {
    /// Full content of the font file.
    data: Vec<u8>,
    /// Offset of the face's table directory in `data`.
    offset: u32,
    /// Key of the face in swash's caches.
    key: CacheKey,
}

impl Font {
    /// The bytes of the font file.
    pub closed spec fn bytes(&self) -> Seq<u8> {
        self.data@
    }

    /// The offset of the face's table directory in the file.
    pub closed spec fn table_offset(&self) -> u32 {
        self.offset
    }

    /// The key of the face in swash's caches.
    pub closed spec fn cache_key(&self) -> CacheKey {
        self.key
    }

    /// Builds a font from the bytes of a file and from what a lookup of a
    /// face in them gave: the face's offset and a cache key, or nothing.
    pub fn from_parts(data: Vec<u8>, located: Option<(u32, CacheKey)>) -> (r: Option<Font>)
        ensures
            located.is_none() ==> r.is_none(),
            located matches Some(found) ==> r matches Some(font) && font.bytes() == data@
                && font.table_offset() == found.0 && font.cache_key() == found.1,
    {
        match located {
            Some((offset, key)) => Some(Font { data, offset, key }),
            None => None,
        }
    }

    /// Takes face `index` of the font file whose bytes are `data`. The result
    /// is `None` where the index is greater than `MAX_FACE_INDEX`, and else
    /// exactly where the file holds no such face.
    pub fn from_data(data: Vec<u8>, index: usize) -> (r: Option<Font>)
        ensures
            r.is_some() == (index <= MAX_FACE_INDEX && face_offset(data@, index).is_some()),
            r matches Some(font) ==> font.bytes() == data@ && face_offset(data@, index) == Some(
                font.table_offset(),
            ),
    {
        if index > MAX_FACE_INDEX {
            return None;
        }
        let located = locate_face(data.as_slice(), index);
        Font::from_parts(data, located)
    }

    /// The bytes of the font file.
    pub fn data(&self) -> (r: &[u8])
        ensures
            r@ == self.bytes(),
    {
        self.data.as_slice()
    }

    /// The offset of the face's table directory in the file.
    pub fn offset(&self) -> (r: u32)
        ensures
            r == self.table_offset(),
    {
        self.offset
    }

    /// The key of the face in swash's caches.
    pub fn key(&self) -> (r: CacheKey)
        ensures
            r == self.cache_key(),
    {
        self.key
    }

    /// The transient reference that swash works on, built field by field
    /// from this font: it borrows the font's bytes and carries the font's
    /// offset and the font's own key, whenever and however often it is
    /// asked for. No constructor of swash is called, since each of them would
    /// draw a new key, under which swash's caches would not know the face.
    pub fn as_ref(&self) -> (r: FontRef<'_>)
        ensures
            r.data@ == self.bytes(),
            r.offset == self.table_offset(),
            r.key == self.cache_key(),
    {
        FontRef { data: self.data.as_slice(), offset: self.offset, key: self.key }
    }

    /// The stretch, weight and style of the face, as swash reads them in the
    /// font's bytes at the face's offset.
    pub fn attributes(&self) -> (r: Attributes)
        ensures
            r == face_attributes(self.bytes(), self.table_offset()),
    {
        self.as_ref().attributes()
    }

    /// The character map of the face, as swash reads it in the font's bytes
    /// at the face's offset.
    pub fn charmap(&self) -> (r: Charmap<'_>)
        ensures
            r == face_charmap(self.bytes(), self.table_offset()),
    {
        self.as_ref().charmap()
    }
}

} // verus!
