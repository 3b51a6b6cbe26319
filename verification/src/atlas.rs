//! Texture and mesh atlases: lookups that fall back to the first entry when
//! an id is out of range.
use vstd::prelude::*;
use vstd::string::StringExecFns;

use crate::json_doc::{
    doc_members, json_as_u32, json_item, json_member, json_parse, spec_as_u32, spec_item,
    spec_member, JsonDoc, json_document, fraction_runs_below, fraction_runs_shorter, DIGIT_RUN_LIMIT,
};

verus! {

/// Index into a texture atlas.
pub type TextureID = usize;

/// Index into a mesh atlas.
pub type MeshID = usize;

/// A component naming the texture an entity is drawn with.
#[derive(Clone, Copy, Debug)]
pub struct Texture {
    /// index into the `TextureAtlas` resource
    pub texture_id: TextureID,
}

/// A component naming the mesh an entity is drawn as.
#[derive(Clone, Copy, Debug)]
pub struct Mesh {
    /// index into the `MeshAtlas` resource
    pub mesh_id: MeshID,
}

/// Where a texture lies in an atlas.
#[derive(Debug)]
pub struct TextureInfo {
    pub name: Option<String>,
    /// size in pixels
    pub size: (u32, u32),
    /// start position in the atlas, top-left corner
    pub origin: (u32, u32),
    /// index of the atlas texture
    pub atlas_id: u32,
}

/// The index a lookup uses: `id` itself when in range, otherwise `0`.
pub open spec fn clamp_id(id: int, len: int) -> int {
    if id > len - 1 {
        0
    } else {
        id
    }
}

/// A texture atlas: the atlas texture `T`, its view `V`, and where each
/// texture lies in it.
pub struct TextureAtlas<T, V> {
    pub atlas: T,
    pub texture_views: V,
    pub texture_info: Vec<TextureInfo>,
}

impl<T, V> TextureAtlas<T, V> {
    /// The atlas view and the info of texture `texture_id`, or of texture `0`
    /// when `texture_id` is out of range.
    pub fn get_texture(&self, texture_id: TextureID) -> (res: (&V, &TextureInfo))
        requires
            self.texture_info@.len() > 0,
        ensures
            *res.0 == self.texture_views,
            *res.1 == self.texture_info@[clamp_id(texture_id as int, self.texture_info@.len() as int)],
            texture_id < self.texture_info@.len() ==> *res.1 == self.texture_info@[texture_id as int],
            texture_id >= self.texture_info@.len() ==> *res.1 == self.texture_info@[0],
    {
        if texture_id > self.texture_info.len() - 1 {
            return (&self.texture_views, &self.texture_info[0]);
        }
        (&self.texture_views, &self.texture_info[texture_id])
    }
}

/// The message for a texture entry with a missing or malformed field.
pub open spec fn unexpected_token_message(name: Seq<char>) -> Seq<char> {
    "unexpected token at: "@ + name
}

/// The five fields of a texture entry: its atlas id, the two numbers of its
/// origin and the two of its size, each when present as a `u32`.
pub open spec fn entry_fields(entry: JsonDoc) -> (Option<u32>, Option<u32>, Option<u32>, Option<u32>, Option<u32>) {
    (
        spec_as_u32(spec_member(entry, "atlas_id"@)),
        spec_as_u32(spec_item(spec_member(entry, "origin"@), 0)),
        spec_as_u32(spec_item(spec_member(entry, "origin"@), 1)),
        spec_as_u32(spec_item(spec_member(entry, "size"@), 0)),
        spec_as_u32(spec_item(spec_member(entry, "size"@), 1)),
    )
}

/// Whether a texture entry has all five fields.
pub open spec fn entry_complete(entry: JsonDoc) -> bool {
    let f = entry_fields(entry);
    &&& f.0 is Some
    &&& f.1 is Some
    &&& f.2 is Some
    &&& f.3 is Some
    &&& f.4 is Some
}

/// Whether `info` is the info of the complete entry `(name, entry)`.
pub open spec fn info_of_entry(info: TextureInfo, member: (String, JsonDoc)) -> bool {
    let f = entry_fields(member.1);
    &&& info.name is Some
    &&& info.name.unwrap()@ == member.0@
    &&& info.atlas_id == f.0.unwrap()
    &&& info.origin == (f.1.unwrap(), f.2.unwrap())
    &&& info.size == (f.3.unwrap(), f.4.unwrap())
}

/// The info of the texture entry `name`, from the fields read for it; fails
/// with [`unexpected_token_message`] when any field is missing.
pub fn texture_info_from_fields(
    name: String,
    atlas_id: Option<u32>,
    origin0: Option<u32>,
    origin1: Option<u32>,
    size0: Option<u32>,
    size1: Option<u32>,
) -> (res: Result<TextureInfo, String>)
    ensures
        (atlas_id is Some && origin0 is Some && origin1 is Some && size0 is Some && size1 is Some)
            ==> (res matches Ok(info) && info.name == Some(name) && info.atlas_id
            == atlas_id.unwrap() && info.origin == (origin0.unwrap(), origin1.unwrap()) && info.size
            == (size0.unwrap(), size1.unwrap())),
        !(atlas_id is Some && origin0 is Some && origin1 is Some && size0 is Some && size1 is Some)
            ==> (res matches Err(e) && e@ == unexpected_token_message(name@)),
{
    match (atlas_id, origin0, origin1, size0, size1) {
        (Some(atlas_id), Some(origin0), Some(origin1), Some(size0), Some(size1)) => Ok(
            TextureInfo { name: Some(name), size: (size0, size1), origin: (origin0, origin1), atlas_id },
        ),
        _ => {
            let mut message = "unexpected token at: ".to_owned();
            message.append(name.as_str());
            Err(message)
        },
    }
}

/// How reading the texture entries `entries` leaves an info list that was
/// `before`: the infos of the entries are appended in order, up to the first
/// entry with a missing field, at which the result is an error naming it;
/// the infos held before are kept.
pub open spec fn entries_appended(
    before: Seq<TextureInfo>,
    after: Seq<TextureInfo>,
    entries: Seq<(String, JsonDoc)>,
    res: Result<(), String>,
) -> bool {
    let added = after.len() - before.len();
    &&& before.len() <= after.len()
    &&& forall|i: int| 0 <= i < before.len() ==> #[trigger] after[i] == before[i]
    &&& added <= entries.len()
    &&& forall|j: int| 0 <= j < added ==> entry_complete(#[trigger] entries[j].1)
    &&& forall|j: int| 0 <= j < added ==> info_of_entry(after[before.len() + j], #[trigger] entries[j])
    &&& added == entries.len() ==> res is Ok
    &&& added < entries.len() ==> {
        &&& !entry_complete(entries[added].1)
        &&& res matches Err(e) && e@ == unexpected_token_message(entries[added].0@)
    }
}

impl<T, V> TextureAtlas<T, V> {
    /// Appends the info of each texture entry of a parsed texture-info
    /// document: an object whose members are named by texture and hold
    /// `atlas_id`, `origin` and `size` (the last two as two-number arrays), in
    /// document order. Fails at the first entry with a missing field, after
    /// the infos of the entries before it. A document that is not an object
    /// has no entries.
    pub fn read_texture_doc(&mut self, doc: &JsonDoc) -> (res: Result<(), String>)
        ensures
            final(self).atlas == old(self).atlas,
            final(self).texture_views == old(self).texture_views,
            entries_appended(old(self).texture_info@, final(self).texture_info@, doc_members(*doc), res),
    {
        let entries: &Vec<(String, JsonDoc)> = match doc {
            JsonDoc::Object(members) => members,
            _ => {
                proof {
                    assert(doc_members(*doc) =~= Seq::<(String, JsonDoc)>::empty());
                }
                return Ok(());
            },
        };
        let ghost start = self.texture_info@;
        let mut i: usize = 0;
        while i < entries.len()
            invariant
                0 <= i <= entries@.len(),
                entries@ == doc_members(*doc),
                start == old(self).texture_info@,
                self.texture_info@.len() == start.len() + i,
                forall|j: int| 0 <= j < start.len() ==> #[trigger] self.texture_info@[j] == start[j],
                forall|j: int| 0 <= j < i ==> entry_complete(#[trigger] entries@[j].1),
                forall|j: int| 0 <= j < i ==> info_of_entry(
                    #[trigger] self.texture_info@[start.len() + j],
                    entries@[j],
                ),
                self.atlas == old(self).atlas,
                self.texture_views == old(self).texture_views,
            decreases entries@.len() - i,
        {
            let name = &entries[i].0;
            let texture_data = Some(&entries[i].1);
            let atlas_id = json_as_u32(json_member(texture_data, "atlas_id"));
            let origin = json_member(texture_data, "origin");
            let origin0 = json_as_u32(json_item(origin, 0));
            let origin1 = json_as_u32(json_item(origin, 1));
            let size = json_member(texture_data, "size");
            let size0 = json_as_u32(json_item(size, 0));
            let size1 = json_as_u32(json_item(size, 1));
            let owned_name = name.as_str().to_owned();
            let texture_info = match texture_info_from_fields(
                owned_name,
                atlas_id,
                origin0,
                origin1,
                size0,
                size1,
            ) {
                Ok(info) => info,
                Err(e) => {
                    return Err(e);
                },
            };
            self.texture_info.push(texture_info);
            proof {
                assert(self.texture_info@[start.len() + i] == texture_info);
            }
            i = i + 1;
        }
        Ok(())
    }

    /// Parses a texture-info document and appends its entries as
    /// [`read_texture_doc`](Self::read_texture_doc) does. Fails when the text
    /// is not JSON; a text with a run of [`DIGIT_RUN_LIMIT`] or more digits
    /// right after a `.`,
    /// on which the JSON parser overflows, is refused before parsing. The
    /// infos already held are kept either way.
    pub fn read_texture_data(&mut self, text: &str) -> (res: Result<(), String>)
        ensures
            final(self).atlas == old(self).atlas,
            final(self).texture_views == old(self).texture_views,
            !fraction_runs_below(text@, DIGIT_RUN_LIMIT as int) ==> {
                &&& res matches Err(e) && e@ == "texture data file holds a number too long to parse"@
                &&& final(self).texture_info@ == old(self).texture_info@
            },
            fraction_runs_below(text@, DIGIT_RUN_LIMIT as int) && json_document(text@) is None ==> {
                &&& res matches Err(e) && e@ == "texture data file not valid json"@
                &&& final(self).texture_info@ == old(self).texture_info@
            },
            fraction_runs_below(text@, DIGIT_RUN_LIMIT as int) && json_document(text@) is Some
                ==> entries_appended(
                old(self).texture_info@,
                final(self).texture_info@,
                doc_members(json_document(text@).unwrap()),
                res,
            ),
    {
        if !fraction_runs_shorter(text, DIGIT_RUN_LIMIT) {
            return Err("texture data file holds a number too long to parse".to_owned());
        }
        match json_parse(text) {
            Some(doc) => self.read_texture_doc(&doc),
            None => Err("texture data file not valid json".to_owned()),
        }
    }
}

/// The image `image::load_from_memory` decodes from some bytes, as RGBA8:
/// its width, height and pixel bytes; `None` when the bytes are not an image
/// it can decode. Decoding is a function of the bytes alone.
pub uninterp spec fn rgba8_of(bytes: Seq<u8>) -> Option<(u32, u32, Seq<u8>)>;

/// `image::load_from_memory` followed by `to_rgba8`: the decoded image's
/// width, height and RGBA8 pixel bytes (four per pixel, row by row), as
/// [`rgba8_of`] names them; `None` when decoding fails.
#[verifier::external_body]
fn decode_rgba8(bytes: &[u8]) -> (res: Option<(u32, u32, Vec<u8>)>)
    ensures
        match res {
            Some((w, h, pixels)) => rgba8_of(bytes@) == Some((w, h, pixels@)) && pixels@.len() == 4
                * w * h,
            None => rgba8_of(bytes@) is None,
        },
{
    match image::load_from_memory(bytes) {
        Ok(img) => {
            let rgba = img.to_rgba8();
            let (w, h) = rgba.dimensions();
            Some((w, h, rgba.into_raw()))
        },
        Err(_) => None,
    }
}

/// The image in `bytes`, decoded as RGBA8 for writing into an atlas
/// texture: its width, height and pixels (four bytes per pixel, row by row).
/// Fails when the bytes are not a decodable image. No texture info is added
/// anywhere: this is for the atlas image itself, whose entries come from its
/// info document.
pub fn decode_image(bytes: &[u8]) -> (res: Result<(u32, u32, Vec<u8>), String>)
    ensures
        rgba8_of(bytes@) is None ==> (res matches Err(e) && e@ == "texture image could not be decoded"@),
        rgba8_of(bytes@) is Some ==> (res matches Ok((w, h, pixels)) && rgba8_of(bytes@) == Some(
            (w, h, pixels@),
        ) && pixels@.len() == 4 * w * h),
{
    match decode_rgba8(bytes) {
        Some(decoded) => Ok(decoded),
        None => Err("texture image could not be decoded".to_owned()),
    }
}

/// The info a texture loaded on its own gets: its name, its size, the
/// atlas's top-left corner as origin, and atlas `0`.
pub open spec fn loaded_info(name: Option<String>, w: u32, h: u32) -> TextureInfo {
    TextureInfo { name, size: (w, h), origin: (0, 0), atlas_id: 0 }
}

impl<T, V> TextureAtlas<T, V> {
    /// Adds the info of a decoded image, named `name`, and gives back its id
    /// (the number of infos held before) with its width, height and pixels
    /// for writing at the atlas's top-left corner. Fails, adding nothing, when
    /// the image could not be decoded (`None`).
    pub fn add_decoded_texture(
        &mut self,
        decoded: Option<(u32, u32, Vec<u8>)>,
        name: Option<String>,
    ) -> (res: Result<(TextureID, u32, u32, Vec<u8>), String>)
        ensures
            final(self).atlas == old(self).atlas,
            final(self).texture_views == old(self).texture_views,
            decoded is None ==> {
                &&& res matches Err(e) && e@ == "texture image could not be decoded"@
                &&& final(self).texture_info@ == old(self).texture_info@
            },
            decoded matches Some((dw, dh, dpixels)) ==> {
                &&& res matches Ok((id, w, h, pixels)) && id == old(self).texture_info@.len() && w == dw
                    && h == dh && pixels@ == dpixels@
                &&& final(self).texture_info@ == old(self).texture_info@.push(loaded_info(name, dw, dh))
            },
    {
        let (w, h, pixels) = match decoded {
            Some(decoded) => decoded,
            None => {
                return Err("texture image could not be decoded".to_owned());
            },
        };
        let id = self.texture_info.len();
        self.texture_info.push(TextureInfo { name, size: (w, h), origin: (0, 0), atlas_id: 0 });
        Ok((id, w, h, pixels))
    }

    /// Loads the image in `bytes` as a texture of its own named `name`: its
    /// info (size, origin at the atlas's top-left corner, atlas `0`) is added,
    /// and its id (the number of infos held before) is given back with its
    /// width, height and RGBA8 pixels for writing into the atlas. Fails,
    /// adding nothing, when the bytes are not a decodable image.
    pub fn load_texture(
        &mut self,
        bytes: &[u8],
        name: Option<String>,
    ) -> (res: Result<(TextureID, u32, u32, Vec<u8>), String>)
        ensures
            final(self).atlas == old(self).atlas,
            final(self).texture_views == old(self).texture_views,
            rgba8_of(bytes@) is None ==> {
                &&& res matches Err(e) && e@ == "texture image could not be decoded"@
                &&& final(self).texture_info@ == old(self).texture_info@
            },
            rgba8_of(bytes@) matches Some((dw, dh, dpixels)) ==> {
                &&& res matches Ok((id, w, h, pixels)) && id == old(self).texture_info@.len() && w == dw
                    && h == dh && pixels@ == dpixels && pixels@.len() == 4 * w * h
                &&& final(self).texture_info@ == old(self).texture_info@.push(loaded_info(name, dw, dh))
            },
    {
        let decoded = decode_rgba8(bytes);
        self.add_decoded_texture(decoded, name)
    }
}

/// The vertex buffers of all meshes, each with its vertex count.
pub struct MeshAtlas<B> {
    /// vertex buffer and amount of vertices in it
    pub vertex_buffers: Vec<(B, u32)>,
}

impl<B> MeshAtlas<B> {
    /// No meshes.
    pub fn new() -> (res: Self)
        ensures
            res.vertex_buffers@ == Seq::<(B, u32)>::empty(),
    {
        Self { vertex_buffers: Vec::new() }
    }

    /// The buffer and vertex count of mesh `mesh_id`, or of mesh `0` when
    /// `mesh_id` is out of range.
    pub fn get_mesh(&self, mesh_id: MeshID) -> (res: (&B, u32))
        requires
            self.vertex_buffers@.len() > 0,
        ensures
            *res.0 == self.vertex_buffers@[clamp_id(mesh_id as int, self.vertex_buffers@.len() as int)].0,
            res.1 == self.vertex_buffers@[clamp_id(mesh_id as int, self.vertex_buffers@.len() as int)].1,
            mesh_id < self.vertex_buffers@.len() ==> *res.0 == self.vertex_buffers@[mesh_id as int].0
                && res.1 == self.vertex_buffers@[mesh_id as int].1,
            mesh_id >= self.vertex_buffers@.len() ==> *res.0 == self.vertex_buffers@[0].0 && res.1
                == self.vertex_buffers@[0].1,
    {
        if mesh_id > self.vertex_buffers.len() - 1 {
            return (&self.vertex_buffers[0].0, self.vertex_buffers[0].1);
        }
        (&self.vertex_buffers[mesh_id].0, self.vertex_buffers[mesh_id].1)
    }
}

} // verus!
