//! The font atlas of a GUI context, as a backend needs it: one RGBA bitmap and
//! the identifier under which it is registered as a texture.

use crate::draw_data::TextureId;
use vstd::prelude::*;

verus! {

/// What a [`FontAtlasTexture`] holds.
pub struct FontAtlasTextureView {
    pub width: u32,
    pub height: u32,
    pub data: Seq<u8>,
}

impl FontAtlasTextureView {
    /// The bitmap's invariant: it has pixels, and four bytes for each of them.
    pub open spec fn well_formed(self) -> bool {
        &&& self.width > 0
        &&& self.height > 0
        &&& self.data.len() == self.width * self.height * 4
    }
}

/// An RGBA bitmap: four bytes a pixel, rows from the top.
#[derive(Debug)]
pub struct FontAtlasTexture {
    /// Width in pixels.
    pub width: u32,
    /// Height in pixels.
    pub height: u32,
    /// The pixels.
    pub data: Vec<u8>,
}

impl View for FontAtlasTexture {
    type V = FontAtlasTextureView;

    open spec fn view(&self) -> FontAtlasTextureView {
        FontAtlasTextureView { width: self.width, height: self.height, data: self.data@ }
    }
}

impl Clone for FontAtlasTexture {
    fn clone(&self) -> (r: Self)
        ensures
            r@ == self@,
    {
        let data = self.data.clone();
        proof {
            assert(data@ =~= self.data@);
        }
        FontAtlasTexture { width: self.width, height: self.height, data }
    }
}

impl FontAtlasTexture {
    /// Tells whether the bitmap keeps its invariant.
    pub fn is_well_formed(&self) -> (r: bool)
        ensures
            r == self@.well_formed(),
    {
        if self.width == 0 || self.height == 0 {
            return false;
        }
        let width = self.width as u128;
        let height = self.height as u128;
        assert(width * height <= 0xffff_ffff * 0xffff_ffff) by (nonlinear_arith)
            requires
                width <= 0xffff_ffff,
                height <= 0xffff_ffff,
        ;
        self.data.len() as u128 == width * height * 4
    }
}

/// What a [`FontAtlas`] holds.
pub struct FontAtlasView {
    pub texture: FontAtlasTextureView,
    pub tex_id: TextureId,
}

/// A font atlas: its bitmap, and the identifier of the texture made from it.
#[derive(Debug)]
pub struct FontAtlas {
    pub texture: FontAtlasTexture,
    pub tex_id: TextureId,
}

impl View for FontAtlas {
    type V = FontAtlasView;

    open spec fn view(&self) -> FontAtlasView {
        FontAtlasView { texture: self.texture@, tex_id: self.tex_id }
    }
}

impl FontAtlas {
    /// The atlas bitmap. It was built when the atlas was captured, so nothing
    /// is built here and the atlas stays as it is.
    pub fn build_rgba32_texture(&mut self) -> (r: &FontAtlasTexture)
        ensures
            *r == old(self).texture,
            *final(self) == *old(self),
    {
        &self.texture
    }
}

/// What a [`Context`] holds.
pub struct ContextView {
    pub font_atlas: FontAtlasView,
}

/// The part of a GUI context that a rendering backend sets itself up from.
#[derive(Debug)]
pub struct Context {
    pub font_atlas: FontAtlas,
}

impl View for Context {
    type V = ContextView;

    open spec fn view(&self) -> ContextView {
        ContextView { font_atlas: self.font_atlas@ }
    }
}

impl Context {
    /// The font atlas, for reading and for changing in place. What the caller
    /// leaves in it is the context's font atlas from then on.
    pub fn fonts(&mut self) -> (r: &mut FontAtlas)
        ensures
            *r == old(self).font_atlas,
            final(self).font_atlas == *final(r),
    {
        &mut self.font_atlas
    }
}

} // verus!
