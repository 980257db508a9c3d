use draw_capture::Context;
use draw_capture::FontAtlas;
use draw_capture::FontAtlasTexture;
use draw_capture::TextureId;

fn atlas() -> FontAtlas {
    FontAtlas {
        texture: FontAtlasTexture { width: 2, height: 3, data: vec![7; 24] },
        tex_id: TextureId::new(0),
    }
}

#[test]
fn a_bitmap_has_four_bytes_for_each_pixel() {
    assert!(FontAtlasTexture { width: 2, height: 3, data: vec![0; 24] }.is_well_formed());
    assert!(FontAtlasTexture { width: 1, height: 1, data: vec![0; 4] }.is_well_formed());
    assert!(!FontAtlasTexture { width: 2, height: 3, data: vec![0; 23] }.is_well_formed());
    assert!(!FontAtlasTexture { width: 2, height: 3, data: vec![0; 25] }.is_well_formed());
    assert!(!FontAtlasTexture { width: 2, height: 3, data: vec![0; 6] }.is_well_formed());
    assert!(!FontAtlasTexture { width: 0, height: 3, data: vec![] }.is_well_formed());
    assert!(!FontAtlasTexture { width: 2, height: 0, data: vec![] }.is_well_formed());
    assert!(!FontAtlasTexture { width: 0, height: 0, data: vec![] }.is_well_formed());
    // A size whose product does not fit 64 bits is still compared exactly.
    assert!(!FontAtlasTexture { width: u32::MAX, height: u32::MAX, data: vec![0; 4] }
        .is_well_formed());
    assert!(!FontAtlasTexture { width: 0x8000_0000, height: 0x8000_0000, data: vec![] }
        .is_well_formed());
}

#[test]
fn a_bitmap_clone_is_equal_field_for_field() {
    let texture = FontAtlasTexture { width: 1, height: 2, data: vec![1, 2, 3, 4, 5, 6, 7, 8] };
    let copy = texture.clone();
    assert_eq!(copy.width, 1);
    assert_eq!(copy.height, 2);
    assert_eq!(copy.data, texture.data);
}

#[test]
fn build_returns_the_stored_bitmap() {
    let mut atlas = atlas();
    let texture = atlas.build_rgba32_texture();
    assert_eq!(texture.width, 2);
    assert_eq!(texture.height, 3);
    assert_eq!(texture.data, vec![7; 24]);
    assert_eq!(atlas.tex_id, TextureId::new(0));
    assert_eq!(atlas.texture.data.len(), 24);
}

#[test]
fn fonts_gives_the_atlas_for_change_in_place() {
    let mut context = Context { font_atlas: atlas() };
    context.fonts().tex_id = TextureId::new(5);
    assert_eq!(context.font_atlas.tex_id, TextureId::new(5));
    assert_eq!(context.fonts().build_rgba32_texture().width, 2);
    context.fonts().texture.data.clear();
    assert!(context.font_atlas.texture.data.is_empty());
}
