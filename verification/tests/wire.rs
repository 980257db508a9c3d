use draw_capture::wire::decode;
use draw_capture::wire::encode;
use draw_capture::wire::Wire;
use draw_capture::Context;
use draw_capture::DrawCmd;
use draw_capture::DrawCmdParams;
use draw_capture::DrawData;
use draw_capture::DrawList;
use draw_capture::DrawVert;
use draw_capture::FontAtlas;
use draw_capture::FontAtlasTexture;
use draw_capture::TextureId;

fn bits(x: f32) -> u32 {
    x.to_bits()
}

fn vert(x: f32, y: f32) -> DrawVert {
    DrawVert { pos: [bits(x), bits(y)], uv: [bits(0.0), bits(1.0)], col: [1, 2, 3, 4] }
}

fn params() -> DrawCmdParams {
    DrawCmdParams {
        clip_rect: [bits(1.0), bits(2.0), bits(-1.0), bits(0.5)],
        texture_id: TextureId::new(0x0102),
        vtx_offset: 5,
        idx_offset: 0x0a0b_0c0d,
    }
}

fn params_bytes() -> Vec<u8> {
    let mut bytes: Vec<u8> = Vec::new();
    bytes.extend_from_slice(&[0, 0, 0x80, 0x3f]);
    bytes.extend_from_slice(&[0, 0, 0, 0x40]);
    bytes.extend_from_slice(&[0, 0, 0x80, 0xbf]);
    bytes.extend_from_slice(&[0, 0, 0, 0x3f]);
    bytes.extend_from_slice(&[2, 1, 0, 0, 0, 0, 0, 0]);
    bytes.extend_from_slice(&[5, 0, 0, 0, 0, 0, 0, 0]);
    bytes.extend_from_slice(&[0x0d, 0x0c, 0x0b, 0x0a, 0, 0, 0, 0]);
    bytes
}

fn list() -> DrawList {
    DrawList {
        commands: vec![
            DrawCmd::Elements { count: 3, cmd_params: params() },
            DrawCmd::ResetRenderState,
        ],
        idx_buffer: vec![0, 1, 2],
        vtx_buffer: vec![vert(0.0, 0.0), vert(1.0, 0.0), vert(0.0, 1.0)],
    }
}

fn frame() -> DrawData {
    DrawData {
        total_idx_count: 6,
        total_vtx_count: 6,
        cmd_lists: vec![list(), list()],
        display_pos: [bits(0.0), bits(-8.0)],
        display_size: [bits(640.0), bits(480.0)],
        framebuffer_scale: [bits(1.5), bits(2.0)],
    }
}

fn same_list(a: &DrawList, b: &DrawList) -> bool {
    a.commands == b.commands && a.idx_buffer == b.idx_buffer && a.vtx_buffer == b.vtx_buffer
}

fn same_frame(a: &DrawData, b: &DrawData) -> bool {
    a.total_idx_count == b.total_idx_count
        && a.total_vtx_count == b.total_vtx_count
        && a.display_pos == b.display_pos
        && a.display_size == b.display_size
        && a.framebuffer_scale == b.framebuffer_scale
        && a.cmd_lists.len() == b.cmd_lists.len()
        && a.cmd_lists.iter().zip(b.cmd_lists.iter()).all(|(x, y)| same_list(x, y))
}

#[test]
fn integers_are_little_endian() {
    assert_eq!(encode(&5u8), vec![5]);
    assert_eq!(encode(&0x1234u16), vec![0x34, 0x12]);
    assert_eq!(encode(&0x0102_0304u32), vec![4, 3, 2, 1]);
    assert_eq!(encode(&1i32), vec![1, 0, 0, 0]);
    assert_eq!(encode(&-1i32), vec![0xff, 0xff, 0xff, 0xff]);
    assert_eq!(encode(&-2i32), vec![0xfe, 0xff, 0xff, 0xff]);
    assert_eq!(encode(&i32::MIN), vec![0, 0, 0, 0x80]);
    assert_eq!(encode(&i32::MAX), vec![0xff, 0xff, 0xff, 0x7f]);
    assert_eq!(encode(&1usize), vec![1, 0, 0, 0, 0, 0, 0, 0]);
    assert_eq!(encode(&0x0102usize), vec![2, 1, 0, 0, 0, 0, 0, 0]);
}

#[test]
fn integers_come_back() {
    assert_eq!(decode::<u8>(&[5]), Some(5));
    assert_eq!(decode::<u16>(&[0x34, 0x12]), Some(0x1234));
    assert_eq!(decode::<u32>(&[4, 3, 2, 1]), Some(0x0102_0304));
    assert_eq!(decode::<i32>(&[0xff, 0xff, 0xff, 0xff]), Some(-1));
    assert_eq!(decode::<i32>(&[0, 0, 0, 0x80]), Some(i32::MIN));
    assert_eq!(decode::<usize>(&[2, 1, 0, 0, 0, 0, 0, 0]), Some(0x0102));
    for n in [0i32, 1, -1, 77, -77, i32::MAX, i32::MIN] {
        assert_eq!(decode::<i32>(&encode(&n)), Some(n));
    }
    for n in [0usize, 1, 255, 256, usize::MAX] {
        assert_eq!(decode::<usize>(&encode(&n)), Some(n));
    }
}

#[test]
fn too_few_or_too_many_bytes_are_no_encoding() {
    assert_eq!(decode::<u8>(&[]), None);
    assert_eq!(decode::<u8>(&[1, 2]), None);
    assert_eq!(decode::<u16>(&[1]), None);
    assert_eq!(decode::<u16>(&[1, 2, 3]), None);
    assert_eq!(decode::<u32>(&[1, 2, 3]), None);
    assert_eq!(decode::<u32>(&[1, 2, 3, 4, 5]), None);
    assert_eq!(decode::<i32>(&[]), None);
    assert_eq!(decode::<usize>(&[1, 0, 0, 0, 0, 0, 0]), None);
    assert_eq!(decode::<usize>(&[1, 0, 0, 0, 0, 0, 0, 0, 0]), None);
    assert_eq!(decode::<TextureId>(&[1, 0, 0]), None);
}

#[test]
fn decode_from_reads_in_the_middle_and_says_where_it_stopped() {
    let bytes = [9u8, 0x34, 0x12, 7, 7, 7, 7];
    assert_eq!(u16::decode_from(&bytes, 1), Some((0x1234, 3)));
    assert_eq!(u32::decode_from(&bytes, 3), Some((0x0707_0707, 7)));
    assert_eq!(u32::decode_from(&bytes, 4), None);
    assert_eq!(u8::decode_from(&bytes, 7), None);
    assert_eq!(u8::decode_from(&bytes, 0), Some((9, 1)));
    assert_eq!(<(u8, u16)>::decode_from(&bytes, 0), Some(((9, 0x1234), 3)));
}

#[test]
fn encode_into_appends() {
    let mut out = vec![0xaa];
    7u16.encode_into(&mut out);
    TextureId::new(3).encode_into(&mut out);
    assert_eq!(out, vec![0xaa, 7, 0, 3, 0, 0, 0, 0, 0, 0, 0]);
}

#[test]
fn a_pair_is_its_first_then_its_second() {
    assert_eq!(encode(&(1u8, 0x0203u16)), vec![1, 3, 2]);
    assert_eq!(decode::<(u8, u16)>(&[1, 3, 2]), Some((1, 0x0203)));
    assert_eq!(decode::<(u8, u16)>(&[1, 3]), None);
    assert_eq!(decode::<(u8, u16)>(&[]), None);
    assert_eq!(decode::<(u8, u16)>(&[1, 3, 2, 0]), None);
}

#[test]
fn a_sequence_is_its_length_and_its_items() {
    let indices: Vec<u16> = vec![1, 2];
    assert_eq!(encode(&indices), vec![2, 0, 0, 0, 0, 0, 0, 0, 1, 0, 2, 0]);
    assert_eq!(encode(&Vec::<u16>::new()), vec![0, 0, 0, 0, 0, 0, 0, 0]);
    assert_eq!(decode::<Vec<u16>>(&[2, 0, 0, 0, 0, 0, 0, 0, 1, 0, 2, 0]), Some(vec![1, 2]));
    assert_eq!(decode::<Vec<u16>>(&[0, 0, 0, 0, 0, 0, 0, 0]), Some(vec![]));
    // One item short, one byte short, one byte over, a length that nothing backs.
    assert_eq!(decode::<Vec<u16>>(&[2, 0, 0, 0, 0, 0, 0, 0, 1, 0]), None);
    assert_eq!(decode::<Vec<u16>>(&[2, 0, 0, 0, 0, 0, 0, 0, 1, 0, 2]), None);
    assert_eq!(decode::<Vec<u16>>(&[2, 0, 0, 0, 0, 0, 0, 0, 1, 0, 2, 0, 0]), None);
    assert_eq!(decode::<Vec<u16>>(&[0xff; 8]), None);
    assert_eq!(decode::<Vec<u16>>(&[2, 0, 0]), None);
    let nested: Vec<Vec<u8>> = vec![vec![7], vec![], vec![8, 9]];
    assert_eq!(decode::<Vec<Vec<u8>>>(&encode(&nested)), Some(nested));
}

#[test]
fn a_vertex_is_twenty_bytes_in_field_order() {
    let v = DrawVert { pos: [bits(1.0), bits(2.0)], uv: [bits(0.0), bits(1.0)], col: [1, 2, 3, 4] };
    let expected: Vec<u8> =
        vec![0, 0, 0x80, 0x3f, 0, 0, 0, 0x40, 0, 0, 0, 0, 0, 0, 0x80, 0x3f, 1, 2, 3, 4];
    assert_eq!(encode(&v), expected);
    assert_eq!(decode::<DrawVert>(&expected), Some(v));
    assert_eq!(decode::<DrawVert>(&expected[..19]), None);
    // Any twenty bytes are a vertex; a NaN keeps its payload.
    let odd = [0xffu8; 20];
    match decode::<DrawVert>(&odd) {
        Some(v) => {
            assert_eq!(v.pos, [u32::MAX, u32::MAX]);
            assert!(f32::from_bits(v.pos[0]).is_nan());
            assert_eq!(encode(&v), odd.to_vec());
        },
        None => panic!("twenty bytes are a vertex"),
    }
}

#[test]
fn command_parameters_are_forty_bytes_in_field_order() {
    assert_eq!(encode(&params()), params_bytes());
    assert_eq!(params_bytes().len(), 40);
    assert_eq!(decode::<DrawCmdParams>(&params_bytes()), Some(params()));
    assert_eq!(decode::<DrawCmdParams>(&params_bytes()[..39]), None);
}

#[test]
fn a_command_is_a_tag_and_its_fields() {
    assert_eq!(encode(&DrawCmd::ResetRenderState), vec![1]);
    let elements = DrawCmd::Elements { count: 3, cmd_params: params() };
    let mut expected: Vec<u8> = vec![0, 3, 0, 0, 0, 0, 0, 0, 0];
    expected.extend_from_slice(&params_bytes());
    assert_eq!(encode(&elements), expected);
    assert_eq!(decode::<DrawCmd>(&expected), Some(elements));
    assert_eq!(decode::<DrawCmd>(&[1]), Some(DrawCmd::ResetRenderState));
}

#[test]
fn an_unknown_tag_is_no_command() {
    assert_eq!(decode::<DrawCmd>(&[2]), None);
    assert_eq!(decode::<DrawCmd>(&[255]), None);
    let mut bytes: Vec<u8> = vec![2, 3, 0, 0, 0, 0, 0, 0, 0];
    bytes.extend_from_slice(&params_bytes());
    assert_eq!(decode::<DrawCmd>(&bytes), None);
    assert_eq!(decode::<DrawCmd>(&[]), None);
    assert_eq!(decode::<DrawCmd>(&[0]), None);
    assert_eq!(decode::<DrawCmd>(&[1, 0]), None);
    bytes[0] = 0;
    bytes.pop();
    assert_eq!(decode::<DrawCmd>(&bytes), None);
}

#[test]
fn a_draw_list_is_its_three_buffers() {
    let small = DrawList {
        commands: vec![DrawCmd::ResetRenderState],
        idx_buffer: vec![0x0102],
        vtx_buffer: vec![],
    };
    let expected: Vec<u8> = vec![
        1, 0, 0, 0, 0, 0, 0, 0, 1, // one command: reset
        1, 0, 0, 0, 0, 0, 0, 0, 2, 1, // one index
        0, 0, 0, 0, 0, 0, 0, 0, // no vertex
    ];
    assert_eq!(encode(&small), expected);
    match decode::<DrawList>(&expected) {
        Some(back) => assert!(same_list(&back, &small)),
        None => panic!("an encoding decodes"),
    }
    let bytes = encode(&list());
    assert_eq!(bytes.len(), 8 + 49 + 1 + 8 + 6 + 8 + 60);
    match decode::<DrawList>(&bytes) {
        Some(back) => assert!(same_list(&back, &list())),
        None => panic!("an encoding decodes"),
    }
}

#[test]
fn a_frame_comes_back_field_for_field() {
    let bytes = encode(&frame());
    assert_eq!(&bytes[..8], &[6, 0, 0, 0, 6, 0, 0, 0]);
    assert_eq!(&bytes[8..16], &[2, 0, 0, 0, 0, 0, 0, 0]);
    assert_eq!(bytes.len(), 4 + 4 + 8 + 2 * 140 + 24);
    assert_eq!(&bytes[bytes.len() - 8..], &[0, 0, 0xc0, 0x3f, 0, 0, 0, 0x40]);
    match decode::<DrawData>(&bytes) {
        Some(back) => {
            assert!(same_frame(&back, &frame()));
            assert_eq!(encode(&back), bytes);
        },
        None => panic!("an encoding decodes"),
    }
}

#[test]
fn a_frame_with_negative_totals_comes_back() {
    let mut odd = frame();
    odd.total_idx_count = -5;
    odd.total_vtx_count = i32::MIN;
    odd.cmd_lists.clear();
    match decode::<DrawData>(&encode(&odd)) {
        Some(back) => assert!(same_frame(&back, &odd)),
        None => panic!("an encoding decodes"),
    }
}

#[test]
fn a_damaged_frame_is_no_frame() {
    let bytes = encode(&frame());
    for cut in [0, 1, 7, 8, 16, 17, 100, bytes.len() - 1] {
        assert!(decode::<DrawData>(&bytes[..cut]).is_none());
    }
    let mut longer = bytes.clone();
    longer.push(0);
    assert!(decode::<DrawData>(&longer).is_none());
    let mut more_lists = bytes.clone();
    more_lists[8] = 3;
    assert!(decode::<DrawData>(&more_lists).is_none());
    let mut bad_tag = bytes.clone();
    bad_tag[16 + 8] = 9;
    assert!(decode::<DrawData>(&bad_tag).is_none());
}

#[test]
fn an_atlas_and_a_context_come_back() {
    let texture = FontAtlasTexture { width: 2, height: 1, data: vec![1, 2, 3, 4, 5, 6, 7, 8] };
    let expected: Vec<u8> =
        vec![2, 0, 0, 0, 1, 0, 0, 0, 8, 0, 0, 0, 0, 0, 0, 0, 1, 2, 3, 4, 5, 6, 7, 8];
    assert_eq!(encode(&texture), expected);
    match decode::<FontAtlasTexture>(&expected) {
        Some(back) => {
            assert_eq!(back.width, 2);
            assert_eq!(back.height, 1);
            assert_eq!(back.data, vec![1, 2, 3, 4, 5, 6, 7, 8]);
        },
        None => panic!("an encoding decodes"),
    }
    let atlas = FontAtlas { texture, tex_id: TextureId::new(9) };
    let mut atlas_bytes = expected.clone();
    atlas_bytes.extend_from_slice(&[9, 0, 0, 0, 0, 0, 0, 0]);
    assert_eq!(encode(&atlas), atlas_bytes);
    let context = Context { font_atlas: atlas };
    assert_eq!(encode(&context), atlas_bytes);
    match decode::<Context>(&atlas_bytes) {
        Some(back) => {
            assert_eq!(back.font_atlas.tex_id, TextureId::new(9));
            assert_eq!(back.font_atlas.texture.width, 2);
            assert_eq!(back.font_atlas.texture.height, 1);
            assert_eq!(back.font_atlas.texture.data, vec![1, 2, 3, 4, 5, 6, 7, 8]);
        },
        None => panic!("an encoding decodes"),
    }
    assert!(decode::<Context>(&atlas_bytes[..atlas_bytes.len() - 1]).is_none());
    assert!(decode::<FontAtlas>(&expected).is_none());
}
