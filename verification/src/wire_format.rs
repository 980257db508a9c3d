//! The byte encodings of the data model: each struct is its fields in the
//! order of their declaration, a draw command is a tag byte and then its
//! fields.

use crate::capture::all_lists_supported;
use crate::capture::captured_frame;
use crate::capture::FrameHeader;
use crate::capture::ToolkitListView;
use crate::context::Context;
use crate::context::ContextView;
use crate::context::FontAtlas;
use crate::context::FontAtlasTexture;
use crate::context::FontAtlasTextureView;
use crate::context::FontAtlasView;
use crate::draw_data::DrawCmd;
use crate::draw_data::DrawCmdParams;
use crate::draw_data::DrawData;
use crate::draw_data::DrawDataView;
use crate::draw_data::DrawIdx;
use crate::draw_data::DrawList;
use crate::draw_data::DrawListView;
use crate::draw_data::DrawVert;
use crate::draw_data::TextureId;
use crate::wire::decoding;
use crate::wire::lemma_decoded_is_head;
use crate::wire::lemma_same_head;
use crate::wire::lemma_value_round_trip;
use crate::wire::models;
use crate::wire::Wire;
use vstd::prelude::*;

verus! {

impl Wire for TextureId {
    type Model = TextureId;

    open spec fn model(&self) -> TextureId {
        *self
    }

    open spec fn encodable(m: TextureId) -> bool {
        true
    }

    /// The number that the identifier holds.
    open spec fn encoding(m: TextureId) -> Seq<u8> {
        usize::encoding(m@)
    }

    proof fn lemma_encodable(&self) {
    }

    proof fn lemma_unique(a: TextureId, b: TextureId, rest_a: Seq<u8>, rest_b: Seq<u8>) {
        usize::lemma_unique(a@, b@, rest_a, rest_b);
        TextureId::lemma_number_identifies(a, b);
    }

    fn encode_into(&self, out: &mut Vec<u8>) {
        self.id().encode_into(out);
    }

    fn decode_from(bytes: &[u8], start: usize) -> (r: Option<(Self, usize)>) {
        match usize::decode_from(bytes, start) {
            Some((number, end)) => Some((TextureId::new(number), end)),
            None => None,
        }
    }
}

/// Two numbers, as they are encoded.
pub type Pair = (u32, u32);

/// Four numbers, as they are encoded.
pub type Quad = (u32, (u32, (u32, u32)));

/// Four bytes, as they are encoded.
pub type Colour = (u8, (u8, (u8, u8)));

/// The fields of a vertex, as they are encoded.
pub type VertFields = (Pair, (Pair, Colour));

/// The two numbers of `a`, in order.
pub open spec fn pair_of(a: [u32; 2]) -> (u32, u32) {
    (a[0], a[1])
}

/// The four numbers of `a`, in order.
pub open spec fn quad_of(a: [u32; 4]) -> (u32, (u32, (u32, u32))) {
    (a[0], (a[1], (a[2], a[3])))
}

/// The four bytes of `a`, in order.
pub open spec fn colour_of(a: [u8; 4]) -> (u8, (u8, (u8, u8))) {
    (a[0], (a[1], (a[2], a[3])))
}

/// The fields of `v`, in the order of their declaration.
pub open spec fn vert_fields(v: DrawVert) -> ((u32, u32), ((u32, u32), (u8, (u8, (u8, u8))))) {
    (pair_of(v.pos), (pair_of(v.uv), colour_of(v.col)))
}

impl Wire for DrawVert {
    type Model = DrawVert;

    open spec fn model(&self) -> DrawVert {
        *self
    }

    open spec fn encodable(m: DrawVert) -> bool {
        true
    }

    /// Twenty bytes: position, texture coordinate, colour.
    open spec fn encoding(m: DrawVert) -> Seq<u8> {
        VertFields::encoding(vert_fields(m))
    }

    proof fn lemma_encodable(&self) {
    }

    proof fn lemma_unique(a: DrawVert, b: DrawVert, rest_a: Seq<u8>, rest_b: Seq<u8>) {
        VertFields::lemma_unique(vert_fields(a), vert_fields(b), rest_a, rest_b);
        assert(a.pos =~= b.pos);
        assert(a.uv =~= b.uv);
        assert(a.col =~= b.col);
    }

    fn encode_into(&self, out: &mut Vec<u8>) {
        let fields = (
            (self.pos[0], self.pos[1]),
            ((self.uv[0], self.uv[1]), (self.col[0], (self.col[1], (self.col[2], self.col[3])))),
        );
        fields.encode_into(out);
    }

    fn decode_from(bytes: &[u8], start: usize) -> (r: Option<(Self, usize)>) {
        match VertFields::decode_from(bytes, start) {
            Some((((x, y), ((u, v), (red, (green, (blue, alpha))))), end)) => {
                let vert = DrawVert { pos: [x, y], uv: [u, v], col: [red, green, blue, alpha] };
                Some((vert, end))
            },
            None => {
                assert forall|m: DrawVert| start <= bytes@.len() && Self::encodable(m) implies !(#[trigger] Self::encoding(
                    m,
                )).is_prefix_of(bytes@.skip(start as int)) by {
                    assert(VertFields::encodable(vert_fields(m)));
                }
                None
            },
        }
    }
}

/// The fields of command parameters, as they are encoded.
pub type ParamFields = (Quad, (TextureId, (usize, usize)));

/// The fields of `p`, in the order of their declaration.
pub open spec fn param_fields(p: DrawCmdParams) -> (
    (u32, (u32, (u32, u32))),
    (TextureId, (usize, usize)),
) {
    (quad_of(p.clip_rect), (p.texture_id, (p.vtx_offset, p.idx_offset)))
}

impl Wire for DrawCmdParams {
    type Model = DrawCmdParams;

    open spec fn model(&self) -> DrawCmdParams {
        *self
    }

    open spec fn encodable(m: DrawCmdParams) -> bool {
        true
    }

    /// Forty bytes: clip rectangle, texture, vertex offset, index offset.
    open spec fn encoding(m: DrawCmdParams) -> Seq<u8> {
        ParamFields::encoding(param_fields(m))
    }

    proof fn lemma_encodable(&self) {
    }

    proof fn lemma_unique(a: DrawCmdParams, b: DrawCmdParams, rest_a: Seq<u8>, rest_b: Seq<u8>) {
        ParamFields::lemma_unique(param_fields(a), param_fields(b), rest_a, rest_b);
        assert(a.clip_rect =~= b.clip_rect);
    }

    fn encode_into(&self, out: &mut Vec<u8>) {
        let fields = (
            (self.clip_rect[0], (self.clip_rect[1], (self.clip_rect[2], self.clip_rect[3]))),
            (self.texture_id, (self.vtx_offset, self.idx_offset)),
        );
        fields.encode_into(out);
    }

    fn decode_from(bytes: &[u8], start: usize) -> (r: Option<(Self, usize)>) {
        match ParamFields::decode_from(bytes, start) {
            Some((((left, (up, (right, down))), (texture_id, (vtx_offset, idx_offset))), end)) => {
                let params = DrawCmdParams {
                    clip_rect: [left, up, right, down],
                    texture_id,
                    vtx_offset,
                    idx_offset,
                };
                Some((params, end))
            },
            None => {
                assert forall|m: DrawCmdParams| start <= bytes@.len() && Self::encodable(m) implies !(
                #[trigger] Self::encoding(m)).is_prefix_of(bytes@.skip(start as int)) by {
                    assert(ParamFields::encodable(param_fields(m)));
                }
                None
            },
        }
    }
}

/// The fields of an `Elements` command, as they are encoded.
pub type ElementsFields = (usize, DrawCmdParams);

/// The first byte of an `Elements` command.
pub const TAG_ELEMENTS: u8 = 0;

/// The one byte of a `ResetRenderState` command.
pub const TAG_RESET_RENDER_STATE: u8 = 1;

impl DrawCmd {
    /// The byte that says which kind of command follows.
    pub open spec fn tag(self) -> u8 {
        match self {
            DrawCmd::Elements { .. } => TAG_ELEMENTS,
            DrawCmd::ResetRenderState => TAG_RESET_RENDER_STATE,
        }
    }

    /// The bytes that follow the tag: the fields of the command.
    pub open spec fn payload(self) -> Seq<u8> {
        match self {
            DrawCmd::Elements { count, cmd_params } => ElementsFields::encoding(
                (count, cmd_params),
            ),
            DrawCmd::ResetRenderState => Seq::empty(),
        }
    }
}

impl Wire for DrawCmd {
    type Model = DrawCmd;

    open spec fn model(&self) -> DrawCmd {
        *self
    }

    open spec fn encodable(m: DrawCmd) -> bool {
        true
    }

    /// The tag, then the count and the parameters of an `Elements` command.
    open spec fn encoding(m: DrawCmd) -> Seq<u8> {
        u8::encoding(m.tag()) + m.payload()
    }

    proof fn lemma_encodable(&self) {
    }

    proof fn lemma_unique(a: DrawCmd, b: DrawCmd, rest_a: Seq<u8>, rest_b: Seq<u8>) {
        let tail_a = a.payload() + rest_a;
        let tail_b = b.payload() + rest_b;
        assert(Self::encoding(a) + rest_a =~= u8::encoding(a.tag()) + tail_a);
        assert(Self::encoding(b) + rest_b =~= u8::encoding(b.tag()) + tail_b);
        u8::lemma_unique(a.tag(), b.tag(), tail_a, tail_b);
        lemma_same_head(u8::encoding(a.tag()), tail_a, tail_b);
        match (a, b) {
            (
                DrawCmd::Elements { count: count_a, cmd_params: params_a },
                DrawCmd::Elements { count: count_b, cmd_params: params_b },
            ) => {
                ElementsFields::lemma_unique(
                    (count_a, params_a),
                    (count_b, params_b),
                    rest_a,
                    rest_b,
                );
            },
            _ => {},
        }
    }

    fn encode_into(&self, out: &mut Vec<u8>) {
        match self {
            DrawCmd::Elements { count, cmd_params } => {
                TAG_ELEMENTS.encode_into(out);
                count.encode_into(out);
                cmd_params.encode_into(out);
            },
            DrawCmd::ResetRenderState => {
                TAG_RESET_RENDER_STATE.encode_into(out);
            },
        }
        assert(out@ =~= old(out)@ + Self::encoding(*self));
    }

    fn decode_from(bytes: &[u8], start: usize) -> (r: Option<(Self, usize)>) {
        let (tag, first) = match u8::decode_from(bytes, start) {
            Some(found) => found,
            None => {
                assert forall|m: DrawCmd| start <= bytes@.len() && Self::encodable(m) implies !(#[trigger] Self::encoding(
                    m,
                )).is_prefix_of(bytes@.skip(start as int)) by {
                    if Self::encoding(m).is_prefix_of(bytes@.skip(start as int)) {
                        assert(u8::encoding(m.tag()).is_prefix_of(bytes@.skip(start as int)));
                    }
                }
                return None;
            },
        };
        proof {
            assert forall|m: DrawCmd| (#[trigger] Self::encoding(m)).is_prefix_of(
                bytes@.skip(start as int),
            ) implies m.tag() == tag && m.payload().is_prefix_of(bytes@.skip(first as int)) by {
                lemma_decoded_is_head::<u8>(
                    bytes@,
                    start as int,
                    first as int,
                    tag,
                    m.tag(),
                    m.payload(),
                );
            }
        }
        if tag == TAG_ELEMENTS {
            match ElementsFields::decode_from(bytes, first) {
                Some(((count, cmd_params), end)) => {
                    assert(bytes@.subrange(start as int, end as int) =~= bytes@.subrange(
                        start as int,
                        first as int,
                    ) + bytes@.subrange(first as int, end as int));
                    Some((DrawCmd::Elements { count, cmd_params }, end))
                },
                None => {
                    assert forall|m: DrawCmd| start <= bytes@.len() && Self::encodable(m) implies !(
                    #[trigger] Self::encoding(m)).is_prefix_of(bytes@.skip(start as int)) by {
                        if Self::encoding(m).is_prefix_of(bytes@.skip(start as int)) {
                            assert(m is Elements);
                            assert(ElementsFields::encodable((m->count, m->cmd_params)));
                        }
                    }
                    None
                },
            }
        } else if tag == TAG_RESET_RENDER_STATE {
            assert(bytes@.subrange(start as int, first as int) =~= Self::encoding(
                DrawCmd::ResetRenderState,
            ));
            Some((DrawCmd::ResetRenderState, first))
        } else {
            None
        }
    }
}

/// The fields of a draw list, as they are encoded.
pub type ListFields = (Vec<DrawCmd>, (Vec<DrawIdx>, Vec<DrawVert>));

/// The fields of `list`, in the order of their declaration.
pub open spec fn list_fields(list: DrawListView) -> (
    Seq<DrawCmd>,
    (Seq<DrawIdx>, Seq<DrawVert>),
) {
    (list.commands, (list.idx_buffer, list.vtx_buffer))
}

/// A command, an index and a vertex each stand for themselves.
pub proof fn lemma_plain_models(cmds: Seq<DrawCmd>, idx: Seq<DrawIdx>, vtx: Seq<DrawVert>)
    ensures
        models::<DrawCmd>(cmds) == cmds,
        models::<DrawIdx>(idx) == idx,
        models::<DrawVert>(vtx) == vtx,
{
    assert(models::<DrawCmd>(cmds) =~= cmds);
    assert(models::<DrawIdx>(idx) =~= idx);
    assert(models::<DrawVert>(vtx) =~= vtx);
}

impl Wire for DrawList {
    type Model = DrawListView;

    open spec fn model(&self) -> DrawListView {
        self@
    }

    /// Each buffer is short enough to be held.
    open spec fn encodable(m: DrawListView) -> bool {
        ListFields::encodable(list_fields(m))
    }

    /// The commands, the index buffer, the vertex buffer.
    open spec fn encoding(m: DrawListView) -> Seq<u8> {
        ListFields::encoding(list_fields(m))
    }

    proof fn lemma_encodable(&self) {
        lemma_plain_models(self.commands@, self.idx_buffer@, self.vtx_buffer@);
        self.commands.lemma_encodable();
        self.idx_buffer.lemma_encodable();
        self.vtx_buffer.lemma_encodable();
    }

    proof fn lemma_unique(a: DrawListView, b: DrawListView, rest_a: Seq<u8>, rest_b: Seq<u8>) {
        ListFields::lemma_unique(list_fields(a), list_fields(b), rest_a, rest_b);
    }

    fn encode_into(&self, out: &mut Vec<u8>) {
        proof {
            lemma_plain_models(self.commands@, self.idx_buffer@, self.vtx_buffer@);
        }
        self.commands.encode_into(out);
        self.idx_buffer.encode_into(out);
        self.vtx_buffer.encode_into(out);
        assert(out@ =~= old(out)@ + Self::encoding(self@));
    }

    fn decode_from(bytes: &[u8], start: usize) -> (r: Option<(Self, usize)>) {
        match ListFields::decode_from(bytes, start) {
            Some(((commands, (idx_buffer, vtx_buffer)), end)) => {
                proof {
                    lemma_plain_models(commands@, idx_buffer@, vtx_buffer@);
                }
                Some((DrawList { commands, idx_buffer, vtx_buffer }, end))
            },
            None => {
                assert forall|m: DrawListView| start <= bytes@.len() && Self::encodable(m) implies !(
                #[trigger] Self::encoding(m)).is_prefix_of(bytes@.skip(start as int)) by {
                    assert(ListFields::encodable(list_fields(m)));
                }
                None
            },
        }
    }
}

/// The fields of a frame, as they are encoded.
pub type FrameFields = (i32, (i32, (Vec<DrawList>, (Pair, (Pair, Pair)))));

/// The fields of `frame`, in the order of their declaration.
pub open spec fn frame_fields(frame: DrawDataView) -> (
    i32,
    (i32, (Seq<DrawListView>, ((u32, u32), ((u32, u32), (u32, u32))))),
) {
    (
        frame.total_idx_count,
        (
            frame.total_vtx_count,
            (
                frame.cmd_lists,
                (
                    pair_of(frame.display_pos),
                    (pair_of(frame.display_size), pair_of(frame.framebuffer_scale)),
                ),
            ),
        ),
    )
}

impl Wire for DrawData {
    type Model = DrawDataView;

    open spec fn model(&self) -> DrawDataView {
        self@
    }

    /// The frame has no more lists than can be held, and each of them is
    /// encodable.
    open spec fn encodable(m: DrawDataView) -> bool {
        FrameFields::encodable(frame_fields(m))
    }

    /// The two totals, the draw lists, the viewport's position and size, the
    /// framebuffer scale.
    open spec fn encoding(m: DrawDataView) -> Seq<u8> {
        FrameFields::encoding(frame_fields(m))
    }

    proof fn lemma_encodable(&self) {
        assert(models::<DrawList>(self.cmd_lists@) =~= self@.cmd_lists);
        self.cmd_lists.lemma_encodable();
    }

    proof fn lemma_unique(a: DrawDataView, b: DrawDataView, rest_a: Seq<u8>, rest_b: Seq<u8>) {
        FrameFields::lemma_unique(frame_fields(a), frame_fields(b), rest_a, rest_b);
        assert(a.display_pos =~= b.display_pos);
        assert(a.display_size =~= b.display_size);
        assert(a.framebuffer_scale =~= b.framebuffer_scale);
    }

    fn encode_into(&self, out: &mut Vec<u8>) {
        proof {
            assert(models::<DrawList>(self.cmd_lists@) =~= self@.cmd_lists);
        }
        self.total_idx_count.encode_into(out);
        self.total_vtx_count.encode_into(out);
        self.cmd_lists.encode_into(out);
        let viewport = (
            (self.display_pos[0], self.display_pos[1]),
            (
                (self.display_size[0], self.display_size[1]),
                (self.framebuffer_scale[0], self.framebuffer_scale[1]),
            ),
        );
        viewport.encode_into(out);
        assert(out@ =~= old(out)@ + Self::encoding(self@));
    }

    fn decode_from(bytes: &[u8], start: usize) -> (r: Option<(Self, usize)>) {
        match FrameFields::decode_from(bytes, start) {
            Some((
                (
                    total_idx_count,
                    (total_vtx_count, (cmd_lists, ((px, py), ((sx, sy), (fx, fy))))),
                ),
                end,
            )) => {
                let frame = DrawData {
                    total_idx_count,
                    total_vtx_count,
                    cmd_lists,
                    display_pos: [px, py],
                    display_size: [sx, sy],
                    framebuffer_scale: [fx, fy],
                };
                proof {
                    assert(models::<DrawList>(cmd_lists@) =~= frame@.cmd_lists);
                }
                Some((frame, end))
            },
            None => {
                assert forall|m: DrawDataView| start <= bytes@.len() && Self::encodable(m) implies !(
                #[trigger] Self::encoding(m)).is_prefix_of(bytes@.skip(start as int)) by {
                    assert(FrameFields::encodable(frame_fields(m)));
                }
                None
            },
        }
    }
}

/// A frame that is encoded and then decoded comes back field for field.
pub proof fn lemma_frame_round_trip(frame: DrawData)
    ensures
        decoding::<DrawData>(DrawData::encoding(frame@)) == Some(frame@),
{
    lemma_value_round_trip::<DrawData>(frame);
}

/// A frame that was built from what the toolkit holds, then encoded and
/// decoded, comes back as it was built, field for field.
pub proof fn lemma_captured_frame_round_trip(
    header: FrameHeader,
    lists: Seq<ToolkitListView>,
    copy: DrawData,
)
    requires
        all_lists_supported(lists),
        copy@ == captured_frame(header, lists),
    ensures
        decoding::<DrawData>(DrawData::encoding(copy@)) == Some(captured_frame(header, lists)),
{
    lemma_frame_round_trip(copy);
}

/// The fields of an atlas bitmap, as they are encoded.
pub type TextureFields = (u32, (u32, Vec<u8>));

/// The fields of `texture`, in the order of their declaration.
pub open spec fn texture_fields(texture: FontAtlasTextureView) -> (u32, (u32, Seq<u8>)) {
    (texture.width, (texture.height, texture.data))
}

impl Wire for FontAtlasTexture {
    type Model = FontAtlasTextureView;

    open spec fn model(&self) -> FontAtlasTextureView {
        self@
    }

    /// The bitmap has no more bytes than can be held.
    open spec fn encodable(m: FontAtlasTextureView) -> bool {
        TextureFields::encodable(texture_fields(m))
    }

    /// Width, height, and the pixels.
    open spec fn encoding(m: FontAtlasTextureView) -> Seq<u8> {
        TextureFields::encoding(texture_fields(m))
    }

    proof fn lemma_encodable(&self) {
        assert(models::<u8>(self.data@) =~= self.data@);
        self.data.lemma_encodable();
    }

    proof fn lemma_unique(
        a: FontAtlasTextureView,
        b: FontAtlasTextureView,
        rest_a: Seq<u8>,
        rest_b: Seq<u8>,
    ) {
        TextureFields::lemma_unique(texture_fields(a), texture_fields(b), rest_a, rest_b);
    }

    fn encode_into(&self, out: &mut Vec<u8>) {
        proof {
            assert(models::<u8>(self.data@) =~= self.data@);
        }
        self.width.encode_into(out);
        self.height.encode_into(out);
        self.data.encode_into(out);
        assert(out@ =~= old(out)@ + Self::encoding(self@));
    }

    fn decode_from(bytes: &[u8], start: usize) -> (r: Option<(Self, usize)>) {
        match TextureFields::decode_from(bytes, start) {
            Some(((width, (height, data)), end)) => {
                proof {
                    assert(models::<u8>(data@) =~= data@);
                }
                Some((FontAtlasTexture { width, height, data }, end))
            },
            None => {
                assert forall|m: FontAtlasTextureView| start <= bytes@.len() && Self::encodable(m) implies !(
                #[trigger] Self::encoding(m)).is_prefix_of(bytes@.skip(start as int)) by {
                    assert(TextureFields::encodable(texture_fields(m)));
                }
                None
            },
        }
    }
}

/// The fields of a font atlas, as they are encoded.
pub type AtlasFields = (FontAtlasTexture, TextureId);

/// The fields of `atlas`, in the order of their declaration.
pub open spec fn atlas_fields(atlas: FontAtlasView) -> (FontAtlasTextureView, TextureId) {
    (atlas.texture, atlas.tex_id)
}

impl Wire for FontAtlas {
    type Model = FontAtlasView;

    open spec fn model(&self) -> FontAtlasView {
        self@
    }

    open spec fn encodable(m: FontAtlasView) -> bool {
        AtlasFields::encodable(atlas_fields(m))
    }

    /// The bitmap, then the identifier of its texture.
    open spec fn encoding(m: FontAtlasView) -> Seq<u8> {
        AtlasFields::encoding(atlas_fields(m))
    }

    proof fn lemma_encodable(&self) {
        self.texture.lemma_encodable();
    }

    proof fn lemma_unique(a: FontAtlasView, b: FontAtlasView, rest_a: Seq<u8>, rest_b: Seq<u8>) {
        AtlasFields::lemma_unique(atlas_fields(a), atlas_fields(b), rest_a, rest_b);
    }

    fn encode_into(&self, out: &mut Vec<u8>) {
        self.texture.encode_into(out);
        self.tex_id.encode_into(out);
        assert(out@ =~= old(out)@ + Self::encoding(self@));
    }

    fn decode_from(bytes: &[u8], start: usize) -> (r: Option<(Self, usize)>) {
        match AtlasFields::decode_from(bytes, start) {
            Some(((texture, tex_id), end)) => Some((FontAtlas { texture, tex_id }, end)),
            None => {
                assert forall|m: FontAtlasView| start <= bytes@.len() && Self::encodable(m) implies !(
                #[trigger] Self::encoding(m)).is_prefix_of(bytes@.skip(start as int)) by {
                    assert(AtlasFields::encodable(atlas_fields(m)));
                }
                None
            },
        }
    }
}

impl Wire for Context {
    type Model = ContextView;

    open spec fn model(&self) -> ContextView {
        self@
    }

    open spec fn encodable(m: ContextView) -> bool {
        FontAtlas::encodable(m.font_atlas)
    }

    /// The font atlas.
    open spec fn encoding(m: ContextView) -> Seq<u8> {
        FontAtlas::encoding(m.font_atlas)
    }

    proof fn lemma_encodable(&self) {
        self.font_atlas.lemma_encodable();
    }

    proof fn lemma_unique(a: ContextView, b: ContextView, rest_a: Seq<u8>, rest_b: Seq<u8>) {
        FontAtlas::lemma_unique(a.font_atlas, b.font_atlas, rest_a, rest_b);
    }

    fn encode_into(&self, out: &mut Vec<u8>) {
        self.font_atlas.encode_into(out);
    }

    fn decode_from(bytes: &[u8], start: usize) -> (r: Option<(Self, usize)>) {
        match FontAtlas::decode_from(bytes, start) {
            Some((font_atlas, end)) => Some((Context { font_atlas }, end)),
            None => {
                assert forall|m: ContextView| start <= bytes@.len() && Self::encodable(m) implies !(
                #[trigger] Self::encoding(m)).is_prefix_of(bytes@.skip(start as int)) by {
                    assert(FontAtlas::encodable(m.font_atlas));
                }
                None
            },
        }
    }
}

} // verus!
