//! Frame geometry: vertices, indices and the draw commands that slice into them.
//!
//! Coordinates, texture coordinates and clip rectangles are single-precision
//! numbers. They are held as their IEEE 754 bit patterns (`u32`), so that
//! equality is equality of bits and a copy never changes a payload.

use crate::capture::read_texture_number;
use crate::capture::texture_number;
use imgui::TextureId as ToolkitTextureId;
use vstd::layout::align_of;
use vstd::layout::size_of;
use vstd::prelude::*;
use vstd::std_specs::cmp::PartialEqSpecImpl;
use vstd::std_specs::convert::FromSpecImpl;
use vstd::std_specs::iter::IteratorSpec;

verus! {

/// A vertex index. It is local to the draw list that holds it.
pub type DrawIdx = u16;

/// An opaque texture identifier.
///
/// Two identifiers are the same exactly when they hold the same number; the
/// number says nothing about the texture behind it.
#[derive(Copy, Clone, Debug, PartialEq, Eq, Structural)]
pub struct TextureId(pub(crate) usize);

impl View for TextureId {
    type V = usize;

    /// The number that the identifier holds.
    closed spec fn view(&self) -> usize {
        self.0
    }
}

impl TextureId {
    /// Creates a new texture id with the given identifier.
    pub fn new(id: usize) -> (r: Self)
        ensures
            r@ == id,
    {
        Self(id)
    }

    /// Returns the id of the TextureId.
    pub fn id(self) -> (r: usize)
        ensures
            r == self@,
    {
        self.0
    }

    /// Identifiers that hold the same number are the same identifier.
    pub proof fn lemma_number_identifies(a: TextureId, b: TextureId)
        requires
            a@ == b@,
        ensures
            a == b,
    {
    }
}

impl From<usize> for TextureId {
    fn from(n: usize) -> (r: Self)
        ensures
            r@ == n,
    {
        Self(n)
    }
}

impl FromSpecImpl<usize> for TextureId {
    open spec fn obeys_from_spec() -> bool {
        true
    }

    closed spec fn from_spec(n: usize) -> Self {
        TextureId(n)
    }
}

impl From<ToolkitTextureId> for TextureId {
    /// The identifier that holds the same number as the toolkit's.
    fn from(id: ToolkitTextureId) -> (r: Self)
        ensures
            r@ == texture_number(id),
    {
        Self(read_texture_number(id))
    }
}

impl FromSpecImpl<ToolkitTextureId> for TextureId {
    open spec fn obeys_from_spec() -> bool {
        true
    }

    closed spec fn from_spec(id: ToolkitTextureId) -> Self {
        TextureId(texture_number(id))
    }
}

/// A single vertex: position, texture coordinate and RGBA colour.
#[derive(Copy, Clone, Debug)]
pub struct DrawVert {
    /// Position, as the bit patterns of x and y.
    pub pos: [u32; 2],
    /// Texture coordinate, as the bit patterns of u and v.
    pub uv: [u32; 2],
    /// Colour: red, green, blue, alpha.
    pub col: [u8; 4],
}

impl PartialEq for DrawVert {
    fn eq(&self, other: &Self) -> (r: bool) {
        proof {
            assert(self.pos@ =~= other.pos@ ==> self.pos == other.pos);
            assert(self.uv@ =~= other.uv@ ==> self.uv == other.uv);
            assert(self.col@ =~= other.col@ ==> self.col == other.col);
        }
        self.pos[0] == other.pos[0] && self.pos[1] == other.pos[1] && self.uv[0] == other.uv[0]
            && self.uv[1] == other.uv[1] && self.col[0] == other.col[0] && self.col[1]
            == other.col[1] && self.col[2] == other.col[2] && self.col[3] == other.col[3]
    }
}

impl PartialEqSpecImpl for DrawVert {
    open spec fn obeys_eq_spec() -> bool {
        true
    }

    open spec fn eq_spec(&self, other: &Self) -> bool {
        *self == *other
    }
}

/// What one draw command applies to the indices it draws.
#[derive(Debug)]
pub struct DrawCmdParams {
    /// Clip rectangle: left, up, right, down, as bit patterns.
    pub clip_rect: [u32; 4],
    pub texture_id: TextureId,
    /// Where this command's vertices begin in the list's vertex buffer.
    pub vtx_offset: usize,
    /// Where this command's indices begin in the list's index buffer.
    pub idx_offset: usize,
}

impl Clone for DrawCmdParams {
    fn clone(&self) -> (r: Self)
        ensures
            r == *self,
    {
        DrawCmdParams {
            clip_rect: self.clip_rect,
            texture_id: self.texture_id,
            vtx_offset: self.vtx_offset,
            idx_offset: self.idx_offset,
        }
    }
}

impl PartialEq for DrawCmdParams {
    fn eq(&self, other: &Self) -> (r: bool) {
        proof {
            assert(self.clip_rect@ =~= other.clip_rect@ ==> self.clip_rect == other.clip_rect);
        }
        self.clip_rect[0] == other.clip_rect[0] && self.clip_rect[1] == other.clip_rect[1]
            && self.clip_rect[2] == other.clip_rect[2] && self.clip_rect[3] == other.clip_rect[3]
            && self.texture_id == other.texture_id && self.vtx_offset == other.vtx_offset
            && self.idx_offset == other.idx_offset
    }
}

impl PartialEqSpecImpl for DrawCmdParams {
    open spec fn obeys_eq_spec() -> bool {
        true
    }

    open spec fn eq_spec(&self, other: &Self) -> bool {
        *self == *other
    }
}

/// A draw command.
#[derive(Debug)]
pub enum DrawCmd {
    /// Draw `count` indices, starting at `cmd_params.idx_offset`.
    Elements {
        /// The number of indices used for this draw command
        count: usize,
        cmd_params: DrawCmdParams,
    },
    /// Restore the backend's default render state.
    ResetRenderState,
}

impl Clone for DrawCmd {
    fn clone(&self) -> (r: Self)
        ensures
            r == *self,
    {
        match self {
            DrawCmd::Elements { count, cmd_params } => DrawCmd::Elements {
                count: *count,
                cmd_params: cmd_params.clone(),
            },
            DrawCmd::ResetRenderState => DrawCmd::ResetRenderState,
        }
    }
}

impl PartialEq for DrawCmd {
    fn eq(&self, other: &Self) -> (r: bool) {
        match (self, other) {
            (
                DrawCmd::Elements { count, cmd_params },
                DrawCmd::Elements { count: other_count, cmd_params: other_params },
            ) => *count == *other_count && cmd_params == other_params,
            (DrawCmd::ResetRenderState, DrawCmd::ResetRenderState) => true,
            _ => false,
        }
    }
}

impl PartialEqSpecImpl for DrawCmd {
    open spec fn obeys_eq_spec() -> bool {
        true
    }

    open spec fn eq_spec(&self, other: &Self) -> bool {
        *self == *other
    }
}

impl DrawCmd {
    /// The number of indices that the command draws: `count` for `Elements`,
    /// none for anything else.
    pub open spec fn index_count(self) -> nat {
        match self {
            DrawCmd::Elements { count, .. } => count as nat,
            DrawCmd::ResetRenderState => 0,
        }
    }
}

/// The number of indices that all the commands of `cmds` draw together.
pub open spec fn indices_drawn(cmds: Seq<DrawCmd>) -> nat
    decreases cmds.len(),
{
    if cmds.len() == 0 {
        0
    } else {
        indices_drawn(cmds.drop_last()) + cmds.last().index_count()
    }
}

/// A prefix of a command sequence draws no more indices than the whole.
pub proof fn lemma_indices_drawn_prefix(cmds: Seq<DrawCmd>, n: int)
    requires
        0 <= n <= cmds.len(),
    ensures
        indices_drawn(cmds.take(n)) <= indices_drawn(cmds),
    decreases cmds.len(),
{
    if n == cmds.len() {
        assert(cmds.take(n) =~= cmds);
    } else {
        lemma_indices_drawn_prefix(cmds.drop_last(), n);
        assert(cmds.drop_last().take(n) =~= cmds.take(n));
    }
}

/// Why a vertex buffer cannot be read as a slice of another vertex type.
#[derive(Copy, Clone, Debug, PartialEq, Eq, Structural)]
pub enum InvalidReinterpretation {
    /// The other type is not of a vertex's size.
    SizeMismatch,
    /// The other type asks for a stricter alignment than a vertex has.
    AlignmentTooStrict,
}

/// Whether memory laid out for items of `vertex_size` bytes, aligned to
/// `vertex_align`, may be read as items of `size` bytes aligned to `align`.
pub open spec fn reinterpretation_verdict(
    size: nat,
    align: nat,
    vertex_size: nat,
    vertex_align: nat,
) -> Result<(), InvalidReinterpretation> {
    if size != vertex_size {
        Err(InvalidReinterpretation::SizeMismatch)
    } else if align > vertex_align {
        Err(InvalidReinterpretation::AlignmentTooStrict)
    } else {
        Ok(())
    }
}

/// Decides whether memory laid out for items of `vertex_size` bytes, aligned
/// to `vertex_align`, may be read as items of `size` bytes aligned to `align`.
pub fn check_layout(size: usize, align: usize, vertex_size: usize, vertex_align: usize) -> (r:
    Result<(), InvalidReinterpretation>)
    ensures
        r == reinterpretation_verdict(
            size as nat,
            align as nat,
            vertex_size as nat,
            vertex_align as nat,
        ),
{
    if size != vertex_size {
        Err(InvalidReinterpretation::SizeMismatch)
    } else if align > vertex_align {
        Err(InvalidReinterpretation::AlignmentTooStrict)
    } else {
        Ok(())
    }
}

/// What a [`DrawList`] holds: its commands and its two buffers, in order.
pub struct DrawListView {
    pub commands: Seq<DrawCmd>,
    pub idx_buffer: Seq<DrawIdx>,
    pub vtx_buffer: Seq<DrawVert>,
}

impl DrawListView {
    /// Every index points at a vertex of this list.
    pub open spec fn indices_in_range(self) -> bool {
        forall|i: int|
            0 <= i < self.idx_buffer.len() ==> (#[trigger] self.idx_buffer[i] as int)
                < self.vtx_buffer.len()
    }

    /// The commands draw no more indices than the index buffer holds.
    pub open spec fn commands_fit(self) -> bool {
        indices_drawn(self.commands) <= self.idx_buffer.len()
    }

    /// The list's invariant: indices in range, and commands that fit.
    pub open spec fn well_formed(self) -> bool {
        self.indices_in_range() && self.commands_fit()
    }
}

/// One independently indexable batch of geometry, drawn by an ordered
/// sequence of commands.
#[derive(Debug)]
pub struct DrawList {
    pub commands: Vec<DrawCmd>,
    pub idx_buffer: Vec<DrawIdx>,
    pub vtx_buffer: Vec<DrawVert>,
}

impl View for DrawList {
    type V = DrawListView;

    open spec fn view(&self) -> DrawListView {
        DrawListView {
            commands: self.commands@,
            idx_buffer: self.idx_buffer@,
            vtx_buffer: self.vtx_buffer@,
        }
    }
}

impl Clone for DrawList {
    fn clone(&self) -> (r: Self)
        ensures
            r@ == self@,
    {
        let commands = self.commands.clone();
        let idx_buffer = self.idx_buffer.clone();
        let vtx_buffer = self.vtx_buffer.clone();
        proof {
            assert(commands@ =~= self.commands@);
            assert(idx_buffer@ =~= self.idx_buffer@);
            assert(vtx_buffer@ =~= self.vtx_buffer@);
        }
        DrawList { commands, idx_buffer, vtx_buffer }
    }
}

impl DrawList {
    /// The index buffer, as it is stored.
    ///
    /// In a well-formed list every index of it is below the number of
    /// vertices.
    pub fn idx_buffer(&self) -> (r: &[DrawIdx])
        ensures
            r@ == self@.idx_buffer,
            self@.well_formed() ==> forall|i: int|
                0 <= i < r@.len() ==> (#[trigger] r@[i] as int) < self@.vtx_buffer.len(),
    {
        self.idx_buffer.as_slice()
    }

    /// The vertex buffer, as it is stored.
    pub fn vtx_buffer(&self) -> (r: &[DrawVert])
        ensures
            r@ == self@.vtx_buffer,
    {
        self.vtx_buffer.as_slice()
    }

    /// The commands of the list, in the order in which they are to be run.
    ///
    /// Each call starts again at the first command; the list is not changed.
    pub fn commands(&self) -> (r: std::vec::IntoIter<DrawCmd>)
        ensures
            IteratorSpec::remaining(&r) == self@.commands,
    {
        let copy = self.commands.clone();
        proof {
            assert(copy@ =~= self.commands@);
        }
        copy.into_iter()
    }

    /// Decides whether the vertex buffer may be read, in place, as a slice of
    /// `VTy`: only a type of a vertex's size and of no stricter alignment
    /// will do. This speaks of size and alignment alone: in which order the
    /// fields of a vertex lie in memory is the compiler's choice.
    pub fn check_reinterpretation<VTy: Copy>() -> (r: Result<(), InvalidReinterpretation>)
        ensures
            r == reinterpretation_verdict(
                size_of::<VTy>(),
                align_of::<VTy>(),
                size_of::<DrawVert>(),
                align_of::<DrawVert>(),
            ),
    {
        check_layout(
            core::mem::size_of::<VTy>(),
            core::mem::align_of::<VTy>(),
            core::mem::size_of::<DrawVert>(),
            core::mem::align_of::<DrawVert>(),
        )
    }

    /// Tells whether the list keeps its invariant.
    pub fn is_well_formed(&self) -> (r: bool)
        ensures
            r == self@.well_formed(),
    {
        let vtx_len = self.vtx_buffer.len();
        let idx_len = self.idx_buffer.len();
        let mut i: usize = 0;
        while i < idx_len
            invariant
                idx_len == self.idx_buffer@.len(),
                vtx_len == self.vtx_buffer@.len(),
                i <= idx_len,
                forall|k: int| 0 <= k < i ==> (#[trigger] self.idx_buffer@[k] as int) < vtx_len,
            decreases idx_len - i,
        {
            if self.idx_buffer[i] as usize >= vtx_len {
                return false;
            }
            i += 1;
        }
        let mut drawn: usize = 0;
        let mut j: usize = 0;
        while j < self.commands.len()
            invariant
                idx_len == self.idx_buffer@.len(),
                j <= self.commands.len(),
                drawn == indices_drawn(self.commands@.take(j as int)),
                drawn <= idx_len,
            decreases self.commands.len() - j,
        {
            proof {
                assert(self.commands@.take(j + 1).drop_last() =~= self.commands@.take(j as int));
            }
            match &self.commands[j] {
                DrawCmd::Elements { count, .. } => {
                    if *count > idx_len - drawn {
                        proof {
                            lemma_indices_drawn_prefix(self.commands@, j + 1);
                        }
                        return false;
                    }
                    drawn += *count;
                },
                DrawCmd::ResetRenderState => {},
            }
            j += 1;
        }
        proof {
            assert(self.commands@.take(j as int) =~= self.commands@);
        }
        true
    }
}

/// The views of a sequence of draw lists, in the same order.
pub open spec fn list_views(lists: Seq<DrawList>) -> Seq<DrawListView> {
    lists.map_values(|l: DrawList| l@)
}

/// The sum of the index buffer lengths of `lists`.
pub open spec fn index_total(lists: Seq<DrawListView>) -> nat
    decreases lists.len(),
{
    if lists.len() == 0 {
        0
    } else {
        index_total(lists.drop_last()) + lists.last().idx_buffer.len()
    }
}

/// The sum of the vertex buffer lengths of `lists`.
pub open spec fn vertex_total(lists: Seq<DrawListView>) -> nat
    decreases lists.len(),
{
    if lists.len() == 0 {
        0
    } else {
        vertex_total(lists.drop_last()) + lists.last().vtx_buffer.len()
    }
}

/// The buffers of a prefix of `lists` hold no more than those of the whole.
pub proof fn lemma_totals_prefix(lists: Seq<DrawListView>, n: int)
    requires
        0 <= n <= lists.len(),
    ensures
        index_total(lists.take(n)) <= index_total(lists),
        vertex_total(lists.take(n)) <= vertex_total(lists),
    decreases lists.len(),
{
    if n == lists.len() {
        assert(lists.take(n) =~= lists);
    } else {
        lemma_totals_prefix(lists.drop_last(), n);
        assert(lists.drop_last().take(n) =~= lists.take(n));
    }
}

/// What a [`DrawData`] holds.
pub struct DrawDataView {
    pub total_idx_count: i32,
    pub total_vtx_count: i32,
    pub cmd_lists: Seq<DrawListView>,
    pub display_pos: [u32; 2],
    pub display_size: [u32; 2],
    pub framebuffer_scale: [u32; 2],
}

impl DrawDataView {
    /// The two running totals are the sums over the draw lists.
    pub open spec fn totals_consistent(self) -> bool {
        &&& self.total_idx_count == index_total(self.cmd_lists)
        &&& self.total_vtx_count == vertex_total(self.cmd_lists)
    }

    /// The frame's invariant: consistent totals, and every list well formed.
    pub open spec fn well_formed(self) -> bool {
        &&& self.totals_consistent()
        &&& forall|i: int|
            0 <= i < self.cmd_lists.len() ==> (#[trigger] self.cmd_lists[i]).well_formed()
    }
}

/// All draw data to render one frame.
#[derive(Debug)]
pub struct DrawData {
    /// For convenience, sum of all draw list index buffer sizes.
    pub total_idx_count: i32,
    /// For convenience, sum of all draw list vertex buffer sizes.
    pub total_vtx_count: i32,
    /// The draw lists, in render order.
    pub cmd_lists: Vec<DrawList>,
    /// Upper-left position of the viewport to render, as bit patterns.
    pub display_pos: [u32; 2],
    /// Size of the viewport to render, as bit patterns.
    pub display_size: [u32; 2],
    /// Amount of pixels for each unit of display_size, as bit patterns.
    pub framebuffer_scale: [u32; 2],
}

impl View for DrawData {
    type V = DrawDataView;

    open spec fn view(&self) -> DrawDataView {
        DrawDataView {
            total_idx_count: self.total_idx_count,
            total_vtx_count: self.total_vtx_count,
            cmd_lists: list_views(self.cmd_lists@),
            display_pos: self.display_pos,
            display_size: self.display_size,
            framebuffer_scale: self.framebuffer_scale,
        }
    }
}

/// The sum of the index buffer lengths of `lists`, where it fits the total's
/// type.
pub(crate) fn index_sum(lists: &Vec<DrawList>) -> (r: Option<i32>)
    ensures
        match r {
            Some(sum) => sum == index_total(list_views(lists@)),
            None => index_total(list_views(lists@)) > i32::MAX,
        },
{
    let ghost views = list_views(lists@);
    let limit: usize = 0x7fff_ffff;
    let mut sum: usize = 0;
    let mut i: usize = 0;
    while i < lists.len()
        invariant
            views == list_views(lists@),
            limit == i32::MAX,
            i <= lists.len(),
            sum == index_total(views.take(i as int)),
            sum <= limit,
        decreases lists.len() - i,
    {
        proof {
            assert(views.take(i + 1).drop_last() =~= views.take(i as int));
            lemma_totals_prefix(views, i + 1);
        }
        if lists[i].idx_buffer.len() > limit - sum {
            return None;
        }
        sum += lists[i].idx_buffer.len();
        i += 1;
    }
    proof {
        assert(views.take(i as int) =~= views);
    }
    Some(sum as i32)
}

/// The sum of the vertex buffer lengths of `lists`, where it fits the total's
/// type.
pub(crate) fn vertex_sum(lists: &Vec<DrawList>) -> (r: Option<i32>)
    ensures
        match r {
            Some(sum) => sum == vertex_total(list_views(lists@)),
            None => vertex_total(list_views(lists@)) > i32::MAX,
        },
{
    let ghost views = list_views(lists@);
    let limit: usize = 0x7fff_ffff;
    let mut sum: usize = 0;
    let mut i: usize = 0;
    while i < lists.len()
        invariant
            views == list_views(lists@),
            limit == i32::MAX,
            i <= lists.len(),
            sum == vertex_total(views.take(i as int)),
            sum <= limit,
        decreases lists.len() - i,
    {
        proof {
            assert(views.take(i + 1).drop_last() =~= views.take(i as int));
            lemma_totals_prefix(views, i + 1);
        }
        if lists[i].vtx_buffer.len() > limit - sum {
            return None;
        }
        sum += lists[i].vtx_buffer.len();
        i += 1;
    }
    proof {
        assert(views.take(i as int) =~= views);
    }
    Some(sum as i32)
}

impl DrawData {
    /// Builds a frame from its draw lists and viewport, with the totals
    /// computed from the lists. There is no frame to build when a total would
    /// not fit its field.
    pub fn new(
        cmd_lists: Vec<DrawList>,
        display_pos: [u32; 2],
        display_size: [u32; 2],
        framebuffer_scale: [u32; 2],
    ) -> (r: Option<DrawData>)
        ensures
            r is Some <==> index_total(list_views(cmd_lists@)) <= i32::MAX && vertex_total(
                list_views(cmd_lists@),
            ) <= i32::MAX,
            r matches Some(d) ==> {
                &&& d.cmd_lists == cmd_lists
                &&& d.display_pos == display_pos
                &&& d.display_size == display_size
                &&& d.framebuffer_scale == framebuffer_scale
                &&& d@.totals_consistent()
            },
    {
        match (index_sum(&cmd_lists), vertex_sum(&cmd_lists)) {
            (Some(total_idx_count), Some(total_vtx_count)) => Some(
                DrawData {
                    total_idx_count,
                    total_vtx_count,
                    cmd_lists,
                    display_pos,
                    display_size,
                    framebuffer_scale,
                },
            ),
            _ => None,
        }
    }

    /// The draw lists, in render order.
    ///
    /// Each call starts again at the first list; the frame is not changed.
    pub fn draw_lists(&self) -> (r: std::slice::Iter<'_, DrawList>)
        ensures
            IteratorSpec::remaining(&r) == self.cmd_lists@.as_ref(),
    {
        self.cmd_lists.as_slice().iter()
    }

    /// Tells whether the two totals are the sums over the draw lists.
    pub fn has_consistent_totals(&self) -> (r: bool)
        ensures
            r == self@.totals_consistent(),
    {
        match (index_sum(&self.cmd_lists), vertex_sum(&self.cmd_lists)) {
            (Some(idx), Some(vtx)) => idx == self.total_idx_count && vtx == self.total_vtx_count,
            _ => false,
        }
    }

    /// Tells whether the frame keeps its invariant.
    pub fn is_well_formed(&self) -> (r: bool)
        ensures
            r == self@.well_formed(),
    {
        if !self.has_consistent_totals() {
            return false;
        }
        let mut i: usize = 0;
        while i < self.cmd_lists.len()
            invariant
                i <= self.cmd_lists.len(),
                forall|k: int| 0 <= k < i ==> (#[trigger] self@.cmd_lists[k]).well_formed(),
            decreases self.cmd_lists.len() - i,
        {
            if !self.cmd_lists[i].is_well_formed() {
                assert(!self@.cmd_lists[i as int].well_formed());
                return false;
            }
            i += 1;
        }
        true
    }
}

impl Clone for DrawData {
    fn clone(&self) -> (r: Self)
        ensures
            r@ == self@,
    {
        let cmd_lists = self.cmd_lists.clone();
        proof {
            assert(list_views(cmd_lists@) =~= list_views(self.cmd_lists@));
        }
        DrawData {
            total_idx_count: self.total_idx_count,
            total_vtx_count: self.total_vtx_count,
            cmd_lists,
            display_pos: self.display_pos,
            display_size: self.display_size,
            framebuffer_scale: self.framebuffer_scale,
        }
    }
}

/// In a well-formed frame each total is the sum of the matching buffer
/// lengths over all draw lists.
pub proof fn lemma_totals_are_sums(frame: DrawData)
    requires
        frame@.well_formed(),
    ensures
        frame.total_idx_count == index_total(list_views(frame.cmd_lists@)),
        frame.total_vtx_count == vertex_total(list_views(frame.cmd_lists@)),
{
}

} // verus!
