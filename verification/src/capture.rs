//! The capture boundary: from what the GUI toolkit hands out for a frame to
//! the owned types of this library.
//!
//! The toolkit's draw output is read by the caller, who hands it over as plain
//! values: the commands of a list as [`ToolkitCmd`], a list as
//! [`ToolkitList`], the viewport and totals as [`FrameHeader`]. What a
//! snapshot can hold of them, and what it then holds, is decided here.

use crate::context::FontAtlasTexture;
use crate::context::FontAtlasTextureView;
use crate::draw_data::DrawCmd;
use crate::draw_data::DrawCmdParams;
use crate::draw_data::DrawData;
use crate::draw_data::DrawDataView;
use crate::draw_data::DrawIdx;
use crate::draw_data::DrawList;
use crate::draw_data::DrawListView;
use crate::draw_data::DrawVert;
use crate::draw_data::index_sum;
use crate::draw_data::index_total;
use crate::draw_data::list_views;
use crate::draw_data::vertex_sum;
use crate::draw_data::vertex_total;
use imgui::FontAtlasTexture as ToolkitTexture;
use imgui::TextureId as ToolkitTextureId;
use vstd::prelude::*;
use vstd::slice::slice_to_vec;

verus! {

/// `imgui::TextureId`, the toolkit's texture identifier. Nothing inside it is
/// visible here.
#[verifier::external_type_specification]
#[verifier::external_body]
pub struct ExToolkitTextureId(ToolkitTextureId);

/// `imgui::FontAtlasTexture`, the bitmap that the toolkit hands out when it
/// has built its font atlas, with its three public fields: `width`, `height`
/// and `data`.
#[verifier::external_type_specification]
pub struct ExToolkitTexture<'a>(ToolkitTexture<'a>);

/// The number that a toolkit texture identifier holds.
pub uninterp spec fn texture_number(id: ToolkitTextureId) -> usize;

/// Calls `imgui::TextureId::id`. Claims that it returns the number that
/// `texture_number` names.
#[verifier::external_body]
pub(crate) fn read_texture_number(id: ToolkitTextureId) -> (r: usize)
    ensures
        r == texture_number(id),
{
    id.id()
}

impl FontAtlasTexture {
    /// An owned copy of a bitmap that the toolkit built.
    pub fn from_toolkit(texture: &ToolkitTexture<'_>) -> (r: Self)
        ensures
            r@ == (FontAtlasTextureView {
                width: texture.width,
                height: texture.height,
                data: texture.data@,
            }),
    {
        FontAtlasTexture {
            width: texture.width,
            height: texture.height,
            data: slice_to_vec(texture.data),
        }
    }
}

/// The toolkit emitted a draw command that calls back into native code. A
/// snapshot cannot hold such a command, so no snapshot is made.
#[derive(Copy, Clone, Debug, PartialEq, Eq, Structural)]
pub struct UnsupportedDrawCommand;

/// A draw command as the toolkit hands it out.
#[derive(Debug)]
pub enum ToolkitCmd {
    Elements { count: usize, cmd_params: DrawCmdParams },
    ResetRenderState,
    /// A call into native code. What it would call is not kept.
    RawCallback,
}

impl ToolkitCmd {
    /// A snapshot can hold the command.
    pub open spec fn supported(self) -> bool {
        !(self is RawCallback)
    }

    /// The command as a snapshot holds it. Of a callback, which no snapshot
    /// holds, this says nothing.
    pub open spec fn captured(self) -> DrawCmd
        recommends
            self.supported(),
    {
        match self {
            ToolkitCmd::Elements { count, cmd_params } => DrawCmd::Elements { count, cmd_params },
            ToolkitCmd::ResetRenderState => DrawCmd::ResetRenderState,
            ToolkitCmd::RawCallback => arbitrary(),
        }
    }
}

/// A snapshot can hold every command of `cmds`.
pub open spec fn all_supported(cmds: Seq<ToolkitCmd>) -> bool {
    forall|i: int| 0 <= i < cmds.len() ==> (#[trigger] cmds[i]).supported()
}

/// The commands of `cmds` as a snapshot holds them, in the same order.
pub open spec fn captured_commands(cmds: Seq<ToolkitCmd>) -> Seq<DrawCmd>
    recommends
        all_supported(cmds),
{
    cmds.map_values(|c: ToolkitCmd| c.captured())
}

/// What a [`ToolkitList`] holds.
pub struct ToolkitListView {
    pub commands: Seq<ToolkitCmd>,
    pub idx_buffer: Seq<DrawIdx>,
    pub vtx_buffer: Seq<DrawVert>,
}

impl ToolkitListView {
    /// A snapshot can hold every command of the list.
    pub open spec fn supported(self) -> bool {
        all_supported(self.commands)
    }

    /// Every index of the list points at one of its vertices.
    pub open spec fn indices_in_range(self) -> bool {
        forall|i: int|
            0 <= i < self.idx_buffer.len() ==> (#[trigger] self.idx_buffer[i] as int)
                < self.vtx_buffer.len()
    }

    /// What a snapshot holds of the list: its commands, indices and vertices,
    /// each in the toolkit's order.
    pub open spec fn captured(self) -> DrawListView
        recommends
            self.supported(),
    {
        DrawListView {
            commands: captured_commands(self.commands),
            idx_buffer: self.idx_buffer,
            vtx_buffer: self.vtx_buffer,
        }
    }
}

/// One draw list of a toolkit frame, as the toolkit hands it out. A list
/// without geometry has empty buffers.
#[derive(Debug)]
pub struct ToolkitList {
    pub commands: Vec<ToolkitCmd>,
    pub idx_buffer: Vec<DrawIdx>,
    pub vtx_buffer: Vec<DrawVert>,
}

impl View for ToolkitList {
    type V = ToolkitListView;

    open spec fn view(&self) -> ToolkitListView {
        ToolkitListView {
            commands: self.commands@,
            idx_buffer: self.idx_buffer@,
            vtx_buffer: self.vtx_buffer@,
        }
    }
}

/// The viewport and the running totals of a toolkit frame.
#[derive(Debug)]
pub struct FrameHeader {
    pub total_idx_count: i32,
    pub total_vtx_count: i32,
    pub display_pos: [u32; 2],
    pub display_size: [u32; 2],
    pub framebuffer_scale: [u32; 2],
}

/// The views of a sequence of toolkit lists, in the same order.
pub open spec fn toolkit_views(lists: Seq<ToolkitList>) -> Seq<ToolkitListView> {
    lists.map_values(|l: ToolkitList| l@)
}

/// A snapshot can hold every command of every list of `lists`.
pub open spec fn all_lists_supported(lists: Seq<ToolkitListView>) -> bool {
    forall|i: int| 0 <= i < lists.len() ==> (#[trigger] lists[i]).supported()
}

/// What a snapshot holds of each list of `lists`, in the same order.
pub open spec fn captured_lists(lists: Seq<ToolkitListView>) -> Seq<DrawListView>
    recommends
        all_lists_supported(lists),
{
    lists.map_values(|l: ToolkitListView| l.captured())
}

/// The total that a snapshot holds for a sum of buffer lengths: the sum; or,
/// where the sum does not fit the field, the total that the toolkit gave.
pub open spec fn captured_total(sum: nat, given: i32) -> i32 {
    if sum <= i32::MAX {
        sum as i32
    } else {
        given
    }
}

/// What a snapshot holds of a toolkit frame: each draw list in render order,
/// the totals over these lists, and the viewport as the toolkit gave it.
pub open spec fn captured_frame(header: FrameHeader, lists: Seq<ToolkitListView>) -> DrawDataView
    recommends
        all_lists_supported(lists),
{
    let copies = captured_lists(lists);
    DrawDataView {
        total_idx_count: captured_total(index_total(copies), header.total_idx_count),
        total_vtx_count: captured_total(vertex_total(copies), header.total_vtx_count),
        cmd_lists: copies,
        display_pos: header.display_pos,
        display_size: header.display_size,
        framebuffer_scale: header.framebuffer_scale,
    }
}

/// A copy keeps indices in range: where every index of the toolkit's list
/// points at one of its vertices, every index of the copy points at one of
/// the copy's.
pub proof fn lemma_capture_keeps_indices_in_range(list: ToolkitListView)
    requires
        list.supported(),
        list.indices_in_range(),
    ensures
        list.captured().indices_in_range(),
{
    let copy = list.captured();
    assert forall|i: int| 0 <= i < copy.idx_buffer.len() implies (#[trigger] copy.idx_buffer[i]
        as int) < copy.vtx_buffer.len() by {
        assert((list.idx_buffer[i] as int) < list.vtx_buffer.len());
    }
}

impl DrawCmd {
    /// The command as a snapshot holds it, or the error for a command that a
    /// snapshot cannot hold.
    pub fn from_toolkit(cmd: ToolkitCmd) -> (r: Result<DrawCmd, UnsupportedDrawCommand>)
        ensures
            r is Ok <==> cmd.supported(),
            r matches Ok(copy) ==> copy == cmd.captured(),
    {
        match cmd {
            ToolkitCmd::Elements { count, cmd_params } => Ok(
                DrawCmd::Elements { count, cmd_params },
            ),
            ToolkitCmd::ResetRenderState => Ok(DrawCmd::ResetRenderState),
            ToolkitCmd::RawCallback => Err(UnsupportedDrawCommand),
        }
    }
}

/// The commands of `commands` as a snapshot holds them; or the error, exactly
/// when one of them is a callback.
fn accept_commands(commands: Vec<ToolkitCmd>) -> (r: Result<Vec<DrawCmd>, UnsupportedDrawCommand>)
    ensures
        r is Ok <==> all_supported(commands@),
        r matches Ok(accepted) ==> accepted@ == captured_commands(commands@),
{
    let ghost given = commands@;
    let mut accepted: Vec<DrawCmd> = Vec::new();
    for cmd in it: commands.into_iter()
        invariant
            it.seq() == given,
            accepted@ == captured_commands(given.take(it.index() as int)),
            all_supported(given.take(it.index() as int)),
    {
        let ghost i = it.index() as int;
        assert(cmd == given[i]);
        match DrawCmd::from_toolkit(cmd) {
            Ok(c) => {
                accepted.push(c);
                assert(given.take(i + 1) =~= given.take(i).push(given[i]));
                assert(accepted@ =~= captured_commands(given.take(i + 1)));
            },
            Err(e) => {
                return Err(e);
            },
        }
    }
    assert(given.take(given.len() as int) =~= given);
    Ok(accepted)
}

impl DrawList {
    /// Builds a draw list from what a toolkit draw list holds: its commands
    /// as a snapshot holds them, its two buffers as they are. It fails, and
    /// builds nothing, exactly when one of the commands is a callback.
    pub fn from_toolkit(list: ToolkitList) -> (r: Result<DrawList, UnsupportedDrawCommand>)
        ensures
            r is Ok <==> list@.supported(),
            r matches Ok(copy) ==> copy@ == list@.captured(),
            r matches Ok(copy) ==> (list@.indices_in_range() ==> copy@.indices_in_range()),
    {
        proof {
            if list@.supported() && list@.indices_in_range() {
                lemma_capture_keeps_indices_in_range(list@);
            }
        }
        let ToolkitList { commands, idx_buffer, vtx_buffer } = list;
        match accept_commands(commands) {
            Ok(commands) => Ok(DrawList { commands, idx_buffer, vtx_buffer }),
            Err(e) => Err(e),
        }
    }
}

impl DrawData {
    /// Builds a snapshot from what a toolkit frame holds: every draw list, in
    /// render order, and the viewport. The totals are summed over the lists,
    /// so that they are consistent whenever they fit their fields. It fails,
    /// and returns no part of a snapshot, exactly when some command of some
    /// list is a callback.
    pub fn from_toolkit(header: FrameHeader, lists: Vec<ToolkitList>) -> (r: Result<
        DrawData,
        UnsupportedDrawCommand,
    >)
        ensures
            r is Ok <==> all_lists_supported(toolkit_views(lists@)),
            r matches Ok(copy) ==> {
                &&& copy@ == captured_frame(header, toolkit_views(lists@))
                &&& index_total(copy@.cmd_lists) <= i32::MAX && vertex_total(copy@.cmd_lists)
                    <= i32::MAX ==> copy@.totals_consistent()
            },
    {
        let ghost given = toolkit_views(lists@);
        let mut cmd_lists: Vec<DrawList> = Vec::new();
        for list in it: lists.into_iter()
            invariant
                toolkit_views(it.seq()) == given,
                cmd_lists@.len() == it.index(),
                forall|k: int| 0 <= k < it.index() ==> (#[trigger] given[k]).supported(),
                forall|k: int|
                    0 <= k < it.index() ==> (#[trigger] cmd_lists@[k])@ == given[k].captured(),
        {
            assert(list@ == given[it.index() as int]);
            match DrawList::from_toolkit(list) {
                Ok(copy) => {
                    cmd_lists.push(copy);
                },
                Err(e) => {
                    return Err(e);
                },
            }
        }
        assert(list_views(cmd_lists@) =~= captured_lists(given));
        let total_idx_count = match index_sum(&cmd_lists) {
            Some(sum) => sum,
            None => header.total_idx_count,
        };
        let total_vtx_count = match vertex_sum(&cmd_lists) {
            Some(sum) => sum,
            None => header.total_vtx_count,
        };
        Ok(
            DrawData {
                total_idx_count,
                total_vtx_count,
                cmd_lists,
                display_pos: header.display_pos,
                display_size: header.display_size,
                framebuffer_scale: header.framebuffer_scale,
            },
        )
    }
}

} // verus!
