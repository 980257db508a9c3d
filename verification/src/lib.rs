//! A renderer-agnostic snapshot of one GUI frame's draw output, and a registry
//! that hands out stable identifiers for the textures the frame refers to.
//!
//! * [`DrawData`] is the frame: draw lists of vertices, indices and commands,
//!   with the viewport they are meant for.
//! * [`Textures`] is the registry.
//! * [`capture`] builds a snapshot from what the toolkit hands out for a frame.
//! * [`wire`] turns the data model into bytes and back.

pub mod capture;
pub mod context;
pub mod draw_data;
pub mod textures;
pub mod wire;
pub mod wire_format;

pub use capture::FrameHeader;
pub use capture::ToolkitCmd;
pub use capture::ToolkitList;
pub use capture::UnsupportedDrawCommand;
pub use context::Context;
pub use context::FontAtlas;
pub use context::FontAtlasTexture;
pub use draw_data::DrawCmd;
pub use draw_data::DrawCmdParams;
pub use draw_data::DrawData;
pub use draw_data::DrawIdx;
pub use draw_data::DrawList;
pub use draw_data::DrawVert;
pub use draw_data::InvalidReinterpretation;
pub use draw_data::TextureId;
pub use textures::IdentifierExhausted;
pub use textures::Textures;
