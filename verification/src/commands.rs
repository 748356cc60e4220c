//! The GPU command stream.
//!
//! Every pass describes its work as a sequence of commands against backend
//! resources. A frame is one such sequence, built in the fixed pass order and
//! ended by `Present`. The driver that owns the real device replays the
//! commands; everything the pipeline promises about a frame is a statement
//! about this sequence.

use vstd::prelude::*;

verus! {

/// Output-merger blend state.
#[derive(Clone, Copy, Debug, PartialEq, Eq, Structural)]
pub enum BlendMode {
    /// Source overwrites destination.
    Disabled,
    /// Standard source-alpha blending, for forward transparency.
    Alpha,
    /// Additive accumulation, for the per-light lighting sum.
    Additive,
}

/// Rasterizer culling state.
#[derive(Clone, Copy, Debug, PartialEq, Eq, Structural)]
pub enum CullMode {
    /// Cull back faces (the main passes).
    Back,
    /// Cull front faces (shadow rendering, against shadow acne).
    Front,
}

/// What the presentation layer reported for one frame submission.
#[derive(Clone, Copy, Debug, PartialEq, Eq, Structural)]
pub enum PresentOutcome {
    /// The frame reached the screen.
    Success,
    /// The device was removed or reset; the backend must recover.
    DeviceLost,
    /// Presentation failed for another reason.
    Failure,
}

/// One GPU command. Resource operands are backend resource identifiers.
#[derive(Clone, Copy, Debug, PartialEq, Eq, Structural)]
pub enum RenderCommand {
    /// Bind up to two color targets and an optional depth target; `None`
    /// unbinds the corresponding stage output.
    SetRenderTargets { color0: Option<u64>, color1: Option<u64>, depth: Option<u64> },
    /// Fill a color target with its clear color.
    ClearColor { target: u64 },
    /// Reset a depth target to the far plane.
    ClearDepth { target: u64 },
    /// Set the rasterizer viewport.
    SetViewport { width: u32, height: u32 },
    SetBlend { blend: BlendMode },
    SetCull { cull: CullMode },
    /// Activate a shader program.
    BindProgram { program: u64 },
    /// Bind a uniform buffer to a shader stage slot.
    BindUniform { slot: u32, buffer: u64 },
    /// Copy staged uniform data into a GPU buffer.
    UploadBuffer { buffer: u64 },
    /// Bind a sampled texture to a pixel-shader slot.
    BindTexture { slot: u32, texture: u64 },
    /// Remove a texture binding, so a target never stays bound as input
    /// while it is written.
    UnbindTexture { slot: u32 },
    /// Draw an indexed mesh.
    DrawIndexed { vertex_buffer: u64, index_buffer: u64, index_count: u32 },
    /// Submit the frame to the presentation surface.
    Present,
}

} // verus!
