//! Uniform (constant) buffers: CPU-staged data paired with a GPU buffer.
//! Setters stage new data; `update` issues the upload.

use vstd::prelude::*;

use crate::backend::{unchanged_but_registry, D3D11Backend, ResourceKind};
use crate::commands::RenderCommand;
use crate::error::DxError;

verus! {

/// Bytes reserved for one uniform block.
pub const UNIFORM_BYTES: u32 = 256;

/// A typed uniform buffer: staged CPU data plus the GPU buffer it is
/// uploaded to.
#[derive(Debug)]
pub struct CBuffer<T> {
    /// The staged contents; uploaded by `update`.
    pub data: T,
    /// The GPU buffer the data is uploaded into.
    pub buffer: u64,
}

impl<T: Copy> CBuffer<T> {
    pub open spec fn spec_buffer(&self) -> u64 {
        self.buffer
    }

    /// Allocates the GPU buffer and stages `data`.
    pub fn create(data: T, backend: &mut D3D11Backend) -> (r: Result<CBuffer<T>, DxError>)
        requires
            old(backend).ids_ok(),
        ensures
            final(backend).ids_ok(),
            r is Ok <==> old(backend).spec_next_id() < u64::MAX,
            r is Err ==> *final(backend) == *old(backend) && (r->Err_0).spec_err_type()
                == crate::error::DxErrorType::ResourceCreation,
            r is Ok ==> {
                &&& r.unwrap().data == data
                &&& r.unwrap().spec_buffer() == old(backend).spec_next_id()
                &&& final(backend).live_resource(r.unwrap().spec_buffer())
                &&& final(backend).spec_next_id() == old(backend).spec_next_id() + 1
                &&& final(backend).spec_resources() == old(backend).spec_resources().push(
                    crate::backend::GpuResource {
                        id: old(backend).spec_next_id(),
                        kind: ResourceKind::Buffer { size: UNIFORM_BYTES },
                        generation: old(backend).spec_generation(),
                    },
                )
                &&& forall|g: crate::backend::GpuResource|
                    #[trigger] old(backend).spec_resources().contains(g)
                        ==> final(backend).spec_resources().contains(g)
                &&& unchanged_but_registry(old(backend), final(backend))
            },
    {
        let buffer = match backend.create_buffer(UNIFORM_BYTES) {
            Ok(id) => id,
            Err(e) => {
                return Err(e);
            },
        };
        Ok(CBuffer { data, buffer })
    }

    /// Uploads the staged contents into the GPU buffer.
    pub fn update(&self, cmds: &mut Vec<RenderCommand>)
        ensures
            final(cmds)@ == old(cmds)@ + seq![
                RenderCommand::UploadBuffer { buffer: self.spec_buffer() },
            ],
    {
        cmds.push(RenderCommand::UploadBuffer { buffer: self.buffer });
    }

    /// The GPU buffer id, for binding.
    pub fn buffer_ptr(&self) -> (r: u64)
        ensures
            r == self.spec_buffer(),
    {
        self.buffer
    }
}

} // verus!
