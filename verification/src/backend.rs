//! The GPU device backend, modeled as an explicit state machine.
//!
//! The backend owns the presentation surface, the primary color and depth
//! targets, and the registry of allocated GPU resources. Device loss is
//! handled inside `present`: a lost device is torn down and recreated under a
//! new device generation, and is never surfaced to the caller unless the
//! recreation itself fails.

use vstd::prelude::*;

use crate::commands::PresentOutcome;
use crate::error::{DxError, DxErrorType};

verus! {

/// One display adapter as the enumeration reports it, in preference order
/// (high-performance adapters first).
#[derive(Clone, Copy, Debug, PartialEq, Eq, Structural)]
pub struct Adapter {
    /// A software rasterizer; never selected.
    pub software: bool,
    /// Dedicated video memory, in bytes.
    pub dedicated_memory: u64,
}

/// Lifecycle state of the backend.
#[derive(Clone, Copy, Debug, PartialEq, Eq, Structural)]
pub enum BackendStatus {
    /// No device; only initialization may run.
    Uninitialized,
    /// Device and primary targets are live; frames may be presented.
    Initialized,
    /// The device was lost and recovery failed; the backend is unusable.
    DeviceLost,
}

/// What a GPU resource is, with the dimensions it was allocated at.
#[derive(Clone, Copy, Debug, PartialEq, Eq, Structural)]
pub enum ResourceKind {
    /// A uniform/constant buffer of `size` bytes.
    Buffer { size: u32 },
    /// A sampled texture.
    Texture { width: u32, height: u32 },
    /// An off-screen or primary color target with a paired sampled view.
    RenderTarget { width: u32, height: u32 },
    /// A depth-stencil target.
    DepthTarget { width: u32, height: u32 },
    /// A compiled shader-stage bundle.
    ShaderProgram,
}

/// An entry of the backend's resource registry.
#[derive(Clone, Copy, Debug, PartialEq, Eq, Structural)]
pub struct GpuResource {
    pub id: u64,
    pub kind: ResourceKind,
    /// Device generation the resource was created under; resources of an
    /// older generation died with their device.
    pub generation: u64,
}

/// The first non-software adapter, if any: the selection rule for devices.
pub open spec fn spec_selected_adapter(adapters: Seq<Adapter>) -> Option<int>
    decreases adapters.len(),
{
    if adapters.len() == 0 {
        None
    } else if !adapters[0].software {
        Some(0)
    } else {
        match spec_selected_adapter(adapters.drop_first()) {
            Some(i) => Some(i + 1),
            None => None,
        }
    }
}

/// Picks the adapter the device will be created on: the first adapter, in
/// the given preference order, that is not a software rasterizer.
pub fn select_adapter(adapters: &Vec<Adapter>) -> (r: Option<usize>)
    ensures
        r is Some <==> spec_selected_adapter(adapters@) is Some,
        r is Some ==> r.unwrap() as int == spec_selected_adapter(adapters@).unwrap(),
{
    let n = adapters.len();
    let mut i: usize = 0;
    proof {
        assert(adapters@.skip(0) =~= adapters@);
    }
    while i < n
        invariant
            0 <= i <= n,
            n == adapters@.len(),
            forall|k: int| 0 <= k < i ==> adapters@[k].software,
            spec_selected_adapter(adapters@) is Some <==> spec_selected_adapter(
                adapters@.skip(i as int),
            ) is Some,
            spec_selected_adapter(adapters@) is Some ==> spec_selected_adapter(adapters@).unwrap()
                == spec_selected_adapter(adapters@.skip(i as int)).unwrap() + i,
        decreases n - i,
    {
        if !adapters[i].software {
            assert(adapters@.skip(i as int)[0] == adapters@[i as int]);
            return Some(i);
        }
        proof {
            assert(adapters@.skip(i as int)[0] == adapters@[i as int]);
            assert(adapters@.skip(i as int).drop_first() =~= adapters@.skip(i as int + 1));
        }
        i += 1;
    }
    assert(adapters@.skip(i as int).len() == 0);
    None
}

/// The GPU backend: device, surface, primary targets, resource registry.
#[derive(Debug)]
pub struct D3D11Backend {
    surface: u64,
    width: u32,
    height: u32,
    status: BackendStatus,
    generation: u64,
    next_id: u64,
    resources: Vec<GpuResource>,
    render_target: u64,
    depth_stencil: u64,
    frames_presented: u64,
}

impl D3D11Backend {
    pub closed spec fn spec_surface(&self) -> u64 {
        self.surface
    }

    pub closed spec fn spec_width(&self) -> u32 {
        self.width
    }

    pub closed spec fn spec_height(&self) -> u32 {
        self.height
    }

    pub closed spec fn spec_status(&self) -> BackendStatus {
        self.status
    }

    pub closed spec fn spec_generation(&self) -> u64 {
        self.generation
    }

    pub closed spec fn spec_next_id(&self) -> u64 {
        self.next_id
    }

    pub closed spec fn spec_resources(&self) -> Seq<GpuResource> {
        self.resources@
    }

    pub closed spec fn spec_render_target(&self) -> u64 {
        self.render_target
    }

    pub closed spec fn spec_depth_stencil(&self) -> u64 {
        self.depth_stencil
    }

    pub closed spec fn spec_frames_presented(&self) -> u64 {
        self.frames_presented
    }

    /// A registry entry with this id exists and belongs to the current
    /// device generation. The registry is an allocation history: a target
    /// that a resize replaced stays recorded (and allocated) until the
    /// device itself is torn down by `cleanup` or `recover`; the model does
    /// not track individual releases.
    pub open spec fn live_resource(&self, id: u64) -> bool {
        exists|i: int|
            0 <= i < self.spec_resources().len() && self.spec_resources()[i].id == id
                && self.spec_resources()[i].generation == self.spec_generation()
    }

    /// Registry ids are strictly increasing (hence unique) and below the
    /// allocation cursor.
    pub open spec fn ids_ok(&self) -> bool {
        &&& forall|i: int, j: int|
            0 <= i < j < self.spec_resources().len() ==> self.spec_resources()[i].id
                < self.spec_resources()[j].id
        &&& forall|i: int|
            0 <= i < self.spec_resources().len() ==> self.spec_resources()[i].id
                < self.spec_next_id()
    }

    /// Backend well-formedness: sound registry, and, while initialized,
    /// allocated and distinct primary targets.
    pub open spec fn wf(&self) -> bool {
        &&& self.ids_ok()
        &&& self.spec_status() == BackendStatus::Initialized ==> {
            &&& self.spec_render_target() < self.spec_next_id()
            &&& self.spec_depth_stencil() < self.spec_next_id()
            &&& self.spec_render_target() != self.spec_depth_stencil()
        }
    }

    /// Allocates a registry entry of the given kind under the current
    /// generation. Fails only when the id space is exhausted.
    fn allocate(&mut self, kind: ResourceKind) -> (r: Result<u64, DxError>)
        requires
            old(self).ids_ok(),
        ensures
            final(self).ids_ok(),
            r is Ok <==> old(self).spec_next_id() < u64::MAX,
            r is Err ==> *final(self) == *old(self) && r.unwrap_err().spec_err_type()
                == DxErrorType::ResourceCreation,
            r is Ok ==> {
                &&& r.unwrap() == old(self).spec_next_id()
                &&& final(self).spec_next_id() == old(self).spec_next_id() + 1
                &&& final(self).spec_resources() == old(self).spec_resources().push(
                    GpuResource {
                        id: old(self).spec_next_id(),
                        kind,
                        generation: old(self).spec_generation(),
                    },
                )
                &&& forall|g: GpuResource|
                    #[trigger] old(self).spec_resources().contains(g)
                        ==> final(self).spec_resources().contains(g)
                &&& final(self).spec_surface() == old(self).spec_surface()
                &&& final(self).spec_width() == old(self).spec_width()
                &&& final(self).spec_height() == old(self).spec_height()
                &&& final(self).spec_status() == old(self).spec_status()
                &&& final(self).spec_generation() == old(self).spec_generation()
                &&& final(self).spec_render_target() == old(self).spec_render_target()
                &&& final(self).spec_depth_stencil() == old(self).spec_depth_stencil()
                &&& final(self).spec_frames_presented() == old(self).spec_frames_presented()
            },
    {
        if self.next_id == u64::MAX {
            return Err(DxError::new("GPU resource ids exhausted", DxErrorType::ResourceCreation));
        }
        let id = self.next_id;
        let ghost prev = self.spec_resources();
        self.resources.push(GpuResource { id, kind, generation: self.generation });
        self.next_id = id + 1;
        proof {
            assert forall|g: GpuResource|
                #[trigger] prev.contains(g) implies self.spec_resources().contains(g) by {
                let i = choose|i: int| 0 <= i < prev.len() && prev[i] == g;
                assert(self.spec_resources()[i] == g);
            }
        }
        Ok(id)
    }

    /// Allocates a uniform buffer and returns its id.
    pub fn create_buffer(&mut self, size: u32) -> (r: Result<u64, DxError>)
        requires
            old(self).ids_ok(),
        ensures
            final(self).ids_ok(),
            r is Ok <==> old(self).spec_next_id() < u64::MAX,
            r is Err ==> *final(self) == *old(self) && r.unwrap_err().spec_err_type()
                == DxErrorType::ResourceCreation,
            r is Ok ==> {
                &&& r.unwrap() == old(self).spec_next_id()
                &&& final(self).spec_next_id() == old(self).spec_next_id() + 1
                &&& final(self).spec_resources() == old(self).spec_resources().push(
                    GpuResource {
                        id: old(self).spec_next_id(),
                        kind: ResourceKind::Buffer { size },
                        generation: old(self).spec_generation(),
                    },
                )
                &&& final(self).live_resource(r.unwrap())
                &&& final(self).spec_resources().contains(
                    GpuResource {
                        id: r.unwrap(),
                        kind: ResourceKind::Buffer { size },
                        generation: old(self).spec_generation(),
                    },
                )
                &&& forall|g: GpuResource|
                    #[trigger] old(self).spec_resources().contains(g)
                        ==> final(self).spec_resources().contains(g)
                &&& unchanged_but_registry(old(self), final(self))
            },
    {
        let r = self.allocate(ResourceKind::Buffer { size });
        proof {
            if r is Ok {
                assert(self.spec_resources().last().id == r.unwrap());
                assert(self.spec_resources().contains(self.spec_resources().last())) by {
                    let n = self.spec_resources().len() as int;
                    assert(self.spec_resources()[n - 1] == self.spec_resources().last());
                }
            }
        }
        r
    }

    /// Allocates a sampled texture and returns its id.
    pub fn create_texture(&mut self, width: u32, height: u32) -> (r: Result<u64, DxError>)
        requires
            old(self).ids_ok(),
        ensures
            final(self).ids_ok(),
            r is Ok <==> old(self).spec_next_id() < u64::MAX,
            r is Err ==> *final(self) == *old(self) && r.unwrap_err().spec_err_type()
                == DxErrorType::ResourceCreation,
            r is Ok ==> {
                &&& r.unwrap() == old(self).spec_next_id()
                &&& final(self).spec_next_id() == old(self).spec_next_id() + 1
                &&& final(self).spec_resources() == old(self).spec_resources().push(
                    GpuResource {
                        id: old(self).spec_next_id(),
                        kind: ResourceKind::Texture { width, height },
                        generation: old(self).spec_generation(),
                    },
                )
                &&& final(self).live_resource(r.unwrap())
                &&& final(self).spec_resources().contains(
                    GpuResource {
                        id: r.unwrap(),
                        kind: ResourceKind::Texture { width, height },
                        generation: old(self).spec_generation(),
                    },
                )
                &&& forall|g: GpuResource|
                    #[trigger] old(self).spec_resources().contains(g)
                        ==> final(self).spec_resources().contains(g)
                &&& unchanged_but_registry(old(self), final(self))
            },
    {
        let r = self.allocate(ResourceKind::Texture { width, height });
        proof {
            if r is Ok {
                assert(self.spec_resources().last().id == r.unwrap());
                assert(self.spec_resources().contains(self.spec_resources().last())) by {
                    let n = self.spec_resources().len() as int;
                    assert(self.spec_resources()[n - 1] == self.spec_resources().last());
                }
            }
        }
        r
    }

    /// Allocates an off-screen color target with a paired sampled view.
    pub fn create_render_target(&mut self, width: u32, height: u32) -> (r: Result<u64, DxError>)
        requires
            old(self).ids_ok(),
        ensures
            final(self).ids_ok(),
            r is Ok <==> old(self).spec_next_id() < u64::MAX,
            r is Err ==> *final(self) == *old(self) && r.unwrap_err().spec_err_type()
                == DxErrorType::ResourceCreation,
            r is Ok ==> {
                &&& r.unwrap() == old(self).spec_next_id()
                &&& final(self).spec_next_id() == old(self).spec_next_id() + 1
                &&& final(self).spec_resources() == old(self).spec_resources().push(
                    GpuResource {
                        id: old(self).spec_next_id(),
                        kind: ResourceKind::RenderTarget { width, height },
                        generation: old(self).spec_generation(),
                    },
                )
                &&& final(self).live_resource(r.unwrap())
                &&& final(self).spec_resources().contains(
                    GpuResource {
                        id: r.unwrap(),
                        kind: ResourceKind::RenderTarget { width, height },
                        generation: old(self).spec_generation(),
                    },
                )
                &&& forall|g: GpuResource|
                    #[trigger] old(self).spec_resources().contains(g)
                        ==> final(self).spec_resources().contains(g)
                &&& unchanged_but_registry(old(self), final(self))
            },
    {
        let r = self.allocate(ResourceKind::RenderTarget { width, height });
        proof {
            if r is Ok {
                assert(self.spec_resources().last().id == r.unwrap());
                assert(self.spec_resources().contains(self.spec_resources().last())) by {
                    let n = self.spec_resources().len() as int;
                    assert(self.spec_resources()[n - 1] == self.spec_resources().last());
                }
            }
        }
        r
    }

    /// Allocates a depth-stencil target.
    pub fn create_depth_target(&mut self, width: u32, height: u32) -> (r: Result<u64, DxError>)
        requires
            old(self).ids_ok(),
        ensures
            final(self).ids_ok(),
            r is Ok <==> old(self).spec_next_id() < u64::MAX,
            r is Err ==> *final(self) == *old(self) && r.unwrap_err().spec_err_type()
                == DxErrorType::ResourceCreation,
            r is Ok ==> {
                &&& r.unwrap() == old(self).spec_next_id()
                &&& final(self).spec_next_id() == old(self).spec_next_id() + 1
                &&& final(self).spec_resources() == old(self).spec_resources().push(
                    GpuResource {
                        id: old(self).spec_next_id(),
                        kind: ResourceKind::DepthTarget { width, height },
                        generation: old(self).spec_generation(),
                    },
                )
                &&& final(self).live_resource(r.unwrap())
                &&& final(self).spec_resources().contains(
                    GpuResource {
                        id: r.unwrap(),
                        kind: ResourceKind::DepthTarget { width, height },
                        generation: old(self).spec_generation(),
                    },
                )
                &&& forall|g: GpuResource|
                    #[trigger] old(self).spec_resources().contains(g)
                        ==> final(self).spec_resources().contains(g)
                &&& unchanged_but_registry(old(self), final(self))
            },
    {
        let r = self.allocate(ResourceKind::DepthTarget { width, height });
        proof {
            if r is Ok {
                assert(self.spec_resources().last().id == r.unwrap());
                assert(self.spec_resources().contains(self.spec_resources().last())) by {
                    let n = self.spec_resources().len() as int;
                    assert(self.spec_resources()[n - 1] == self.spec_resources().last());
                }
            }
        }
        r
    }

    /// Allocates a shader program. Shader sources are compiled offline; the
    /// backend only tracks the loaded program bundle.
    pub fn create_program(&mut self) -> (r: Result<u64, DxError>)
        requires
            old(self).ids_ok(),
        ensures
            final(self).ids_ok(),
            r is Ok <==> old(self).spec_next_id() < u64::MAX,
            r is Err ==> *final(self) == *old(self) && r.unwrap_err().spec_err_type()
                == DxErrorType::ResourceCreation,
            r is Ok ==> {
                &&& r.unwrap() == old(self).spec_next_id()
                &&& final(self).spec_next_id() == old(self).spec_next_id() + 1
                &&& final(self).spec_resources() == old(self).spec_resources().push(
                    GpuResource {
                        id: old(self).spec_next_id(),
                        kind: ResourceKind::ShaderProgram,
                        generation: old(self).spec_generation(),
                    },
                )
                &&& final(self).live_resource(r.unwrap())
                &&& final(self).spec_resources().contains(
                    GpuResource {
                        id: r.unwrap(),
                        kind: ResourceKind::ShaderProgram,
                        generation: old(self).spec_generation(),
                    },
                )
                &&& forall|g: GpuResource|
                    #[trigger] old(self).spec_resources().contains(g)
                        ==> final(self).spec_resources().contains(g)
                &&& unchanged_but_registry(old(self), final(self))
            },
    {
        let r = self.allocate(ResourceKind::ShaderProgram);
        proof {
            if r is Ok {
                assert(self.spec_resources().last().id == r.unwrap());
                assert(self.spec_resources().contains(self.spec_resources().last())) by {
                    let n = self.spec_resources().len() as int;
                    assert(self.spec_resources()[n - 1] == self.spec_resources().last());
                }
            }
        }
        r
    }

    /// Creates the device on the preferred adapter, binds the presentation
    /// surface, and allocates the primary color and depth targets.
    pub fn init(adapters: &Vec<Adapter>, surface: u64, width: u32, height: u32) -> (r: Result<
        D3D11Backend,
        DxError,
    >)
        ensures
            r is Ok <==> spec_selected_adapter(adapters@) is Some && surface != 0,
            r is Err && spec_selected_adapter(adapters@) is None ==> r.unwrap_err().spec_err_type()
                == DxErrorType::Device,
            r is Err && spec_selected_adapter(adapters@) is Some ==> r.unwrap_err().spec_err_type()
                == DxErrorType::SurfaceCreation,
            r is Ok ==> {
                &&& r.unwrap().wf()
                &&& r.unwrap().spec_status() == BackendStatus::Initialized
                &&& r.unwrap().spec_surface() == surface
                &&& r.unwrap().spec_width() == width
                &&& r.unwrap().spec_height() == height
                &&& r.unwrap().spec_generation() == 1
                &&& r.unwrap().spec_frames_presented() == 0
                &&& r.unwrap().spec_next_id() == 3
                &&& primary_targets_current(&r.unwrap())
            },
    {
        if select_adapter(adapters).is_none() {
            return Err(DxError::new("no suitable adapter found", DxErrorType::Device));
        }
        if surface == 0 {
            return Err(
                DxError::new(
                    "presentation surface cannot be bound",
                    DxErrorType::SurfaceCreation,
                ),
            );
        }
        let mut backend = D3D11Backend {
            surface,
            width,
            height,
            status: BackendStatus::Uninitialized,
            generation: 1,
            next_id: 1,
            resources: Vec::new(),
            render_target: 0,
            depth_stencil: 0,
            frames_presented: 0,
        };
        let rt = match backend.create_render_target(width, height) {
            Ok(id) => id,
            Err(e) => { return Err(e); },
        };
        let ds = match backend.create_depth_target(width, height) {
            Ok(id) => id,
            Err(e) => { return Err(e); },
        };
        backend.render_target = rt;
        backend.depth_stencil = ds;
        backend.status = BackendStatus::Initialized;
        proof {
            let res = backend.spec_resources();
            let n = res.len() as int;
            assert(res[n - 2].id == rt && res[n - 2].generation == backend.spec_generation());
            assert(res[n - 1].id == ds && res[n - 1].generation == backend.spec_generation());
        }
        Ok(backend)
    }

    /// Tears the device and every resource down.
    pub fn cleanup(&mut self)
        ensures
            final(self).spec_status() == BackendStatus::Uninitialized,
            final(self).spec_resources() == Seq::<GpuResource>::empty(),
            final(self).spec_surface() == old(self).spec_surface(),
            final(self).spec_width() == old(self).spec_width(),
            final(self).spec_height() == old(self).spec_height(),
            final(self).spec_generation() == old(self).spec_generation(),
            final(self).spec_next_id() == old(self).spec_next_id(),
            final(self).spec_frames_presented() == old(self).spec_frames_presented(),
            final(self).ids_ok(),
            final(self).wf(),
    {
        self.resources.clear();
        self.status = BackendStatus::Uninitialized;
    }

    /// Recreates the device and the primary targets under a fresh device
    /// generation, after a device loss.
    pub fn recover(&mut self) -> (r: Result<(), DxError>)
        requires
            old(self).ids_ok(),
        ensures
            final(self).ids_ok(),
            r is Ok <==> old(self).spec_generation() < u64::MAX && old(self).spec_next_id()
                <= u64::MAX - 2,
            r is Ok ==> {
                &&& final(self).wf()
                &&& final(self).spec_status() == BackendStatus::Initialized
                &&& final(self).spec_generation() == old(self).spec_generation() + 1
                &&& final(self).spec_width() == old(self).spec_width()
                &&& final(self).spec_height() == old(self).spec_height()
                &&& final(self).spec_surface() == old(self).spec_surface()
                &&& final(self).spec_frames_presented() == old(self).spec_frames_presented()
                &&& primary_targets_current(final(self))
            },
            r is Err ==> final(self).spec_status() == BackendStatus::DeviceLost,
    {
        if self.generation == u64::MAX || self.next_id > u64::MAX - 2 {
            self.status = BackendStatus::DeviceLost;
            return Err(DxError::new("device recovery failed", DxErrorType::Device));
        }
        self.cleanup();
        self.generation = self.generation + 1;
        let rt = match self.create_render_target(self.width, self.height) {
            Ok(id) => id,
            Err(e) => { return Err(e); },
        };
        let ds = match self.create_depth_target(self.width, self.height) {
            Ok(id) => id,
            Err(e) => { return Err(e); },
        };
        self.render_target = rt;
        self.depth_stencil = ds;
        self.status = BackendStatus::Initialized;
        proof {
            let res = self.spec_resources();
            let n = res.len() as int;
            assert(res[n - 2].id == rt && res[n - 2].generation == self.spec_generation());
            assert(res[n - 1].id == ds && res[n - 1].generation == self.spec_generation());
        }
        Ok(())
    }

    /// Submits one frame. A reported device loss is recovered internally:
    /// the device and targets are recreated and the call still succeeds, so
    /// the next frame presents normally. Only a failed recovery or another
    /// presentation failure is surfaced.
    pub fn present(&mut self, outcome: PresentOutcome) -> (r: Result<(), DxError>)
        requires
            old(self).spec_status() == BackendStatus::Initialized,
            old(self).wf(),
        ensures
            final(self).ids_ok(),
            final(self).wf(),
            outcome == PresentOutcome::Success ==> r is Ok && final(self).spec_next_id() == old(
                self,
            ).spec_next_id() && final(self).spec_surface() == old(self).spec_surface()
                && final(self).spec_frames_presented()
                == frames_after(old(self).spec_frames_presented()) && final(self).spec_status()
                == BackendStatus::Initialized && final(self).spec_generation() == old(
                self,
            ).spec_generation() && final(self).spec_resources() == old(self).spec_resources()
                && final(self).spec_width() == old(self).spec_width() && final(self).spec_height()
                == old(self).spec_height() && final(self).spec_render_target() == old(
                self,
            ).spec_render_target() && final(self).spec_depth_stencil() == old(
                self,
            ).spec_depth_stencil(),
            outcome == PresentOutcome::Failure ==> r is Err && *final(self) == *old(self)
                && r.unwrap_err().spec_err_type() == DxErrorType::Draw,
            outcome == PresentOutcome::DeviceLost ==> {
                &&& (r is Ok <==> old(self).spec_generation() < u64::MAX && old(
                    self,
                ).spec_next_id() <= u64::MAX - 2)
                &&& r is Ok ==> final(self).wf() && final(self).spec_status()
                    == BackendStatus::Initialized && final(self).spec_generation() == old(
                    self,
                ).spec_generation() + 1 && final(self).spec_frames_presented() == old(
                    self,
                ).spec_frames_presented() && final(self).spec_width() == old(self).spec_width()
                    && final(self).spec_height() == old(self).spec_height()
                    && primary_targets_current(final(self))
                &&& r is Err ==> final(self).spec_status() == BackendStatus::DeviceLost
            },
    {
        match outcome {
            PresentOutcome::Success => {
                if self.frames_presented < u64::MAX {
                    self.frames_presented = self.frames_presented + 1;
                }
                Ok(())
            },
            PresentOutcome::Failure => {
                Err(DxError::new("Present failed", DxErrorType::Draw))
            },
            PresentOutcome::DeviceLost => {
                self.status = BackendStatus::DeviceLost;
                self.recover()
            },
        }
    }

    /// Resizes the presentation surface and primary targets. A call with the
    /// current dimensions changes nothing and reports `false`; new
    /// dimensions release and recreate the primary targets and report
    /// `true`.
    pub fn resize(&mut self, width: u32, height: u32) -> (r: Result<bool, DxError>)
        requires
            old(self).spec_status() == BackendStatus::Initialized,
            old(self).wf(),
        ensures
            final(self).ids_ok(),
            final(self).wf(),
            final(self).spec_status() == BackendStatus::Initialized,
            width == old(self).spec_width() && height == old(self).spec_height() ==> r is Ok
                && r.unwrap() == false && *final(self) == *old(self),
            !(width == old(self).spec_width() && height == old(self).spec_height()) ==> {
                &&& (r is Ok <==> old(self).spec_next_id() <= u64::MAX - 2)
                &&& r is Ok ==> {
                    &&& r.unwrap() == true
                    &&& final(self).wf()
                    &&& final(self).spec_status() == BackendStatus::Initialized
                    &&& final(self).spec_width() == width
                    &&& final(self).spec_height() == height
                    &&& final(self).spec_generation() == old(self).spec_generation()
                    &&& final(self).spec_frames_presented() == old(self).spec_frames_presented()
                    &&& final(self).spec_render_target() != old(self).spec_render_target()
                    &&& final(self).spec_depth_stencil() != old(self).spec_depth_stencil()
                    &&& primary_targets_current(final(self))
                }
            },
    {
        if width == self.width && height == self.height {
            return Ok(false);
        }
        if self.next_id > u64::MAX - 2 {
            return Err(
                DxError::new("SwapChain resize failed!", DxErrorType::ResourceCreation),
            );
        }
        self.width = width;
        self.height = height;
        let rt = match self.create_render_target(width, height) {
            Ok(id) => id,
            Err(e) => { return Err(e); },
        };
        let ds = match self.create_depth_target(width, height) {
            Ok(id) => id,
            Err(e) => { return Err(e); },
        };
        self.render_target = rt;
        self.depth_stencil = ds;
        proof {
            let res = self.spec_resources();
            let n = res.len() as int;
            assert(res[n - 2].id == rt && res[n - 2].generation == self.spec_generation());
            assert(res[n - 1].id == ds && res[n - 1].generation == self.spec_generation());
        }
        Ok(true)
    }

    /// The id the next allocation will receive.
    pub fn peek_next_id(&self) -> (r: u64)
        ensures
            r == self.spec_next_id(),
    {
        self.next_id
    }

    pub fn get_render_target_view(&self) -> (r: u64)
        ensures
            r == self.spec_render_target(),
    {
        self.render_target
    }

    pub fn get_depth_stencil_view(&self) -> (r: u64)
        ensures
            r == self.spec_depth_stencil(),
    {
        self.depth_stencil
    }

    /// The rasterizer viewport: the full framebuffer.
    pub fn get_viewport(&self) -> (r: (u32, u32))
        ensures
            r.0 == self.spec_width(),
            r.1 == self.spec_height(),
    {
        (self.width, self.height)
    }

    pub fn get_width(&self) -> (r: u32)
        ensures
            r == self.spec_width(),
    {
        self.width
    }

    pub fn get_height(&self) -> (r: u32)
        ensures
            r == self.spec_height(),
    {
        self.height
    }

    pub fn status(&self) -> (r: BackendStatus)
        ensures
            r == self.spec_status(),
    {
        self.status
    }

    pub fn generation(&self) -> (r: u64)
        ensures
            r == self.spec_generation(),
    {
        self.generation
    }

    pub fn frames_presented(&self) -> (r: u64)
        ensures
            r == self.spec_frames_presented(),
    {
        self.frames_presented
    }
}

/// A resource allocated under the current generation is some registry
/// entry under that generation.
pub proof fn lemma_live_to_contains(b: &D3D11Backend, id: u64)
    requires
        b.live_resource(id),
    ensures
        exists|g: GpuResource|
            #[trigger] b.spec_resources().contains(g) && g.id == id && g.generation
                == b.spec_generation(),
{
    let i = choose|i: int|
        0 <= i < b.spec_resources().len() && b.spec_resources()[i].id == id
            && b.spec_resources()[i].generation == b.spec_generation();
    let g = b.spec_resources()[i];
    assert(b.spec_resources().contains(g));
}

/// A registry entry under the current generation is a live resource.
pub proof fn lemma_contains_to_live(b: &D3D11Backend, g: GpuResource)
    requires
        b.spec_resources().contains(g),
        g.generation == b.spec_generation(),
    ensures
        b.live_resource(g.id),
{
    let i = choose|i: int| 0 <= i < b.spec_resources().len() && b.spec_resources()[i] == g;
    assert(b.spec_resources()[i].id == g.id);
}

/// The frame counter after one successful present (it saturates).
pub open spec fn frames_after(n: u64) -> u64 {
    if n < u64::MAX {
        (n + 1) as u64
    } else {
        n
    }
}

/// The primary targets were (re)created under the current generation, at the
/// current framebuffer size, as the two newest registry entries.
pub open spec fn primary_targets_current(b: &D3D11Backend) -> bool {
    &&& b.live_resource(b.spec_render_target())
    &&& b.live_resource(b.spec_depth_stencil())
    &&& b.spec_resources().len() >= 2
    &&& b.spec_resources()[b.spec_resources().len() - 2] == (GpuResource {
        id: b.spec_render_target(),
        kind: ResourceKind::RenderTarget { width: b.spec_width(), height: b.spec_height() },
        generation: b.spec_generation(),
    })
    &&& b.spec_resources().last() == (GpuResource {
        id: b.spec_depth_stencil(),
        kind: ResourceKind::DepthTarget { width: b.spec_width(), height: b.spec_height() },
        generation: b.spec_generation(),
    })
}

/// Everything but the resource registry and allocation cursor is unchanged.
pub open spec fn unchanged_but_registry(a: &D3D11Backend, b: &D3D11Backend) -> bool {
    &&& b.spec_surface() == a.spec_surface()
    &&& b.spec_width() == a.spec_width()
    &&& b.spec_height() == a.spec_height()
    &&& b.spec_status() == a.spec_status()
    &&& b.spec_generation() == a.spec_generation()
    &&& b.spec_render_target() == a.spec_render_target()
    &&& b.spec_depth_stencil() == a.spec_depth_stencil()
    &&& b.spec_frames_presented() == a.spec_frames_presented()
}

} // verus!
