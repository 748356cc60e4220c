//! Engine configuration, read once at startup from the settings
//! collaborator.

use vstd::prelude::*;

verus! {

/// The configuration surface the renderer consumes.
#[derive(Clone, Debug)]
pub struct Settings {
    /// Output width.
    pub res_width: u32,
    /// Output height.
    pub res_height: u32,
    pub fullscreen: bool,
    /// Optional initial scene identifier.
    pub level: Option<String>,
    /// Camera field of view, in degrees.
    pub camera_fov: u32,
    /// Camera view distance, in scene units.
    pub view_distance: u32,
    /// Whether the ambient-occlusion pass runs.
    pub ssao: bool,
    /// Whether device debug validation is requested.
    pub dx_validation: bool,
}

/// The configuration used when no settings source is available.
pub open spec fn spec_default_settings() -> Settings {
    Settings {
        res_width: 1024u32,
        res_height: 768u32,
        fullscreen: false,
        level: None,
        camera_fov: 70u32,
        view_distance: 1000u32,
        ssao: true,
        dx_validation: false,
    }
}

impl Default for Settings {
    fn default() -> (r: Settings)
        ensures
            r == spec_default_settings(),
    {
        Settings {
            res_width: 1024,
            res_height: 768,
            fullscreen: false,
            level: None,
            camera_fov: 70,
            view_distance: 1000,
            ssao: true,
            dx_validation: false,
        }
    }
}

} // verus!
