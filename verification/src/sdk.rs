//! Plugin SDK: ABI constants, the plain data records exchanged with plugins,
//! and the read-only descriptor section that embeds a plugin manifest.
use crate::bytes::{le32_bytes, push_le32};
use vstd::prelude::*;

verus! {

pub const ABI_VERSION: u32 = 1;

pub const MAX_DETECTIONS: usize = 128;

pub const MAX_EDGE: u32 = 640;

pub const MAX_SCENE_BYTES: usize = 1048576;

pub const MAX_RENDER_BYTES: usize = 8388608;

/// Bytes before the manifest JSON: eight magic bytes, the container version
/// (a little-endian `u32`, always 1) and the JSON length (a little-endian `u32`).
pub const MANIFEST_HEADER: usize = 16;

pub const MAX_MANIFEST_BYTES: usize = 65536;

/// The descriptor container version, independent of the execution ABI.
pub const MANIFEST_CONTAINER_VERSION: u32 = 1;

/// `b"OUYCMETA"`.
pub const MANIFEST_MAGIC: [u8; 8] = [79u8, 85u8, 89u8, 67u8, 77u8, 69u8, 84u8, 65u8];

pub open spec fn magic() -> Seq<u8> {
    seq![79u8, 85u8, 89u8, 67u8, 77u8, 69u8, 84u8, 65u8]
}

/// Data types that node ports carry. Only ports of the same type connect.
#[derive(Clone, Copy, Debug, PartialEq, Eq, Structural)]
pub enum PortType {
    Frame,
    DrawList,
    Layer,
    Detections,
    InputCommands,
    Activation,
}

#[derive(Clone, Debug, PartialEq, Eq)]
pub struct NodePort {
    pub id: String,
    pub name: String,
    pub data_type: PortType,
    pub many: bool,
    pub optional: bool,
}

#[derive(Clone, Copy, Debug, PartialEq, Eq, Structural)]
pub enum NodeImplementation {
    VideoShader,
    FrameAnalysis,
    SceneSource,
    Overlay,
    DetectionControl,
}

/// Straight-alpha RGBA8 image supplied with an initial scene.
#[derive(Clone, Debug, PartialEq, Eq)]
pub struct ImageResource {
    pub id: u32,
    pub width: u32,
    pub height: u32,
    pub rgba: Vec<u8>,
}

/// Host observation identity and local input telemetry given to control nodes.
#[derive(Clone, Copy, Debug, Default, PartialEq, Eq)]
pub struct Observation {
    pub generation: u64,
    pub sequence: u64,
    pub physical_motion: [i64; 2],
    pub current_physical: [i64; 2],
    pub submitted_motion: [i64; 2],
    pub motion_pending: bool,
    pub assist_pending: bool,
}

/// A full or partial texture update produced by an overlay renderer.
#[derive(Clone, Debug, PartialEq, Eq)]
pub struct TextureUpload {
    pub id: u64,
    pub position: Option<[usize; 2]>,
    pub size: [usize; 2],
    pub pixels: Vec<[u8; 4]>,
}

/// The descriptor section that holds `json`: magic, container version 1,
/// the JSON length, then the JSON itself.
pub open spec fn spec_manifest_section(json: Seq<u8>) -> Seq<u8> {
    magic() + le32_bytes(1) + le32_bytes(json.len() as u32) + json
}

/// Builds the read-only descriptor section for one manifest.
pub fn manifest_section(json: &[u8]) -> (section: Vec<u8>)
    requires
        json@.len() <= MAX_MANIFEST_BYTES,
    ensures
        section@ == spec_manifest_section(json@),
        section@.len() == MANIFEST_HEADER + json@.len(),
{
    let mut data: Vec<u8> = Vec::new();
    let mut i: usize = 0;
    while i < 8
        invariant
            i <= 8,
            data@ == magic().take(i as int),
        decreases 8 - i,
    {
        data.push(MANIFEST_MAGIC[i]);
        i += 1;
        assert(data@ == magic().take(i as int));
    }
    assert(magic().take(8) == magic());
    push_le32(&mut data, MANIFEST_CONTAINER_VERSION);
    push_le32(&mut data, json.len() as u32);
    let ghost header = data@;
    i = 0;
    while i < json.len()
        invariant
            i <= json@.len(),
            data@ == header + json@.take(i as int),
        decreases json@.len() - i,
    {
        data.push(json[i]);
        i += 1;
        assert(data@ == header + json@.take(i as int));
    }
    assert(json@.take(json@.len() as int) == json@);
    data
}

} // verus!
