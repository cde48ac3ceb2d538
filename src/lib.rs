//! Resolution of hierarchical brick models: color inheritance, the scene
//! tree, instanced placements, the set of unique geometries to build, and
//! the faces and edges of each geometry.

pub mod color;
pub mod geometry;
pub mod instanced;
pub mod model;
pub mod scene;
pub mod settings;

pub use color::{replace_color, ColorCode, CURRENT_COLOR};
pub use geometry::{build_geometry, face_layout, ElementKind, MeshElement};
pub use instanced::{
    group_instances, load_instances, GeometryInstance, InstanceGroup, LDrawSceneInstanced,
};
pub use model::{has_geometry, is_part, Command, FileTable, SourceFile, SubFileRef};
pub use scene::{load_scene, GeometryDescriptors, GeometryInitDescriptor, LDrawNode, LDrawScene};
pub use settings::{
    search_dirs, stud_files, GeometrySettings, PrimitiveResolution, SearchDir, StudType,
};
