//! Data of the 3D scene: the id-keyed store of entities and the inputs of
//! the two camera controllers.
pub mod types;
pub mod scene_3d;

pub use self::scene_3d::{
    frame_event, EntityId, MeshIndex, SceneControllerSelected, SceneEvent, SceneInputs, SceneStep,
    SkeletonIndex, WindowSize,
};
pub use self::types::DataMap;
