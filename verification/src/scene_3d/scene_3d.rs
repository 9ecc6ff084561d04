use vstd::prelude::*;

verus! {

/// Id of an entity of the scene.
pub type EntityId = usize;

/// Index of a mesh of the scene.
pub type MeshIndex = usize;

/// Index of a skeleton of the scene.
pub type SkeletonIndex = usize;

/// Which camera controller receives the inputs.
#[derive(Debug, Clone, Copy, PartialEq, Eq, Structural)]
pub enum SceneControllerSelected {
    Free,
    Follow,
}

/// The inputs of the free camera and of the follow camera, and which of
/// the two is in use.
pub struct SceneInputs<I> {
    pub free: I,
    pub follow: I,
    pub selected: SceneControllerSelected,
}

impl<I> SceneInputs<I> {
    /// The inputs of the controller in use, to change.
    pub fn current_mut(&mut self) -> (r: &mut I)
        ensures
            old(self).selected == SceneControllerSelected::Free ==> {
                &&& *r == old(self).free
                &&& final(self).free == *final(r)
                &&& final(self).follow == old(self).follow
            },
            old(self).selected == SceneControllerSelected::Follow ==> {
                &&& *r == old(self).follow
                &&& final(self).follow == *final(r)
                &&& final(self).free == old(self).free
            },
            final(self).selected == old(self).selected,
    {
        match self.selected {
            SceneControllerSelected::Free => &mut self.free,
            SceneControllerSelected::Follow => &mut self.follow,
        }
    }

    /// The inputs of the controller in use.
    pub fn current(&self) -> (r: &I)
        ensures
            self.selected == SceneControllerSelected::Free ==> *r == self.free,
            self.selected == SceneControllerSelected::Follow ==> *r == self.follow,
    {
        match self.selected {
            SceneControllerSelected::Free => &self.free,
            SceneControllerSelected::Follow => &self.follow,
        }
    }
}

/// The window events that the scene itself reacts to at the start of a
/// frame: the escape key, the tab key, a new window size, and any other
/// event.
#[derive(Debug, Clone, Copy, PartialEq, Eq, Structural)]
pub enum SceneEvent {
    Escape,
    Tab,
    Resized(i32, i32),
    Other,
}

/// What the scene does with one event: whether the event goes on to the
/// camera inputs, the UI mode and the controller in use afterwards, and
/// the new window size, if any. Leaving or entering UI mode also shows or
/// hides the cursor and switches relative mouse mode.
#[derive(Debug, Clone, Copy, PartialEq, Eq, Structural)]
pub struct SceneStep {
    pub forward_to_inputs: bool,
    pub ui_mode: bool,
    pub selected: SceneControllerSelected,
    pub resize: Option<WindowSize>,
}

/// A window size in pixels.
#[derive(Debug, Clone, Copy, PartialEq, Eq, Structural)]
pub struct WindowSize {
    pub w: i32,
    pub h: i32,
}

/// The other controller.
pub open spec fn other_controller(s: SceneControllerSelected) -> SceneControllerSelected {
    match s {
        SceneControllerSelected::Free => SceneControllerSelected::Follow,
        SceneControllerSelected::Follow => SceneControllerSelected::Free,
    }
}

/// One event of the frame: outside UI mode every event goes on to the
/// camera inputs; escape turns UI mode on or off; tab switches between
/// the free and the follow controller; a resize gives the new size.
pub open spec fn scene_step(ui_mode: bool, selected: SceneControllerSelected, event: SceneEvent) -> SceneStep {
    SceneStep {
        forward_to_inputs: !ui_mode,
        ui_mode: if event is Escape {
            !ui_mode
        } else {
            ui_mode
        },
        selected: if event is Tab {
            other_controller(selected)
        } else {
            selected
        },
        resize: match event {
            SceneEvent::Resized(w, h) => Some(WindowSize { w, h }),
            _ => None,
        },
    }
}

/// Decides what the scene does with one event of the frame; see
/// `scene_step`.
pub fn frame_event(ui_mode: bool, selected: SceneControllerSelected, event: SceneEvent) -> (r: SceneStep)
    ensures
        r == scene_step(ui_mode, selected, event),
{
    let forward_to_inputs = !ui_mode;
    let mut step = SceneStep { forward_to_inputs, ui_mode, selected, resize: None };
    match event {
        SceneEvent::Escape => {
            step.ui_mode = !ui_mode;
        },
        SceneEvent::Tab => {
            step.selected =
                match selected {
                    SceneControllerSelected::Free => SceneControllerSelected::Follow,
                    SceneControllerSelected::Follow => SceneControllerSelected::Free,
                };
        },
        SceneEvent::Resized(w, h) => {
            step.resize = Some(WindowSize { w, h });
        },
        SceneEvent::Other => {},
    }
    step
}

/// A resize gives the new window size in UI mode and out of it, with
/// either controller, and changes neither the mode nor the controller.
pub proof fn law_resize_in_any_mode(ui_mode: bool, selected: SceneControllerSelected, w: i32, h: i32)
    ensures
        scene_step(ui_mode, selected, SceneEvent::Resized(w, h)).resize == Some(WindowSize { w, h }),
        scene_step(ui_mode, selected, SceneEvent::Resized(w, h)).ui_mode == ui_mode,
        scene_step(ui_mode, selected, SceneEvent::Resized(w, h)).selected == selected,
{
}

/// The UI mode only decides whether an event goes on to the camera
/// inputs: what else the event does is the same in both modes.
pub proof fn law_mode_only_gates_inputs(selected: SceneControllerSelected, event: SceneEvent)
    ensures
        scene_step(true, selected, event).resize == scene_step(false, selected, event).resize,
        scene_step(true, selected, event).selected == scene_step(false, selected, event).selected,
        !scene_step(true, selected, event).forward_to_inputs,
        scene_step(false, selected, event).forward_to_inputs,
{
}

/// Escape and nothing else turns UI mode on or off; tab and nothing else
/// switches to the other controller; only a resize gives a new size;
/// events go on to the camera inputs exactly outside UI mode.
pub proof fn law_what_each_event_changes(ui_mode: bool, selected: SceneControllerSelected, event: SceneEvent)
    ensures
        scene_step(ui_mode, selected, event).ui_mode == (ui_mode != (event is Escape)),
        event is Tab ==> scene_step(ui_mode, selected, event).selected != selected,
        !(event is Tab) ==> scene_step(ui_mode, selected, event).selected == selected,
        !(event is Resized) ==> scene_step(ui_mode, selected, event).resize is None,
        scene_step(ui_mode, selected, event).forward_to_inputs == !ui_mode,
{
}

/// Escape twice, or tab twice, brings the scene back where it was.
pub proof fn law_toggles_undo(ui_mode: bool, selected: SceneControllerSelected)
    ensures
        ({
            let once = scene_step(ui_mode, selected, SceneEvent::Escape);
            scene_step(once.ui_mode, once.selected, SceneEvent::Escape).ui_mode == ui_mode
        }),
        ({
            let once = scene_step(ui_mode, selected, SceneEvent::Tab);
            scene_step(once.ui_mode, once.selected, SceneEvent::Tab).selected == selected
        }),
{
}

} // verus!
