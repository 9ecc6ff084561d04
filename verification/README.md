# gl_lib

The decision-making core of a small OpenGL/SDL game and GUI toolkit,
written in Verus and proved against its contracts.

- `src/widget_gui`: the widget GUI. A tree of widgets with layout
  attributes; the layout pass (rows, columns, flexible children,
  alignment), hit testing, routing of mouse events to widgets and the
  queues of values to and from widgets. Each widget states, in its trait
  impl, how it lays itself out and what it sends after any sequence of
  values and events it has taken; the GUI's contracts say which widget
  gets what, in which order, and what that does to it. The library's own
  layout widgets are held by kind (`AnyWidget`), any other widget behind
  a box.
- `src/text_rendering`: the reader of AngelCode `.fnt` font descriptions
  (`parse_fnt`, `read_fnt`) with the text helpers it rests on, and the
  alignment settings of rendered text.
- `src/scene_3d`: the id-keyed data store of the 3D scene, the inputs of
  its two camera controllers and what the scene does with window events.
- `src/sdl_gui`: how the component GUI routes window events to its
  components and edits the text of a text box.
- `app/`: what the library leaves to the outside world: reading font
  files and images, turning SDL events into the library's events, and
  the windows of the widget GUI with their handler functions.

The tests under `tests/` run the library on concrete values.
