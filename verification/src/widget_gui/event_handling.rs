use vstd::prelude::*;
use crate::widget_gui::{
    behaves_after, hit, lemma_behaves_after_then, BoxContraint, Geometry, Id, LayoutAttributes,
    Pixel, Position, Stimulus, UiState, Widget, WidgetInput, WidgetLayout, WidgetOutput, AnyWidget,
};

verus! {

/// The window events the widget GUI reacts to.
#[derive(Debug, Clone, Copy, PartialEq, Eq, Structural)]
pub enum Event {
    MouseButtonUp { x: Pixel, y: Pixel },
    MouseButtonDown { x: Pixel, y: Pixel },
    MouseMotion { x: Pixel, y: Pixel, xrel: Pixel },
    /// Text input.
    TextInput,
    /// Any other event.
    Other,
}

/// The widget a mouse event at `pos` goes to: the one holding the mouse,
/// else the deepest widget under `pos`.
pub open spec fn spec_dispatched_widget_id<P>(state: &UiState<P>, pos: Position) -> Option<Id> {
    if state.spec_active() is Some {
        state.spec_active()
    } else {
        hit(state.spec_geom(), pos, state.spec_geom().len() as int)
    }
}

/// The widget holding the mouse after `event`: a press on a widget makes
/// it hold the mouse, a release on a widget frees the mouse.
pub open spec fn next_active<P>(state: &UiState<P>, event: Event) -> Option<Id> {
    match event {
        Event::MouseButtonUp { x, y } => if spec_dispatched_widget_id(state, Position { x, y }) is Some {
            None
        } else {
            state.spec_active()
        },
        Event::MouseButtonDown { x, y } => if spec_dispatched_widget_id(
            state,
            Position { x, y },
        ) is Some {
            spec_dispatched_widget_id(state, Position { x, y })
        } else {
            state.spec_active()
        },
        _ => state.spec_active(),
    }
}

/// The widget that `event` is handed to: for a mouse event, the one
/// holding the mouse or else the deepest under the pointer; none for
/// other events.
pub open spec fn dispatch_target<P>(state: &UiState<P>, event: Event) -> Option<Id> {
    match event {
        Event::MouseButtonUp { x, y } => spec_dispatched_widget_id(state, Position { x, y }),
        Event::MouseButtonDown { x, y } => spec_dispatched_widget_id(state, Position { x, y }),
        Event::MouseMotion { x, y, .. } => spec_dispatched_widget_id(state, Position { x, y }),
        _ => None,
    }
}

/// Hands a mouse event to the widget that holds the mouse or, when none
/// does, to the deepest widget under the pointer, with that widget's
/// geometry and id; a press makes that widget hold the mouse, a release
/// lets it go. Text and other events are ignored.
pub fn dispatch_event<P>(state: &mut UiState<P>, event: &Event)
    requires
        old(state).wf(),
    ensures
        final(state).wf(),
        final(state).same_tree(old(state)),
        final(state).spec_geom() == old(state).spec_geom(),
        final(state).spec_inputs() == old(state).spec_inputs(),
        final(state).spec_widgets().len() == old(state).spec_widgets().len(),
        final(state).spec_active() == next_active(old(state), *event),
        !(event is MouseButtonUp || event is MouseButtonDown || event is MouseMotion) ==> *final(state)
            == *old(state),
        forall|k: Id|
            k < old(state).spec_len() && dispatch_target(old(state), *event) != Some(k)
                ==> #[trigger] final(state).spec_widgets()[k as int] == old(state).spec_widgets()[k as int],
        dispatch_target(old(state), *event) is None ==> final(state).spec_outputs() == old(
            state,
        ).spec_outputs(),
        dispatch_target(old(state), *event) matches Some(id) ==> handed_event(
            old(state),
            final(state),
            id,
            *event,
        ),
{
    match event {
        Event::MouseButtonUp { x, y } => {
            let pos = Position { x: *x, y: *y };
            if let Some(id) = dispatched_widget_id(state, pos) {
                widget_handle_event(id, state, event);
                state.active_widget = None;
            }
        },
        Event::MouseButtonDown { x, y } => {
            let pos = Position { x: *x, y: *y };
            if let Some(id) = dispatched_widget_id(state, pos) {
                widget_handle_event(id, state, event);
                state.active_widget = Some(id);
            }
        },
        Event::MouseMotion { x, y, .. } => {
            let pos = Position { x: *x, y: *y };
            if let Some(id) = dispatched_widget_id(state, pos) {
                widget_handle_event(id, state, event);
            }
        },
        _ => {},
    }
}

/// Widget `id` of `before` took `event`, with its geometry and id: what it
/// sent follows the outputs there were, and it behaves in `after` as it
/// would once it has taken the event.
pub open spec fn handed_event<P>(before: &UiState<P>, after: &UiState<P>, id: Id, event: Event) -> bool {
    let s = Stimulus::Event(event, before.spec_geom()[id as int], id);
    let n = before.spec_outputs().len() as int;
    &&& id < before.spec_len()
    &&& after.spec_outputs().len() >= n
    &&& after.spec_outputs().take(n) == before.spec_outputs()
    &&& before.spec_widgets()[id as int].spec_sends(Seq::empty(), s, after.spec_outputs().skip(n))
    &&& behaves_after(after.spec_widgets(), before.spec_widgets(), id as int, seq![s])
}

/// The values among `q` that go to widget `k`, oldest first, as stimuli.
pub open spec fn inputs_to<P>(k: int, q: Seq<WidgetInput<P>>) -> Seq<Stimulus<P>>
    decreases q.len(),
{
    if q.len() == 0 {
        Seq::empty()
    } else {
        let prev = inputs_to(k, q.drop_last());
        if q.last().widget_id == k {
            prev.push(Stimulus::Input(q.last().input))
        } else {
            prev
        }
    }
}

/// Widget `k` of `before` took, in order, the values among `q` that go
/// to it: it is untouched in `after` when there are none, else it
/// behaves there as it would once it has taken them.
pub open spec fn took_inputs<P>(
    before: Seq<AnyWidget<P>>,
    after: Seq<AnyWidget<P>>,
    k: int,
    q: Seq<WidgetInput<P>>,
) -> bool {
    if inputs_to(k, q).len() == 0 {
        after[k] == before[k]
    } else {
        behaves_after(after, before, k, inputs_to(k, q))
    }
}

/// The widget a mouse event at `pos` goes to.
fn dispatched_widget_id<P>(state: &UiState<P>, pos: Position) -> (r: Option<Id>)
    requires
        state.wf(),
    ensures
        r == spec_dispatched_widget_id(state, pos),
        r matches Some(id) ==> id < state.spec_len(),
{
    if let Some(id) = state.active_widget {
        return Some(id);
    }
    if let Some(id) = state.get_widget(pos) {
        return Some(id);
    }
    None
}

impl<P> UiState<P> {
    /// Hands every queued input to its widget, oldest first, and empties
    /// the queue: each widget behaves as it would once it has taken, in
    /// order, the values that went to it.
    pub fn dispatch_widget_inputs(&mut self)
        requires
            old(self).wf(),
            forall|k: int|
                0 <= k < old(self).spec_inputs().len() ==> #[trigger] old(self).spec_inputs()[k].widget_id
                    < old(self).spec_len(),
        ensures
            final(self).wf(),
            final(self).same_tree(old(self)),
            final(self).spec_geom() == old(self).spec_geom(),
            final(self).spec_active() == old(self).spec_active(),
            final(self).spec_outputs() == old(self).spec_outputs(),
            final(self).spec_inputs().len() == 0,
            final(self).spec_widgets().len() == old(self).spec_widgets().len(),
            forall|k: int|
                0 <= k < old(self).spec_len() ==> #[trigger] took_inputs(
                    old(self).spec_widgets(),
                    final(self).spec_widgets(),
                    k,
                    old(self).spec_inputs(),
                ),
    {
        dispatch_widget_inputs(self);
    }
}

/// Hands every queued input to its widget, oldest first, and empties the
/// queue: each widget behaves as it would once it has taken, in order, the
/// values that went to it.
pub fn dispatch_widget_inputs<P>(state: &mut UiState<P>)
    requires
        old(state).wf(),
        forall|k: int|
            0 <= k < old(state).spec_inputs().len() ==> #[trigger] old(state).spec_inputs()[k].widget_id
                < old(state).spec_len(),
    ensures
        final(state).wf(),
        final(state).same_tree(old(state)),
        final(state).spec_geom() == old(state).spec_geom(),
        final(state).spec_active() == old(state).spec_active(),
        final(state).spec_outputs() == old(state).spec_outputs(),
        final(state).spec_inputs().len() == 0,
        final(state).spec_widgets().len() == old(state).spec_widgets().len(),
        forall|k: int|
            0 <= k < old(state).spec_len() ==> #[trigger] took_inputs(
                old(state).spec_widgets(),
                final(state).spec_widgets(),
                k,
                old(state).spec_inputs(),
            ),
{
    let ghost mut consumed: int = 0;
    proof {
        assert(old(state).spec_inputs().skip(0) =~= old(state).spec_inputs());
        assert forall|k: int| 0 <= k < old(state).spec_len() implies #[trigger] took_inputs(
            old(state).spec_widgets(),
            state.spec_widgets(),
            k,
            old(state).spec_inputs().take(0),
        ) by {
            assert(old(state).spec_inputs().take(0).len() == 0);
        }
    }
    while state.widget_input_queue.0.len() > 0
        invariant
            state.wf(),
            state.same_tree(old(state)),
            state.spec_geom() == old(state).spec_geom(),
            state.spec_active() == old(state).spec_active(),
            state.spec_outputs() == old(state).spec_outputs(),
            state.spec_widgets().len() == old(state).spec_widgets().len(),
            forall|k: int|
                0 <= k < state.spec_inputs().len() ==> #[trigger] state.spec_inputs()[k].widget_id
                    < state.spec_len(),
            0 <= consumed <= old(state).spec_inputs().len(),
            state.spec_inputs() == old(state).spec_inputs().skip(consumed),
            forall|k: int|
                0 <= k < old(state).spec_len() ==> #[trigger] took_inputs(
                    old(state).spec_widgets(),
                    state.spec_widgets(),
                    k,
                    old(state).spec_inputs().take(consumed),
                ),
        decreases state.spec_inputs().len(),
    {
        let ghost q0 = state.widget_input_queue.0@;
        let ghost w_before = state.spec_widgets();
        let ghost pre = old(state).spec_inputs().take(consumed);
        let wi = state.widget_input_queue.0.pop_front();
        proof {
            assert forall|k: int| 0 <= k < state.spec_inputs().len() implies #[trigger] state.spec_inputs()[k].widget_id
                < state.spec_len() by {
                assert(state.spec_inputs()[k] == q0[k + 1]);
            }
            assert(state.spec_inputs() =~= old(state).spec_inputs().skip(consumed + 1));
        }
        match wi {
            Some(wi) => {
                let ghost target = wi.widget_id as int;
                let ghost s = Stimulus::Input(wi.input);
                let ghost pre2 = old(state).spec_inputs().take(consumed + 1);
                proof {
                    assert(q0[0] == old(state).spec_inputs()[consumed]);
                    assert(pre2.drop_last() =~= pre);
                    assert(pre2.last() == wi);
                    consumed = consumed + 1;
                }
                state.push_input_to_widget(wi);
                proof {
                    assert forall|k: int| 0 <= k < old(state).spec_len() implies #[trigger] took_inputs(
                        old(state).spec_widgets(),
                        state.spec_widgets(),
                        k,
                        pre2,
                    ) by {
                        assert(took_inputs(old(state).spec_widgets(), w_before, k, pre));
                        if k == target {
                            assert(inputs_to(k, pre2) == inputs_to(k, pre).push(s));
                            if inputs_to(k, pre).len() == 0 {
                                assert(inputs_to(k, pre2) =~= seq![s]);
                            } else {
                                lemma_behaves_after_then(
                                    state.spec_widgets(),
                                    w_before,
                                    old(state).spec_widgets(),
                                    k,
                                    inputs_to(k, pre),
                                    seq![s],
                                );
                                assert(inputs_to(k, pre) + seq![s] =~= inputs_to(k, pre2));
                            }
                        } else {
                            assert(inputs_to(k, pre2) == inputs_to(k, pre));
                            assert(state.spec_widgets()[k] == w_before[k]);
                        }
                    }
                }
            },
            None => {},
        }
    }
    proof {
        assert(old(state).spec_inputs().take(consumed) =~= old(state).spec_inputs());
    }
}

/// Hands `event` to widget `id`, with its geometry and id and the output
/// queue.
fn widget_handle_event<P>(id: Id, state: &mut UiState<P>, event: &Event)
    requires
        old(state).wf(),
        id < old(state).spec_len(),
    ensures
        final(state).wf(),
        final(state).same_tree(old(state)),
        final(state).spec_geom() == old(state).spec_geom(),
        final(state).spec_inputs() == old(state).spec_inputs(),
        final(state).spec_active() == old(state).spec_active(),
        final(state).spec_widgets().len() == old(state).spec_widgets().len(),
        forall|k: int|
            0 <= k < old(state).spec_len() && k != id ==> #[trigger] final(state).spec_widgets()[k]
                == old(state).spec_widgets()[k],
        handed_event(old(state), final(state), id, *event),
{
    let ghost w0 = state.widgets@;
    proof {
        state.lemma_fields();
    }
    let ghost s = Stimulus::Event(*event, state.spec_geom()[id as int], id);
    let widget = &mut state.widgets[id];
    widget.handle_sdl_event(event, &state.geom[id], id, &mut state.widget_output_queue);
    proof {
        vstd::seq::axiom_seq_update_len(w0, id as int, state.widgets@[id as int]);
        state.lemma_fields();
        assert forall|k: int| 0 <= k < old(state).spec_len() && k != id implies #[trigger] state.spec_widgets()[k]
            == old(state).spec_widgets()[k] by {
            vstd::seq::axiom_seq_update_different(w0, id as int, k, state.widgets@[id as int]);
        }
        let after = state.widgets@;
        let i = id as int;
        assert forall|b: BoxContraint, c: Seq<Id>, g: Seq<Option<Geometry>>, a: Seq<LayoutAttributes>|
            #[trigger] after[i].spec_layout(b, c, g, a) == w0[i].spec_layout_after(seq![s], b, c, g, a) by {
        }
        assert forall|h2: Seq<Stimulus<P>>, b: BoxContraint, c: Seq<Id>, g: Seq<Option<Geometry>>, a: Seq<LayoutAttributes>|
            #[trigger] after[i].spec_layout_after(h2, b, c, g, a) == w0[i].spec_layout_after(seq![s] + h2, b, c, g, a) by {
        }
        assert forall|h2: Seq<Stimulus<P>>, t: Stimulus<P>, out: Seq<WidgetOutput<P>>|
            #[trigger] after[i].spec_sends(h2, t, out) == w0[i].spec_sends(seq![s] + h2, t, out) by {
        }
    }
}

/// A press on a widget makes it hold the mouse: every later mouse event,
/// wherever it happens, goes to that widget, and a release lets the
/// mouse go again.
pub proof fn law_press_holds_mouse<P>(
    before: &UiState<P>,
    after: &UiState<P>,
    x: Pixel,
    y: Pixel,
    w: Id,
    later: Event,
)
    requires
        spec_dispatched_widget_id(before, Position { x, y }) == Some(w),
        after.spec_active() == next_active(before, Event::MouseButtonDown { x, y }),
        later is MouseButtonUp || later is MouseButtonDown || later is MouseMotion,
    ensures
        after.spec_active() == Some(w),
        dispatch_target(after, later) == Some(w),
        later is MouseButtonUp ==> next_active(after, later) is None,
        later is MouseMotion ==> next_active(after, later) == Some(w),
{
}

} // verus!
