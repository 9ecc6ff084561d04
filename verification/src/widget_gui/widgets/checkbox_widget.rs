use vstd::prelude::*;
use crate::widget_gui::{
    BoxContraint, Geometry, Id, LayoutAttributes, LayoutContext, LayoutResult, Pixel, Size, Stimulus,
    Widget, WidgetLayout, WidgetOutput, WidgetOutputQueue,
};
use crate::widget_gui::event_handling::Event;
use vstd::std_specs::convert::FromSpec;

verus! {

/// A box that is checked or not; each click toggles it.
#[derive(Debug, Clone, Copy)]
pub struct CheckboxWidget {
    checked: bool,
}

impl CheckboxWidget {
    pub closed spec fn is_checked(&self) -> bool {
        self.checked
    }

    pub fn new(checked: bool) -> (r: Self)
        ensures
            r.is_checked() == checked,
    {
        Self { checked }
    }
}

/// The side of the checkbox square within `bc`: 30, or less when `bc`
/// is narrower or lower.
pub open spec fn checkbox_side(bc: BoxContraint) -> Pixel {
    let m = if bc.max_w <= bc.max_h { bc.max_w } else { bc.max_h };
    if 30 <= m { 30 } else { m }
}

impl WidgetLayout for CheckboxWidget {
    open spec fn spec_layout(
        &self,
        bc: BoxContraint,
        children: Seq<Id>,
        geom: Seq<Option<Geometry>>,
        attrs: Seq<LayoutAttributes>,
    ) -> (LayoutResult, Seq<Option<Geometry>>) {
        (LayoutResult::Size(Size { pixel_w: checkbox_side(bc), pixel_h: checkbox_side(bc) }), geom)
    }

    /// A square of side `checkbox_side(bc)`.
    fn layout(&mut self, bc: &BoxContraint, _children: &[Id], _ctx: &mut LayoutContext)
        -> (res: LayoutResult)
        ensures
            res == LayoutResult::Size(Size { pixel_w: checkbox_side(*bc), pixel_h: checkbox_side(*bc) }),
            *final(_ctx) == *old(_ctx),
            *final(self) == *old(self),
    {
        let m: Pixel = if bc.max_w <= bc.max_h { bc.max_w } else { bc.max_h };
        let s: Pixel = if 30 <= m { 30 } else { m };
        LayoutResult::Size(Size { pixel_w: s, pixel_h: s })
    }
}

/// Whether a checkbox that is `c` is checked after taking `s`: a release
/// of the mouse button toggles it.
pub open spec fn toggled<P>(c: bool, s: Stimulus<P>) -> bool {
    match s {
        Stimulus::Event(e, _, _) => if e is MouseButtonUp {
            !c
        } else {
            c
        },
        Stimulus::Input(_) => c,
    }
}

/// Whether a checkbox that is `c` is checked after taking the stimuli `h`,
/// oldest first.
pub open spec fn checked_after<P>(c: bool, h: Seq<Stimulus<P>>) -> bool
    decreases h.len(),
{
    if h.len() == 0 {
        c
    } else {
        checked_after(toggled(c, h[0]), h.drop_first())
    }
}

proof fn lemma_checked_after_first<P>(c: bool, s: Stimulus<P>, h: Seq<Stimulus<P>>)
    ensures
        checked_after(c, seq![s] + h) == checked_after(toggled(c, s), h),
{
    assert((seq![s] + h).drop_first() =~= h);
}

proof fn lemma_checked_after_concat<P>(c: bool, h1: Seq<Stimulus<P>>, h2: Seq<Stimulus<P>>)
    ensures
        checked_after(checked_after(c, h1), h2) == checked_after(c, h1 + h2),
    decreases h1.len(),
{
    if h1.len() > 0 {
        lemma_checked_after_concat(toggled(c, h1[0]), h1.drop_first(), h2);
        assert((h1 + h2).drop_first() =~= h1.drop_first() + h2);
    } else {
        assert(h1 + h2 =~= h2);
    }
}

impl<P: From<bool>> Widget<P> for CheckboxWidget {
    /// A checkbox lays itself out the same whatever it takes.
    open spec fn spec_layout_after(
        &self,
        h: Seq<Stimulus<P>>,
        bc: BoxContraint,
        children: Seq<Id>,
        geom: Seq<Option<Geometry>>,
        attrs: Seq<LayoutAttributes>,
    ) -> (LayoutResult, Seq<Option<Geometry>>) {
        self.spec_layout(bc, children, geom, attrs)
    }

    /// For a release of the mouse button, one output from its id: its new
    /// state, as `P::from` gives it; nothing for anything else.
    open spec fn spec_sends(&self, h: Seq<Stimulus<P>>, s: Stimulus<P>, out: Seq<WidgetOutput<P>>) -> bool {
        match s {
            Stimulus::Event(e, _, id) => if e is MouseButtonUp {
                &&& out.len() == 1
                &&& out[0].widget_id == id
                &&& P::obeys_from_spec() ==> out[0].event == P::from_spec(
                    !checked_after(self.is_checked(), h),
                )
            } else {
                out.len() == 0
            },
            Stimulus::Input(_) => out.len() == 0,
        }
    }

    /// Values sent to a checkbox change nothing.
    fn handle_widget_input(&mut self, input: P) {
        proof {
            assert forall|h2: Seq<Stimulus<P>>, t: Stimulus<P>, out: Seq<WidgetOutput<P>>|
                #[trigger] self.spec_sends(h2, t, out) == old(self).spec_sends(
                    seq![Stimulus::Input(input)] + h2,
                    t,
                    out,
                ) by {
                lemma_checked_after_first(self.checked, Stimulus::Input(input), h2);
            }
        }
    }

    /// A release of the mouse button toggles the box and sends its new state.
    fn handle_sdl_event(
        &mut self,
        event: &Event,
        geom: &Geometry,
        self_id: Id,
        queue: &mut WidgetOutputQueue<P>,
    )
        ensures
            event is MouseButtonUp ==> {
                &&& final(self).is_checked() == !old(self).is_checked()
                &&& final(queue)@.len() == old(queue)@.len() + 1
                &&& final(queue)@.drop_last() == old(queue)@
                &&& final(queue)@.last().widget_id == self_id
                &&& (P::obeys_from_spec() ==> final(queue)@.last().event == P::from_spec(
                    final(self).is_checked(),
                ))
            },
            !(event is MouseButtonUp) ==> *final(self) == *old(self) && final(queue)@ == old(queue)@,
    {
        let ghost s = Stimulus::<P>::Event(*event, *geom, self_id);
        match event {
            Event::MouseButtonUp { .. } => {
                self.checked = !self.checked;
                queue.push_back(WidgetOutput { widget_id: self_id, event: P::from(self.checked) });
            },
            _ => {},
        }
        proof {
            let n = old(queue)@.len() as int;
            assert(queue@.take(n) =~= old(queue)@);
            if event is MouseButtonUp {
                assert(queue@.skip(n) =~= seq![queue@.last()]);
            } else {
                assert(queue@.skip(n) =~= Seq::<WidgetOutput<P>>::empty());
            }
            assert forall|h2: Seq<Stimulus<P>>, t: Stimulus<P>, out: Seq<WidgetOutput<P>>|
                #[trigger] self.spec_sends(h2, t, out) == old(self).spec_sends(seq![s] + h2, t, out) by {
                lemma_checked_after_first(old(self).checked, s, h2);
            }
        }
    }
}

} // verus!
