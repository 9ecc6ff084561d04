use vstd::prelude::*;
use crate::widget_gui::{
    BoxContraint, Geometry, Id, LayoutAttributes, LayoutContext, LayoutResult, Pixel, Size, Stimulus,
    Widget, WidgetLayout, WidgetOutput, WidgetOutputQueue,
};
use crate::widget_gui::event_handling::Event;
use crate::widget_gui::widgets::first_from;

verus! {

/// A line of text; it takes at most 100 by 30 pixels.
#[derive(Debug, Clone)]
pub struct TextWidget {
    pub text: String,
}

/// The size of a text widget within `bc`.
pub open spec fn text_size(bc: BoxContraint) -> Size {
    Size {
        pixel_w: if bc.max_w <= 100 { bc.max_w } else { 100 },
        pixel_h: if 30 <= bc.max_h { 30 } else { bc.max_h },
    }
}

impl WidgetLayout for TextWidget {
    open spec fn spec_layout(
        &self,
        bc: BoxContraint,
        children: Seq<Id>,
        geom: Seq<Option<Geometry>>,
        attrs: Seq<LayoutAttributes>,
    ) -> (LayoutResult, Seq<Option<Geometry>>) {
        (LayoutResult::Size(text_size(bc)), geom)
    }

    fn layout(&mut self, bc: &BoxContraint, _children: &[Id], _ctx: &mut LayoutContext)
        -> (res: LayoutResult)
        ensures
            res == LayoutResult::Size(text_size(*bc)),
            *final(_ctx) == *old(_ctx),
    {
        let pixel_w: Pixel = if bc.max_w <= 100 { bc.max_w } else { 100 };
        let pixel_h: Pixel = if 30 <= bc.max_h { 30 } else { bc.max_h };
        LayoutResult::Size(Size { pixel_w, pixel_h })
    }
}

/// A widget as large as all its children together, in both directions.
pub struct ContainerWidget {}

/// The sum of the sizes of the children, width and height apart.
pub open spec fn sum_sizes(children: Seq<Id>, geom: Seq<Option<Geometry>>) -> Size
    decreases children.len(),
{
    if children.len() == 0 {
        Size { pixel_w: 0, pixel_h: 0 }
    } else {
        let prev = sum_sizes(children.drop_last(), geom);
        let s = geom[children.last() as int]->0.size;
        Size { pixel_w: prev.pixel_w.wrapping_add(s.pixel_w), pixel_h: prev.pixel_h.wrapping_add(s.pixel_h) }
    }
}

/// A child not laid out yet.
pub open spec fn missing(geom: Seq<Option<Geometry>>) -> spec_fn(Id) -> bool {
    |c: Id| geom[c as int] is None
}

impl WidgetLayout for ContainerWidget {
    /// The first child not laid out is asked for within `bc`; once all are
    /// laid out, the sum of their sizes.
    open spec fn spec_layout(
        &self,
        bc: BoxContraint,
        children: Seq<Id>,
        geom: Seq<Option<Geometry>>,
        attrs: Seq<LayoutAttributes>,
    ) -> (LayoutResult, Seq<Option<Geometry>>) {
        match first_from(children, 0, missing(geom)) {
            Some(c) => (LayoutResult::RequestChild(c, bc), geom),
            None => (LayoutResult::Size(sum_sizes(children, geom)), geom),
        }
    }

    fn layout(&mut self, bc: &BoxContraint, children: &[Id], ctx: &mut LayoutContext)
        -> (res: LayoutResult)
        ensures
            *final(ctx) == *old(ctx),
    {
        // get size for all children, if any is missing return request for child to be calculated
        let ghost p = missing(ctx.layout_geom@);
        let mut i: usize = 0;
        while i < children.len()
            invariant
                i <= children.len(),
                ctx.wf_for(children@),
                p == missing(ctx.layout_geom@),
                first_from(children@, 0, p) == first_from(children@, i as int, p),
                forall|j: int| 0 <= j < i ==> #[trigger] ctx.layout_geom[children[j] as int] is Some,
            decreases children.len() - i,
        {
            let child_id = children[i];
            if ctx.layout_geom[child_id].is_none() {
                proof {
                    assert(children@.contains(child_id));
                    assert(p(children@[i as int]));
                }
                return LayoutResult::RequestChild(child_id, *bc);
            }
            i = i + 1;
        }
        proof {
            assert(first_from(children@, children.len() as int, p) is None);
        }
        let mut size = Size { pixel_w: 0, pixel_h: 0 };
        let mut k: usize = 0;
        proof {
            assert(children@.take(0) =~= Seq::<Id>::empty());
        }
        while k < children.len()
            invariant
                k <= children.len(),
                ctx.wf_for(children@),
                forall|j: int| 0 <= j < children.len() ==> #[trigger] ctx.layout_geom[children[j] as int] is Some,
                size == sum_sizes(children@.take(k as int), ctx.layout_geom@),
            decreases children.len() - k,
        {
            proof {
                assert(children@.take(k + 1).drop_last() =~= children@.take(k as int));
            }
            let child = ctx.layout_geom[children[k]].unwrap();
            size.pixel_w = size.pixel_w.wrapping_add(child.size.pixel_w);
            size.pixel_h = size.pixel_h.wrapping_add(child.size.pixel_h);
            k = k + 1;
        }
        proof {
            assert(children@.take(children.len() as int) =~= children@);
        }
        LayoutResult::Size(size)
    }
}

impl<P> Widget<P> for TextWidget {
    /// A text widget lays itself out the same whatever it takes, and sends nothing.
    open spec fn spec_layout_after(
        &self,
        h: Seq<Stimulus<P>>,
        bc: BoxContraint,
        children: Seq<Id>,
        geom: Seq<Option<Geometry>>,
        attrs: Seq<LayoutAttributes>,
    ) -> (LayoutResult, Seq<Option<Geometry>>) {
        self.spec_layout(bc, children, geom, attrs)
    }

    open spec fn spec_sends(&self, h: Seq<Stimulus<P>>, s: Stimulus<P>, out: Seq<WidgetOutput<P>>) -> bool {
        out.len() == 0
    }

    fn handle_widget_input(&mut self, _input: P) {
    }

    fn handle_sdl_event(
        &mut self,
        _event: &Event,
        _geom: &Geometry,
        _self_id: Id,
        _queue: &mut WidgetOutputQueue<P>,
    ) {
    }
}

impl<P> Widget<P> for ContainerWidget {
    /// A container lays itself out the same whatever it takes, and sends nothing.
    open spec fn spec_layout_after(
        &self,
        h: Seq<Stimulus<P>>,
        bc: BoxContraint,
        children: Seq<Id>,
        geom: Seq<Option<Geometry>>,
        attrs: Seq<LayoutAttributes>,
    ) -> (LayoutResult, Seq<Option<Geometry>>) {
        self.spec_layout(bc, children, geom, attrs)
    }

    open spec fn spec_sends(&self, h: Seq<Stimulus<P>>, s: Stimulus<P>, out: Seq<WidgetOutput<P>>) -> bool {
        out.len() == 0
    }

    fn handle_widget_input(&mut self, _input: P) {
    }

    fn handle_sdl_event(
        &mut self,
        _event: &Event,
        _geom: &Geometry,
        _self_id: Id,
        _queue: &mut WidgetOutputQueue<P>,
    ) {
    }
}

} // verus!
