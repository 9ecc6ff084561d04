use vstd::prelude::*;
use crate::widget_gui::{
    BoxContraint, FlexDir, Geometry, Id, LayoutAttributes, LayoutContext, LayoutResult, Stimulus,
    Widget, WidgetLayout, WidgetOutput, WidgetOutputQueue,
};
use crate::widget_gui::event_handling::Event;
use crate::widget_gui::widgets::{fill_column, fill_row, lemma_fill_is_widget_layout, spec_fill};

verus! {

/// Lays its children out side by side.
#[derive(Debug, Clone, Copy)]
pub struct RowWidget {}

impl WidgetLayout for RowWidget {
    open spec fn spec_layout(
        &self,
        bc: BoxContraint,
        children: Seq<Id>,
        geom: Seq<Option<Geometry>>,
        attrs: Seq<LayoutAttributes>,
    ) -> (LayoutResult, Seq<Option<Geometry>>) {
        spec_fill(bc, children, geom, attrs, FlexDir::X)
    }

    fn layout(&mut self, bc: &BoxContraint, children: &[Id], ctx: &mut LayoutContext)
        -> (res: LayoutResult)
        ensures
            (res, final(ctx).layout_geom@) == spec_fill(
                *bc,
                children@,
                old(ctx).layout_geom@,
                old(ctx).attributes@,
                FlexDir::X,
            ),
    {
        let r = fill_row(bc, children, ctx);
        proof {
            lemma_fill_is_widget_layout(*bc, children@, *old(ctx), *ctx, FlexDir::X, r);
        }
        r
    }
}

/// Lays its children out one below the other.
#[derive(Debug, Clone, Copy)]
pub struct ColumnWidget {}

impl WidgetLayout for ColumnWidget {
    open spec fn spec_layout(
        &self,
        bc: BoxContraint,
        children: Seq<Id>,
        geom: Seq<Option<Geometry>>,
        attrs: Seq<LayoutAttributes>,
    ) -> (LayoutResult, Seq<Option<Geometry>>) {
        spec_fill(bc, children, geom, attrs, FlexDir::Y)
    }

    fn layout(&mut self, bc: &BoxContraint, children: &[Id], ctx: &mut LayoutContext)
        -> (res: LayoutResult)
        ensures
            (res, final(ctx).layout_geom@) == spec_fill(
                *bc,
                children@,
                old(ctx).layout_geom@,
                old(ctx).attributes@,
                FlexDir::Y,
            ),
    {
        let r = fill_column(bc, children, ctx);
        proof {
            lemma_fill_is_widget_layout(*bc, children@, *old(ctx), *ctx, FlexDir::Y, r);
        }
        r
    }
}

impl<P> Widget<P> for RowWidget {
    /// A row lays itself out the same whatever it takes, and sends nothing.
    open spec fn spec_layout_after(
        &self,
        h: Seq<Stimulus<P>>,
        bc: BoxContraint,
        children: Seq<Id>,
        geom: Seq<Option<Geometry>>,
        attrs: Seq<LayoutAttributes>,
    ) -> (LayoutResult, Seq<Option<Geometry>>) {
        self.spec_layout(bc, children, geom, attrs)
    }

    open spec fn spec_sends(&self, h: Seq<Stimulus<P>>, s: Stimulus<P>, out: Seq<WidgetOutput<P>>) -> bool {
        out.len() == 0
    }

    fn handle_widget_input(&mut self, _input: P) {
    }

    fn handle_sdl_event(
        &mut self,
        _event: &Event,
        _geom: &Geometry,
        _self_id: Id,
        _queue: &mut WidgetOutputQueue<P>,
    ) {
    }
}

impl<P> Widget<P> for ColumnWidget {
    /// A column lays itself out the same whatever it takes, and sends nothing.
    open spec fn spec_layout_after(
        &self,
        h: Seq<Stimulus<P>>,
        bc: BoxContraint,
        children: Seq<Id>,
        geom: Seq<Option<Geometry>>,
        attrs: Seq<LayoutAttributes>,
    ) -> (LayoutResult, Seq<Option<Geometry>>) {
        self.spec_layout(bc, children, geom, attrs)
    }

    open spec fn spec_sends(&self, h: Seq<Stimulus<P>>, s: Stimulus<P>, out: Seq<WidgetOutput<P>>) -> bool {
        out.len() == 0
    }

    fn handle_widget_input(&mut self, _input: P) {
    }

    fn handle_sdl_event(
        &mut self,
        _event: &Event,
        _geom: &Geometry,
        _self_id: Id,
        _queue: &mut WidgetOutputQueue<P>,
    ) {
    }
}

} // verus!
