use vstd::prelude::*;
use std::collections::VecDeque;
use crate::widget_gui::event_handling::Event;
use crate::widget_gui::widgets::{CheckboxWidget, ColumnWidget, ContainerWidget, RowWidget, TextWidget};

pub mod layout;
pub mod widgets;
pub mod event_handling;

pub use self::layout::{Alignment, AlignmentX, AlignmentY, FlexInfo, LayoutResult, Size};

verus! {

/// Index of a widget in a `UiState`.
pub type Id = usize;

/// A length or coordinate in pixels.
pub type Pixel = i32;

/// How a widget's extent along one axis is decided.
#[derive(Debug, Clone, Copy, PartialEq, Eq, Structural)]
pub enum SizeConstraint {
    /// The widget's own layout decides.
    NoFlex,
    /// Exactly this many pixels.
    Fixed(Pixel),
    /// A share, weighted by the factor, of the space the siblings leave free.
    Flex(u8),
}

impl Default for SizeConstraint {
    fn default() -> (r: Self)
        ensures
            r == SizeConstraint::NoFlex,
    {
        SizeConstraint::NoFlex
    }
}

/// A point in window pixels, `y` growing downwards.
#[derive(Debug, Clone, Copy, PartialEq, Eq, Structural)]
pub struct Position {
    pub x: Pixel,
    pub y: Pixel,
}

impl Default for Position {
    fn default() -> (r: Self)
        ensures
            r.x == 0,
            r.y == 0,
    {
        Position { x: 0, y: 0 }
    }
}

/// Component-wise sum of two positions, wrapping on overflow.
pub open spec fn pos_add(a: Position, b: Position) -> Position {
    Position { x: a.x.wrapping_add(b.x), y: a.y.wrapping_add(b.y) }
}

impl Position {
    /// Moves the position by `val` along the given direction.
    pub fn add_by_flex(&mut self, val: Pixel, flex: FlexDir)
        ensures
            flex == FlexDir::X ==> final(self).x == old(self).x.wrapping_add(val) && final(self).y == old(self).y,
            flex == FlexDir::Y ==> final(self).y == old(self).y.wrapping_add(val) && final(self).x == old(self).x,
    {
        match flex {
            FlexDir::X => {
                self.x = self.x.wrapping_add(val);
            },
            FlexDir::Y => {
                self.y = self.y.wrapping_add(val);
            },
        }
    }

    /// Component-wise sum of two positions.
    pub fn add(self, rhs: Position) -> (r: Position)
        ensures
            r == pos_add(self, rhs),
    {
        Position { x: self.x.wrapping_add(rhs.x), y: self.y.wrapping_add(rhs.y) }
    }
}

/// Where a widget is and how large it is.
#[derive(Debug, Clone, Copy, PartialEq, Eq, Structural)]
pub struct Geometry {
    pub pos: Position,
    pub size: Size,
}

impl Default for Geometry {
    fn default() -> (r: Self)
        ensures
            r.pos.x == 0 && r.pos.y == 0,
            r.size.pixel_w == 0 && r.size.pixel_h == 0,
    {
        Geometry { pos: Position { x: 0, y: 0 }, size: Size { pixel_w: 0, pixel_h: 0 } }
    }
}

impl Geometry {
    /// The closed rectangle from `pos` to `pos + size` holds `p`.
    pub open spec fn spec_contains_position(&self, p: Position) -> bool {
        &&& p.x >= self.pos.x
        &&& p.x <= self.pos.x.wrapping_add(self.size.pixel_w)
        &&& p.y >= self.pos.y
        &&& p.y <= self.pos.y.wrapping_add(self.size.pixel_h)
    }

    /// Whether `pos` lies in this geometry, borders included.
    #[verifier::when_used_as_spec(spec_contains_position)]
    pub fn contains_position(&self, pos: Position) -> (r: bool)
        ensures
            r == self.spec_contains_position(pos),
    {
        pos.x >= self.pos.x && pos.x <= self.pos.x.wrapping_add(self.size.pixel_w) && pos.y
            >= self.pos.y && pos.y <= self.pos.y.wrapping_add(self.size.pixel_h)
    }
}

/// A geometry holds exactly the points of the closed rectangle it spans:
/// `x` from its left edge to the left edge plus its width, `y` from its
/// top edge to the top edge plus its height. Stated where the far edges
/// lie within the `i32` range.
pub proof fn law_contains_the_closed_rectangle(g: Geometry, p: Position)
    requires
        i32::MIN <= g.pos.x + g.size.pixel_w <= i32::MAX,
        i32::MIN <= g.pos.y + g.size.pixel_h <= i32::MAX,
    ensures
        g.spec_contains_position(p) <==> (g.pos.x <= p.x <= g.pos.x + g.size.pixel_w && g.pos.y <= p.y
            <= g.pos.y + g.size.pixel_h),
{
}

/// The layout direction of a row (`X`) or a column (`Y`).
#[derive(Debug, Clone, Copy, PartialEq, Eq, Structural)]
pub enum FlexDir {
    X,
    Y,
}

/// The sizes a widget may take: widths in `min_w..=max_w`, heights in
/// `min_h..=max_h`.
#[derive(Debug, Clone, Copy, PartialEq, Eq, Structural)]
pub struct BoxContraint {
    pub min_w: Pixel,
    pub min_h: Pixel,
    pub max_w: Pixel,
    pub max_h: Pixel,
}

impl Default for BoxContraint {
    fn default() -> (r: Self)
        ensures
            r.min_w == 0 && r.min_h == 0 && r.max_w == 0 && r.max_h == 0,
    {
        BoxContraint { min_w: 0, min_h: 0, max_w: 0, max_h: 0 }
    }
}

impl BoxContraint {
    /// Any size up to `w` by `h`.
    pub fn new(w: Pixel, h: Pixel) -> (r: Self)
        ensures
            r == (BoxContraint { min_w: 0, min_h: 0, max_w: w, max_h: h }),
    {
        Self { min_w: 0, min_h: 0, max_w: w, max_h: h }
    }

    /// Exactly `w` wide, up to `h` high.
    pub fn fixed_width(w: Pixel, h: Pixel) -> (r: Self)
        ensures
            r == (BoxContraint { min_w: w, min_h: 0, max_w: w, max_h: h }),
    {
        Self { min_w: w, min_h: 0, max_w: w, max_h: h }
    }

    /// Up to `w` wide, exactly `h` high.
    pub fn fixed_height(w: Pixel, h: Pixel) -> (r: Self)
        ensures
            r == (BoxContraint { min_w: 0, min_h: h, max_w: w, max_h: h }),
    {
        Self { min_w: 0, min_h: h, max_w: w, max_h: h }
    }
}

/// Layout settings of one widget: how its width and height are decided
/// and how it is aligned inside its parent.
#[derive(Debug, Clone, Copy, PartialEq, Eq, Structural)]
pub struct LayoutAttributes {
    pub height: SizeConstraint,
    pub width: SizeConstraint,
    pub alignment: Alignment,
}

impl LayoutAttributes {
    /// No flex in either direction, aligned to the left and top.
    pub open spec fn default_spec() -> LayoutAttributes {
        LayoutAttributes {
            height: SizeConstraint::NoFlex,
            width: SizeConstraint::NoFlex,
            alignment: Alignment { x: AlignmentX::Left, y: AlignmentY::Top },
        }
    }
}

impl Default for LayoutAttributes {
    fn default() -> (r: Self)
        ensures
            r == LayoutAttributes::default_spec(),
    {
        LayoutAttributes {
            height: SizeConstraint::NoFlex,
            width: SizeConstraint::NoFlex,
            alignment: Alignment { x: AlignmentX::Left, y: AlignmentY::Top },
        }
    }
}

impl LayoutAttributes {
    /// Neither width nor height flexes.
    pub fn no_flex(self) -> (r: Self)
        ensures
            r == (LayoutAttributes { width: SizeConstraint::NoFlex, height: SizeConstraint::NoFlex, ..self }),
    {
        let mut s = self;
        s.width = SizeConstraint::NoFlex;
        s.height = SizeConstraint::NoFlex;
        s
    }

    /// The width flexes with the given factor.
    pub fn flex_width(self, factor: u8) -> (r: Self)
        ensures
            r == (LayoutAttributes { width: SizeConstraint::Flex(factor), ..self }),
    {
        let mut s = self;
        s.width = SizeConstraint::Flex(factor);
        s
    }

    /// The height flexes with the given factor.
    pub fn flex_height(self, factor: u8) -> (r: Self)
        ensures
            r == (LayoutAttributes { height: SizeConstraint::Flex(factor), ..self }),
    {
        let mut s = self;
        s.height = SizeConstraint::Flex(factor);
        s
    }

    /// Replaces the width constraint.
    pub fn width(self, width: SizeConstraint) -> (r: Self)
        ensures
            r == (LayoutAttributes { width: width, ..self }),
    {
        let mut s = self;
        s.width = width;
        s
    }

    /// Replaces the height constraint.
    pub fn height(self, h: SizeConstraint) -> (r: Self)
        ensures
            r == (LayoutAttributes { height: h, ..self }),
    {
        let mut s = self;
        s.height = h;
        s
    }

    /// The constraint along a direction.
    pub open spec fn spec_constraint(&self, flex_dir: FlexDir) -> SizeConstraint {
        match flex_dir {
            FlexDir::X => self.width,
            FlexDir::Y => self.height,
        }
    }

    /// The width constraint for `FlexDir::X`, the height one for `FlexDir::Y`.
    #[verifier::when_used_as_spec(spec_constraint)]
    pub fn constraint(&self, flex_dir: FlexDir) -> (r: SizeConstraint)
        ensures
            r == self.spec_constraint(flex_dir),
    {
        match flex_dir {
            FlexDir::X => self.width,
            FlexDir::Y => self.height,
        }
    }
}


/// The sum of the flex factors along `dir` of the widgets `children`.
pub open spec fn flex_sum(children: Seq<Id>, attrs: Seq<LayoutAttributes>, dir: FlexDir) -> int
    decreases children.len(),
{
    if children.len() == 0 {
        0
    } else {
        flex_sum(children.drop_last(), attrs, dir) + match attrs[children.last() as int].spec_constraint(dir) {
            SizeConstraint::Flex(f) => f as int,
            _ => 0,
        }
    }
}

/// What the layout pass knows while it runs: the attributes of every
/// widget and the geometry of each widget laid out so far (`None` for
/// the others).
#[derive(Debug)]
pub struct LayoutContext<'a> {
    pub attributes: &'a Vec<LayoutAttributes>,
    pub layout_geom: Vec<Option<Geometry>>,
}

impl<'a> LayoutContext<'a> {
    /// A context for `widgets` widgets, none of them laid out yet.
    pub fn new(widgets: usize, attributes: &'a Vec<LayoutAttributes>) -> (r: Self)
        ensures
            r.attributes == attributes,
            r.layout_geom.len() == widgets,
            forall|i: int| 0 <= i < widgets ==> r.layout_geom[i] is None,
    {
        let mut res = Self { attributes, layout_geom: Vec::new() };
        let mut k: usize = 0;
        while k < widgets
            invariant
                k <= widgets,
                res.attributes == attributes,
                res.layout_geom.len() == k,
                forall|i: int| 0 <= i < k ==> res.layout_geom[i] is None,
            decreases widgets - k,
        {
            res.layout_geom.push(None);
            k = k + 1;
        }
        res
    }

    /// What a widget's layout may assume of the context and of the ids of
    /// its children: among other things, that the flex factors of the
    /// children add up within an `i32` in each direction.
    pub open spec fn wf_for(&self, children: Seq<Id>) -> bool {
        &&& self.attributes.len() == self.layout_geom.len()
        &&& flex_sum(children, self.attributes@, FlexDir::X) <= i32::MAX
        &&& flex_sum(children, self.attributes@, FlexDir::Y) <= i32::MAX
        &&& children.no_duplicates()
        &&& forall|i: int| 0 <= i < children.len() ==> children[i] < self.layout_geom.len()
    }

    /// `new` differs from `self` at most in the positions of widgets that
    /// are already laid out: the same attributes, the same widgets laid
    /// out, with the same sizes.
    pub open spec fn keeps_sizes(&self, new: LayoutContext) -> bool {
        &&& new.attributes@ == self.attributes@
        &&& new.layout_geom.len() == self.layout_geom.len()
        &&& forall|i: int|
            0 <= i < self.layout_geom.len() ==> (#[trigger] new.layout_geom[i] is Some
                <==> self.layout_geom[i] is Some)
        &&& forall|i: int|
            0 <= i < self.layout_geom.len() && #[trigger] self.layout_geom[i] is Some
                ==> new.layout_geom[i]->0.size == self.layout_geom[i]->0.size
    }
}

/// A `RequestChild` names one of the given children that is not laid out
/// in `geom`.
pub open spec fn requests_pending_child(
    res: LayoutResult,
    children: Seq<Id>,
    geom: Seq<Option<Geometry>>,
) -> bool {
    match res {
        LayoutResult::RequestChild(c, _) => children.contains(c) && geom[c as int] is None,
        LayoutResult::Size(_) => true,
    }
}

/// The output of a widget: `event` from widget `widget_id`.
#[derive(Debug)]
pub struct WidgetOutput<P> {
    pub event: P,
    pub widget_id: Id,
}

/// An input for widget `widget_id`.
#[derive(Debug)]
pub struct WidgetInput<P> {
    pub input: P,
    pub widget_id: Id,
}

/// Outputs of widgets, oldest first.
pub type WidgetOutputQueue<P> = VecDeque<WidgetOutput<P>>;

/// Inputs waiting for their widgets, oldest first.
pub struct WidgetInputQueue<P>(pub VecDeque<WidgetInput<P>>);

impl<P> WidgetInputQueue<P> {
    /// Queues `input` for widget `widget_id`.
    pub fn push_value(&mut self, widget_id: usize, input: P)
        ensures
            final(self).0@ == old(self).0@.push(WidgetInput { widget_id, input }),
    {
        self.0.push_back(WidgetInput { widget_id, input });
    }

    /// Queues an input.
    pub fn push_input(&mut self, widget_input: WidgetInput<P>)
        ensures
            final(self).0@ == old(self).0@.push(widget_input),
    {
        self.0.push_back(widget_input);
    }
}

/// How a widget of the GUI is laid out.
pub trait WidgetLayout {
    /// What the widget's layout gives within `bc`, for its children
    /// `children`, the geometries `geom` of the widgets laid out so far and
    /// the attributes `attrs` of all widgets: its answer, and the
    /// geometries afterwards.
    spec fn spec_layout(
        &self,
        bc: BoxContraint,
        children: Seq<Id>,
        geom: Seq<Option<Geometry>>,
        attrs: Seq<LayoutAttributes>,
    ) -> (LayoutResult, Seq<Option<Geometry>>);

    /// Lays the widget out within `bc`: either returns its size, or asks
    /// for one of its children, not laid out yet, to be laid out first.
    /// It may move widgets that are laid out, never resize them. What it
    /// gives is `spec_layout`, which laying out does not change.
    fn layout(&mut self, bc: &BoxContraint, children: &[Id], ctx: &mut LayoutContext)
        -> (res: LayoutResult)
        requires
            old(ctx).wf_for(children@),
        ensures
            old(ctx).keeps_sizes(*final(ctx)),
            requests_pending_child(res, children@, old(ctx).layout_geom@),
            (res, final(ctx).layout_geom@) == old(self).spec_layout(
                *bc,
                children@,
                old(ctx).layout_geom@,
                old(ctx).attributes@,
            ),
            forall|b: BoxContraint, c: Seq<Id>, g: Seq<Option<Geometry>>, a: Seq<LayoutAttributes>|
                #[trigger] final(self).spec_layout(b, c, g, a) == old(self).spec_layout(b, c, g, a),
    ;

    /// The width constraint the widget starts with: no flex, unless the
    /// widget says otherwise.
    fn default_width(&self) -> (r: SizeConstraint)
        default_ensures
            r == SizeConstraint::NoFlex,
    {
        SizeConstraint::NoFlex
    }

    /// The height constraint the widget starts with: no flex, unless the
    /// widget says otherwise.
    fn default_height(&self) -> (r: SizeConstraint)
        default_ensures
            r == SizeConstraint::NoFlex,
    {
        SizeConstraint::NoFlex
    }
}

/// What reaches a widget: a value sent to it, or a window event with the
/// widget's geometry and id.
pub enum Stimulus<P> {
    Input(P),
    Event(Event, Geometry, Id),
}

/// Widget `k` of `after` behaves as widget `k` of `before` does once it
/// has taken the stimuli `h`, oldest first: it lays itself out, takes
/// further stimuli and sends outputs as that widget would after `h`.
pub open spec fn behaves_after<P>(
    after: Seq<AnyWidget<P>>,
    before: Seq<AnyWidget<P>>,
    k: int,
    h: Seq<Stimulus<P>>,
) -> bool {
    &&& forall|b: BoxContraint, c: Seq<Id>, g: Seq<Option<Geometry>>, a: Seq<LayoutAttributes>|
        #[trigger] after[k].spec_layout(b, c, g, a) == before[k].spec_layout_after(h, b, c, g, a)
    &&& forall|h2: Seq<Stimulus<P>>, b: BoxContraint, c: Seq<Id>, g: Seq<Option<Geometry>>, a: Seq<LayoutAttributes>|
        #[trigger] after[k].spec_layout_after(h2, b, c, g, a) == before[k].spec_layout_after(h + h2, b, c, g, a)
    &&& forall|h2: Seq<Stimulus<P>>, t: Stimulus<P>, out: Seq<WidgetOutput<P>>|
        #[trigger] after[k].spec_sends(h2, t, out) == before[k].spec_sends(h + h2, t, out)
}

/// Taking the stimuli `h1` and then `h2` is taking `h1 + h2`.
pub proof fn lemma_behaves_after_then<P>(
    c: Seq<AnyWidget<P>>,
    b: Seq<AnyWidget<P>>,
    a: Seq<AnyWidget<P>>,
    k: int,
    h1: Seq<Stimulus<P>>,
    h2: Seq<Stimulus<P>>,
)
    requires
        behaves_after(b, a, k, h1),
        behaves_after(c, b, k, h2),
    ensures
        behaves_after(c, a, k, h1 + h2),
{
    assert forall|bc: BoxContraint, ch: Seq<Id>, g: Seq<Option<Geometry>>, at: Seq<LayoutAttributes>|
        #[trigger] c[k].spec_layout(bc, ch, g, at) == a[k].spec_layout_after(h1 + h2, bc, ch, g, at) by {
        assert(b[k].spec_layout_after(h2, bc, ch, g, at) == a[k].spec_layout_after(h1 + h2, bc, ch, g, at));
    }
    assert forall|h3: Seq<Stimulus<P>>, bc: BoxContraint, ch: Seq<Id>, g: Seq<Option<Geometry>>, at: Seq<LayoutAttributes>|
        #[trigger] c[k].spec_layout_after(h3, bc, ch, g, at) == a[k].spec_layout_after((h1 + h2) + h3, bc, ch, g, at) by {
        assert(b[k].spec_layout_after(h2 + h3, bc, ch, g, at) == a[k].spec_layout_after(h1 + (h2 + h3), bc, ch, g, at));
        assert((h1 + h2) + h3 =~= h1 + (h2 + h3));
    }
    assert forall|h3: Seq<Stimulus<P>>, t: Stimulus<P>, out: Seq<WidgetOutput<P>>|
        #[trigger] c[k].spec_sends(h3, t, out) == a[k].spec_sends((h1 + h2) + h3, t, out) by {
        assert(b[k].spec_sends(h2 + h3, t, out) == a[k].spec_sends(h1 + (h2 + h3), t, out));
        assert((h1 + h2) + h3 =~= h1 + (h2 + h3));
    }
}

/// A widget of the GUI; `P` is the type of the values widgets send and
/// receive.
pub trait Widget<P>: WidgetLayout {
    /// What the widget's layout gives, as `spec_layout` does, once the
    /// widget has taken the stimuli `h`, oldest first.
    spec fn spec_layout_after(
        &self,
        h: Seq<Stimulus<P>>,
        bc: BoxContraint,
        children: Seq<Id>,
        geom: Seq<Option<Geometry>>,
        attrs: Seq<LayoutAttributes>,
    ) -> (LayoutResult, Seq<Option<Geometry>>);

    /// Whether `out` is what the widget sends, oldest first, when it
    /// takes `s` after the stimuli `h`.
    spec fn spec_sends(&self, h: Seq<Stimulus<P>>, s: Stimulus<P>, out: Seq<WidgetOutput<P>>) -> bool;

    /// Takes a value sent to the widget; afterwards the widget behaves as
    /// it would once it has taken `input`.
    fn handle_widget_input(&mut self, input: P)
        ensures
            forall|b: BoxContraint, c: Seq<Id>, g: Seq<Option<Geometry>>, a: Seq<LayoutAttributes>|
                #[trigger] final(self).spec_layout(b, c, g, a) == old(self).spec_layout_after(
                    seq![Stimulus::Input(input)],
                    b,
                    c,
                    g,
                    a,
                ),
            forall|h: Seq<Stimulus<P>>, b: BoxContraint, c: Seq<Id>, g: Seq<Option<Geometry>>, a: Seq<LayoutAttributes>|
                #[trigger] final(self).spec_layout_after(h, b, c, g, a) == old(self).spec_layout_after(
                    seq![Stimulus::Input(input)] + h,
                    b,
                    c,
                    g,
                    a,
                ),
            forall|h: Seq<Stimulus<P>>, t: Stimulus<P>, out: Seq<WidgetOutput<P>>|
                #[trigger] final(self).spec_sends(h, t, out) == old(self).spec_sends(
                    seq![Stimulus::Input(input)] + h,
                    t,
                    out,
                ),
    ;

    /// Takes a window event, given the widget's geometry and id: appends
    /// what the widget sends for it to `queue`, and afterwards behaves as
    /// it would once it has taken the event.
    fn handle_sdl_event(
        &mut self,
        event: &Event,
        geom: &Geometry,
        self_id: Id,
        queue: &mut WidgetOutputQueue<P>,
    )
        ensures
            final(queue)@.len() >= old(queue)@.len(),
            final(queue)@.take(old(queue)@.len() as int) == old(queue)@,
            old(self).spec_sends(
                Seq::empty(),
                Stimulus::Event(*event, *geom, self_id),
                final(queue)@.skip(old(queue)@.len() as int),
            ),
            forall|b: BoxContraint, c: Seq<Id>, g: Seq<Option<Geometry>>, a: Seq<LayoutAttributes>|
                #[trigger] final(self).spec_layout(b, c, g, a) == old(self).spec_layout_after(
                    seq![Stimulus::Event(*event, *geom, self_id)],
                    b,
                    c,
                    g,
                    a,
                ),
            forall|h: Seq<Stimulus<P>>, b: BoxContraint, c: Seq<Id>, g: Seq<Option<Geometry>>, a: Seq<LayoutAttributes>|
                #[trigger] final(self).spec_layout_after(h, b, c, g, a) == old(self).spec_layout_after(
                    seq![Stimulus::Event(*event, *geom, self_id)] + h,
                    b,
                    c,
                    g,
                    a,
                ),
            forall|h: Seq<Stimulus<P>>, t: Stimulus<P>, out: Seq<WidgetOutput<P>>|
                #[trigger] final(self).spec_sends(h, t, out) == old(self).spec_sends(
                    seq![Stimulus::Event(*event, *geom, self_id)] + h,
                    t,
                    out,
                ),
    ;
}

/// A widget the GUI holds: one of the library's own layout widgets, known
/// by its kind, or any other widget behind a box.
#[verifier::reject_recursive_types(P)]
pub enum AnyWidget<P> {
    Text(TextWidget),
    Row(RowWidget),
    Column(ColumnWidget),
    Container(ContainerWidget),
    Custom(Box<dyn Widget<P>>),
}

impl<P> WidgetLayout for AnyWidget<P> {
    /// The layout of the widget held.
    open spec fn spec_layout(
        &self,
        bc: BoxContraint,
        children: Seq<Id>,
        geom: Seq<Option<Geometry>>,
        attrs: Seq<LayoutAttributes>,
    ) -> (LayoutResult, Seq<Option<Geometry>>) {
        match self {
            AnyWidget::Text(w) => w.spec_layout(bc, children, geom, attrs),
            AnyWidget::Row(w) => w.spec_layout(bc, children, geom, attrs),
            AnyWidget::Column(w) => w.spec_layout(bc, children, geom, attrs),
            AnyWidget::Container(w) => w.spec_layout(bc, children, geom, attrs),
            AnyWidget::Custom(w) => w.spec_layout(bc, children, geom, attrs),
        }
    }

    fn layout(&mut self, bc: &BoxContraint, children: &[Id], ctx: &mut LayoutContext)
        -> (res: LayoutResult)
    {
        match self {
            AnyWidget::Text(w) => w.layout(bc, children, ctx),
            AnyWidget::Row(w) => w.layout(bc, children, ctx),
            AnyWidget::Column(w) => w.layout(bc, children, ctx),
            AnyWidget::Container(w) => w.layout(bc, children, ctx),
            AnyWidget::Custom(w) => w.layout(bc, children, ctx),
        }
    }

    /// The library's own widgets start without flex.
    fn default_width(&self) -> (r: SizeConstraint)
        ensures
            !(self is Custom) ==> r == SizeConstraint::NoFlex,
    {
        match self {
            AnyWidget::Text(w) => w.default_width(),
            AnyWidget::Row(w) => w.default_width(),
            AnyWidget::Column(w) => w.default_width(),
            AnyWidget::Container(w) => w.default_width(),
            AnyWidget::Custom(w) => w.default_width(),
        }
    }

    /// The library's own widgets start without flex.
    fn default_height(&self) -> (r: SizeConstraint)
        ensures
            !(self is Custom) ==> r == SizeConstraint::NoFlex,
    {
        match self {
            AnyWidget::Text(w) => w.default_height(),
            AnyWidget::Row(w) => w.default_height(),
            AnyWidget::Column(w) => w.default_height(),
            AnyWidget::Container(w) => w.default_height(),
            AnyWidget::Custom(w) => w.default_height(),
        }
    }
}

impl<P> Widget<P> for AnyWidget<P> {
    open spec fn spec_layout_after(
        &self,
        h: Seq<Stimulus<P>>,
        bc: BoxContraint,
        children: Seq<Id>,
        geom: Seq<Option<Geometry>>,
        attrs: Seq<LayoutAttributes>,
    ) -> (LayoutResult, Seq<Option<Geometry>>) {
        match self {
            AnyWidget::Text(w) => w.spec_layout_after(h, bc, children, geom, attrs),
            AnyWidget::Row(w) => w.spec_layout_after(h, bc, children, geom, attrs),
            AnyWidget::Column(w) => w.spec_layout_after(h, bc, children, geom, attrs),
            AnyWidget::Container(w) => w.spec_layout_after(h, bc, children, geom, attrs),
            AnyWidget::Custom(w) => w.spec_layout_after(h, bc, children, geom, attrs),
        }
    }

    open spec fn spec_sends(&self, h: Seq<Stimulus<P>>, s: Stimulus<P>, out: Seq<WidgetOutput<P>>) -> bool {
        match self {
            AnyWidget::Text(w) => Widget::<P>::spec_sends(w, h, s, out),
            AnyWidget::Row(w) => Widget::<P>::spec_sends(w, h, s, out),
            AnyWidget::Column(w) => Widget::<P>::spec_sends(w, h, s, out),
            AnyWidget::Container(w) => Widget::<P>::spec_sends(w, h, s, out),
            AnyWidget::Custom(w) => w.spec_sends(h, s, out),
        }
    }

    fn handle_widget_input(&mut self, input: P) {
        match self {
            AnyWidget::Text(w) => w.handle_widget_input(input),
            AnyWidget::Row(w) => w.handle_widget_input(input),
            AnyWidget::Column(w) => w.handle_widget_input(input),
            AnyWidget::Container(w) => w.handle_widget_input(input),
            AnyWidget::Custom(w) => w.handle_widget_input(input),
        }
    }

    fn handle_sdl_event(
        &mut self,
        event: &Event,
        geom: &Geometry,
        self_id: Id,
        queue: &mut WidgetOutputQueue<P>,
    ) {
        match self {
            AnyWidget::Text(w) => w.handle_sdl_event(event, geom, self_id, queue),
            AnyWidget::Row(w) => w.handle_sdl_event(event, geom, self_id, queue),
            AnyWidget::Column(w) => w.handle_sdl_event(event, geom, self_id, queue),
            AnyWidget::Container(w) => w.handle_sdl_event(event, geom, self_id, queue),
            AnyWidget::Custom(w) => w.handle_sdl_event(event, geom, self_id, queue),
        }
    }
}

/// A widget, boxed, that the GUI can take.
pub trait IntoWidget<P> {
    spec fn spec_into_widget(self) -> AnyWidget<P>;

    fn into_widget(self) -> (r: AnyWidget<P>)
        ensures
            r == self.spec_into_widget(),
    ;
}

impl<P> IntoWidget<P> for Box<TextWidget> {
    open spec fn spec_into_widget(self) -> AnyWidget<P> {
        AnyWidget::Text(*self)
    }

    fn into_widget(self) -> (r: AnyWidget<P>) {
        AnyWidget::Text(*self)
    }
}

impl<P> IntoWidget<P> for Box<RowWidget> {
    open spec fn spec_into_widget(self) -> AnyWidget<P> {
        AnyWidget::Row(*self)
    }

    fn into_widget(self) -> (r: AnyWidget<P>) {
        AnyWidget::Row(*self)
    }
}

impl<P> IntoWidget<P> for Box<ColumnWidget> {
    open spec fn spec_into_widget(self) -> AnyWidget<P> {
        AnyWidget::Column(*self)
    }

    fn into_widget(self) -> (r: AnyWidget<P>) {
        AnyWidget::Column(*self)
    }
}

impl<P> IntoWidget<P> for Box<ContainerWidget> {
    open spec fn spec_into_widget(self) -> AnyWidget<P> {
        AnyWidget::Container(*self)
    }

    fn into_widget(self) -> (r: AnyWidget<P>) {
        AnyWidget::Container(*self)
    }
}

impl<P: From<bool> + 'static> IntoWidget<P> for Box<CheckboxWidget> {
    open spec fn spec_into_widget(self) -> AnyWidget<P> {
        AnyWidget::Custom(self)
    }

    fn into_widget(self) -> (r: AnyWidget<P>) {
        AnyWidget::Custom(self)
    }
}

impl<P> IntoWidget<P> for Box<dyn Widget<P>> {
    open spec fn spec_into_widget(self) -> AnyWidget<P> {
        AnyWidget::Custom(self)
    }

    fn into_widget(self) -> (r: AnyWidget<P>) {
        AnyWidget::Custom(self)
    }
}

/// The children of each widget, by id, as sequences.
pub open spec fn children_view(children: Seq<Vec<Id>>) -> Seq<Seq<Id>> {
    children.map_values(|v: Vec<Id>| v@)
}

/// The widgets form a forest: a widget's children have larger ids and
/// name it as their parent, each widget's parent is itself (a root) or a
/// widget with a smaller id that lists it once among its children.
pub open spec fn tree_wf(children: Seq<Seq<Id>>, parents: Seq<Id>) -> bool {
    let n = parents.len();
    &&& children.len() == n
    &&& forall|p: int|
        0 <= p < n ==> (#[trigger] children[p]).len() <= n && children[p].no_duplicates()
    &&& forall|p: int, j: int|
        0 <= p < n && 0 <= j < children[p].len() ==> p < #[trigger] children[p][j] < n
            && parents[children[p][j] as int] == p
    &&& forall|c: int| 0 <= c < n ==> #[trigger] parents[c] <= c
    &&& forall|c: int|
        0 <= c < n && #[trigger] parents[c] != c ==> children[parents[c] as int].contains(c as Id)
}

/// Where a widget is on screen: its position relative to its parent plus
/// the parent's position on screen; a root's position as it is, the
/// first root's moved by `offset`.
pub open spec fn abs_pos(pre: Seq<Position>, parents: Seq<Id>, offset: Position, c: int) -> Position
    decreases c,
{
    if c < 0 || c >= pre.len() || c >= parents.len() {
        Position { x: 0, y: 0 }
    } else if parents[c] as int >= c {
        if c == 0 {
            pos_add(pre[0], offset)
        } else {
            pre[c]
        }
    } else {
        pos_add(pre[c], abs_pos(pre, parents, offset, parents[c] as int))
    }
}

/// Widget `c` lies in the tree of the first root: following its parents
/// leads to widget 0.
pub open spec fn under_first_root(parents: Seq<Id>, c: int) -> bool
    decreases c,
{
    if c < 0 || c >= parents.len() {
        false
    } else if parents[c] as int >= c {
        c == 0
    } else {
        under_first_root(parents, parents[c] as int)
    }
}

proof fn lemma_wrapping_add_assoc(a: i32, b: i32, o: i32)
    ensures
        a.wrapping_add(b.wrapping_add(o)) == a.wrapping_add(b).wrapping_add(o),
        a.wrapping_add(0) == a,
{
}

/// Laying out at `offset` moves the first root and every widget under it
/// by `offset`, and puts every other widget where it would be with the
/// first root at the origin.
pub proof fn law_offset_moves_first_tree(pre: Seq<Position>, parents: Seq<Id>, offset: Position, c: int)
    requires
        pre.len() == parents.len(),
    ensures
        abs_pos(pre, parents, offset, c) == if under_first_root(parents, c) {
            pos_add(abs_pos(pre, parents, Position { x: 0, y: 0 }, c), offset)
        } else {
            abs_pos(pre, parents, Position { x: 0, y: 0 }, c)
        },
    decreases c,
{
    let zero = Position { x: 0, y: 0 };
    if c < 0 || c >= pre.len() || c >= parents.len() {
    } else if parents[c] as int >= c {
        if c == 0 {
            lemma_wrapping_add_assoc(pre[0].x, 0, 0);
            lemma_wrapping_add_assoc(pre[0].y, 0, 0);
        }
    } else {
        let p = parents[c] as int;
        law_offset_moves_first_tree(pre, parents, offset, p);
        let a0 = abs_pos(pre, parents, zero, p);
        lemma_wrapping_add_assoc(pre[c].x, a0.x, offset.x);
        lemma_wrapping_add_assoc(pre[c].y, a0.y, offset.y);
    }
}

/// A fixed width or height in the attributes is the size taken; a
/// flexible one takes all that the constraint `bc` allows.
pub open spec fn sizes_respected(a: LayoutAttributes, s: Size, bc: BoxContraint) -> bool {
    &&& a.width matches SizeConstraint::Fixed(px) ==> s.pixel_w == px
    &&& a.height matches SizeConstraint::Fixed(px) ==> s.pixel_h == px
    &&& a.width is Flex ==> s.pixel_w == bc.max_w
    &&& a.height is Flex ==> s.pixel_h == bc.max_h
}

/// `size` is what the layout of widget `i` gave within its constraint
/// `bcs[i]`, for its children and some geometries of the widgets laid
/// out before it, with each fixed extent of its attributes as given and
/// each flexible one as large as the constraint allows.
pub open spec fn sized_by_own_layout<P>(
    ws: Seq<AnyWidget<P>>,
    children: Seq<Seq<Id>>,
    attrs: Seq<LayoutAttributes>,
    bcs: Seq<BoxContraint>,
    i: int,
    size: Size,
) -> bool {
    exists|g: Seq<Option<Geometry>>, s: Size|
        #![trigger ws[i].spec_layout(bcs[i], children[i], g, attrs), constrained_size(attrs[i], s, bcs[i])]
        ws[i].spec_layout(bcs[i], children[i], g, attrs).0 == LayoutResult::Size(s) && size
            == constrained_size(attrs[i], s, bcs[i])
}

/// The positions before propagation: those the layout gave, the old ones
/// of widgets it did not reach.
pub open spec fn pre_positions(old_geom: Seq<Geometry>, lg: Seq<Option<Geometry>>) -> Seq<
    Position,
> {
    Seq::new(old_geom.len(), |i: int| if lg[i] is Some { lg[i]->0.pos } else { old_geom[i].pos })
}

/// `new_geom` is what a layout pass that laid out the widgets of `lg`,
/// each within its constraint in `bcs`, leaves: the root is laid out
/// within `root_bc`; fixed and flexible extents are as the attributes
/// say; each laid out widget has its size from `lg` and every widget its
/// position on screen.
pub open spec fn layout_outcome(
    old_geom: Seq<Geometry>,
    attrs: Seq<LayoutAttributes>,
    parents: Seq<Id>,
    new_geom: Seq<Geometry>,
    lg: Seq<Option<Geometry>>,
    bcs: Seq<BoxContraint>,
    root_bc: BoxContraint,
    offset: Position,
) -> bool {
    &&& lg.len() == old_geom.len()
    &&& bcs.len() == old_geom.len()
    &&& new_geom.len() == old_geom.len()
    &&& lg[0] is Some
    &&& bcs[0] == root_bc
    &&& forall|i: int|
        0 <= i < lg.len() && #[trigger] lg[i] is Some ==> sizes_respected(
            attrs[i],
            lg[i]->0.size,
            bcs[i],
        )
    &&& forall|i: int|
        0 <= i < lg.len() ==> (#[trigger] new_geom[i]).size == (if lg[i] is Some {
            lg[i]->0.size
        } else {
            old_geom[i].size
        })
    &&& forall|i: int|
        0 <= i < lg.len() ==> (#[trigger] new_geom[i]).pos == abs_pos(
            pre_positions(old_geom, lg),
            parents,
            offset,
            i,
        )
}

/// The largest id below `k` whose geometry holds `pos`.
pub open spec fn hit(geom: Seq<Geometry>, pos: Position, k: int) -> Option<Id>
    decreases k,
{
    if k <= 0 || k > geom.len() {
        None
    } else if geom[k - 1].spec_contains_position(pos) {
        Some((k - 1) as Id)
    } else {
        hit(geom, pos, k - 1)
    }
}

/// The widget found at a point holds it, and no widget with a larger id
/// (added later, drawn above) does; where none is found, no widget
/// holds the point.
pub proof fn law_hit_is_topmost(geom: Seq<Geometry>, pos: Position, k: int)
    requires
        0 <= k <= geom.len(),
        geom.len() <= usize::MAX,
    ensures
        hit(geom, pos, k) matches Some(id) ==> {
            &&& id < k
            &&& geom[id as int].spec_contains_position(pos)
            &&& forall|j: int| id < j < k ==> !(#[trigger] geom[j]).spec_contains_position(pos)
        },
        hit(geom, pos, k) is None ==> forall|j: int|
            0 <= j < k ==> !(#[trigger] geom[j]).spec_contains_position(pos),
    decreases k,
{
    if k > 0 {
        law_hit_is_topmost(geom, pos, k - 1);
        if !geom[k - 1].spec_contains_position(pos) {
            if let Some(id) = hit(geom, pos, k - 1) {
                assert forall|j: int| id < j < k implies !(#[trigger] geom[j]).spec_contains_position(
                    pos,
                ) by {
                    if j < k - 1 {
                    }
                }
            }
        }
    }
}

/// The number of widgets not laid out.
pub open spec fn count_none(s: Seq<Option<Geometry>>) -> nat
    decreases s.len(),
{
    if s.len() == 0 {
        0
    } else {
        count_none(s.drop_last()) + if s.last() is None {
            1nat
        } else {
            0nat
        }
    }
}

proof fn lemma_count_same(s: Seq<Option<Geometry>>, t: Seq<Option<Geometry>>)
    requires
        s.len() == t.len(),
        forall|i: int| 0 <= i < s.len() ==> (#[trigger] s[i] is Some <==> t[i] is Some),
    ensures
        count_none(s) == count_none(t),
    decreases s.len(),
{
    if s.len() > 0 {
        lemma_count_same(s.drop_last(), t.drop_last());
    }
}

proof fn lemma_count_set(s: Seq<Option<Geometry>>, i: int, g: Geometry)
    requires
        0 <= i < s.len(),
        s[i] is None,
    ensures
        count_none(s.update(i, Some(g))) + 1 == count_none(s),
    decreases s.len(),
{
    if i == s.len() - 1 {
        assert(s.update(i, Some(g)).drop_last() =~= s.drop_last());
    } else {
        lemma_count_set(s.drop_last(), i, g);
        assert(s.update(i, Some(g)).drop_last() =~= s.drop_last().update(i, Some(g)));
    }
}

/// The widgets of one window, their tree, geometries and layout settings,
/// and the queues of values to and from them.
#[verifier::reject_recursive_types(P)]
pub struct UiState<P> {
    next_id: Id,
    widgets: Vec<AnyWidget<P>>,
    children: Vec<Vec<Id>>,
    parents: Vec<Id>,
    pub geom: Vec<Geometry>,
    attributes: Vec<LayoutAttributes>,
    pub widget_input_queue: WidgetInputQueue<P>,
    widget_output_queue: WidgetOutputQueue<P>,
    active_widget: Option<Id>,
}

impl<P> UiState<P> {
    /// The number of widgets.
    pub closed spec fn spec_len(&self) -> nat {
        self.widgets@.len()
    }

    pub closed spec fn spec_widgets(&self) -> Seq<AnyWidget<P>> {
        self.widgets@
    }

    pub closed spec fn spec_children(&self) -> Seq<Seq<Id>> {
        children_view(self.children@)
    }

    /// The geometry of each widget.
    pub closed spec fn spec_geom(&self) -> Seq<Geometry> {
        self.geom@
    }

    pub closed spec fn spec_parents(&self) -> Seq<Id> {
        self.parents@
    }

    pub closed spec fn spec_attributes(&self) -> Seq<LayoutAttributes> {
        self.attributes@
    }

    /// The widget that holds the mouse, if any.
    pub closed spec fn spec_active(&self) -> Option<Id> {
        self.active_widget
    }

    /// The inputs waiting for the widgets, oldest first.
    pub closed spec fn spec_inputs(&self) -> Seq<WidgetInput<P>> {
        self.widget_input_queue.0@
    }

    /// The flex factors of the children of every widget add up within an
    /// `i32` in each direction.
    pub open spec fn spec_flex_sums_fit(&self) -> bool {
        forall|i: int|
            0 <= i < self.spec_len() ==> flex_sum(
                #[trigger] self.spec_children()[i],
                self.spec_attributes(),
                FlexDir::X,
            ) <= i32::MAX && flex_sum(self.spec_children()[i], self.spec_attributes(), FlexDir::Y)
                <= i32::MAX
    }

    /// With at most 255 times as many widgets as fit in an `i32`, the flex
    /// factors of any widget's children add up within an `i32`.
    pub proof fn lemma_flex_sums_fit_small(&self)
        requires
            self.wf(),
            255 * self.spec_len() <= i32::MAX,
        ensures
            self.spec_flex_sums_fit(),
    {
        assert forall|i: int| 0 <= i < self.spec_len() implies flex_sum(
            #[trigger] self.spec_children()[i],
            self.spec_attributes(),
            FlexDir::X,
        ) <= i32::MAX && flex_sum(self.spec_children()[i], self.spec_attributes(), FlexDir::Y)
            <= i32::MAX by {
            let c = self.spec_children()[i];
            assert(c.len() <= self.spec_len());
            lemma_flex_sum_bound(c, self.spec_attributes(), FlexDir::X);
            lemma_flex_sum_bound(c, self.spec_attributes(), FlexDir::Y);
        }
    }

    /// Whether the flex factors of the children of every widget add up
    /// within an `i32` in each direction, as a layout pass needs.
    pub fn flex_sums_fit(&self) -> (r: bool)
        requires
            self.wf(),
        ensures
            r == self.spec_flex_sums_fit(),
    {
        let n = self.children.len();
        let mut i: usize = 0;
        while i < n
            invariant
                self.wf(),
                n == self.spec_len(),
                i <= n,
                forall|k: int|
                    0 <= k < i ==> flex_sum(
                        #[trigger] self.spec_children()[k],
                        self.spec_attributes(),
                        FlexDir::X,
                    ) <= i32::MAX && flex_sum(self.spec_children()[k], self.spec_attributes(), FlexDir::Y)
                        <= i32::MAX,
            decreases n - i,
        {
            let ghost cs = self.spec_children()[i as int];
            proof {
                assert(cs == self.children@[i as int]@);
            }
            let fx = children_flex_sum_fits(self.children[i].as_slice(), &self.attributes, FlexDir::X);
            let fy = children_flex_sum_fits(self.children[i].as_slice(), &self.attributes, FlexDir::Y);
            if !fx || !fy {
                return false;
            }
            i = i + 1;
        }
        true
    }

    /// The consistent state has one geometry, one attribute set, one list
    /// of children and one parent for each widget.
    pub proof fn lemma_wf_lengths(&self)
        requires
            self.wf(),
        ensures
            self.spec_geom().len() == self.spec_len(),
            self.spec_attributes().len() == self.spec_len(),
            self.spec_children().len() == self.spec_len(),
            self.spec_parents().len() == self.spec_len(),
            self.spec_widgets().len() == self.spec_len(),
    {
    }

    /// The outputs of the widgets, oldest first.
    pub closed spec fn spec_outputs(&self) -> Seq<WidgetOutput<P>> {
        self.widget_output_queue@
    }

    /// The state is consistent: one entry per widget in every table, and
    /// the widgets form a forest.
    pub closed spec fn wf(&self) -> bool {
        let n = self.widgets.len();
        &&& self.next_id == n
        &&& self.children.len() == n
        &&& self.parents.len() == n
        &&& self.geom.len() == n
        &&& self.attributes.len() == n
        &&& tree_wf(children_view(self.children@), self.parents@)
        &&& self.active_widget matches Some(a) ==> a < n
    }

    /// The widgets and the output queue as the fields hold them.
    proof fn lemma_fields(&self)
        ensures
            self.spec_widgets() == self.widgets@,
            self.spec_outputs() == self.widget_output_queue@,
    {
    }

    /// `other` has the same widgets, tree and layout settings as `self`.
    pub open spec fn same_tree(&self, other: &Self) -> bool {
        &&& other.spec_len() == self.spec_len()
        &&& other.spec_children() == self.spec_children()
        &&& other.spec_parents() == self.spec_parents()
        &&& other.spec_attributes() == self.spec_attributes()
        &&& other.spec_geom().len() == self.spec_geom().len()
    }

    /// An empty state.
    pub fn new() -> (r: Self)
        ensures
            r.wf(),
            r.spec_len() == 0,
            r.spec_active() is None,
            r.spec_outputs().len() == 0,
            r.spec_inputs().len() == 0,
            r.spec_geom().len() == 0,
    {
        let r = UiState {
            next_id: 0,
            widgets: Vec::new(),
            children: Vec::new(),
            parents: Vec::new(),
            geom: Vec::new(),
            attributes: Vec::new(),
            widget_input_queue: WidgetInputQueue(VecDeque::new()),
            widget_output_queue: VecDeque::new(),
            active_widget: None,
        };
        proof {
            assert(children_view(r.children@) =~= Seq::<Seq<Id>>::empty());
        }
        r
    }

    /// The children lists after widget `id` is added under `parent`.
    pub open spec fn children_after_add(&self, id: Id, parent: Option<Id>) -> Seq<Seq<Id>> {
        let c = self.spec_children();
        if parent is Some && parent->0 != id {
            c.update(parent->0 as int, c[parent->0 as int].push(id)).push(Seq::empty())
        } else {
            c.push(Seq::empty())
        }
    }

    /// Adds a widget under `parent` (a new root for `None`) and returns its
    /// id, the number of widgets before. Its layout settings are
    /// `attributes`, or the widget's defaults for `None`.
    pub fn add_widget<W: IntoWidget<P>>(
        &mut self,
        widget: W,
        parent: Option<Id>,
        attributes: Option<LayoutAttributes>,
    ) -> (id: Id)
        requires
            old(self).wf(),
            old(self).spec_len() < usize::MAX,
            parent matches Some(p) ==> p <= old(self).spec_len(),
        ensures
            final(self).wf(),
            id == old(self).spec_len(),
            final(self).spec_len() == id + 1,
            final(self).spec_widgets() == old(self).spec_widgets().push(widget.spec_into_widget()),
            final(self).spec_parents() == old(self).spec_parents().push(
                match parent {
                    Some(p) => p,
                    None => id,
                },
            ),
            final(self).spec_children() == old(self).children_after_add(id, parent),
            final(self).spec_geom() == old(self).spec_geom().push(
                Geometry { pos: Position { x: 0, y: 0 }, size: Size { pixel_w: 0, pixel_h: 0 } },
            ),
            final(self).spec_attributes().len() == id + 1,
            final(self).spec_attributes().drop_last() == old(self).spec_attributes(),
            attributes matches Some(a) ==> final(self).spec_attributes().last() == a,
            attributes is None ==> final(self).spec_attributes().last().alignment == Alignment::default_spec(),
            attributes is None && !(widget.spec_into_widget() is Custom) ==> final(self).spec_attributes().last()
                == LayoutAttributes::default_spec(),
            final(self).spec_active() == old(self).spec_active(),
            final(self).spec_outputs() == old(self).spec_outputs(),
            final(self).spec_inputs() == old(self).spec_inputs(),
    {
        let widget = widget.into_widget();
        let id = self.next_id;
        self.next_id = self.next_id + 1;
        let attribs = match attributes {
            Some(a) => a,
            None => LayoutAttributes::for_widget(&widget),
        };
        self.attributes.push(attribs);
        let ghost w0 = self.widgets@;
        self.widgets.push(widget);
        proof {
            // the sequence axioms do not fire by themselves on trait objects
            vstd::seq::axiom_seq_push_len(w0, widget);
        }
        self.children.push(Vec::new());
        let parent_id = match parent {
            Some(p_id) => p_id,
            None => id,
        };
        self.parents.push(parent_id);
        let ghost mid_children = self.children@;
        if parent_id != id {
            let mut v = self.children[parent_id].clone();
            v.push(id);
            self.children.set(parent_id, v);
        }
        self.geom.push(Geometry { pos: Position { x: 0, y: 0 }, size: Size { pixel_w: 0, pixel_h: 0 } });
        proof {
            let oc = children_view(old(self).children@);
            let nc = children_view(self.children@);
            assert(nc =~= old(self).children_after_add(id, parent));
            let n = id + 1;
            let par = self.parents@;
            assert forall|q: int| 0 <= q < n implies (#[trigger] nc[q]).len() <= n && nc[q].no_duplicates() by {
                if parent_id != id && q == parent_id {
                    assert(forall|j: int| 0 <= j < oc[q].len() ==> oc[q][j] < id);
                }
            }
            assert forall|q: int, j: int|
                0 <= q < n && 0 <= j < nc[q].len() implies q < #[trigger] nc[q][j] < n
                && par[nc[q][j] as int] == q by {
                if parent_id != id && q == parent_id && j == nc[q].len() - 1 {
                } else if q < id {
                    assert(nc[q][j] == oc[q][j]);
                }
            }
            assert forall|c: int|
                0 <= c < n && #[trigger] par[c] != c implies nc[par[c] as int].contains(c as Id) by {
                if c == id {
                    assert(nc[par[c] as int].last() == id);
                } else {
                    let pc = par[c] as int;
                    let j = choose|j: int| 0 <= j < oc[pc].len() && oc[pc][j] == c as Id;
                    assert(nc[pc][j] == c as Id);
                }
            }
        }
        id
    }
}

impl<P> UiState<P> {
    /// Takes the oldest output of the widgets.
    pub fn poll_widget_outputs(&mut self) -> (r: Option<WidgetOutput<P>>)
        ensures
            old(self).spec_outputs().len() == 0 ==> r is None && final(self).spec_outputs() == old(self).spec_outputs(),
            old(self).spec_outputs().len() > 0 ==> r == Some(old(self).spec_outputs()[0])
                && final(self).spec_outputs() == old(self).spec_outputs().drop_first(),
            final(self).same_tree(old(self)),
            final(self).spec_geom() == old(self).spec_geom(),
            final(self).spec_widgets() == old(self).spec_widgets(),
            final(self).spec_active() == old(self).spec_active(),
            final(self).spec_inputs() == old(self).spec_inputs(),
            old(self).wf() ==> final(self).wf(),
    {
        let r = self.widget_output_queue.pop_front();
        proof {
            if old(self).spec_outputs().len() > 0 {
                assert(self.widget_output_queue@ =~= old(self).spec_outputs().drop_first());
            }
        }
        r
    }

    /// All widgets, by id.
    pub fn widgets(&self) -> (r: &[AnyWidget<P>])
        ensures
            r@ == self.spec_widgets(),
    {
        self.widgets.as_slice()
    }

    /// Replaces the layout settings of widget `id`.
    pub fn set_widget_attributes(&mut self, id: Id, attribs: LayoutAttributes)
        requires
            old(self).wf(),
            id < old(self).spec_len(),
        ensures
            final(self).wf(),
            final(self).spec_attributes() == old(self).spec_attributes().update(id as int, attribs),
            final(self).spec_len() == old(self).spec_len(),
            final(self).spec_children() == old(self).spec_children(),
            final(self).spec_parents() == old(self).spec_parents(),
            final(self).spec_geom() == old(self).spec_geom(),
            final(self).spec_widgets() == old(self).spec_widgets(),
            final(self).spec_active() == old(self).spec_active(),
            final(self).spec_outputs() == old(self).spec_outputs(),
            final(self).spec_inputs() == old(self).spec_inputs(),
    {
        self.attributes.set(id, attribs);
    }

    /// Replaces the alignment of widget `id`.
    pub fn set_alignment(&mut self, id: Id, alignment: Alignment)
        requires
            old(self).wf(),
            id < old(self).spec_len(),
        ensures
            final(self).wf(),
            final(self).spec_attributes() == old(self).spec_attributes().update(
                id as int,
                LayoutAttributes { alignment: alignment, ..old(self).spec_attributes()[id as int] },
            ),
            final(self).spec_len() == old(self).spec_len(),
            final(self).spec_children() == old(self).spec_children(),
            final(self).spec_parents() == old(self).spec_parents(),
            final(self).spec_geom() == old(self).spec_geom(),
            final(self).spec_widgets() == old(self).spec_widgets(),
            final(self).spec_active() == old(self).spec_active(),
            final(self).spec_outputs() == old(self).spec_outputs(),
            final(self).spec_inputs() == old(self).spec_inputs(),
    {
        let mut a = self.attributes[id];
        a.alignment = alignment;
        self.attributes.set(id, a);
    }

    /// Replaces the horizontal alignment of widget `id`.
    pub fn set_alignment_x(&mut self, id: Id, a: AlignmentX)
        requires
            old(self).wf(),
            id < old(self).spec_len(),
        ensures
            final(self).wf(),
            final(self).spec_attributes() == old(self).spec_attributes().update(
                id as int,
                LayoutAttributes {
                    alignment: Alignment { x: a, ..old(self).spec_attributes()[id as int].alignment },
                    ..old(self).spec_attributes()[id as int]
                },
            ),
            final(self).spec_len() == old(self).spec_len(),
            final(self).spec_children() == old(self).spec_children(),
            final(self).spec_parents() == old(self).spec_parents(),
            final(self).spec_geom() == old(self).spec_geom(),
            final(self).spec_widgets() == old(self).spec_widgets(),
            final(self).spec_active() == old(self).spec_active(),
            final(self).spec_outputs() == old(self).spec_outputs(),
            final(self).spec_inputs() == old(self).spec_inputs(),
    {
        let mut attr = self.attributes[id];
        attr.alignment.x = a;
        self.attributes.set(id, attr);
    }

    /// Replaces the vertical alignment of widget `id`.
    pub fn set_alignment_y(&mut self, id: Id, a: AlignmentY)
        requires
            old(self).wf(),
            id < old(self).spec_len(),
        ensures
            final(self).wf(),
            final(self).spec_attributes() == old(self).spec_attributes().update(
                id as int,
                LayoutAttributes {
                    alignment: Alignment { y: a, ..old(self).spec_attributes()[id as int].alignment },
                    ..old(self).spec_attributes()[id as int]
                },
            ),
            final(self).spec_len() == old(self).spec_len(),
            final(self).spec_children() == old(self).spec_children(),
            final(self).spec_parents() == old(self).spec_parents(),
            final(self).spec_geom() == old(self).spec_geom(),
            final(self).spec_widgets() == old(self).spec_widgets(),
            final(self).spec_active() == old(self).spec_active(),
            final(self).spec_outputs() == old(self).spec_outputs(),
            final(self).spec_inputs() == old(self).spec_inputs(),
    {
        let mut attr = self.attributes[id];
        attr.alignment.y = a;
        self.attributes.set(id, attr);
    }

    /// The widget with the largest id whose geometry holds `pos`. Children
    /// have larger ids than their parents, so this is the deepest widget
    /// there.
    pub fn get_widget(&self, pos: Position) -> (r: Option<Id>)
        ensures
            r == hit(self.spec_geom(), pos, self.spec_geom().len() as int),
            r matches Some(id) ==> id < self.spec_geom().len()
                && self.spec_geom()[id as int].spec_contains_position(pos)
                && forall|j: int| id < j < self.spec_geom().len() ==> !(#[trigger] self.spec_geom()[j]).spec_contains_position(pos),
            r is None ==> forall|j: int| 0 <= j < self.spec_geom().len() ==> !(#[trigger] self.spec_geom()[j]).spec_contains_position(pos),
    {
        let mut id: usize = self.geom.len();
        while id > 0
            invariant
                id <= self.geom.len(),
                forall|j: int| id <= j < self.geom.len() ==> !(#[trigger] self.geom@[j]).spec_contains_position(pos),
                hit(self.geom@, pos, self.geom.len() as int) == hit(self.geom@, pos, id as int),
            decreases id,
        {
            id = id - 1;
            if self.geom[id].contains_position(pos) {
                return Some(id);
            }
        }
        None
    }

    /// Hands `wi.input` straight to its widget, bypassing the input queue:
    /// afterwards that widget behaves as it would once it has taken the
    /// value; the other widgets are untouched.
    pub fn push_input_to_widget(&mut self, wi: WidgetInput<P>)
        requires
            old(self).wf(),
            wi.widget_id < old(self).spec_len(),
        ensures
            final(self).wf(),
            final(self).same_tree(old(self)),
            final(self).spec_geom() == old(self).spec_geom(),
            final(self).spec_active() == old(self).spec_active(),
            final(self).spec_outputs() == old(self).spec_outputs(),
            final(self).spec_inputs() == old(self).spec_inputs(),
            final(self).spec_widgets().len() == old(self).spec_widgets().len(),
            forall|k: int|
                0 <= k < old(self).spec_len() && k != wi.widget_id ==> #[trigger] final(self).spec_widgets()[k]
                    == old(self).spec_widgets()[k],
            behaves_after(
                final(self).spec_widgets(),
                old(self).spec_widgets(),
                wi.widget_id as int,
                seq![Stimulus::Input(wi.input)],
            ),
    {
        let ghost w0 = self.widgets@;
        let ghost target = wi.widget_id;
        let ghost s = Stimulus::Input(wi.input);
        self.widgets[wi.widget_id].handle_widget_input(wi.input);
        proof {
            vstd::seq::axiom_seq_update_len(w0, target as int, self.widgets@[target as int]);
            assert forall|k: int| 0 <= k < old(self).spec_len() && k != target implies #[trigger] self.spec_widgets()[k]
                == old(self).spec_widgets()[k] by {
                vstd::seq::axiom_seq_update_different(w0, target as int, k, self.widgets@[target as int]);
            }
            let after = self.widgets@;
            let i = target as int;
            assert forall|b: BoxContraint, c: Seq<Id>, g: Seq<Option<Geometry>>, a: Seq<LayoutAttributes>|
                #[trigger] after[i].spec_layout(b, c, g, a) == w0[i].spec_layout_after(seq![s], b, c, g, a) by {
            }
            assert forall|h2: Seq<Stimulus<P>>, b: BoxContraint, c: Seq<Id>, g: Seq<Option<Geometry>>, a: Seq<LayoutAttributes>|
                #[trigger] after[i].spec_layout_after(h2, b, c, g, a) == w0[i].spec_layout_after(seq![s] + h2, b, c, g, a) by {
            }
            assert forall|h2: Seq<Stimulus<P>>, t: Stimulus<P>, out: Seq<WidgetOutput<P>>|
                #[trigger] after[i].spec_sends(h2, t, out) == w0[i].spec_sends(seq![s] + h2, t, out) by {
            }
        }
    }
}

impl LayoutAttributes {
    /// The layout settings a widget starts with: its default width and
    /// height constraints, aligned to the left and top.
    pub fn for_widget<P>(widget: &AnyWidget<P>) -> (r: Self)
        ensures
            r.alignment == Alignment::default_spec(),
            !(widget is Custom) ==> r.width == SizeConstraint::NoFlex && r.height == SizeConstraint::NoFlex,
    {
        Self { width: widget.default_width(), height: widget.default_height(), alignment: Alignment { x: AlignmentX::Left, y: AlignmentY::Top } }
    }
}

impl Alignment {
    /// Left and top.
    pub open spec fn default_spec() -> Alignment {
        Alignment { x: AlignmentX::Left, y: AlignmentY::Top }
    }
}

/// A widget waiting to be laid out, with the constraint it got.
#[derive(Debug, Clone, Copy)]
struct ProcessData {
    id: Id,
    bc: BoxContraint,
}

impl ProcessData {
    fn new(id: Id, bc: BoxContraint) -> (r: Self)
        ensures
            r.id == id,
            r.bc == bc,
    {
        Self { id, bc }
    }
}

/// The stack of widgets being laid out: each not laid out yet, ids
/// strictly decreasing from the top (a child above its parent), the root
/// at the bottom, and the root laid out once the stack is empty.
spec fn stack_ok(q: Seq<ProcessData>, lg: Seq<Option<Geometry>>, n: nat, root_bc: BoxContraint) -> bool {
    &&& forall|k: int| 0 <= k < q.len() ==> #[trigger] q[k].id < n && lg[q[k].id as int] is None
    &&& forall|k: int, l: int| 0 <= k < l < q.len() ==> #[trigger] q[k].id > #[trigger] q[l].id
    &&& forall|k: int| 0 <= k < q.len() ==> #[trigger] q[k].id + k + 1 >= q.len()
    &&& q.len() > 0 ==> q.last().id == 0 && q.last().bc == root_bc
    &&& q.len() == 0 ==> lg[0] is Some
}

/// A layout pass under way: the widgets waiting to be laid out, top
/// first, each with its constraint; the geometries of the widgets laid
/// out so far, relative to their parents; and the constraint each widget
/// was laid out within.
pub struct LayoutPass {
    pub stack: Seq<(Id, BoxContraint)>,
    pub geom: Seq<Option<Geometry>>,
    pub bcs: Seq<BoxContraint>,
}

/// `size` with each fixed extent of `a` as given and each flexible one
/// as large as `bc` allows.
pub open spec fn constrained_size(a: LayoutAttributes, size: Size, bc: BoxContraint) -> Size {
    Size {
        pixel_w: match a.width {
            SizeConstraint::NoFlex => size.pixel_w,
            SizeConstraint::Fixed(px) => px,
            SizeConstraint::Flex(_) => bc.max_w,
        },
        pixel_h: match a.height {
            SizeConstraint::NoFlex => size.pixel_h,
            SizeConstraint::Fixed(px) => px,
            SizeConstraint::Flex(_) => bc.max_h,
        },
    }
}

/// One step of a layout pass: the widget on top of the stack lays itself
/// out within its constraint. Where it gives its size, it leaves the
/// stack and is laid out at the origin of its parent with that size (its
/// fixed and flexible extents as its attributes say); where it asks for a
/// child, the child goes on top of it with the constraint it asked for.
pub open spec fn layout_step<P>(
    ws: Seq<AnyWidget<P>>,
    children: Seq<Seq<Id>>,
    attrs: Seq<LayoutAttributes>,
    s: LayoutPass,
) -> LayoutPass {
    let id = s.stack[0].0;
    let bc = s.stack[0].1;
    let r = ws[id as int].spec_layout(bc, children[id as int], s.geom, attrs);
    match r.0 {
        LayoutResult::Size(size) => LayoutPass {
            stack: s.stack.drop_first(),
            geom: r.1.update(
                id as int,
                Some(
                    Geometry {
                        pos: Position { x: 0, y: 0 },
                        size: constrained_size(attrs[id as int], size, bc),
                    },
                ),
            ),
            bcs: s.bcs.update(id as int, bc),
        },
        LayoutResult::RequestChild(c, cbc) => LayoutPass {
            stack: seq![(c, cbc), (id, bc)] + s.stack.drop_first(),
            geom: r.1,
            bcs: s.bcs,
        },
    }
}

/// A layout pass run from `s` until the stack is empty. Each step lays a
/// widget out or puts a child that is not laid out yet on the stack, so
/// the pass ends; a step that would do neither (a widget that breaks the
/// contract of `layout`) stops it where it is.
pub open spec fn layout_pass<P>(
    ws: Seq<AnyWidget<P>>,
    children: Seq<Seq<Id>>,
    attrs: Seq<LayoutAttributes>,
    s: LayoutPass,
) -> LayoutPass
    decreases count_none(s.geom), s.geom.len() - s.stack.len(),
{
    if s.stack.len() == 0 {
        s
    } else {
        let t = layout_step(ws, children, attrs, s);
        if t.geom.len() == s.geom.len() && (count_none(t.geom) < count_none(s.geom) || (count_none(
            t.geom,
        ) == count_none(s.geom) && s.stack.len() < t.stack.len() <= t.geom.len())) {
            layout_pass(ws, children, attrs, t)
        } else {
            s
        }
    }
}

/// The layout pass of `ws`, with the given children and attributes, from
/// the root (widget 0) within `root_bc`, no widget laid out yet.
pub open spec fn layout_of<P>(
    ws: Seq<AnyWidget<P>>,
    children: Seq<Seq<Id>>,
    attrs: Seq<LayoutAttributes>,
    root_bc: BoxContraint,
) -> LayoutPass {
    layout_pass(
        ws,
        children,
        attrs,
        LayoutPass {
            stack: seq![(0usize, root_bc)],
            geom: Seq::new(ws.len(), |i: int| None),
            bcs: Seq::new(ws.len(), |i: int| root_bc),
        },
    )
}

/// A root whose layout gives its size at once, touching no geometry, is
/// the only widget laid out: at the origin, with that size (its fixed and
/// flexible extents as its attributes say), within the root constraint.
pub proof fn law_root_sized_at_once<P>(
    ws: Seq<AnyWidget<P>>,
    children: Seq<Seq<Id>>,
    attrs: Seq<LayoutAttributes>,
    root_bc: BoxContraint,
    size: Size,
)
    requires
        ws.len() > 0,
        ws[0].spec_layout(root_bc, children[0], Seq::new(ws.len(), |i: int| None), attrs) == (
            LayoutResult::Size(size),
            Seq::<Option<Geometry>>::new(ws.len(), |i: int| None),
        ),
    ensures
        layout_of(ws, children, attrs, root_bc).geom == Seq::<Option<Geometry>>::new(
            ws.len(),
            |i: int| None,
        ).update(
            0,
            Some(
                Geometry {
                    pos: Position { x: 0, y: 0 },
                    size: constrained_size(attrs[0], size, root_bc),
                },
            ),
        ),
        layout_of(ws, children, attrs, root_bc).bcs == Seq::new(ws.len(), |i: int| root_bc),
{
    let init = LayoutPass {
        stack: seq![(0usize, root_bc)],
        geom: Seq::new(ws.len(), |i: int| None),
        bcs: Seq::new(ws.len(), |i: int| root_bc),
    };
    let t = layout_step(ws, children, attrs, init);
    let g = Geometry { pos: Position { x: 0, y: 0 }, size: constrained_size(attrs[0], size, root_bc) };
    assert(t.stack =~= Seq::<(Id, BoxContraint)>::empty());
    lemma_count_set(init.geom, 0, g);
    assert(t.bcs =~= init.bcs);
    assert(layout_pass(ws, children, attrs, t) == t);
}

/// Whether the flex factors along `dir` of `children` add up within an
/// `i32`.
fn children_flex_sum_fits(children: &[Id], attrs: &Vec<LayoutAttributes>, dir: FlexDir) -> (r: bool)
    requires
        forall|k: int| 0 <= k < children.len() ==> children[k] < attrs.len(),
    ensures
        r == (flex_sum(children@, attrs@, dir) <= i32::MAX),
{
    let mut sum: i64 = 0;
    let mut i: usize = 0;
    proof {
        assert(children@.take(0) =~= Seq::<Id>::empty());
    }
    while i < children.len()
        invariant
            i <= children.len(),
            forall|k: int| 0 <= k < children.len() ==> children[k] < attrs.len(),
            sum == flex_sum(children@.take(i as int), attrs@, dir),
            0 <= sum <= i32::MAX,
        decreases children.len() - i,
    {
        proof {
            assert(children@.take(i + 1).drop_last() =~= children@.take(i as int));
        }
        match attrs[children[i]].constraint(dir) {
            SizeConstraint::Flex(f) => {
                sum = sum + f as i64;
            },
            _ => {},
        }
        if sum > 2147483647 {
            proof {
                lemma_flex_sum_prefix(children@, attrs@, dir, i + 1);
            }
            return false;
        }
        i = i + 1;
    }
    proof {
        assert(children@.take(children.len() as int) =~= children@);
    }
    true
}

/// A flex factor is at most 255.
proof fn lemma_flex_sum_bound(children: Seq<Id>, attrs: Seq<LayoutAttributes>, dir: FlexDir)
    ensures
        flex_sum(children, attrs, dir) <= 255 * children.len(),
    decreases children.len(),
{
    if children.len() > 0 {
        lemma_flex_sum_bound(children.drop_last(), attrs, dir);
    }
}

/// The flex factors of a prefix of the children add up to at most those
/// of all of them, and never below zero.
pub proof fn lemma_flex_sum_prefix(children: Seq<Id>, attrs: Seq<LayoutAttributes>, dir: FlexDir, i: int)
    requires
        0 <= i <= children.len(),
    ensures
        0 <= flex_sum(children.take(i), attrs, dir) <= flex_sum(children, attrs, dir),
    decreases children.len(),
{
    if i < children.len() {
        lemma_flex_sum_prefix(children.drop_last(), attrs, dir, i);
        assert(children.drop_last().take(i) =~= children.take(i));
        lemma_flex_sum_prefix(children.drop_last(), attrs, dir, children.len() - 1);
        assert(children.drop_last().take(children.len() - 1) =~= children.drop_last());
    } else {
        assert(children.take(i) =~= children);
        if i > 0 {
            lemma_flex_sum_prefix(children.drop_last(), attrs, dir, i - 1);
            assert(children.drop_last().take(i - 1) =~= children.drop_last());
        }
    }
}

/// The stack of a pass as ids and constraints.
spec fn stack_view(q: Seq<ProcessData>) -> Seq<(Id, BoxContraint)> {
    q.map_values(|p: ProcessData| (p.id, p.bc))
}

/// Runs the layout pass from the root down, on a stack: a widget that
/// asks for a child is put back under that child. Gives the geometry of
/// every widget that was laid out, relative to its parent, and the
/// constraint each was laid out within.
fn compute_layout<P>(root_bc: &BoxContraint, state: &mut UiState<P>) -> (res: (
    Vec<Option<Geometry>>,
    Ghost<Seq<BoxContraint>>,
))
    requires
        old(state).wf(),
        old(state).spec_len() > 0,
        old(state).spec_flex_sums_fit(),
    ensures
        final(state).wf(),
        final(state).same_tree(old(state)),
        final(state).spec_geom() == old(state).spec_geom(),
        final(state).spec_active() == old(state).spec_active(),
        final(state).spec_outputs() == old(state).spec_outputs(),
        final(state).spec_inputs() == old(state).spec_inputs(),
        final(state).spec_widgets().len() == old(state).spec_widgets().len(),
        res.0.len() == old(state).spec_len(),
        res.1@.len() == old(state).spec_len(),
        res.0[0] is Some,
        res.1@[0] == *root_bc,
        res.0@ == layout_of(
            old(state).spec_widgets(),
            old(state).spec_children(),
            old(state).spec_attributes(),
            *root_bc,
        ).geom,
        res.1@ == layout_of(
            old(state).spec_widgets(),
            old(state).spec_children(),
            old(state).spec_attributes(),
            *root_bc,
        ).bcs,
        forall|i: int|
            0 <= i < res.0.len() && #[trigger] res.0[i] is Some ==> sizes_respected(
                old(state).spec_attributes()[i],
                res.0[i]->0.size,
                res.1@[i],
            ),
        forall|i: int|
            0 <= i < res.0.len() && #[trigger] res.0[i] is Some ==> sized_by_own_layout(
                old(state).spec_widgets(),
                old(state).spec_children(),
                old(state).spec_attributes(),
                res.1@,
                i,
                res.0[i]->0.size,
            ),
{
    let n = state.widgets.len();
    let ghost cv = children_view(state.children@);
    let ghost attrs = state.attributes@;
    let mut process_queue: VecDeque<ProcessData> = VecDeque::new();
    let mut ctx = LayoutContext::new(n, &state.attributes);
    let ghost mut bcs: Seq<BoxContraint> = Seq::new(n as nat, |i: int| *root_bc);
    let ghost ws0 = state.spec_widgets();
    let ghost init = LayoutPass {
        stack: seq![(0usize, *root_bc)],
        geom: Seq::new(n as nat, |i: int| None),
        bcs: Seq::new(n as nat, |i: int| *root_bc),
    };

    // Start by processing the root
    process_queue.push_back(ProcessData::new(0, *root_bc));
    assert(process_queue@ =~= seq![ProcessData { id: 0, bc: *root_bc }]);
    proof {
        assert(stack_view(process_queue@) =~= init.stack);
        assert(ctx.layout_geom@ =~= init.geom);
        assert(init == LayoutPass { stack: stack_view(process_queue@), geom: ctx.layout_geom@, bcs });
        assert(ws0 == state.widgets@);
    }

    while process_queue.len() > 0
        invariant
            state.wf(),
            state.widgets.len() == n,
            n == old(state).spec_len(),
            n > 0,
            old(state).spec_flex_sums_fit(),
            state.same_tree(old(state)),
            state.spec_geom() == old(state).spec_geom(),
            state.spec_active() == old(state).spec_active(),
            state.spec_outputs() == old(state).spec_outputs(),
            state.spec_inputs() == old(state).spec_inputs(),
            cv == children_view(state.children@),
            attrs == state.attributes@,
            ctx.attributes@ == attrs,
            ctx.layout_geom.len() == n,
            stack_ok(process_queue@, ctx.layout_geom@, n as nat, *root_bc),
            bcs.len() == n,
            bcs[0] == *root_bc,
            forall|i: int|
                0 <= i < n && #[trigger] ctx.layout_geom[i] is Some ==> sizes_respected(
                    attrs[i],
                    ctx.layout_geom[i]->0.size,
                    bcs[i],
                ),
            ws0.len() == n,
            ws0 == old(state).spec_widgets(),
            forall|i: int|
                0 <= i < n && #[trigger] ctx.layout_geom[i] is Some ==> sized_by_own_layout(
                    ws0,
                    cv,
                    attrs,
                    bcs,
                    i,
                    ctx.layout_geom[i]->0.size,
                ),
            init == (LayoutPass {
                stack: seq![(0usize, *root_bc)],
                geom: Seq::new(n as nat, |i: int| None),
                bcs: Seq::new(n as nat, |i: int| *root_bc),
            }),
            forall|i: int, b: BoxContraint, c: Seq<Id>, g: Seq<Option<Geometry>>, a: Seq<LayoutAttributes>|
                0 <= i < n ==> #[trigger] state.widgets@[i].spec_layout(b, c, g, a) == ws0[i].spec_layout(
                    b,
                    c,
                    g,
                    a,
                ),
            layout_pass(
                ws0,
                cv,
                attrs,
                LayoutPass { stack: stack_view(process_queue@), geom: ctx.layout_geom@, bcs },
            ) == layout_pass(ws0, cv, attrs, init),
        decreases count_none(ctx.layout_geom@), n - process_queue@.len(),
    {
        let ghost q0 = process_queue@;
        let process_data = process_queue.pop_front().unwrap();
        let id = process_data.id;
        let ghost g_before = ctx.layout_geom@;
        let ghost w0 = state.widgets@;
        let ghost bcs_before = bcs;
        let ghost cur = LayoutPass { stack: stack_view(q0), geom: g_before, bcs: bcs_before };
        proof {
            assert(q0[0] == process_data);
            assert(state.children@[id as int]@ == cv[id as int]);
            assert(cv[id as int].len() <= n);
            assert(flex_sum(cv[id as int], attrs, FlexDir::X) <= i32::MAX);
            assert(flex_sum(cv[id as int], attrs, FlexDir::Y) <= i32::MAX);
        }
        let res = state.widgets[id].layout(&process_data.bc, state.children[id].as_slice(), &mut ctx);
        proof {
            vstd::seq::axiom_seq_update_len(w0, id as int, state.widgets@[id as int]);
            assert forall|i: int, b: BoxContraint, c: Seq<Id>, g: Seq<Option<Geometry>>, a: Seq<LayoutAttributes>|
                0 <= i < n implies #[trigger] state.widgets@[i].spec_layout(b, c, g, a) == ws0[i].spec_layout(
                b,
                c,
                g,
                a,
            ) by {
                if i != id {
                    vstd::seq::axiom_seq_update_different(w0, id as int, i, state.widgets@[id as int]);
                }
            }
            assert(stack_view(q0)[0] == (id, process_data.bc));
            assert((res, ctx.layout_geom@) == ws0[id as int].spec_layout(
                process_data.bc,
                cv[id as int],
                g_before,
                attrs,
            ));
            lemma_count_same(g_before, ctx.layout_geom@);
            assert forall|i: int|
                0 <= i < n && #[trigger] ctx.layout_geom[i] is Some implies sizes_respected(
                attrs[i],
                ctx.layout_geom[i]->0.size,
                bcs[i],
            ) && sized_by_own_layout(ws0, cv, attrs, bcs, i, ctx.layout_geom[i]->0.size) by {
                assert(g_before[i] is Some);
            }
        }
        match res {
            LayoutResult::Size(size) => {
                let ghost given = size;
                let mut size = size;
                match state.attributes[id].width {
                    SizeConstraint::NoFlex => {},
                    SizeConstraint::Fixed(px) => {
                        size.pixel_w = px;
                    },
                    SizeConstraint::Flex(_) => {
                        size.pixel_w = process_data.bc.max_w;
                    },
                };
                match state.attributes[id].height {
                    SizeConstraint::NoFlex => {},
                    SizeConstraint::Fixed(px) => {
                        size.pixel_h = px;
                    },
                    SizeConstraint::Flex(_) => {
                        size.pixel_h = process_data.bc.max_h;
                    },
                };
                let geom = Geometry { pos: Position { x: 0, y: 0 }, size };
                let ghost g_mid = ctx.layout_geom@;
                ctx.layout_geom.set(id, Some(geom));
                proof {
                    if id == 0 {
                        assert(q0.len() == 1);
                        assert(q0.last() == process_data);
                    }
                    let ghost bcs_mid = bcs;
                    bcs = bcs.update(id as int, process_data.bc);
                    lemma_count_set(g_mid, id as int, geom);
                    assert(size == constrained_size(attrs[id as int], given, process_data.bc));
                    assert forall|i: int|
                        0 <= i < n && #[trigger] ctx.layout_geom[i] is Some implies sized_by_own_layout(
                        ws0,
                        cv,
                        attrs,
                        bcs,
                        i,
                        ctx.layout_geom[i]->0.size,
                    ) by {
                        if i == id {
                            assert(ws0[i].spec_layout(bcs[i], cv[i], g_before, attrs).0 == LayoutResult::Size(given));
                            assert(ctx.layout_geom[i]->0.size == constrained_size(attrs[i], given, bcs[i]));
                        } else {
                            assert(g_mid[i] is Some);
                            assert(bcs[i] == bcs_mid[i]);
                            let (wg, ws_) = choose|wg: Seq<Option<Geometry>>, ws_: Size|
                                #![trigger ws0[i].spec_layout(bcs_mid[i], cv[i], wg, attrs), constrained_size(attrs[i], ws_, bcs_mid[i])]
                                ws0[i].spec_layout(bcs_mid[i], cv[i], wg, attrs).0 == LayoutResult::Size(ws_)
                                    && g_mid[i]->0.size == constrained_size(attrs[i], ws_, bcs_mid[i]);
                            assert(ws0[i].spec_layout(bcs[i], cv[i], wg, attrs).0 == LayoutResult::Size(ws_));
                            assert(ctx.layout_geom[i]->0.size == constrained_size(attrs[i], ws_, bcs[i]));
                        }
                    }
                    let q = process_queue@;
                    assert forall|k: int| 0 <= k < q.len() implies #[trigger] q[k].id < n
                        && ctx.layout_geom@[q[k].id as int] is None by {
                        assert(q[k] == q0[k + 1]);
                        assert(q0[0].id > q0[k + 1].id);
                    }
                    assert forall|k: int, l: int| 0 <= k < l < q.len() implies #[trigger] q[k].id > #[trigger] q[l].id by {
                        assert(q[k] == q0[k + 1]);
                        assert(q[l] == q0[l + 1]);
                    }
                    assert forall|k: int| 0 <= k < q.len() implies #[trigger] q[k].id + k + 1 >= q.len() by {
                        assert(q[k] == q0[k + 1]);
                    }
                    if q.len() > 0 {
                        assert(q.last() == q0.last());
                    } else {
                        assert(q0.len() == 1);
                        assert(id == 0);
                    }
                }
            },
            LayoutResult::RequestChild(child_id, child_constraint) => {
                proof {
                    let c = cv[id as int];
                    let j = choose|j: int| 0 <= j < c.len() && c[j] == child_id;
                    assert(id < c[j] < n);
                }
                process_queue.push_front(process_data);
                process_queue.push_front(ProcessData::new(child_id, child_constraint));
                proof {
                    let q = process_queue@;
                    assert(q[0].id == child_id);
                    assert(q[1] == process_data);
                    assert forall|k: int| 2 <= k < q.len() implies q[k] == q0[k - 1] by {}
                    assert forall|k: int| 0 <= k < q.len() implies #[trigger] q[k].id < n
                        && ctx.layout_geom@[q[k].id as int] is None by {
                        if k >= 2 {
                            assert(q[k] == q0[k - 1]);
                        }
                    }
                    assert forall|k: int, l: int| 0 <= k < l < q.len() implies #[trigger] q[k].id > #[trigger] q[l].id by {
                        if l >= 2 {
                            assert(q[l] == q0[l - 1]);
                            assert(q0[0].id >= q0[l - 1].id);
                        }
                        if k >= 1 {
                            assert(q[k] == q0[k - 1]);
                        }
                    }
                    assert forall|k: int| 0 <= k < q.len() implies #[trigger] q[k].id + k + 1 >= q.len() by {
                        if k >= 1 {
                            assert(q[k] == q0[k - 1]);
                        }
                        assert(q0[0].id + 1 >= q0.len());
                    }
                    assert(q.last() == q0.last());
                }
            },
        };
        proof {
            let t = layout_step(ws0, cv, attrs, cur);
            assert(t.stack =~= stack_view(process_queue@));
            assert(t.geom =~= ctx.layout_geom@);
            assert(t.bcs =~= bcs);
            assert(t == LayoutPass { stack: stack_view(process_queue@), geom: ctx.layout_geom@, bcs });
            if process_queue@.len() > 0 {
                assert(process_queue@[0].id + 1 >= process_queue@.len());
            }
            assert(layout_pass(ws0, cv, attrs, cur) == layout_pass(ws0, cv, attrs, t));
        }
    }
    proof {
        assert(stack_view(process_queue@) =~= Seq::<(Id, BoxContraint)>::empty());
    }
    (ctx.layout_geom, Ghost(bcs))
}

/// Moves each child of widget `id` by the position of `id`.
fn propagate_positions(id: Id, children: &[Id], geoms: &mut Vec<Geometry>)
    requires
        id < old(geoms).len(),
        children@.no_duplicates(),
        forall|j: int| 0 <= j < children.len() ==> id < #[trigger] children[j] < old(geoms).len(),
    ensures
        final(geoms).len() == old(geoms).len(),
        forall|i: int|
            0 <= i < old(geoms).len() ==> (#[trigger] final(geoms)@[i]).size == old(geoms)@[i].size,
        forall|i: int|
            0 <= i < old(geoms).len() ==> (#[trigger] final(geoms)@[i]).pos == if children@.contains(
                i as Id,
            ) {
                pos_add(old(geoms)@[i].pos, old(geoms)@[id as int].pos)
            } else {
                old(geoms)@[i].pos
            },
{
    let pos = geoms[id].pos;
    let mut k: usize = 0;
    while k < children.len()
        invariant
            k <= children.len(),
            geoms.len() == old(geoms).len(),
            children@.no_duplicates(),
            forall|j: int| 0 <= j < children.len() ==> id < #[trigger] children[j] < old(geoms).len(),
            pos == old(geoms)@[id as int].pos,
            forall|i: int| 0 <= i < geoms.len() ==> (#[trigger] geoms@[i]).size == old(geoms)@[i].size,
            forall|i: int|
                0 <= i < geoms.len() ==> (#[trigger] geoms@[i]).pos == if children@.take(
                    k as int,
                ).contains(i as Id) {
                    pos_add(old(geoms)@[i].pos, pos)
                } else {
                    old(geoms)@[i].pos
                },
        decreases children.len() - k,
    {
        let child_id = children[k];
        let g = geoms[child_id];
        proof {
            let t0 = children@.take(k as int);
            assert(!t0.contains(child_id)) by {
                if t0.contains(child_id) {
                    let m = choose|m: int| 0 <= m < t0.len() && t0[m] == child_id;
                    assert(children@[m] == children@[k as int]);
                }
            }
        }
        geoms.set(child_id, Geometry { pos: g.pos.add(pos), size: g.size });
        proof {
            let t0 = children@.take(k as int);
            let t1 = children@.take(k + 1);
            assert(t1 =~= t0.push(child_id));
            assert forall|i: int| 0 <= i < geoms.len() implies (#[trigger] t1.contains(i as Id)
                <==> (t0.contains(i as Id) || i == child_id as int)) by {
                if t1.contains(i as Id) {
                    let m = choose|m: int| 0 <= m < t1.len() && t1[m] == i as Id;
                    if m < k {
                        assert(t0[m] == i as Id);
                    }
                }
                if t0.contains(i as Id) {
                    let m = choose|m: int| 0 <= m < t0.len() && t0[m] == i as Id;
                    assert(t1[m] == i as Id);
                }
                if i == child_id as int {
                    assert(t1[k as int] == i as Id);
                }
            }
        }
        k = k + 1;
    }
    proof {
        assert(children@.take(children.len() as int) =~= children@);
    }
}

/// Stores the geometries the layout pass gave, moves the first root by
/// `offset`, then turns every position relative to the parent into a
/// position on screen, parents before children.
fn apply_layout<P>(state: &mut UiState<P>, lg: &Vec<Option<Geometry>>, offset: Position)
    requires
        old(state).wf(),
        old(state).spec_len() > 0,
        lg.len() == old(state).spec_len(),
    ensures
        final(state).wf(),
        final(state).same_tree(old(state)),
        final(state).spec_widgets() == old(state).spec_widgets(),
        final(state).spec_active() == old(state).spec_active(),
        final(state).spec_outputs() == old(state).spec_outputs(),
        final(state).spec_inputs() == old(state).spec_inputs(),
        forall|i: int|
            0 <= i < lg.len() ==> (#[trigger] final(state).spec_geom()[i]).size == (if lg[i] is Some {
                lg[i]->0.size
            } else {
                old(state).spec_geom()[i].size
            }),
        forall|i: int|
            0 <= i < lg.len() ==> (#[trigger] final(state).spec_geom()[i]).pos == abs_pos(
                pre_positions(old(state).spec_geom(), lg@),
                old(state).spec_parents(),
                offset,
                i,
            ),
{
    let n = state.geom.len();
    let ghost old_geom = state.geom@;
    let ghost pre = pre_positions(old_geom, lg@);
    let ghost par = state.parents@;
    let ghost cv = children_view(state.children@);
    let mut id: usize = 0;
    while id < n
        invariant
            id <= n,
            n == old_geom.len(),
            lg.len() == n,
            state.wf(),
            state.same_tree(old(state)),
            state.spec_widgets() == old(state).spec_widgets(),
            state.spec_active() == old(state).spec_active(),
            state.spec_outputs() == old(state).spec_outputs(),
            state.spec_inputs() == old(state).spec_inputs(),
            state.geom.len() == n,
            forall|i: int|
                0 <= i < n ==> #[trigger] state.geom@[i] == if i < id && lg@[i] is Some {
                    lg@[i]->0
                } else {
                    old_geom[i]
                },
        decreases n - id,
    {
        match lg[id] {
            Some(g) => {
                state.geom.set(id, g);
            },
            None => {},
        }
        id = id + 1;
    }

    // set root position to offset
    let g0 = state.geom[0];
    state.geom.set(0, Geometry { pos: g0.pos.add(offset), size: g0.size });

    // propagate geom positions
    let mut id: usize = 0;
    while id < n
        invariant
            id <= n,
            n == old_geom.len(),
            lg.len() == n,
            state.wf(),
            state.same_tree(old(state)),
            state.spec_widgets() == old(state).spec_widgets(),
            state.spec_active() == old(state).spec_active(),
            state.spec_outputs() == old(state).spec_outputs(),
            state.spec_inputs() == old(state).spec_inputs(),
            state.geom.len() == n,
            cv == children_view(state.children@),
            par == state.parents@,
            pre == pre_positions(old_geom, lg@),
            tree_wf(cv, par),
            forall|i: int|
                0 <= i < n ==> (#[trigger] state.geom@[i]).size == (if lg@[i] is Some {
                    lg@[i]->0.size
                } else {
                    old_geom[i].size
                }),
            forall|c: int|
                0 <= c < n ==> (#[trigger] state.geom@[c]).pos == if par[c] != c && par[c] < id {
                    pos_add(pre[c], abs_pos(pre, par, offset, par[c] as int))
                } else if c == 0 {
                    pos_add(pre[0], offset)
                } else {
                    pre[c]
                },
        decreases n - id,
    {
        proof {
            assert(state.children@[id as int]@ == cv[id as int]);
            assert(par[id as int] <= id);
            assert(state.geom@[id as int].pos == abs_pos(pre, par, offset, id as int));
        }
        let ghost before = state.geom@;
        propagate_positions(id, state.children[id].as_slice(), &mut state.geom);
        proof {
            assert forall|c: int| 0 <= c < n implies (#[trigger] state.geom@[c]).pos == if par[c] != c
                && par[c] < id + 1 {
                pos_add(pre[c], abs_pos(pre, par, offset, par[c] as int))
            } else if c == 0 {
                pos_add(pre[0], offset)
            } else {
                pre[c]
            } by {
                if cv[id as int].contains(c as Id) {
                    let j = choose|j: int| 0 <= j < cv[id as int].len() && cv[id as int][j] == c as Id;
                    assert(par[c] == id);
                } else if par[c] == id && par[c] != c {
                    assert(cv[par[c] as int].contains(c as Id));
                }
            }
        }
        id = id + 1;
    }
    proof {
        assert forall|i: int| 0 <= i < lg.len() implies (#[trigger] state.spec_geom()[i]).pos == abs_pos(
            pre,
            par,
            offset,
            i,
        ) by {
            assert(par[i] <= i);
        }
    }
}

/// Lays out all widgets within `root_bc`, the first root at the top left.
pub fn layout_widgets<P>(root_bc: &BoxContraint, state: &mut UiState<P>)
    requires
        old(state).wf(),
        old(state).spec_len() > 0,
        old(state).spec_flex_sums_fit(),
    ensures
        final(state).wf(),
        final(state).same_tree(old(state)),
        final(state).spec_widgets().len() == old(state).spec_widgets().len(),
        final(state).spec_active() == old(state).spec_active(),
        final(state).spec_outputs() == old(state).spec_outputs(),
        final(state).spec_inputs() == old(state).spec_inputs(),
        final(state).spec_geom().len() == final(state).spec_len(),
        layout_outcome(
            old(state).spec_geom(),
            old(state).spec_attributes(),
            old(state).spec_parents(),
            final(state).spec_geom(),
            layout_of(
                old(state).spec_widgets(),
                old(state).spec_children(),
                old(state).spec_attributes(),
                *root_bc,
            ).geom,
            layout_of(
                old(state).spec_widgets(),
                old(state).spec_children(),
                old(state).spec_attributes(),
                *root_bc,
            ).bcs,
            *root_bc,
            Position { x: 0, y: 0 },
        ),
        forall|i: int|
            0 <= i < old(state).spec_len() && layout_of(
                old(state).spec_widgets(),
                old(state).spec_children(),
                old(state).spec_attributes(),
                *root_bc,
            ).geom[i] is Some ==> sized_by_own_layout(
                old(state).spec_widgets(),
                old(state).spec_children(),
                old(state).spec_attributes(),
                layout_of(
                    old(state).spec_widgets(),
                    old(state).spec_children(),
                    old(state).spec_attributes(),
                    *root_bc,
                ).bcs,
                i,
                #[trigger] final(state).spec_geom()[i].size,
            ),
{
    layout_widgets_full(root_bc, state, Position { x: 0, y: 0 });
}

/// Lays out all widgets within `root_bc`, the first root at `offset`, by
/// the pass `layout_of` from the root down: each laid out widget gets the
/// size its layout gave (a fixed width or height as given, a flexible one
/// as large as its constraint allows) and its position on screen, its
/// position within its parent plus the parent's; the others keep their
/// size.
pub fn layout_widgets_full<P>(root_bc: &BoxContraint, state: &mut UiState<P>, offset: Position)
    requires
        old(state).wf(),
        old(state).spec_len() > 0,
        old(state).spec_flex_sums_fit(),
    ensures
        final(state).wf(),
        final(state).same_tree(old(state)),
        final(state).spec_widgets().len() == old(state).spec_widgets().len(),
        final(state).spec_active() == old(state).spec_active(),
        final(state).spec_outputs() == old(state).spec_outputs(),
        final(state).spec_inputs() == old(state).spec_inputs(),
        final(state).spec_geom().len() == final(state).spec_len(),
        layout_outcome(
            old(state).spec_geom(),
            old(state).spec_attributes(),
            old(state).spec_parents(),
            final(state).spec_geom(),
            layout_of(
                old(state).spec_widgets(),
                old(state).spec_children(),
                old(state).spec_attributes(),
                *root_bc,
            ).geom,
            layout_of(
                old(state).spec_widgets(),
                old(state).spec_children(),
                old(state).spec_attributes(),
                *root_bc,
            ).bcs,
            *root_bc,
            offset,
        ),
        forall|i: int|
            0 <= i < old(state).spec_len() && layout_of(
                old(state).spec_widgets(),
                old(state).spec_children(),
                old(state).spec_attributes(),
                *root_bc,
            ).geom[i] is Some ==> sized_by_own_layout(
                old(state).spec_widgets(),
                old(state).spec_children(),
                old(state).spec_attributes(),
                layout_of(
                    old(state).spec_widgets(),
                    old(state).spec_children(),
                    old(state).spec_attributes(),
                    *root_bc,
                ).bcs,
                i,
                #[trigger] final(state).spec_geom()[i].size,
            ),
{
    let (lg, Ghost(bcs)) = compute_layout(root_bc, state);
    apply_layout(state, &lg, offset);
    proof {
        assert(layout_outcome(
            old(state).spec_geom(),
            old(state).spec_attributes(),
            old(state).spec_parents(),
            state.spec_geom(),
            lg@,
            bcs,
            *root_bc,
            offset,
        ));
    }
}

/// An input for the widget named `to_widget_name` of the window named
/// `to_window_name`.
#[derive(Debug)]
pub struct NamedWidgetInput<P> {
    pub to_window_name: String,
    pub to_widget_name: String,
    pub input: P,
}

/// Inputs addressed to widgets by window and widget name, oldest first.
pub struct NamedWidgetInputQueue<P>(pub VecDeque<NamedWidgetInput<P>>);

impl<P> NamedWidgetInputQueue<P> {
    /// An empty queue.
    pub fn new() -> (r: Self)
        ensures
            r.0@.len() == 0,
    {
        NamedWidgetInputQueue(VecDeque::new())
    }

    /// Takes the oldest input.
    pub fn pop_front(&mut self) -> (r: Option<NamedWidgetInput<P>>)
        ensures
            old(self).0@.len() == 0 ==> r is None && final(self).0@ == old(self).0@,
            old(self).0@.len() > 0 ==> r == Some(old(self).0@[0]) && final(self).0@
                == old(self).0@.drop_first(),
    {
        let r = self.0.pop_front();
        proof {
            if old(self).0@.len() > 0 {
                assert(self.0@ =~= old(self).0@.drop_first());
            }
        }
        r
    }

    /// Queues `input` for widget `widget_name` of window `window_name`.
    pub fn send_value_to(&mut self, window_name: &str, widget_name: &str, input: P)
        ensures
            final(self).0@.len() == old(self).0@.len() + 1,
            final(self).0@.drop_last() == old(self).0@,
            final(self).0@.last().to_window_name@ == window_name@,
            final(self).0@.last().to_widget_name@ == widget_name@,
            final(self).0@.last().input == input,
    {
        self.send_to(window_name, widget_name, input);
    }

    /// Queues `input` for widget `widget_name` of window `window_name`.
    pub fn send_to(&mut self, window_name: &str, widget_name: &str, input: P)
        ensures
            final(self).0@.len() == old(self).0@.len() + 1,
            final(self).0@.drop_last() == old(self).0@,
            final(self).0@.last().to_window_name@ == window_name@,
            final(self).0@.last().to_widget_name@ == widget_name@,
            final(self).0@.last().input == input,
    {
        self.0.push_back(
            NamedWidgetInput {
                to_window_name: window_name.to_owned(),
                to_widget_name: widget_name.to_owned(),
                input,
            },
        );
        proof {
            assert(self.0@.drop_last() =~= old(self).0@);
        }
    }
}

} // verus!
