use vstd::prelude::*;

mod text_widget;
pub use self::text_widget::{sum_sizes, text_size, ContainerWidget, TextWidget};

mod container_widgets;
pub use self::container_widgets::{ColumnWidget, RowWidget};

mod checkbox_widget;
pub use self::checkbox_widget::CheckboxWidget;

mod line_pass;
mod flex_line_pass;
pub use self::flex_line_pass::{
    flex_bcs, flex_children_laid_out, flex_line_state, flex_share_bc, law_flex_line_of_sized_children,
};
pub use self::line_pass::{children_laid_out, law_line_of_sized_children, line_state};
use crate::widget_gui::{
    Alignment, AlignmentX, AlignmentY, BoxContraint, FlexDir, FlexInfo, Geometry, Id,
    LayoutAttributes, LayoutContext, LayoutResult, Pixel, Position, Size, SizeConstraint, flex_sum, lemma_flex_sum_prefix,
};

verus! {

/// The end of an axis a widget is aligned to.
pub enum AlignClass {
    Start,
    Center,
    End,
}

pub open spec fn x_class(a: AlignmentX) -> AlignClass {
    match a {
        AlignmentX::Left => AlignClass::Start,
        AlignmentX::Center => AlignClass::Center,
        AlignmentX::Right => AlignClass::End,
    }
}

pub open spec fn y_class(a: AlignmentY) -> AlignClass {
    match a {
        AlignmentY::Top => AlignClass::Start,
        AlignmentY::Center => AlignClass::Center,
        AlignmentY::Bottom => AlignClass::End,
    }
}

/// The alignment along the layout direction.
pub open spec fn align_class(a: Alignment, dir: FlexDir) -> AlignClass {
    match dir {
        FlexDir::X => x_class(a.x),
        FlexDir::Y => y_class(a.y),
    }
}

/// The space along the layout direction that `bc` allows at most.
pub open spec fn bc_main(bc: BoxContraint, dir: FlexDir) -> Pixel {
    match dir {
        FlexDir::X => bc.max_w,
        FlexDir::Y => bc.max_h,
    }
}

/// The extent of a size across the layout direction.
pub open spec fn cross_of(s: Size, dir: FlexDir) -> Pixel {
    match dir {
        FlexDir::X => s.pixel_h,
        FlexDir::Y => s.pixel_w,
    }
}

pub open spec fn flex_factor_of(c: SizeConstraint) -> int {
    match c {
        SizeConstraint::Flex(f) => f as int,
        _ => 0,
    }
}

/// Rust's integer division, which rounds towards zero, for `d > 0`.
pub open spec fn div_trunc(x: int, d: int) -> int {
    if x >= 0 {
        x / d
    } else {
        -((-x) / d)
    }
}

/// Walks the children in order: each child without flex takes its extent
/// (laid out or fixed) from the free space, each flexible child adds its
/// factor to the sum. Gives the free space left and the sum of factors.
pub open spec fn flex_fold(
    children: Seq<Id>,
    geom: Seq<Option<Geometry>>,
    attrs: Seq<LayoutAttributes>,
    dir: FlexDir,
    free0: Pixel,
) -> (Pixel, int)
    decreases children.len(),
{
    if children.len() == 0 {
        (free0, 0)
    } else {
        let prev = flex_fold(children.drop_last(), geom, attrs, dir, free0);
        let c = children.last();
        match attrs[c as int].spec_constraint(dir) {
            SizeConstraint::NoFlex => (
                prev.0.wrapping_sub(geom[c as int]->0.size.spec_from_flex(dir)),
                prev.1,
            ),
            SizeConstraint::Fixed(px) => (prev.0.wrapping_sub(px), prev.1),
            SizeConstraint::Flex(f) => (prev.0, prev.1 + f),
        }
    }
}

/// The free space divided among the flex factors, rounded towards zero;
/// 0 when no child flexes.
pub open spec fn spec_flex_info(
    bc: BoxContraint,
    children: Seq<Id>,
    geom: Seq<Option<Geometry>>,
    attrs: Seq<LayoutAttributes>,
    dir: FlexDir,
) -> FlexInfo {
    let (free, sum) = flex_fold(children, geom, attrs, dir, bc_main(bc, dir));
    FlexInfo {
        sum_flex_factor: sum as i32,
        space_per_flex: if sum != 0 {
            div_trunc(free as int, sum) as i32
        } else {
            0
        },
    }
}

/// Every child that does not flex along `dir` is laid out.
pub open spec fn nonflex_done(
    children: Seq<Id>,
    geom: Seq<Option<Geometry>>,
    attrs: Seq<LayoutAttributes>,
    dir: FlexDir,
) -> bool {
    forall|j: int|
        0 <= j < children.len() && !(attrs[children[j] as int].spec_constraint(dir) is Flex)
            ==> #[trigger] geom[children[j] as int] is Some
}

/// The first of `s[i..]` that satisfies `p`.
pub open spec fn first_from(s: Seq<Id>, i: int, p: spec_fn(Id) -> bool) -> Option<Id>
    decreases s.len() - i,
{
    if i < 0 || i >= s.len() {
        None
    } else if p(s[i]) {
        Some(s[i])
    } else {
        first_from(s, i + 1, p)
    }
}

/// A child not laid out yet whose extent along `dir` flexes (or, for
/// `flex == false`, does not flex).
pub open spec fn pending(
    geom: Seq<Option<Geometry>>,
    attrs: Seq<LayoutAttributes>,
    dir: FlexDir,
    flex: bool,
) -> spec_fn(Id) -> bool {
    |c: Id| (attrs[c as int].spec_constraint(dir) is Flex) == flex && geom[c as int] is None
}

/// The constraint a flexible child gets: exactly `v` along `dir`, at
/// most what `bc` allows across.
pub open spec fn flex_child_bc(bc: BoxContraint, dir: FlexDir, v: Pixel) -> BoxContraint {
    match dir {
        FlexDir::X => BoxContraint { min_w: v, min_h: 0, max_w: v, max_h: bc.max_h },
        FlexDir::Y => BoxContraint { min_w: 0, min_h: v, max_w: bc.max_w, max_h: v },
    }
}

/// What a row or column asks for before it can lay itself out: first the
/// children without flex, in order, with the row's own constraint; then,
/// when some child has a flex factor, each flexible child with its factor
/// times the space per factor.
pub open spec fn spec_preprocess(
    bc: BoxContraint,
    children: Seq<Id>,
    geom: Seq<Option<Geometry>>,
    attrs: Seq<LayoutAttributes>,
    dir: FlexDir,
) -> Option<LayoutResult> {
    match first_from(children, 0, pending(geom, attrs, dir, false)) {
        Some(c) => Some(LayoutResult::RequestChild(c, bc)),
        None => {
            let fi = spec_flex_info(bc, children, geom, attrs, dir);
            if fi.sum_flex_factor != 0 {
                match first_from(children, 0, pending(geom, attrs, dir, true)) {
                    Some(c) => Some(
                        LayoutResult::RequestChild(
                            c,
                            flex_child_bc(
                                bc,
                                dir,
                                (flex_factor_of(attrs[c as int].spec_constraint(dir))
                                    * fi.space_per_flex) as i32,
                            ),
                        ),
                    ),
                    None => None,
                }
            } else {
                None
            }
        }
    }
}

proof fn lemma_first_from_none(s: Seq<Id>, i: int, p: spec_fn(Id) -> bool)
    requires
        0 <= i <= s.len(),
        first_from(s, i, p) is None,
    ensures
        forall|j: int| i <= j < s.len() ==> !p(s[j]),
    decreases s.len() - i,
{
    if i < s.len() {
        lemma_first_from_none(s, i + 1, p);
    }
}

/// The extent a child takes along `dir` when it does not flex: its laid
/// out width (row) or height (column), or its fixed extent; 0 for a
/// flexible child.
pub open spec fn own_extent(c: Id, geom: Seq<Option<Geometry>>, attrs: Seq<LayoutAttributes>, dir: FlexDir) -> int {
    match attrs[c as int].spec_constraint(dir) {
        SizeConstraint::NoFlex => match dir {
            FlexDir::X => geom[c as int]->0.size.pixel_w as int,
            FlexDir::Y => geom[c as int]->0.size.pixel_h as int,
        },
        SizeConstraint::Fixed(px) => px as int,
        SizeConstraint::Flex(_) => 0,
    }
}

/// The extents the children that do not flex take along `dir`, added up.
pub open spec fn taken_extent(
    children: Seq<Id>,
    geom: Seq<Option<Geometry>>,
    attrs: Seq<LayoutAttributes>,
    dir: FlexDir,
) -> int
    decreases children.len(),
{
    if children.len() == 0 {
        0
    } else {
        taken_extent(children.drop_last(), geom, attrs, dir) + own_extent(children.last(), geom, attrs, dir)
    }
}

proof fn lemma_taken_nonneg(
    children: Seq<Id>,
    geom: Seq<Option<Geometry>>,
    attrs: Seq<LayoutAttributes>,
    dir: FlexDir,
)
    requires
        forall|j: int| 0 <= j < children.len() ==> own_extent(#[trigger] children[j], geom, attrs, dir) >= 0,
    ensures
        0 <= taken_extent(children, geom, attrs, dir),
    decreases children.len(),
{
    if children.len() > 0 {
        let pre = children.drop_last();
        assert forall|j: int| 0 <= j < pre.len() implies own_extent(#[trigger] pre[j], geom, attrs, dir) >= 0 by {
            assert(pre[j] == children[j]);
        }
        lemma_taken_nonneg(pre, geom, attrs, dir);
        assert(children.last() == children[children.len() - 1]);
    }
}

proof fn lemma_free_space(
    children: Seq<Id>,
    geom: Seq<Option<Geometry>>,
    attrs: Seq<LayoutAttributes>,
    dir: FlexDir,
    free0: Pixel,
)
    requires
        forall|j: int| 0 <= j < children.len() ==> own_extent(#[trigger] children[j], geom, attrs, dir) >= 0,
        taken_extent(children, geom, attrs, dir) <= free0,
    ensures
        flex_fold(children, geom, attrs, dir, free0).0 == free0 - taken_extent(children, geom, attrs, dir),
    decreases children.len(),
{
    if children.len() > 0 {
        let pre = children.drop_last();
        assert forall|j: int| 0 <= j < pre.len() implies own_extent(#[trigger] pre[j], geom, attrs, dir) >= 0 by {
            assert(pre[j] == children[j]);
        }
        lemma_taken_nonneg(pre, geom, attrs, dir);
        assert(children.last() == children[children.len() - 1]);
        lemma_free_space(pre, geom, attrs, dir, free0);
    }
}

/// In a row (`X`) or column (`Y`), each flex factor gets the space the
/// children that do not flex leave: the constraint's extent along the
/// line, less the extents those children take (laid out or fixed), divided
/// by the sum of the flex factors. Stated where those extents are not
/// negative, add up to at most the constraint's extent, and some child
/// flexes.
pub proof fn law_flex_space_is_what_the_others_leave(
    bc: BoxContraint,
    children: Seq<Id>,
    geom: Seq<Option<Geometry>>,
    attrs: Seq<LayoutAttributes>,
    dir: FlexDir,
)
    requires
        forall|j: int| 0 <= j < children.len() ==> own_extent(#[trigger] children[j], geom, attrs, dir) >= 0,
        taken_extent(children, geom, attrs, dir) <= (match dir {
            FlexDir::X => bc.max_w,
            FlexDir::Y => bc.max_h,
        }),
        0 < flex_sum(children, attrs, dir) <= i32::MAX,
    ensures
        spec_flex_info(bc, children, geom, attrs, dir).sum_flex_factor == flex_sum(children, attrs, dir),
        spec_flex_info(bc, children, geom, attrs, dir).space_per_flex == ((match dir {
            FlexDir::X => bc.max_w,
            FlexDir::Y => bc.max_h,
        }) - taken_extent(children, geom, attrs, dir)) / flex_sum(children, attrs, dir),
{
    let free0 = bc_main(bc, dir);
    lemma_free_space(children, geom, attrs, dir, free0);
    lemma_flex_fold_bounds(children, geom, attrs, dir, free0);
    lemma_taken_nonneg(children, geom, attrs, dir);
}

proof fn lemma_flex_fold_bounds(
    children: Seq<Id>,
    geom: Seq<Option<Geometry>>,
    attrs: Seq<LayoutAttributes>,
    dir: FlexDir,
    free0: Pixel,
)
    ensures
        flex_fold(children, geom, attrs, dir, free0).1 == flex_sum(children, attrs, dir),
        0 <= flex_sum(children, attrs, dir),
        forall|j: int|
            0 <= j < children.len() ==> flex_factor_of(
                #[trigger] attrs[children[j] as int].spec_constraint(dir),
            ) <= flex_fold(children, geom, attrs, dir, free0).1,
    decreases children.len(),
{
    if children.len() > 0 {
        let pre = children.drop_last();
        lemma_flex_fold_bounds(pre, geom, attrs, dir, free0);
        assert forall|j: int| 0 <= j < children.len() implies flex_factor_of(
            #[trigger] attrs[children[j] as int].spec_constraint(dir),
        ) <= flex_fold(children, geom, attrs, dir, free0).1 by {
            if j < children.len() - 1 {
                assert(pre[j] == children[j]);
            }
        }
    }
}

proof fn lemma_flex_share_fits(free: int, sum: int, f: int)
    requires
        i32::MIN <= free <= i32::MAX,
        0 <= f <= sum,
        0 < sum,
    ensures
        i32::MIN <= f * div_trunc(free, sum) <= i32::MAX,
{
    if free >= 0 {
        let q = free / sum;
        assert(0 <= q && q * sum <= free) by (nonlinear_arith)
            requires
                free >= 0,
                sum > 0,
                q == free / sum,
        ;
        assert(0 <= f * q <= q * sum) by (nonlinear_arith)
            requires
                0 <= f <= sum,
                q >= 0,
        ;
    } else {
        let q = (-free) / sum;
        assert(0 <= q && q * sum <= -free) by (nonlinear_arith)
            requires
                -free > 0,
                sum > 0,
                q == (-free) / sum,
        ;
        assert(0 <= f * q <= q * sum) by (nonlinear_arith)
            requires
                0 <= f <= sum,
                q >= 0,
        ;
        assert(f * (-q) == -(f * q)) by (nonlinear_arith);
    }
}

/// The flex factors and free space of the children of a row (`X`) or a
/// column (`Y`).
fn calc_flex_info(bc: &BoxContraint, children: &[Id], ctx: &LayoutContext, flex_dir: FlexDir) -> (r:
    FlexInfo)
    requires
        ctx.wf_for(children@),
        nonflex_done(children@, ctx.layout_geom@, ctx.attributes@, flex_dir),
    ensures
        r == spec_flex_info(*bc, children@, ctx.layout_geom@, ctx.attributes@, flex_dir),
{
    let mut free_space = match flex_dir {
        FlexDir::X => bc.max_w,
        FlexDir::Y => bc.max_h,
    };
    let mut sum_flex_factor: Pixel = 0;
    let mut i: usize = 0;
    proof {
        assert(children@.take(0) =~= Seq::<Id>::empty());
    }
    while i < children.len()
        invariant
            i <= children.len(),
            ctx.wf_for(children@),
            nonflex_done(children@, ctx.layout_geom@, ctx.attributes@, flex_dir),
            (free_space, sum_flex_factor as int) == flex_fold(
                children@.take(i as int),
                ctx.layout_geom@,
                ctx.attributes@,
                flex_dir,
                bc_main(*bc, flex_dir),
            ),
            0 <= sum_flex_factor,
        decreases children.len() - i,
    {
        let child_id = children[i];
        proof {
            assert(children@.take(i + 1).drop_last() =~= children@.take(i as int));
            lemma_flex_fold_bounds(children@.take(i + 1), ctx.layout_geom@, ctx.attributes@, flex_dir, bc_main(*bc, flex_dir));
            lemma_flex_sum_prefix(children@, ctx.attributes@, flex_dir, i + 1);
        }
        match ctx.attributes[child_id].constraint(flex_dir) {
            SizeConstraint::NoFlex => {
                assert(ctx.layout_geom@[children@[i as int] as int] is Some);
                let g = ctx.layout_geom[child_id].unwrap();
                free_space = free_space.wrapping_sub(g.size.from_flex(flex_dir));
            },
            SizeConstraint::Fixed(px) => {
                free_space = free_space.wrapping_sub(px);
            },
            SizeConstraint::Flex(factor) => {
                sum_flex_factor = sum_flex_factor + factor as Pixel;
            },
        };
        i = i + 1;
    }
    proof {
        assert(children@.take(children.len() as int) =~= children@);
        lemma_flex_fold_bounds(children@, ctx.layout_geom@, ctx.attributes@, flex_dir, bc_main(*bc, flex_dir));
    }
    let mut space_per_flex: Pixel = 0;
    if sum_flex_factor != 0 {
        space_per_flex = free_space.checked_div(sum_flex_factor).unwrap();
    }
    FlexInfo { sum_flex_factor, space_per_flex }
}


/// Asks for the next child a row or column needs laid out before it can
/// lay itself out, or gives `None` when there is none left.
fn preprocess_children(
    bc: &BoxContraint,
    children: &[Id],
    ctx: &LayoutContext,
    flex_dir: FlexDir,
) -> (r: Option<LayoutResult>)
    requires
        ctx.wf_for(children@),
    ensures
        r == spec_preprocess(*bc, children@, ctx.layout_geom@, ctx.attributes@, flex_dir),
        r is None ==> nonflex_done(children@, ctx.layout_geom@, ctx.attributes@, flex_dir),
{
    let ghost geom = ctx.layout_geom@;
    let ghost attrs = ctx.attributes@;
    let ghost p = pending(geom, attrs, flex_dir, false);
    // Process unflexible children first
    let mut i: usize = 0;
    while i < children.len()
        invariant
            i <= children.len(),
            ctx.wf_for(children@),
            geom == ctx.layout_geom@,
            attrs == ctx.attributes@,
            p == pending(geom, attrs, flex_dir, false),
            first_from(children@, 0, p) == first_from(children@, i as int, p),
        decreases children.len() - i,
    {
        let child_id = children[i];
        let is_flex = match ctx.attributes[child_id].constraint(flex_dir) {
            SizeConstraint::Flex(_) => true,
            _ => false,
        };
        if !is_flex && ctx.layout_geom[child_id].is_none() {
            return Some(LayoutResult::RequestChild(child_id, *bc));
        }
        i = i + 1;
    }
    proof {
        lemma_first_from_none(children@, 0, p);
        assert forall|j: int|
            0 <= j < children.len() && !(attrs[children[j] as int].spec_constraint(
                flex_dir,
            ) is Flex) implies #[trigger] geom[children[j] as int] is Some by {
            assert(!p(children[j]));
        }
    }
    let flex_info = calc_flex_info(bc, children, ctx, flex_dir);
    if flex_info.sum_flex_factor != 0 {
        let ghost q = pending(geom, attrs, flex_dir, true);
        proof {
            lemma_flex_fold_bounds(children@, geom, attrs, flex_dir, bc_main(*bc, flex_dir));
        }
        let mut j: usize = 0;
        while j < children.len()
            invariant
                j <= children.len(),
                ctx.wf_for(children@),
                geom == ctx.layout_geom@,
                attrs == ctx.attributes@,
                q == pending(geom, attrs, flex_dir, true),
                first_from(children@, 0, q) == first_from(children@, j as int, q),
                flex_info == spec_flex_info(*bc, children@, geom, attrs, flex_dir),
                flex_info.sum_flex_factor != 0,
                forall|k: int|
                    0 <= k < children.len() ==> flex_factor_of(
                        #[trigger] attrs[children[k] as int].spec_constraint(flex_dir),
                    ) <= flex_info.sum_flex_factor,
                flex_info.sum_flex_factor > 0,
                p == pending(geom, attrs, flex_dir, false),
                first_from(children@, 0, p) is None,
                0 <= flex_fold(children@, geom, attrs, flex_dir, bc_main(*bc, flex_dir)).1 <= i32::MAX,
            decreases children.len() - j,
        {
            let child_id = children[j];
            match ctx.attributes[child_id].constraint(flex_dir) {
                SizeConstraint::Flex(factor) => {
                    if ctx.layout_geom[child_id].is_none() {
                        let flex_factor: Pixel = factor as Pixel;
                        proof {
                            let (free, sum) = flex_fold(
                                children@,
                                geom,
                                attrs,
                                flex_dir,
                                bc_main(*bc, flex_dir),
                            );
                            assert(flex_info.sum_flex_factor as int == sum);
                            assert(flex_factor_of(
                                attrs[children[j as int] as int].spec_constraint(flex_dir),
                            ) <= sum);
                            lemma_flex_share_fits(free as int, sum, flex_factor as int);
                        }
                        let v = flex_factor * flex_info.space_per_flex;
                        let bc_child = match flex_dir {
                            FlexDir::X => BoxContraint::fixed_width(v, bc.max_h),
                            FlexDir::Y => BoxContraint::fixed_height(bc.max_w, v),
                        };
                        proof {
                            assert(q(children@[j as int]));
                            assert(first_from(children@, j as int, q) == Some(child_id));
                            assert(first_from(children@, 0, p) is None);
                        }
                        return Some(LayoutResult::RequestChild(child_id, bc_child));
                    }
                },
                _ => {},
            }
            j = j + 1;
        }
    }
    None
}


/// The children that are laid out, in order, each with its geometry and
/// attributes.
pub open spec fn line_items(
    children: Seq<Id>,
    geom: Seq<Option<Geometry>>,
    attrs: Seq<LayoutAttributes>,
) -> Seq<(Id, Geometry, LayoutAttributes)>
    decreases children.len(),
{
    if children.len() == 0 {
        Seq::empty()
    } else {
        let prev = line_items(children.drop_last(), geom, attrs);
        let c = children.last();
        match geom[c as int] {
            Some(g) => prev.push((c, g, attrs[c as int])),
            None => prev,
        }
    }
}

/// The alignment group the scan is in after a child aligned `cls`: the
/// first child that is not at the start opens its group, a child at the
/// end closes the centre group.
pub open spec fn next_group(cur: AlignClass, cls: AlignClass) -> AlignClass {
    match cur {
        AlignClass::Start => cls,
        AlignClass::Center => if cls is End {
            AlignClass::End
        } else {
            AlignClass::Center
        },
        AlignClass::End => AlignClass::End,
    }
}

/// First scan of a row or column: the group reached, the extent of the
/// children in the centre group and the extent of those in the end group.
pub open spec fn totals(items: Seq<(Id, Geometry, LayoutAttributes)>, dir: FlexDir) -> (
    AlignClass,
    Pixel,
    Pixel,
)
    decreases items.len(),
{
    if items.len() == 0 {
        (AlignClass::Start, 0, 0)
    } else {
        let prev = totals(items.drop_last(), dir);
        let it = items.last();
        let cur = next_group(prev.0, align_class(it.2.alignment, dir));
        let main = it.1.size.spec_from_flex(dir);
        match cur {
            AlignClass::Start => (cur, prev.1, prev.2),
            AlignClass::Center => (cur, prev.1.wrapping_add(main), prev.2),
            AlignClass::End => (cur, prev.1, prev.2.wrapping_add(main)),
        }
    }
}

/// Second scan of a row or column. Children follow each other from
/// offset 0; the first centred child after start-aligned ones jumps to
/// `center_start`, each end-aligned child jumps to `end_start`. Gives the
/// group, the offset after the last child, the sum of the extents along
/// the direction, the largest extent across it (at least 0), and the
/// offset of each child.
pub open spec fn placement(
    items: Seq<(Id, Geometry, LayoutAttributes)>,
    dir: FlexDir,
    center_start: Pixel,
    end_start: Pixel,
) -> (AlignClass, Pixel, Pixel, Pixel, Seq<Pixel>)
    decreases items.len(),
{
    if items.len() == 0 {
        (AlignClass::Start, 0, 0, 0, Seq::empty())
    } else {
        let prev = placement(items.drop_last(), dir, center_start, end_start);
        let it = items.last();
        let cls = align_class(it.2.alignment, dir);
        let entering_center = prev.0 is Start && cls is Center;
        let cur = if entering_center {
            AlignClass::Center
        } else {
            prev.0
        };
        let off1 = if entering_center {
            center_start
        } else {
            prev.1
        };
        let off = if !(cur is End) && cls is End {
            end_start
        } else {
            off1
        };
        let main = it.1.size.spec_from_flex(dir);
        let cross = cross_of(it.1.size, dir);
        (
            cur,
            off.wrapping_add(main),
            prev.2.wrapping_add(main),
            if cross > prev.3 {
                cross
            } else {
                prev.3
            },
            prev.4.push(off),
        )
    }
}

/// `g` moved by `off` along `dir`.
pub open spec fn shift_geom(g: Geometry, dir: FlexDir, off: Pixel) -> Geometry {
    match dir {
        FlexDir::X => Geometry { pos: Position { x: g.pos.x.wrapping_add(off), y: g.pos.y }, size: g.size },
        FlexDir::Y => Geometry { pos: Position { x: g.pos.x, y: g.pos.y.wrapping_add(off) }, size: g.size },
    }
}

/// The geometries after each child, in order, is moved by its offset.
pub open spec fn apply_offsets(
    geom: Seq<Option<Geometry>>,
    items: Seq<(Id, Geometry, LayoutAttributes)>,
    offs: Seq<Pixel>,
    dir: FlexDir,
) -> Seq<Option<Geometry>>
    decreases items.len(),
{
    if items.len() == 0 || offs.len() == 0 {
        geom
    } else {
        let prev = apply_offsets(geom, items.drop_last(), offs.drop_last(), dir);
        let id = items.last().0;
        if 0 <= id < prev.len() && prev[id as int] is Some {
            prev.update(id as int, Some(shift_geom(prev[id as int]->0, dir, offs.last())))
        } else {
            prev
        }
    }
}

/// The extent of the constraint along `dir` that the children may use:
/// its maximum minus its minimum.
pub open spec fn line_total(bc: BoxContraint, dir: FlexDir) -> Pixel {
    match dir {
        FlexDir::X => bc.max_w.wrapping_sub(bc.min_w),
        FlexDir::Y => bc.max_h.wrapping_sub(bc.min_h),
    }
}

/// What a row (`X`) or column (`Y`) answers, and the geometries after it:
/// a request while children are missing (geometries unchanged); otherwise
/// the children placed by `placement`, its size being the sum of their
/// extents along `dir` and the largest extent across.
pub open spec fn spec_fill(
    bc: BoxContraint,
    children: Seq<Id>,
    geom: Seq<Option<Geometry>>,
    attrs: Seq<LayoutAttributes>,
    dir: FlexDir,
) -> (LayoutResult, Seq<Option<Geometry>>) {
    match spec_preprocess(bc, children, geom, attrs, dir) {
        Some(lr) => (lr, geom),
        None => {
            let items = line_items(children, geom, attrs);
            let t = totals(items, dir);
            let total = line_total(bc, dir);
            let center_start = (div_trunc(total as int, 2) - div_trunc(t.1 as int, 2)) as i32;
            let end_start = total.wrapping_sub(t.2);
            let pl = placement(items, dir, center_start, end_start);
            let size = match dir {
                FlexDir::X => Size { pixel_w: pl.2, pixel_h: pl.3 },
                FlexDir::Y => Size { pixel_w: pl.3, pixel_h: pl.2 },
            };
            (LayoutResult::Size(size), apply_offsets(geom, items, pl.4, dir))
        },
    }
}

proof fn lemma_apply_keeps(
    geom: Seq<Option<Geometry>>,
    items: Seq<(Id, Geometry, LayoutAttributes)>,
    offs: Seq<Pixel>,
    dir: FlexDir,
)
    ensures
        apply_offsets(geom, items, offs, dir).len() == geom.len(),
        forall|i: int|
            0 <= i < geom.len() ==> (#[trigger] apply_offsets(geom, items, offs, dir)[i] is Some
                <==> geom[i] is Some),
        forall|i: int|
            0 <= i < geom.len() && #[trigger] geom[i] is Some ==> apply_offsets(
                geom,
                items,
                offs,
                dir,
            )[i]->0.size == geom[i]->0.size,
    decreases items.len(),
{
    if items.len() == 0 || offs.len() == 0 {
    } else {
        lemma_apply_keeps(geom, items.drop_last(), offs.drop_last(), dir);
    }
}

/// The geometries after `fill` keep what the layout of a widget must keep.
proof fn lemma_fill_keeps(
    bc: BoxContraint,
    children: Seq<Id>,
    ctx: LayoutContext,
    new: LayoutContext,
    dir: FlexDir,
)
    requires
        new.attributes@ == ctx.attributes@,
        new.layout_geom@ == spec_fill(bc, children, ctx.layout_geom@, ctx.attributes@, dir).1,
    ensures
        ctx.keeps_sizes(new),
{
    let geom = ctx.layout_geom@;
    let attrs = ctx.attributes@;
    match spec_preprocess(bc, children, geom, attrs, dir) {
        Some(lr) => {},
        None => {
            let items = line_items(children, geom, attrs);
            let t = totals(items, dir);
            let total = line_total(bc, dir);
            let center_start = (div_trunc(total as int, 2) - div_trunc(t.1 as int, 2)) as i32;
            let end_start = total.wrapping_sub(t.2);
            let pl = placement(items, dir, center_start, end_start);
            lemma_apply_keeps(geom, items, pl.4, dir);
            assert forall|i: int| 0 <= i < geom.len() implies (#[trigger] new.layout_geom[i] is Some
                <==> ctx.layout_geom[i] is Some) by {
                assert(new.layout_geom[i] == apply_offsets(geom, items, pl.4, dir)[i]);
            }
            assert forall|i: int|
                0 <= i < geom.len() && #[trigger] ctx.layout_geom[i] is Some implies new.layout_geom[i]->0.size
                == ctx.layout_geom[i]->0.size by {
                assert(new.layout_geom[i] == apply_offsets(geom, items, pl.4, dir)[i]);
            }
        },
    }
}

/// Lays out a row: the children side by side, aligned as their attributes
/// say; the row is as wide as the children together and as high as the
/// highest.
pub(crate) fn fill_row(bc: &BoxContraint, children: &[Id], ctx: &mut LayoutContext) -> (r: LayoutResult)
    requires
        old(ctx).wf_for(children@),
    ensures
        final(ctx).attributes == old(ctx).attributes,
        (r, final(ctx).layout_geom@) == spec_fill(
            *bc,
            children@,
            old(ctx).layout_geom@,
            old(ctx).attributes@,
            FlexDir::X,
        ),
{
    let flex_dir = FlexDir::X;
    match preprocess_children(bc, children, ctx, flex_dir) {
        Some(lr) => {
            return lr;
        },
        None => {},
    };
    let ghost geom0 = ctx.layout_geom@;
    let ghost attrs = ctx.attributes@;

    // We now have all children sizes, clone their geometries
    let mut child_geoms: Vec<(Id, Geometry, LayoutAttributes)> = Vec::new();
    let mut i: usize = 0;
    proof {
        assert(children@.take(0) =~= Seq::<Id>::empty());
    }
    while i < children.len()
        invariant
            i <= children.len(),
            ctx.wf_for(children@),
            ctx.layout_geom@ == geom0,
            ctx.attributes@ == attrs,
            child_geoms@ == line_items(children@.take(i as int), geom0, attrs),
        decreases children.len() - i,
    {
        let id = children[i];
        proof {
            assert(children@.take(i + 1).drop_last() =~= children@.take(i as int));
        }
        match ctx.layout_geom[id] {
            Some(geom) => {
                child_geoms.push((id, geom, ctx.attributes[id]));
            },
            None => {},
        }
        i = i + 1;
    }
    proof {
        assert(children@.take(children.len() as int) =~= children@);
    }
    let ghost items = child_geoms@;

    let mut size = Size { pixel_w: 0, pixel_h: 0 };
    let mut offset: Pixel = 0;
    let mut center_width: Pixel = 0;
    let mut right_width: Pixel = 0;
    let mut cur_align_x = AlignmentX::Left;
    let total_w = bc.max_w.wrapping_sub(bc.min_w);

    let mut k: usize = 0;
    proof {
        assert(items.take(0) =~= Seq::<(Id, Geometry, LayoutAttributes)>::empty());
    }
    while k < child_geoms.len()
        invariant
            k <= child_geoms.len(),
            child_geoms@ == items,
            (x_class(cur_align_x), center_width, right_width) == totals(
                items.take(k as int),
                flex_dir,
            ),
            flex_dir == FlexDir::X,
        decreases child_geoms.len() - k,
    {
        let (_id, geom, attrib) = child_geoms[k];
        proof {
            assert(items.take(k + 1).drop_last() =~= items.take(k as int));
        }
        // Update current align based on the input
        match cur_align_x {
            AlignmentX::Left => {
                cur_align_x = attrib.alignment.x;
            },
            AlignmentX::Center => {
                if attrib.alignment.x == AlignmentX::Right {
                    cur_align_x = AlignmentX::Right;
                }
            },
            _ => {},
        };
        match cur_align_x {
            AlignmentX::Left => {},
            AlignmentX::Center => {
                center_width = center_width.wrapping_add(geom.size.pixel_w);
            },
            AlignmentX::Right => {
                right_width = right_width.wrapping_add(geom.size.pixel_w);
            },
        };
        k = k + 1;
    }
    proof {
        assert(items.take(items.len() as int) =~= items);
    }
    let center_start_left = total_w.checked_div(2).unwrap() - center_width.checked_div(2).unwrap();
    let right_start_left = total_w.wrapping_sub(right_width);

    cur_align_x = AlignmentX::Left;
    let mut k: usize = 0;
    proof {
        assert(items.take(0) =~= Seq::<(Id, Geometry, LayoutAttributes)>::empty());
    }
    while k < child_geoms.len()
        invariant
            k <= child_geoms.len(),
            child_geoms@ == items,
            flex_dir == FlexDir::X,
            ctx.attributes@ == attrs,
            ctx.attributes == old(ctx).attributes,
            ({
                let pl = placement(items.take(k as int), flex_dir, center_start_left, right_start_left);
                &&& x_class(cur_align_x) == pl.0
                &&& offset == pl.1
                &&& size.pixel_w == pl.2
                &&& size.pixel_h == pl.3
                &&& ctx.layout_geom@ == apply_offsets(geom0, items.take(k as int), pl.4, flex_dir)
            }),
        decreases child_geoms.len() - k,
    {
        let (id, child, attrib) = child_geoms[k];
        proof {
            assert(items.take(k + 1).drop_last() =~= items.take(k as int));
            let pl = placement(items.take(k as int), flex_dir, center_start_left, right_start_left);
            let pl1 = placement(items.take(k + 1), flex_dir, center_start_left, right_start_left);
            assert(pl1.4.drop_last() =~= pl.4);
            lemma_apply_keeps(geom0, items.take(k as int), pl.4, flex_dir);
        }
        if cur_align_x == AlignmentX::Left && attrib.alignment.x == AlignmentX::Center {
            cur_align_x = AlignmentX::Center;
            offset = center_start_left;
        }
        if cur_align_x != AlignmentX::Right && attrib.alignment.x == AlignmentX::Right {
            offset = right_start_left;
        }
        if id < ctx.layout_geom.len() {
            match ctx.layout_geom[id] {
                Some(g) => {
                    let mut g2 = g;
                    g2.pos.x = g2.pos.x.wrapping_add(offset);
                    ctx.layout_geom.set(id, Some(g2));
                },
                None => {},
            }
        }
        size.pixel_w = size.pixel_w.wrapping_add(child.size.pixel_w);
        if child.size.pixel_h > size.pixel_h {
            size.pixel_h = child.size.pixel_h;
        }
        offset = offset.wrapping_add(child.size.from_flex(flex_dir));
        k = k + 1;
    }
    proof {
        assert(items.take(items.len() as int) =~= items);
    }
    LayoutResult::Size(size)
}

/// Lays out a column: the children one below the other, aligned as their
/// attributes say; the column is as high as the children together and as
/// wide as the widest.
pub(crate) fn fill_column(bc: &BoxContraint, children: &[Id], ctx: &mut LayoutContext) -> (r: LayoutResult)
    requires
        old(ctx).wf_for(children@),
    ensures
        final(ctx).attributes == old(ctx).attributes,
        (r, final(ctx).layout_geom@) == spec_fill(
            *bc,
            children@,
            old(ctx).layout_geom@,
            old(ctx).attributes@,
            FlexDir::Y,
        ),
{
    let flex_dir = FlexDir::Y;
    match preprocess_children(bc, children, ctx, flex_dir) {
        Some(lr) => {
            return lr;
        },
        None => {},
    };
    let ghost geom0 = ctx.layout_geom@;
    let ghost attrs = ctx.attributes@;

    // We now have all children sizes, clone their geometries
    let mut child_geoms: Vec<(Id, Geometry, LayoutAttributes)> = Vec::new();
    let mut i: usize = 0;
    proof {
        assert(children@.take(0) =~= Seq::<Id>::empty());
    }
    while i < children.len()
        invariant
            i <= children.len(),
            ctx.wf_for(children@),
            ctx.layout_geom@ == geom0,
            ctx.attributes@ == attrs,
            child_geoms@ == line_items(children@.take(i as int), geom0, attrs),
        decreases children.len() - i,
    {
        let id = children[i];
        proof {
            assert(children@.take(i + 1).drop_last() =~= children@.take(i as int));
        }
        match ctx.layout_geom[id] {
            Some(geom) => {
                child_geoms.push((id, geom, ctx.attributes[id]));
            },
            None => {},
        }
        i = i + 1;
    }
    proof {
        assert(children@.take(children.len() as int) =~= children@);
    }
    let ghost items = child_geoms@;

    let mut size = Size { pixel_w: 0, pixel_h: 0 };
    let mut offset: Pixel = 0;
    let mut center_height: Pixel = 0;
    let mut bottom_height: Pixel = 0;
    let mut cur_align_y = AlignmentY::Top;
    let total_h = bc.max_h.wrapping_sub(bc.min_h);

    let mut k: usize = 0;
    proof {
        assert(items.take(0) =~= Seq::<(Id, Geometry, LayoutAttributes)>::empty());
    }
    while k < child_geoms.len()
        invariant
            k <= child_geoms.len(),
            child_geoms@ == items,
            (y_class(cur_align_y), center_height, bottom_height) == totals(
                items.take(k as int),
                flex_dir,
            ),
            flex_dir == FlexDir::Y,
        decreases child_geoms.len() - k,
    {
        let (_id, geom, attrib) = child_geoms[k];
        proof {
            assert(items.take(k + 1).drop_last() =~= items.take(k as int));
        }
        // Update current align based on the input
        match cur_align_y {
            AlignmentY::Top => {
                cur_align_y = attrib.alignment.y;
            },
            AlignmentY::Center => {
                if attrib.alignment.y == AlignmentY::Bottom {
                    cur_align_y = AlignmentY::Bottom;
                }
            },
            _ => {},
        };
        match cur_align_y {
            AlignmentY::Top => {},
            AlignmentY::Center => {
                center_height = center_height.wrapping_add(geom.size.pixel_h);
            },
            AlignmentY::Bottom => {
                bottom_height = bottom_height.wrapping_add(geom.size.pixel_h);
            },
        };
        k = k + 1;
    }
    proof {
        assert(items.take(items.len() as int) =~= items);
    }
    let center_start_top = total_h.checked_div(2).unwrap() - center_height.checked_div(2).unwrap();
    let bottom_start_top = total_h.wrapping_sub(bottom_height);

    cur_align_y = AlignmentY::Top;
    let mut k: usize = 0;
    proof {
        assert(items.take(0) =~= Seq::<(Id, Geometry, LayoutAttributes)>::empty());
    }
    while k < child_geoms.len()
        invariant
            k <= child_geoms.len(),
            child_geoms@ == items,
            flex_dir == FlexDir::Y,
            ctx.attributes@ == attrs,
            ctx.attributes == old(ctx).attributes,
            ({
                let pl = placement(items.take(k as int), flex_dir, center_start_top, bottom_start_top);
                &&& y_class(cur_align_y) == pl.0
                &&& offset == pl.1
                &&& size.pixel_h == pl.2
                &&& size.pixel_w == pl.3
                &&& ctx.layout_geom@ == apply_offsets(geom0, items.take(k as int), pl.4, flex_dir)
            }),
        decreases child_geoms.len() - k,
    {
        let (id, child, attrib) = child_geoms[k];
        proof {
            assert(items.take(k + 1).drop_last() =~= items.take(k as int));
            let pl = placement(items.take(k as int), flex_dir, center_start_top, bottom_start_top);
            let pl1 = placement(items.take(k + 1), flex_dir, center_start_top, bottom_start_top);
            assert(pl1.4.drop_last() =~= pl.4);
            lemma_apply_keeps(geom0, items.take(k as int), pl.4, flex_dir);
        }
        if cur_align_y == AlignmentY::Top && attrib.alignment.y == AlignmentY::Center {
            cur_align_y = AlignmentY::Center;
            offset = center_start_top;
        }
        if cur_align_y != AlignmentY::Bottom && attrib.alignment.y == AlignmentY::Bottom {
            offset = bottom_start_top;
        }
        if id < ctx.layout_geom.len() {
            match ctx.layout_geom[id] {
                Some(g) => {
                    let mut g2 = g;
                    g2.pos.add_by_flex(offset, flex_dir);
                    ctx.layout_geom.set(id, Some(g2));
                },
                None => {},
            }
        }
        if child.size.pixel_w > size.pixel_w {
            size.pixel_w = child.size.pixel_w;
        }
        size.pixel_h = size.pixel_h.wrapping_add(child.size.pixel_h);
        offset = offset.wrapping_add(child.size.from_flex(flex_dir));
        k = k + 1;
    }
    proof {
        assert(items.take(items.len() as int) =~= items);
    }
    LayoutResult::Size(size)
}


proof fn lemma_first_from_some(s: Seq<Id>, i: int, p: spec_fn(Id) -> bool)
    requires
        first_from(s, i, p) is Some,
    ensures
        s.contains(first_from(s, i, p)->0),
        p(first_from(s, i, p)->0),
    decreases s.len() - i,
{
    if 0 <= i < s.len() && !p(s[i]) {
        lemma_first_from_some(s, i + 1, p);
    } else {
        assert(s[i] == first_from(s, i, p)->0);
    }
}

/// A request of a row or column names a child that is not laid out.
proof fn lemma_fill_requests_pending(
    bc: BoxContraint,
    children: Seq<Id>,
    geom: Seq<Option<Geometry>>,
    attrs: Seq<LayoutAttributes>,
    dir: FlexDir,
)
    ensures
        crate::widget_gui::requests_pending_child(
            spec_fill(bc, children, geom, attrs, dir).0,
            children,
            geom,
        ),
{
    let p = pending(geom, attrs, dir, false);
    let q = pending(geom, attrs, dir, true);
    if first_from(children, 0, p) is Some {
        lemma_first_from_some(children, 0, p);
    } else if first_from(children, 0, q) is Some {
        lemma_first_from_some(children, 0, q);
    }
}

/// The layout of a row (`X`) or a column (`Y`) keeps what a widget's
/// layout must keep.
pub(crate) proof fn lemma_fill_is_widget_layout(
    bc: BoxContraint,
    children: Seq<Id>,
    ctx: LayoutContext,
    new: LayoutContext,
    dir: FlexDir,
    r: LayoutResult,
)
    requires
        new.attributes == ctx.attributes,
        (r, new.layout_geom@) == spec_fill(bc, children, ctx.layout_geom@, ctx.attributes@, dir),
    ensures
        ctx.keeps_sizes(new),
        crate::widget_gui::requests_pending_child(r, children, ctx.layout_geom@),
{
    lemma_fill_keeps(bc, children, ctx, new, dir);
    lemma_fill_requests_pending(bc, children, ctx.layout_geom@, ctx.attributes@, dir);
}

/// The sum of the extents along `dir` of `items`.
pub open spec fn main_sum(items: Seq<(Id, Geometry, LayoutAttributes)>, dir: FlexDir) -> int
    decreases items.len(),
{
    if items.len() == 0 {
        0
    } else {
        main_sum(items.drop_last(), dir) + items.last().1.size.spec_from_flex(dir)
    }
}

/// The largest extent across `dir` of `items`, at least 0.
pub open spec fn cross_max(items: Seq<(Id, Geometry, LayoutAttributes)>, dir: FlexDir) -> int
    decreases items.len(),
{
    if items.len() == 0 {
        0
    } else {
        let m = cross_max(items.drop_last(), dir);
        let c = cross_of(items.last().1.size, dir) as int;
        if c > m {
            c
        } else {
            m
        }
    }
}

proof fn lemma_main_sum_prefix(items: Seq<(Id, Geometry, LayoutAttributes)>, dir: FlexDir, j: int)
    requires
        0 <= j <= items.len(),
        forall|k: int| 0 <= k < items.len() ==> (#[trigger] items[k]).1.size.spec_from_flex(dir) >= 0,
    ensures
        0 <= main_sum(items.take(j), dir) <= main_sum(items, dir),
    decreases items.len(),
{
    if j == items.len() {
        assert(items.take(j) =~= items);
        if items.len() > 0 {
            let pre = items.drop_last();
            assert forall|k: int| 0 <= k < pre.len() implies (#[trigger] pre[k]).1.size.spec_from_flex(dir) >= 0 by {
                assert(pre[k] == items[k]);
            }
            lemma_main_sum_prefix(pre, dir, pre.len() as int);
            assert(pre.take(pre.len() as int) =~= pre);
            assert(items[items.len() - 1] == items.last());
        }
    } else {
        let pre = items.drop_last();
        assert forall|k: int| 0 <= k < pre.len() implies (#[trigger] pre[k]).1.size.spec_from_flex(dir) >= 0 by {
            assert(pre[k] == items[k]);
        }
        lemma_main_sum_prefix(pre, dir, j);
        assert(pre.take(j) =~= items.take(j));
        lemma_main_sum_prefix(pre, dir, pre.len() as int);
        assert(pre.take(pre.len() as int) =~= pre);
        assert(items[items.len() - 1] == items.last());
    }
}

/// In a row or column whose children are all aligned to its start, the
/// children follow each other from offset 0, each at the sum of the
/// extents of those before it; the line is as long as their extents
/// together and as thick as the thickest child (at least 0). Stated where
/// no extent is negative and their sum fits in an `i32`.
pub proof fn law_start_aligned_line(
    items: Seq<(Id, Geometry, LayoutAttributes)>,
    dir: FlexDir,
    center_start: Pixel,
    end_start: Pixel,
)
    requires
        forall|k: int| 0 <= k < items.len() ==> align_class((#[trigger] items[k]).2.alignment, dir) is Start,
        forall|k: int| 0 <= k < items.len() ==> (#[trigger] items[k]).1.size.spec_from_flex(dir) >= 0,
        main_sum(items, dir) <= i32::MAX,
    ensures
        placement(items, dir, center_start, end_start).0 is Start,
        placement(items, dir, center_start, end_start).1 == main_sum(items, dir),
        placement(items, dir, center_start, end_start).2 == main_sum(items, dir),
        placement(items, dir, center_start, end_start).3 == cross_max(items, dir),
        placement(items, dir, center_start, end_start).4.len() == items.len(),
        forall|j: int|
            0 <= j < items.len() ==> #[trigger] placement(items, dir, center_start, end_start).4[j]
                == main_sum(items.take(j), dir),
    decreases items.len(),
{
    if items.len() > 0 {
        let pre = items.drop_last();
        assert forall|k: int| 0 <= k < pre.len() implies align_class((#[trigger] pre[k]).2.alignment, dir) is Start by {
            assert(pre[k] == items[k]);
        }
        assert forall|k: int| 0 <= k < pre.len() implies (#[trigger] pre[k]).1.size.spec_from_flex(dir) >= 0 by {
            assert(pre[k] == items[k]);
        }
        lemma_main_sum_prefix(items, dir, pre.len() as int);
        assert(items.take(pre.len() as int) =~= pre);
        law_start_aligned_line(pre, dir, center_start, end_start);
        assert(items[items.len() - 1] == items.last());
        let prev = placement(pre, dir, center_start, end_start);
        let offs = placement(items, dir, center_start, end_start).4;
        assert(offs == prev.4.push(prev.1));
        assert forall|j: int| 0 <= j < items.len() implies #[trigger] offs[j] == main_sum(items.take(j), dir) by {
            if j < pre.len() {
                assert(items.take(j) =~= pre.take(j));
            } else {
                assert(items.take(j) =~= pre);
            }
        }
        lemma_cross_max_nonneg(pre, dir);
    }
}

proof fn lemma_cross_max_nonneg(items: Seq<(Id, Geometry, LayoutAttributes)>, dir: FlexDir)
    ensures
        cross_max(items, dir) >= 0,
    decreases items.len(),
{
    if items.len() > 0 {
        lemma_cross_max_nonneg(items.drop_last(), dir);
    }
}

/// The children of a line as its items, where all of them are laid out.
pub open spec fn all_items(
    children: Seq<Id>,
    geom: Seq<Option<Geometry>>,
    attrs: Seq<LayoutAttributes>,
) -> Seq<(Id, Geometry, LayoutAttributes)> {
    Seq::new(
        children.len(),
        |j: int| (children[j], geom[children[j] as int]->0, attrs[children[j] as int]),
    )
}

proof fn lemma_line_items_all(
    children: Seq<Id>,
    geom: Seq<Option<Geometry>>,
    attrs: Seq<LayoutAttributes>,
)
    requires
        forall|j: int| 0 <= j < children.len() ==> #[trigger] geom[children[j] as int] is Some,
    ensures
        line_items(children, geom, attrs) == all_items(children, geom, attrs),
    decreases children.len(),
{
    if children.len() > 0 {
        let pre = children.drop_last();
        assert forall|j: int| 0 <= j < pre.len() implies #[trigger] geom[pre[j] as int] is Some by {
            assert(pre[j] == children[j]);
        }
        lemma_line_items_all(pre, geom, attrs);
        assert(geom[children[children.len() - 1] as int] is Some);
        assert(line_items(children, geom, attrs) =~= all_items(children, geom, attrs));
    }
}

proof fn lemma_first_from_all_fail(s: Seq<Id>, i: int, p: spec_fn(Id) -> bool)
    requires
        0 <= i,
        forall|j: int| 0 <= j < s.len() ==> !p(#[trigger] s[j]),
    ensures
        first_from(s, i, p) is None,
    decreases s.len() - i,
{
    if i < s.len() {
        lemma_first_from_all_fail(s, i + 1, p);
    }
}

proof fn lemma_apply_offsets_at(
    geom: Seq<Option<Geometry>>,
    items: Seq<(Id, Geometry, LayoutAttributes)>,
    offs: Seq<Pixel>,
    dir: FlexDir,
)
    requires
        offs.len() == items.len(),
        forall|j: int, k: int| 0 <= j < k < items.len() ==> items[j].0 != items[k].0,
        forall|j: int|
            0 <= j < items.len() ==> (#[trigger] items[j]).0 < geom.len() && geom[items[j].0 as int]
                == Some(items[j].1),
    ensures
        apply_offsets(geom, items, offs, dir).len() == geom.len(),
        forall|j: int|
            0 <= j < items.len() ==> #[trigger] apply_offsets(geom, items, offs, dir)[items[j].0 as int]
                == Some(shift_geom(items[j].1, dir, offs[j])),
        forall|i: int|
            0 <= i < geom.len() && (forall|j: int| 0 <= j < items.len() ==> items[j].0 != i)
                ==> #[trigger] apply_offsets(geom, items, offs, dir)[i] == geom[i],
    decreases items.len(),
{
    if items.len() > 0 {
        let pi = items.drop_last();
        let po = offs.drop_last();
        assert forall|j: int| 0 <= j < pi.len() implies (#[trigger] pi[j]).0 < geom.len() && geom[pi[j].0 as int]
            == Some(pi[j].1) by {
            assert(pi[j] == items[j]);
        }
        lemma_apply_offsets_at(geom, pi, po, dir);
        let last = items.len() - 1;
        assert(items.last() == items[last]);
        let prev = apply_offsets(geom, pi, po, dir);
        let id = items[last].0;
        assert(id < geom.len());
        assert forall|j: int| 0 <= j < pi.len() implies pi[j].0 != id by {
            assert(pi[j] == items[j]);
        }
        assert(prev[id as int] == geom[id as int]);
        assert forall|j: int| 0 <= j < items.len() implies #[trigger] apply_offsets(geom, items, offs, dir)[items[j].0 as int]
            == Some(shift_geom(items[j].1, dir, offs[j])) by {
            if j < last {
                assert(pi[j] == items[j]);
                assert(po[j] == offs[j]);
                assert(prev[pi[j].0 as int] == Some(shift_geom(pi[j].1, dir, po[j])));
            }
        }
        assert forall|i: int|
            0 <= i < geom.len() && (forall|j: int| 0 <= j < items.len() ==> items[j].0 != i)
                implies #[trigger] apply_offsets(geom, items, offs, dir)[i] == geom[i] by {
            assert forall|j: int| 0 <= j < pi.len() implies pi[j].0 != i by {
                assert(pi[j] == items[j]);
            }
            assert(items[last].0 != i);
        }
    }
}

/// A row (`X`) or column (`Y`) whose children are all laid out and all
/// aligned to its start: it is as long as its children's extents
/// together and as thick as the thickest child, and each child is moved
/// along the line by the sum of the extents of the children before it;
/// no other geometry changes. Stated where no extent is negative and
/// their sum fits in an `i32`.
pub proof fn law_start_aligned_fill(
    bc: BoxContraint,
    children: Seq<Id>,
    geom: Seq<Option<Geometry>>,
    attrs: Seq<LayoutAttributes>,
    dir: FlexDir,
)
    requires
        children.no_duplicates(),
        attrs.len() == geom.len(),
        forall|j: int| 0 <= j < children.len() ==> #[trigger] children[j] < geom.len(),
        forall|j: int| 0 <= j < children.len() ==> #[trigger] geom[children[j] as int] is Some,
        forall|j: int|
            0 <= j < children.len() ==> align_class(
                attrs[#[trigger] children[j] as int].alignment,
                dir,
            ) is Start,
        forall|j: int|
            0 <= j < children.len() ==> geom[#[trigger] children[j] as int]->0.size.spec_from_flex(dir) >= 0,
        main_sum(all_items(children, geom, attrs), dir) <= i32::MAX,
    ensures
        ({
            let items = all_items(children, geom, attrs);
            let total = main_sum(items, dir) as i32;
            let thick = cross_max(items, dir) as i32;
            &&& spec_fill(bc, children, geom, attrs, dir).0 == LayoutResult::Size(
                match dir {
                    FlexDir::X => Size { pixel_w: total, pixel_h: thick },
                    FlexDir::Y => Size { pixel_w: thick, pixel_h: total },
                },
            )
            &&& spec_fill(bc, children, geom, attrs, dir).1.len() == geom.len()
            &&& forall|j: int|
                0 <= j < children.len() ==> spec_fill(bc, children, geom, attrs, dir).1[#[trigger] children[j] as int]
                    == Some(shift_geom(geom[children[j] as int]->0, dir, main_sum(items.take(j), dir) as i32))
            &&& forall|i: int|
                0 <= i < geom.len() && !children.contains(i as Id) ==> #[trigger] spec_fill(
                    bc,
                    children,
                    geom,
                    attrs,
                    dir,
                ).1[i] == geom[i]
        }),
{
    let items = all_items(children, geom, attrs);
    lemma_line_items_all(children, geom, attrs);
    let p = pending(geom, attrs, dir, false);
    let q = pending(geom, attrs, dir, true);
    assert forall|j: int| 0 <= j < children.len() implies !p(#[trigger] children[j]) by {}
    assert forall|j: int| 0 <= j < children.len() implies !q(#[trigger] children[j]) by {}
    lemma_first_from_all_fail(children, 0, p);
    lemma_first_from_all_fail(children, 0, q);
    assert(spec_preprocess(bc, children, geom, attrs, dir) is None);
    assert forall|k: int| 0 <= k < items.len() implies align_class((#[trigger] items[k]).2.alignment, dir) is Start by {
        assert(items[k].2 == attrs[children[k] as int]);
    }
    assert forall|k: int| 0 <= k < items.len() implies (#[trigger] items[k]).1.size.spec_from_flex(dir) >= 0 by {
        assert(items[k].1 == geom[children[k] as int]->0);
    }
    let t = totals(items, dir);
    let total = line_total(bc, dir);
    let center_start = (div_trunc(total as int, 2) - div_trunc(t.1 as int, 2)) as i32;
    let end_start = total.wrapping_sub(t.2);
    law_start_aligned_line(items, dir, center_start, end_start);
    lemma_cross_max_nonneg(items, dir);
    let pl = placement(items, dir, center_start, end_start);
    assert forall|j: int, k: int| 0 <= j < k < items.len() implies items[j].0 != items[k].0 by {
        assert(items[j].0 == children[j]);
        assert(items[k].0 == children[k]);
    }
    assert forall|j: int| 0 <= j < items.len() implies (#[trigger] items[j]).0 < geom.len() && geom[items[j].0 as int]
        == Some(items[j].1) by {
        assert(items[j].0 == children[j]);
    }
    lemma_apply_offsets_at(geom, items, pl.4, dir);
    assert forall|j: int| 0 <= j < children.len() implies spec_fill(bc, children, geom, attrs, dir).1[#[trigger] children[j] as int]
        == Some(shift_geom(geom[children[j] as int]->0, dir, main_sum(items.take(j), dir) as i32)) by {
        assert(items[j].0 == children[j]);
        assert(apply_offsets(geom, items, pl.4, dir)[items[j].0 as int] == Some(shift_geom(items[j].1, dir, pl.4[j])));
    }
    assert forall|i: int|
        0 <= i < geom.len() && !children.contains(i as Id) implies #[trigger] spec_fill(
            bc,
            children,
            geom,
            attrs,
            dir,
        ).1[i] == geom[i] by {
        assert forall|j: int| 0 <= j < items.len() implies items[j].0 != i by {
            assert(items[j].0 == children[j]);
            if children[j] == i {
                assert(children.contains(i as Id));
            }
        }
    }
}

/// In a row or column whose children are all centred, the first child
/// starts at `center_start` and each next one right after the one before:
/// each at `center_start` plus the extents of those before it; the
/// centred extents add up to their sum. Stated where no extent is
/// negative and no offset leaves the `i32` range.
pub proof fn law_centered_line(
    items: Seq<(Id, Geometry, LayoutAttributes)>,
    dir: FlexDir,
    center_start: Pixel,
    end_start: Pixel,
)
    requires
        forall|k: int| 0 <= k < items.len() ==> align_class((#[trigger] items[k]).2.alignment, dir) is Center,
        forall|k: int| 0 <= k < items.len() ==> (#[trigger] items[k]).1.size.spec_from_flex(dir) >= 0,
        center_start + main_sum(items, dir) <= i32::MAX,
        main_sum(items, dir) <= i32::MAX,
    ensures
        items.len() > 0 ==> placement(items, dir, center_start, end_start).0 is Center,
        items.len() > 0 ==> placement(items, dir, center_start, end_start).1 == center_start + main_sum(
            items,
            dir,
        ),
        placement(items, dir, center_start, end_start).2 == main_sum(items, dir),
        placement(items, dir, center_start, end_start).3 == cross_max(items, dir),
        placement(items, dir, center_start, end_start).4.len() == items.len(),
        forall|j: int|
            0 <= j < items.len() ==> #[trigger] placement(items, dir, center_start, end_start).4[j]
                == center_start + main_sum(items.take(j), dir),
        totals(items, dir).1 == main_sum(items, dir),
        items.len() > 0 ==> totals(items, dir).0 is Center,
    decreases items.len(),
{
    if items.len() > 0 {
        let pre = items.drop_last();
        assert forall|k: int| 0 <= k < pre.len() implies align_class((#[trigger] pre[k]).2.alignment, dir) is Center by {
            assert(pre[k] == items[k]);
        }
        assert forall|k: int| 0 <= k < pre.len() implies (#[trigger] pre[k]).1.size.spec_from_flex(dir) >= 0 by {
            assert(pre[k] == items[k]);
        }
        lemma_main_sum_prefix(items, dir, pre.len() as int);
        assert(items.take(pre.len() as int) =~= pre);
        law_centered_line(pre, dir, center_start, end_start);
        assert(items[items.len() - 1] == items.last());
        let prev = placement(pre, dir, center_start, end_start);
        let offs = placement(items, dir, center_start, end_start).4;
        if pre.len() == 0 {
            assert(offs == prev.4.push(center_start));
        } else {
            assert(offs == prev.4.push(prev.1));
        }
        assert forall|j: int| 0 <= j < items.len() implies #[trigger] offs[j] == center_start + main_sum(
            items.take(j),
            dir,
        ) by {
            if j < pre.len() {
                assert(items.take(j) =~= pre.take(j));
            } else {
                assert(items.take(j) =~= pre);
            }
        }
        lemma_cross_max_nonneg(pre, dir);
    }
}

/// In a row or column whose children are all aligned to its end, every
/// child starts at `end_start`, where the first of them would start: each
/// end-aligned child goes back there, so they lie on top of each other.
/// The line is as long as their extents together and as thick as the
/// thickest; the end-aligned extents add up to their sum. Stated where no
/// extent is negative and their sum fits in an `i32`.
pub proof fn law_end_aligned_line(
    items: Seq<(Id, Geometry, LayoutAttributes)>,
    dir: FlexDir,
    center_start: Pixel,
    end_start: Pixel,
)
    requires
        forall|k: int| 0 <= k < items.len() ==> align_class((#[trigger] items[k]).2.alignment, dir) is End,
        forall|k: int| 0 <= k < items.len() ==> (#[trigger] items[k]).1.size.spec_from_flex(dir) >= 0,
        main_sum(items, dir) <= i32::MAX,
    ensures
        placement(items, dir, center_start, end_start).0 is Start,
        placement(items, dir, center_start, end_start).2 == main_sum(items, dir),
        placement(items, dir, center_start, end_start).3 == cross_max(items, dir),
        placement(items, dir, center_start, end_start).4.len() == items.len(),
        forall|j: int|
            0 <= j < items.len() ==> #[trigger] placement(items, dir, center_start, end_start).4[j]
                == end_start,
        totals(items, dir).2 == main_sum(items, dir),
        items.len() > 0 ==> totals(items, dir).0 is End,
    decreases items.len(),
{
    if items.len() > 0 {
        let pre = items.drop_last();
        assert forall|k: int| 0 <= k < pre.len() implies align_class((#[trigger] pre[k]).2.alignment, dir) is End by {
            assert(pre[k] == items[k]);
        }
        assert forall|k: int| 0 <= k < pre.len() implies (#[trigger] pre[k]).1.size.spec_from_flex(dir) >= 0 by {
            assert(pre[k] == items[k]);
        }
        lemma_main_sum_prefix(items, dir, pre.len() as int);
        assert(items.take(pre.len() as int) =~= pre);
        law_end_aligned_line(pre, dir, center_start, end_start);
        assert(items[items.len() - 1] == items.last());
        let prev = placement(pre, dir, center_start, end_start);
        let offs = placement(items, dir, center_start, end_start).4;
        assert(offs == prev.4.push(end_start));
        assert forall|j: int| 0 <= j < items.len() implies #[trigger] offs[j] == end_start by {
            if j < pre.len() {
                assert(offs[j] == prev.4[j]);
            }
        }
        lemma_cross_max_nonneg(pre, dir);
    }
}

} // verus!
