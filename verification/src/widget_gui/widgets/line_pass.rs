use vstd::prelude::*;
use crate::widget_gui::{
    constrained_size, count_none, layout_of, layout_pass, layout_step, lemma_count_same,
    lemma_count_set, BoxContraint, FlexDir, Geometry, Id, LayoutAttributes, LayoutPass,
    LayoutResult, Position, Size, SizeConstraint, Widget, WidgetLayout, AnyWidget,
};
use crate::widget_gui::widgets::{
    first_from, flex_fold, lemma_apply_keeps, lemma_first_from_all_fail, line_items, pending,
    placement, spec_fill, spec_preprocess, totals, line_total, div_trunc,
};

verus! {

/// The geometries after the first `j` children `cs` of a line are laid
/// out, each at the origin with its size from `sizes` (fixed and flexible
/// extents as its attributes say), the other `n` widgets not yet.
pub open spec fn children_laid_out(
    n: nat,
    cs: Seq<Id>,
    sizes: Seq<Size>,
    attrs: Seq<LayoutAttributes>,
    bc: BoxContraint,
    j: int,
) -> Seq<Option<Geometry>>
    decreases j,
{
    if j <= 0 {
        Seq::new(n, |i: int| None)
    } else {
        children_laid_out(n, cs, sizes, attrs, bc, j - 1).update(
            cs[j - 1] as int,
            Some(
                Geometry {
                    pos: Position { x: 0, y: 0 },
                    size: constrained_size(attrs[cs[j - 1] as int], sizes[j - 1], bc),
                },
            ),
        )
    }
}

proof fn lemma_children_laid_out(
    n: nat,
    cs: Seq<Id>,
    sizes: Seq<Size>,
    attrs: Seq<LayoutAttributes>,
    bc: BoxContraint,
    j: int,
)
    requires
        0 <= j <= cs.len(),
        n >= 1,
        cs.no_duplicates(),
        forall|m: int| 0 <= m < cs.len() ==> 0 < #[trigger] cs[m] < n,
    ensures
        children_laid_out(n, cs, sizes, attrs, bc, j).len() == n,
        children_laid_out(n, cs, sizes, attrs, bc, j)[0] is None,
        count_none(children_laid_out(n, cs, sizes, attrs, bc, j)) + j == n,
        forall|m: int|
            0 <= m < cs.len() ==> (#[trigger] children_laid_out(n, cs, sizes, attrs, bc, j)[cs[m] as int]
                is Some <==> m < j),
    decreases j,
{
    if j == 0 {
        let g = Seq::<Option<Geometry>>::new(n, |i: int| None);
        lemma_count_all_none(g);
    } else {
        lemma_children_laid_out(n, cs, sizes, attrs, bc, j - 1);
        let prev = children_laid_out(n, cs, sizes, attrs, bc, j - 1);
        let g = Geometry {
            pos: Position { x: 0, y: 0 },
            size: constrained_size(attrs[cs[j - 1] as int], sizes[j - 1], bc),
        };
        assert(prev[cs[j - 1] as int] is None);
        lemma_count_set(prev, cs[j - 1] as int, g);
        assert forall|m: int| 0 <= m < cs.len() implies (#[trigger] children_laid_out(
            n,
            cs,
            sizes,
            attrs,
            bc,
            j,
        )[cs[m] as int] is Some <==> m < j) by {
            if m != j - 1 {
                assert(cs[m] != cs[j - 1]);
            }
        }
    }
}

proof fn lemma_count_all_none(g: Seq<Option<Geometry>>)
    requires
        forall|i: int| 0 <= i < g.len() ==> g[i] is None,
    ensures
        count_none(g) == g.len(),
    decreases g.len(),
{
    if g.len() > 0 {
        lemma_count_all_none(g.drop_last());
    }
}

proof fn lemma_first_from_at(s: Seq<Id>, i: int, j: int, p: spec_fn(Id) -> bool)
    requires
        0 <= i <= j < s.len(),
        forall|m: int| i <= m < j ==> !p(#[trigger] s[m]),
        p(s[j]),
    ensures
        first_from(s, i, p) == Some(s[j]),
    decreases j - i,
{
    if i < j {
        lemma_first_from_at(s, i + 1, j, p);
    }
}

proof fn lemma_no_flex_sum(
    cs: Seq<Id>,
    geom: Seq<Option<Geometry>>,
    attrs: Seq<LayoutAttributes>,
    dir: FlexDir,
    free0: i32,
)
    requires
        forall|m: int| 0 <= m < cs.len() ==> !(attrs[#[trigger] cs[m] as int].spec_constraint(dir) is Flex),
    ensures
        flex_fold(cs, geom, attrs, dir, free0).1 == 0,
    decreases cs.len(),
{
    if cs.len() > 0 {
        let pre = cs.drop_last();
        assert forall|m: int| 0 <= m < pre.len() implies !(attrs[#[trigger] pre[m] as int].spec_constraint(
            dir,
        ) is Flex) by {
            assert(pre[m] == cs[m]);
        }
        lemma_no_flex_sum(pre, geom, attrs, dir, free0);
        assert(cs.last() == cs[cs.len() - 1]);
    }
}

/// The pass state with the line on the stack and its first `j` children
/// laid out.
pub open spec fn line_state(
    n: nat,
    cs: Seq<Id>,
    sizes: Seq<Size>,
    attrs: Seq<LayoutAttributes>,
    bc: BoxContraint,
    j: int,
) -> LayoutPass {
    LayoutPass {
        stack: seq![(0usize, bc)],
        geom: children_laid_out(n, cs, sizes, attrs, bc, j),
        bcs: Seq::new(n, |i: int| bc),
    }
}

proof fn lemma_pass_from<P>(
    ws: Seq<AnyWidget<P>>,
    children: Seq<Seq<Id>>,
    attrs: Seq<LayoutAttributes>,
    bc: BoxContraint,
    dir: FlexDir,
    sizes: Seq<Size>,
    j: int,
)
    requires
        ws.len() >= 1,
        children.len() == ws.len(),
        children[0].no_duplicates(),
        forall|m: int| 0 <= m < children[0].len() ==> 0 < #[trigger] children[0][m] < ws.len(),
        forall|m: int|
            0 <= m < children[0].len() ==> !(attrs[#[trigger] children[0][m] as int].spec_constraint(
                dir,
            ) is Flex),
        sizes.len() == children[0].len(),
        forall|g: Seq<Option<Geometry>>|
            #[trigger] ws[0].spec_layout(bc, children[0], g, attrs) == spec_fill(
                bc,
                children[0],
                g,
                attrs,
                dir,
            ),
        forall|m: int, g: Seq<Option<Geometry>>|
            0 <= m < children[0].len() ==> #[trigger] ws[children[0][m] as int].spec_layout(
                bc,
                children[children[0][m] as int],
                g,
                attrs,
            ) == (LayoutResult::Size(sizes[m]), g),
        0 <= j <= children[0].len(),
    ensures
        layout_pass(ws, children, attrs, line_state(ws.len(), children[0], sizes, attrs, bc, j))
            == layout_pass(
            ws,
            children,
            attrs,
            line_state(ws.len(), children[0], sizes, attrs, bc, children[0].len() as int),
        ),
    decreases children[0].len() - j,
{
    let n = ws.len();
    let cs = children[0];
    if j < cs.len() {
        let s = line_state(n, cs, sizes, attrs, bc, j);
        lemma_children_laid_out(n, cs, sizes, attrs, bc, j);
        let geom = s.geom;
        let p = pending(geom, attrs, dir, false);
        assert forall|m: int| 0 <= m < j implies !p(#[trigger] cs[m]) by {}
        assert(p(cs[j]));
        lemma_first_from_at(cs, 0, j, p);
        assert(spec_preprocess(bc, cs, geom, attrs, dir) == Some(LayoutResult::RequestChild(cs[j], bc)));
        assert(ws[0].spec_layout(bc, children[0], geom, attrs) == spec_fill(bc, cs, geom, attrs, dir));
        let t1 = layout_step(ws, children, attrs, s);
        assert(t1.stack =~= seq![(cs[j], bc), (0usize, bc)]);
        assert(t1.geom == geom);
        assert(layout_pass(ws, children, attrs, s) == layout_pass(ws, children, attrs, t1));
        assert(ws[cs[j] as int].spec_layout(bc, children[cs[j] as int], geom, attrs) == (
            LayoutResult::Size(sizes[j]),
            geom,
        ));
        let t2 = layout_step(ws, children, attrs, t1);
        let g = Geometry {
            pos: Position { x: 0, y: 0 },
            size: constrained_size(attrs[cs[j] as int], sizes[j], bc),
        };
        lemma_count_set(geom, cs[j] as int, g);
        assert(t2.stack =~= seq![(0usize, bc)]);
        assert(t2.bcs =~= s.bcs);
        assert(t2.geom == children_laid_out(n, cs, sizes, attrs, bc, j + 1));
        assert(t2 == line_state(n, cs, sizes, attrs, bc, j + 1));
        assert(layout_pass(ws, children, attrs, t1) == layout_pass(ws, children, attrs, t2));
        lemma_pass_from(ws, children, attrs, bc, dir, sizes, j + 1);
    }
}

/// A row (`X`) or column (`Y`) at the root whose children, none flexible
/// along it, each lay out at once to a size within the root constraint,
/// touching no geometry: the layout pass lays each child out in turn at
/// the origin with its size, then the line places them as `spec_fill`
/// does and takes its own size; nothing else is laid out.
pub proof fn law_line_of_sized_children<P>(
    ws: Seq<AnyWidget<P>>,
    children: Seq<Seq<Id>>,
    attrs: Seq<LayoutAttributes>,
    bc: BoxContraint,
    dir: FlexDir,
    sizes: Seq<Size>,
)
    requires
        ws.len() >= 1,
        children.len() == ws.len(),
        children[0].no_duplicates(),
        forall|m: int| 0 <= m < children[0].len() ==> 0 < #[trigger] children[0][m] < ws.len(),
        forall|m: int|
            0 <= m < children[0].len() ==> !(attrs[#[trigger] children[0][m] as int].spec_constraint(
                dir,
            ) is Flex),
        sizes.len() == children[0].len(),
        forall|g: Seq<Option<Geometry>>|
            #[trigger] ws[0].spec_layout(bc, children[0], g, attrs) == spec_fill(
                bc,
                children[0],
                g,
                attrs,
                dir,
            ),
        forall|m: int, g: Seq<Option<Geometry>>|
            0 <= m < children[0].len() ==> #[trigger] ws[children[0][m] as int].spec_layout(
                bc,
                children[children[0][m] as int],
                g,
                attrs,
            ) == (LayoutResult::Size(sizes[m]), g),
    ensures
        ({
            let n = ws.len();
            let cs = children[0];
            let laid = children_laid_out(n, cs, sizes, attrs, bc, cs.len() as int);
            let fill = spec_fill(bc, cs, laid, attrs, dir);
            &&& fill.0 is Size
            &&& layout_of(ws, children, attrs, bc).geom == fill.1.update(
                0,
                Some(
                    Geometry {
                        pos: Position { x: 0, y: 0 },
                        size: constrained_size(
                            attrs[0],
                            match fill.0 {
                                LayoutResult::Size(s) => s,
                                LayoutResult::RequestChild(..) => Size { pixel_w: 0, pixel_h: 0 },
                            },
                            bc,
                        ),
                    },
                ),
            )
        }),
{
    let n = ws.len();
    let cs = children[0];
    let k = cs.len() as int;
    assert(line_state(n, cs, sizes, attrs, bc, 0).geom =~= Seq::<Option<Geometry>>::new(n, |i: int| None));
    lemma_pass_from(ws, children, attrs, bc, dir, sizes, 0);
    // the line itself
    let s = line_state(n, cs, sizes, attrs, bc, k);
    lemma_children_laid_out(n, cs, sizes, attrs, bc, k);
    let laid = s.geom;
    let p = pending(laid, attrs, dir, false);
    let q = pending(laid, attrs, dir, true);
    assert forall|m: int| 0 <= m < cs.len() implies !p(#[trigger] cs[m]) by {}
    assert forall|m: int| 0 <= m < cs.len() implies !q(#[trigger] cs[m]) by {}
    lemma_first_from_all_fail(cs, 0, p);
    lemma_no_flex_sum(cs, laid, attrs, dir, match dir {
        FlexDir::X => bc.max_w,
        FlexDir::Y => bc.max_h,
    });
    assert(spec_preprocess(bc, cs, laid, attrs, dir) is None);
    let fill = spec_fill(bc, cs, laid, attrs, dir);
    let items = line_items(cs, laid, attrs);
    let t = totals(items, dir);
    let total = line_total(bc, dir);
    let center_start = (div_trunc(total as int, 2) - div_trunc(t.1 as int, 2)) as i32;
    let end_start = total.wrapping_sub(t.2);
    let pl = placement(items, dir, center_start, end_start);
    lemma_apply_keeps(laid, items, pl.4, dir);
    lemma_count_same(laid, fill.1);
    let rs = match fill.0 {
        LayoutResult::Size(s) => s,
        LayoutResult::RequestChild(..) => Size { pixel_w: 0, pixel_h: 0 },
    };
    let g0 = Geometry { pos: Position { x: 0, y: 0 }, size: constrained_size(attrs[0], rs, bc) };
    assert(fill.1[0] is None);
    lemma_count_set(fill.1, 0, g0);
    let t3 = layout_step(ws, children, attrs, s);
    assert(t3.stack =~= Seq::<(Id, BoxContraint)>::empty());
    assert(t3.geom == fill.1.update(0, Some(g0)));
    assert(layout_pass(ws, children, attrs, s) == layout_pass(ws, children, attrs, t3));
    assert(layout_pass(ws, children, attrs, t3) == t3);
}

} // verus!
