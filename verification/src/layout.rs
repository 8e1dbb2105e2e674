use vstd::prelude::*;
use vstd::std_specs::cmp::{PartialOrdIs, PartialOrdSpec};

use crate::ui::{LeftButton, MyEvent};

verus! {

/// The direction along which a layout splits its rectangle into children.
#[derive(Debug, Copy, Clone, PartialEq, Eq, Structural)]
pub enum Axis {
    X,
    Y,
}

/// The index of a child inside its parent layout.
pub type ChildId = usize;

/// An event of a parent layout, with every position already resolved: the child under the
/// pointer and the position relative to that child's rectangle.
#[derive(Debug, Clone)]
pub enum Located<P, G> {
    /// The pointer moved; it is over child `.0`, at `.1` inside it.
    MousePos(ChildId, P),
    /// The pointer entered the parent (over child `.0`, at `.1` inside it), or left it.
    Focus(Option<(ChildId, P)>),
    /// Any other input; it goes to the focused child.
    GEvent(G, LeftButton),
}

/// The child that a located event names, if any.
pub open spec fn located_child<P, G>(ev: Located<P, G>) -> Option<ChildId> {
    match ev {
        Located::MousePos(c, _) => Some(c),
        Located::Focus(Some((c, _))) => Some(c),
        _ => None,
    }
}

/// Every child that the events name is one of the first `n`.
pub open spec fn located_within<P, G>(evs: Seq<Located<P, G>>, n: nat) -> bool {
    forall|k: int|
        0 <= k < evs.len() ==> (#[trigger] located_child(evs[k]) matches Some(c) ==> c < n)
}

/// One event's effect on the focus: the new focus and the events handed to children,
/// in order, each with the child that receives it.
pub open spec fn route_one<P, G>(focused: Option<ChildId>, ev: Located<P, G>) -> (
    Option<ChildId>,
    Seq<(ChildId, MyEvent<P, G>)>,
) {
    match ev {
        Located::MousePos(c, q) => (
            Some(c),
            match focused {
                Some(o) => if o != c {
                    seq![
                        (o, MyEvent::Focus(None)),
                        (c, MyEvent::Focus(Some(q))),
                        (c, MyEvent::MousePos(q)),
                    ]
                } else {
                    seq![(c, MyEvent::MousePos(q))]
                },
                None => seq![(c, MyEvent::MousePos(q))],
            },
        ),
        Located::Focus(None) => (
            None,
            match focused {
                Some(o) => seq![(o, MyEvent::Focus(None))],
                None => seq![],
            },
        ),
        Located::Focus(Some((c, q))) => (Some(c), seq![(c, MyEvent::Focus(Some(q)))]),
        Located::GEvent(g, b) => (
            focused,
            match focused {
                Some(o) => seq![(o, MyEvent::GEvent(g, b))],
                None => seq![],
            },
        ),
    }
}

/// The effect of a sequence of events, one after the other, starting from focus `focused`.
pub open spec fn route<P, G>(focused: Option<ChildId>, evs: Seq<Located<P, G>>) -> (
    Option<ChildId>,
    Seq<(ChildId, MyEvent<P, G>)>,
)
    decreases evs.len(),
{
    if evs.len() == 0 {
        (focused, seq![])
    } else {
        let before = route(focused, evs.drop_last());
        let last = route_one(before.0, evs.last());
        (last.0, before.1 + last.1)
    }
}

/// The events, in order, that a list of deliveries hands to `child`.
pub open spec fn delivered_to<E>(ds: Seq<(ChildId, E)>, child: int) -> Seq<E>
    decreases ds.len(),
{
    if ds.len() == 0 {
        seq![]
    } else if ds.last().0 == child {
        delivered_to(ds.drop_last(), child).push(ds.last().1)
    } else {
        delivered_to(ds.drop_last(), child)
    }
}

/// The index of the first element of `s` above `pos`, if any.
pub open spec fn first_above<W: PartialOrd>(s: Seq<W>, pos: W) -> Option<ChildId> {
    if exists|i: int| 0 <= i < s.len() && pos.is_lt(&s[i]) {
        let i = choose|i: int|
            0 <= i < s.len() && pos.is_lt(&s[i]) && forall|j: int|
                0 <= j < i ==> !pos.is_lt(#[trigger] &s[j]);
        Some(i as ChildId)
    } else {
        None
    }
}

/// Appends `e` to the events of child `c`.
fn deliver<P, G>(
    buckets: &mut Vec<Vec<MyEvent<P, G>>>,
    Ghost(ds): Ghost<Seq<(ChildId, MyEvent<P, G>)>>,
    c: ChildId,
    e: MyEvent<P, G>,
)
    requires
        c < old(buckets)@.len(),
        forall|i: int|
            0 <= i < old(buckets)@.len() ==> #[trigger] old(buckets)@[i]@ == delivered_to(
                ds, i),
    ensures
        final(buckets)@.len() == old(buckets)@.len(),
        forall|i: int|
            0 <= i < final(buckets)@.len() ==> #[trigger] final(buckets)@[i]@ == delivered_to(
                ds.push((c, e)), i),
{
    let ghost old_buckets = buckets@;
    buckets[c].push(e);
    proof {
        let ds2 = ds.push((c, e));
        assert(ds2.drop_last() == ds);
        assert forall|i: int| 0 <= i < buckets@.len() implies #[trigger] buckets@[i]@
            == delivered_to(ds2, i) by {
            assert(old_buckets[i]@ == delivered_to(ds, i));
            if i != c {
                assert(buckets@[i] == old_buckets[i]);
            }
        }
    }
}

/// `v` put in layout order: a `Y` layout counts its children from the other end.
pub open spec fn oriented_seq<T>(axis: Axis, v: Seq<T>) -> Seq<T> {
    match axis {
        Axis::X => v,
        Axis::Y => v.reverse(),
    }
}

/// Per-child items of a layout, numbered in the order the user gave the children.
pub open spec fn ordered_seq<T>(axis: Axis, v: Seq<T>) -> Seq<(ChildId, T)> {
    Seq::new(
        v.len(),
        |i: int|
            (
                i as ChildId,
                match axis {
                    Axis::X => v[i],
                    Axis::Y => v[v.len() - 1 - i],
                },
            ),
    )
}

/// Reverses `v` for a `Y` layout, whose children are listed top to bottom but laid out
/// bottom to top; leaves it as it is for an `X` layout.
pub fn oriented<T>(axis: Axis, v: Vec<T>) -> (r: Vec<T>)
    ensures
        r@ == oriented_seq(axis, v@),
{
    match axis {
        Axis::X => v,
        Axis::Y => {
            let ghost orig = v@;
            let mut rest = v;
            let mut r: Vec<T> = Vec::new();
            while rest.len() > 0
                invariant
                    r@ + rest@.reverse() == orig.reverse(),
                decreases rest.len(),
            {
                let ghost before = rest@;
                let x = rest.pop().unwrap();
                proof {
                    assert(before == rest@.push(x));
                    assert(before.reverse() == seq![x] + rest@.reverse());
                    assert(r@.push(x) + rest@.reverse() == r@ + before.reverse());
                }
                r.push(x);
            }
            proof {
                assert(rest@.reverse() == Seq::<T>::empty());
                assert(r@ + rest@.reverse() == r@);
            }
            r
        },
    }
}

/// Numbers per-child items in the order the user gave the children: for a `Y` layout, whose
/// items come in layout order, the last item is child 0.
pub fn order_for_axis<T>(axis: Axis, v: Vec<T>) -> (r: Vec<(ChildId, T)>)
    ensures
        r@ == ordered_seq(axis, v@),
{
    let ghost orig = v@;
    let n = v.len();
    assert(n == orig.len());
    let mut rest = match axis {
        Axis::X => oriented(Axis::Y, v),
        Axis::Y => v,
    };
    let mut r: Vec<(ChildId, T)> = Vec::new();
    let mut i: usize = 0;
    while rest.len() > 0
        invariant
            i == r@.len(),
            i + rest@.len() == orig.len(),
            n == orig.len(),
            forall|j: int| 0 <= j < i ==> #[trigger] r@[j] == ordered_seq(axis, orig)[j],
            forall|j: int|
                0 <= j < rest@.len() ==> #[trigger] rest@[j] == match axis {
                    Axis::X => orig[orig.len() - 1 - j],
                    Axis::Y => orig[j],
                },
        decreases rest.len(),
    {
        let x = rest.pop().unwrap();
        r.push((i, x));
        i = i + 1;
    }
    proof {
        assert(r@ =~= ordered_seq(axis, orig));
    }
    r
}

/// Numbering the children after putting them in layout order gives every child the index
/// that the user gave it.
pub proof fn lemma_order_undoes_orientation<T>(axis: Axis, v: Seq<T>)
    ensures
        ordered_seq(axis, oriented_seq(axis, v)) == Seq::new(v.len(), |i: int| (i as ChildId, v[i])),
{
    assert(ordered_seq(axis, oriented_seq(axis, v)) =~= Seq::new(
        v.len(),
        |i: int| (i as ChildId, v[i]),
    ));
}

/// Routing a batch `a` and then a batch `b` hands out what routing `a + b` at once hands out.
pub proof fn lemma_route_concat<P, G>(
    focused: Option<ChildId>,
    a: Seq<Located<P, G>>,
    b: Seq<Located<P, G>>,
)
    ensures
        route(focused, a + b) == (
            route(route(focused, a).0, b).0,
            route(focused, a).1 + route(route(focused, a).0, b).1,
        ),
    decreases b.len(),
{
    let ra = route(focused, a);
    if b.len() == 0 {
        assert(a + b =~= a);
        assert(ra.1 + route(ra.0, b).1 =~= ra.1);
    } else {
        lemma_route_concat(focused, a, b.drop_last());
        assert((a + b).drop_last() =~= a + b.drop_last());
        assert((a + b).last() == b.last());
        let rb = route(ra.0, b.drop_last());
        let last = route_one(rb.0, b.last());
        assert(ra.1 + rb.1 + last.1 =~= ra.1 + (rb.1 + last.1));
    }
}

/// The events a child receives from two lists of deliveries are those from the first list
/// followed by those from the second.
pub proof fn lemma_delivered_concat<E>(x: Seq<(ChildId, E)>, y: Seq<(ChildId, E)>, child: int)
    ensures
        delivered_to(x + y, child) == delivered_to(x, child) + delivered_to(y, child),
    decreases y.len(),
{
    if y.len() == 0 {
        assert(x + y =~= x);
        assert(delivered_to(x, child) + delivered_to(y, child) =~= delivered_to(x, child));
    } else {
        lemma_delivered_concat(x, y.drop_last(), child);
        assert((x + y).drop_last() =~= x + y.drop_last());
        assert((x + y).last() == y.last());
        if y.last().0 == child {
            assert(delivered_to(x, child) + delivered_to(y.drop_last(), child).push(y.last().1)
                =~= (delivered_to(x, child) + delivered_to(y.drop_last(), child)).push(
                y.last().1,
            ));
        }
    }
}

proof fn lemma_delivered_single<E>(d: (ChildId, E), child: int)
    ensures
        delivered_to(seq![d], child) == (if d.0 == child {
            seq![d.1]
        } else {
            Seq::<E>::empty()
        }),
{
    assert(seq![d].drop_last() =~= Seq::<(ChildId, E)>::empty());
    assert(delivered_to(Seq::<(ChildId, E)>::empty(), child) == Seq::<E>::empty());
    assert(Seq::<E>::empty().push(d.1) =~= seq![d.1]);
}

/// Routing two batches in two calls, the second from the focus that the first left behind,
/// gives every child what one call on both batches together gives it, and the same focus.
pub proof fn lemma_events_for_children_batches<P, G>(
    focused: Option<ChildId>,
    a: Seq<Located<P, G>>,
    b: Seq<Located<P, G>>,
)
    ensures
        route(focused, a + b).0 == route(route(focused, a).0, b).0,
        forall|i: int|
            #[trigger] delivered_to(route(focused, a + b).1, i) == delivered_to(
                route(focused, a).1,
                i,
            ) + delivered_to(route(route(focused, a).0, b).1, i),
{
    lemma_route_concat(focused, a, b);
    assert forall|i: int|
        #[trigger] delivered_to(route(focused, a + b).1, i) == delivered_to(route(focused, a).1, i)
            + delivered_to(route(route(focused, a).0, b).1, i) by {
        lemma_delivered_concat(route(focused, a).1, route(route(focused, a).0, b).1, i);
    }
}

/// Routing never hands an event to, or focuses, a child that the layout does not have.
pub proof fn lemma_route_within<P, G>(focused: Option<ChildId>, evs: Seq<Located<P, G>>, n: nat)
    requires
        located_within(evs, n),
        focused matches Some(f) ==> f < n,
    ensures
        route(focused, evs).0 matches Some(f) ==> f < n,
        forall|k: int|
            0 <= k < route(focused, evs).1.len() ==> (#[trigger] route(focused, evs).1[k]).0 < n,
    decreases evs.len(),
{
    if evs.len() > 0 {
        let init = evs.drop_last();
        assert(located_within(init, n)) by {
            assert forall|k: int| 0 <= k < init.len() implies (#[trigger] located_child(init[k])
                matches Some(c) ==> c < n) by {
                assert(init[k] == evs[k]);
            }
        }
        lemma_route_within(focused, init, n);
        assert(located_child(evs[evs.len() - 1]) matches Some(c) ==> c < n);
    }
}

/// After the pointer moves over child `c`, `c` holds the focus and has last been told where
/// the pointer is; a child that held the focus before has last been told that it lost it.
/// After the pointer leaves, no child holds the focus.
pub proof fn lemma_focus_follows_pointer<P, G>(
    focused: Option<ChildId>,
    evs: Seq<Located<P, G>>,
    c: ChildId,
    q: P,
)
    ensures
        route(focused, evs.push(Located::MousePos(c, q))).0 == Some(c),
        delivered_to(route(focused, evs.push(Located::MousePos(c, q))).1, c as int).last()
            == MyEvent::<P, G>::MousePos(q),
        route(focused, evs).0 matches Some(o) ==> (o != c ==> delivered_to(
            route(focused, evs.push(Located::MousePos(c, q))).1,
            o as int,
        ).last() == MyEvent::<P, G>::Focus(None)),
        route(focused, evs.push(Located::Focus(None))).0 == None::<ChildId>,
{
    let ev = Located::<P, G>::MousePos(c, q);
    assert(evs.push(ev).drop_last() == evs);
    assert(evs.push(Located::<P, G>::Focus(None)).drop_last() == evs);
    let before = route(focused, evs);
    let step = route_one(before.0, ev);
    lemma_delivered_concat(before.1, step.1, c as int);
    match before.0 {
        Some(o) => {
            lemma_delivered_concat(before.1, step.1, o as int);
            if o != c {
                let d = step.1;
                assert(step == route_one(Some(o), ev));
                assert(d == seq![
                    (o, MyEvent::<P, G>::Focus(None)),
                    (c, MyEvent::<P, G>::Focus(Some(q))),
                    (c, MyEvent::<P, G>::MousePos(q)),
                ]);
                let d1 = d.drop_last();
                let d2 = d1.drop_last();
                assert(d2 =~= seq![(o, MyEvent::<P, G>::Focus(None))]);
                lemma_delivered_single((o, MyEvent::<P, G>::Focus(None)), o as int);
                assert(d1 =~= seq![(o, MyEvent::<P, G>::Focus(None)), (c, MyEvent::<P, G>::Focus(Some(q)))]);
                assert(delivered_to(d2, o as int) =~= seq![MyEvent::<P, G>::Focus(None)]);
                assert(delivered_to(d1, o as int) == delivered_to(d2, o as int));
                assert(delivered_to(d, o as int) == delivered_to(d1, o as int));
            } else {
                assert(step.1.drop_last() =~= Seq::<(ChildId, MyEvent<P, G>)>::empty());
            }
        },
        None => {
            assert(step.1.drop_last() =~= Seq::<(ChildId, MyEvent<P, G>)>::empty());
        },
    }
}

/// An input event reaches the focused child, and only it; with no child focused it is
/// handed to none.
pub proof fn lemma_input_reaches_focused<P, G>(
    focused: Option<ChildId>,
    evs: Seq<Located<P, G>>,
    g: G,
    b: LeftButton,
    i: int,
)
    ensures
        route(focused, evs.push(Located::GEvent(g, b))).0 == route(focused, evs).0,
        delivered_to(route(focused, evs.push(Located::GEvent(g, b))).1, i) == (if (route(
            focused,
            evs,
        ).0 matches Some(o) && o == i) {
            delivered_to(route(focused, evs).1, i).push(MyEvent::GEvent(g, b))
        } else {
            delivered_to(route(focused, evs).1, i)
        }),
{
    let ev = Located::<P, G>::GEvent(g, b);
    assert(evs.push(ev).drop_last() == evs);
    let before = route(focused, evs);
    let step = route_one(before.0, ev);
    lemma_delivered_concat(before.1, step.1, i);
    match before.0 {
        Some(o) => {
            assert(step.1 == seq![(o, MyEvent::<P, G>::GEvent(g, b))]);
            lemma_delivered_single((o, MyEvent::<P, G>::GEvent(g, b)), i);
            assert(delivered_to(before.1, i) + seq![MyEvent::<P, G>::GEvent(g, b)]
                =~= delivered_to(before.1, i).push(MyEvent::GEvent(g, b)));
            assert(delivered_to(before.1, i) + Seq::<MyEvent<P, G>>::empty()
                =~= delivered_to(before.1, i));
        },
        None => {
            assert(delivered_to(before.1, i) + Seq::<MyEvent<P, G>>::empty()
                =~= delivered_to(before.1, i));
        },
    }
}

/// Routing more events only adds deliveries after those already made.
pub proof fn lemma_route_appends<P, G>(
    focused: Option<ChildId>,
    evs: Seq<Located<P, G>>,
    e: Located<P, G>,
)
    ensures
        route(focused, evs).1.len() <= route(focused, evs.push(e)).1.len(),
        route(focused, evs.push(e)).1.subrange(0, route(focused, evs).1.len() as int) == route(
            focused,
            evs,
        ).1,
{
    assert(evs.push(e).drop_last() == evs);
    let before = route(focused, evs);
    let step = route_one(before.0, e);
    assert((before.1 + step.1).subrange(0, before.1.len() as int) =~= before.1);
}

/// A pointer move over the child that already holds the focus hands that child the move, and
/// nothing else to any child; the focus stays where it is.
pub proof fn lemma_move_within_focused_child<P, G>(
    focused: Option<ChildId>,
    evs: Seq<Located<P, G>>,
    c: ChildId,
    q: P,
)
    requires
        route(focused, evs).0 == Some(c),
    ensures
        route(focused, evs.push(Located::MousePos(c, q))) == (
            Some(c),
            route(focused, evs).1.push((c, MyEvent::<P, G>::MousePos(q))),
        ),
{
    assert(evs.push(Located::<P, G>::MousePos(c, q)).drop_last() == evs);
    let before = route(focused, evs);
    assert(before.1 + seq![(c, MyEvent::<P, G>::MousePos(q))] =~= before.1.push(
        (c, MyEvent::<P, G>::MousePos(q)),
    ));
}

/// A child is told that it lost the focus only when the focus leaves it: an event that hands
/// some child `Focus(None)` found the focus on that child and moves it elsewhere.
pub proof fn lemma_unfocus_only_when_focus_leaves<P, G>(
    focused: Option<ChildId>,
    evs: Seq<Located<P, G>>,
    e: Located<P, G>,
    k: int,
)
    requires
        route(focused, evs).1.len() <= k < route(focused, evs.push(e)).1.len(),
        route(focused, evs.push(e)).1[k].1 == MyEvent::<P, G>::Focus(None),
    ensures
        route(focused, evs).0 == Some(route(focused, evs.push(e)).1[k].0),
        route(focused, evs.push(e)).0 != Some(route(focused, evs.push(e)).1[k].0),
{
    assert(evs.push(e).drop_last() == evs);
    let before = route(focused, evs);
    let step = route_one(before.0, e);
    let all = route(focused, evs.push(e)).1;
    assert(all == before.1 + step.1);
    assert(all[k] == step.1[k - before.1.len()]);
}

/// When the pointer enters the layout over child `c`, only `c` is told, with the position
/// inside it, and `c` takes the focus.
pub proof fn lemma_enter_tells_entered_child<P, G>(
    focused: Option<ChildId>,
    evs: Seq<Located<P, G>>,
    c: ChildId,
    q: P,
)
    ensures
        route(focused, evs.push(Located::Focus(Some((c, q))))) == (
            Some(c),
            route(focused, evs).1.push((c, MyEvent::<P, G>::Focus(Some(q)))),
        ),
{
    assert(evs.push(Located::<P, G>::Focus(Some((c, q)))).drop_last() == evs);
    let before = route(focused, evs);
    assert(before.1 + seq![(c, MyEvent::<P, G>::Focus(Some(q)))] =~= before.1.push(
        (c, MyEvent::<P, G>::Focus(Some(q))),
    ));
}

/// A pointer move from the focused child `o` to another child `c` tells `o` that the pointer
/// left, then tells `c` that it entered and where the pointer is; `c` takes the focus.
pub proof fn lemma_move_to_other_child<P, G>(
    focused: Option<ChildId>,
    evs: Seq<Located<P, G>>,
    o: ChildId,
    c: ChildId,
    q: P,
)
    requires
        route(focused, evs).0 == Some(o),
        o != c,
    ensures
        route(focused, evs.push(Located::MousePos(c, q))) == (
            Some(c),
            route(focused, evs).1 + seq![
                (o, MyEvent::<P, G>::Focus(None)),
                (c, MyEvent::<P, G>::Focus(Some(q))),
                (c, MyEvent::<P, G>::MousePos(q)),
            ],
        ),
{
    assert(evs.push(Located::<P, G>::MousePos(c, q)).drop_last() == evs);
}

/// When the pointer leaves the layout, the focused child (if any) is told so, and no child
/// keeps the focus.
pub proof fn lemma_leave_tells_focused_child<P, G>(
    focused: Option<ChildId>,
    evs: Seq<Located<P, G>>,
)
    ensures
        route(focused, evs.push(Located::Focus(None))) == (
            None::<ChildId>,
            match route(focused, evs).0 {
                Some(o) => route(focused, evs).1.push((o, MyEvent::<P, G>::Focus(None))),
                None => route(focused, evs).1,
            },
        ),
{
    let e = Located::<P, G>::Focus(None);
    assert(evs.push(e).drop_last() == evs);
    let before = route(focused, evs);
    match before.0 {
        Some(o) => {
            assert(before.1 + seq![(o, MyEvent::<P, G>::Focus(None))] =~= before.1.push(
                (o, MyEvent::<P, G>::Focus(None)),
            ));
        },
        None => {
            assert(before.1 + Seq::<(ChildId, MyEvent<P, G>)>::empty() =~= before.1);
        },
    }
}

/// How a layout splits its rectangle (weights and cumulative fractions, in layout order) and
/// which child, if any, holds the focus.
pub struct Layout<W> {
    axis: Axis,
    layout_weight: Vec<W>,
    layout_fract: Vec<W>,
    focused: Option<ChildId>,
}

/// The abstract state of a `Layout`.
pub struct LayoutView<W> {
    pub axis: Axis,
    pub weights: Seq<W>,
    pub fractions: Seq<W>,
    pub focused: Option<ChildId>,
}

impl<W> View for Layout<W> {
    type V = LayoutView<W>;

    closed spec fn view(&self) -> LayoutView<W> {
        LayoutView {
            axis: self.axis,
            weights: self.layout_weight@,
            fractions: self.layout_fract@,
            focused: self.focused,
        }
    }
}

impl<W> Layout<W> {
    /// One fraction per weight, and the focus, if any, on one of the children.
    #[verifier::type_invariant]
    spec fn layout_invariant(&self) -> bool {
        &&& self.layout_weight@.len() == self.layout_fract@.len()
        &&& self.focused matches Some(f) ==> f < self.layout_fract@.len()
    }

    /// A layout along `axis` with the given weights (in the order the user lists the children)
    /// and the cumulative fractions of those weights in layout order (see `oriented`), with no
    /// child focused.
    pub fn new(axis: Axis, layout_weight: Vec<W>, layout_fract: Vec<W>) -> (r: Layout<W>)
        requires
            layout_weight@.len() == layout_fract@.len(),
        ensures
            r@ == (LayoutView {
                axis,
                weights: oriented_seq(axis, layout_weight@),
                fractions: layout_fract@,
                focused: None,
            }),
    {
        let layout_weight = oriented(axis, layout_weight);
        Layout { axis, layout_weight, layout_fract, focused: None }
    }

    /// The number of children.
    pub fn child_count(&self) -> (r: usize)
        ensures
            r == self@.fractions.len(),
            r == self@.weights.len(),
    {
        proof {
            use_type_invariant(self);
        }
        self.layout_fract.len()
    }

    /// The first child whose cumulative fraction lies above `pos`, that is the child that
    /// covers position `pos` along the axis; `None` when `pos` lies beyond the last one.
    pub fn child_at(&self, pos: &W) -> (r: Option<ChildId>)
        where
            W: PartialOrd,
        ensures
            r matches Some(i) ==> i < self@.fractions.len(),
            W::obeys_partial_cmp_spec() ==> r == first_above(self@.fractions, *pos),
    {
        proof {
            use_type_invariant(self);
        }
        let n = self.layout_fract.len();
        let mut i: usize = 0;
        while i < n
            invariant
                n == self.layout_fract@.len(),
                i <= n,
                W::obeys_partial_cmp_spec() ==> forall|j: int|
                    0 <= j < i ==> !pos.is_lt(#[trigger] &self.layout_fract@[j]),
            decreases n - i,
        {
            if *pos < self.layout_fract[i] {
                return Some(i);
            }
            i = i + 1;
        }
        None
    }

    /// The direction of the split.
    pub fn axis(&self) -> (r: Axis)
        ensures
            r == self@.axis,
    {
        self.axis
    }

    /// The cumulative fractions, in layout order.
    pub fn layout_fract(&self) -> (r: &Vec<W>)
        ensures
            r@ == self@.fractions,
    {
        &self.layout_fract
    }

    /// The weights, in layout order.
    pub fn layout_weight(&self) -> (r: &Vec<W>)
        ensures
            r@ == self@.weights,
    {
        &self.layout_weight
    }

    /// The focused child, if any.
    pub fn focused(&self) -> (r: Option<ChildId>)
        ensures
            r == self@.focused,
            r matches Some(f) ==> f < self@.fractions.len(),
    {
        proof {
            use_type_invariant(self);
        }
        self.focused
    }

    /// Hands each event to the children it concerns and tracks the focus: a pointer move
    /// focuses the child under the pointer (telling the child that loses the focus, and the
    /// one that gains it), leaving the parent drops the focus (telling the focused child),
    /// and any other input goes to the focused child, or nowhere. Returns the events of each
    /// child, in layout order.
    pub fn events_for_children<P: Copy, G>(&mut self, events: Vec<Located<P, G>>) -> (r: Vec<
        Vec<MyEvent<P, G>>,
    >)
        requires
            located_within(events@, old(self)@.fractions.len()),
        ensures
            r@.len() == old(self)@.fractions.len(),
            forall|i: int|
                0 <= i < r@.len() ==> #[trigger] r@[i]@ == delivered_to(
                    route(old(self)@.focused, events@).1, i),
            final(self)@ == (LayoutView { focused: route(old(self)@.focused, events@).0, ..old(self)@ }),
    {
        proof {
            use_type_invariant(&*self);
        }
        let n = self.layout_fract.len();
        let mut buckets: Vec<Vec<MyEvent<P, G>>> = Vec::new();
        while buckets.len() < n
            invariant
                buckets@.len() <= n,
                forall|i: int| 0 <= i < buckets@.len() ==> (#[trigger] buckets@[i])@.len() == 0,
            decreases n - buckets@.len(),
        {
            buckets.push(Vec::new());
        }
        let ghost f0 = self.focused;
        let ghost evs = events@;
        let ghost start = self@;
        let ghost mut k: int = 0;
        for ev in it: events
            invariant
                n == self.layout_fract@.len(),
                self.layout_weight@.len() == n,
                self.axis == start.axis,
                self.layout_weight@ == start.weights,
                self.layout_fract@ == start.fractions,
                f0 == start.focused,
                self.focused matches Some(f) ==> f < n,
                buckets@.len() == n,
                evs == it.seq(),
                located_within(evs, n as nat),
                k == it.index(),
                self.focused == route(f0, evs.take(k)).0,
                forall|i: int|
                    0 <= i < n ==> #[trigger] buckets@[i]@ == delivered_to(
                        route(f0, evs.take(k)).1, i),
        {
            let ghost before = route(f0, evs.take(k));
            let ghost step = route_one(before.0, evs[k]);
            let ghost mut ds = before.1;
            proof {
                assert(evs.take(k + 1).drop_last() == evs.take(k));
                assert(evs.take(k + 1).last() == evs[k]);
                assert(located_child(evs[k]) matches Some(c) ==> c < n);
            }
            match ev {
                Located::MousePos(c, q) => {
                    match self.focused {
                        Some(o) => {
                            if o != c {
                                deliver(&mut buckets, Ghost(ds), o, MyEvent::Focus(None));
                                proof {
                                    ds = ds.push((o, MyEvent::Focus(None)));
                                }
                                deliver(&mut buckets, Ghost(ds), c, MyEvent::Focus(Some(q)));
                                proof {
                                    ds = ds.push((c, MyEvent::Focus(Some(q))));
                                }
                            }
                        },
                        None => {},
                    }
                    self.focused = Some(c);
                    deliver(&mut buckets, Ghost(ds), c, MyEvent::MousePos(q));
                    proof {
                        ds = ds.push((c, MyEvent::MousePos(q)));
                    }
                },
                Located::Focus(None) => {
                    match self.focused {
                        Some(o) => {
                            deliver(&mut buckets, Ghost(ds), o, MyEvent::Focus(None));
                            proof {
                                ds = ds.push((o, MyEvent::Focus(None)));
                            }
                        },
                        None => {},
                    }
                    self.focused = None;
                },
                Located::Focus(Some((c, q))) => {
                    self.focused = Some(c);
                    deliver(&mut buckets, Ghost(ds), c, MyEvent::Focus(Some(q)));
                    proof {
                        ds = ds.push((c, MyEvent::Focus(Some(q))));
                    }
                },
                Located::GEvent(g, b) => {
                    match self.focused {
                        Some(o) => {
                            proof {
                                ds = ds.push((o, MyEvent::GEvent(g, b)));
                            }
                            deliver(&mut buckets, Ghost(before.1), o, MyEvent::GEvent(g, b));
                        },
                        None => {},
                    }
                },
            }
            proof {
                assert(ds =~= before.1 + step.1);
            }
            proof {
                k = k + 1;
            }
        }
        proof {
            assert(evs.take(evs.len() as int) == evs);
        }
        buckets
    }
}

} // verus!
