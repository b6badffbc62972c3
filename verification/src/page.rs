//! The demonstration page: a counter button that turns red on odd counts,
//! the count and its double as text and as progress bars, a block of injected
//! markup, and a button that moves when clicked.

use vstd::prelude::*;
use vstd::string::*;
use crate::components::{
    background, background_text, columns, double_count, is_odd, left_offset, left_text, max_role,
    plus, progress_bar, value_role, ProgressBar,
};
use crate::dom::FacetView;
use crate::expr::{kinds_of, rem, Expr};
use crate::model::{blank, BindingView, Phase, RoleView, Step, StoreView, Writer};
use crate::store::{Prop, Reader, Store};
use crate::value::{decimal, Datum, Kind, Value};

verus! {

/// The node of the counter button.
pub const BUTTON: usize = 1;

/// The text node in the counter button that shows the count.
pub const BUTTON_COUNT: usize = 2;

/// The text node that shows the count in a paragraph.
pub const COUNT: usize = 3;

/// The progress bar of the count.
pub const BAR: usize = 4;

/// The text node that shows the doubled count.
pub const DOUBLE: usize = 5;

/// The progress bar of the doubled count.
pub const DOUBLE_BAR: usize = 6;

/// The block whose children are injected markup.
pub const INJECTED: usize = 7;

/// The button that moves when clicked.
pub const MOVER: usize = 8;

/// The handles of the demonstration page: its two signals, the derived
/// double of the count, and its bindings by name.
#[derive(Debug, PartialEq, Eq)]
pub struct App {
    pub count: Reader,
    pub set_count: Writer,
    pub x: Reader,
    pub set_x: Writer,
    pub double_count: Reader,
    pub count_click: usize,
    pub red: usize,
    pub button_count: usize,
    pub count_text: usize,
    pub bar: ProgressBar,
    pub double_text: usize,
    pub double_bar: ProgressBar,
    pub injected: usize,
    pub move_click: usize,
    pub position: usize,
    pub left: usize,
    pub background: usize,
    pub max_width: usize,
    pub columns: usize,
}

/// The signals of the page for a count and a position.
pub open spec fn page_env(count: i32, x: i32) -> Seq<Datum> {
    seq![Datum::Int(count), Datum::Int(x)]
}

/// The kinds of the two signals of the page.
pub open spec fn page_kinds() -> Seq<Kind> {
    seq![Kind::Int, Kind::Int]
}

/// The count.
pub open spec fn the_count() -> spec_fn(i32, i32) -> Datum {
    |c: i32, x: i32| Datum::Int(c)
}

/// Twice the count, wrapping around at the bounds of `i32`.
pub open spec fn the_double() -> spec_fn(i32, i32) -> Datum {
    |c: i32, x: i32| Datum::Int(c.wrapping_mul(2))
}

/// Whether the count leaves the remainder one when divided by two.
pub open spec fn the_parity() -> spec_fn(i32, i32) -> Datum {
    |c: i32, x: i32| Datum::Bool(rem(c as int, 2) == 1)
}

/// The `left` offset for the position.
pub open spec fn the_left() -> spec_fn(i32, i32) -> Datum {
    |c: i32, x: i32| Datum::Text(left_text(x))
}

/// The background colour for the position.
pub open spec fn the_colour() -> spec_fn(i32, i32) -> Datum {
    |c: i32, x: i32| Datum::Text(background_text(x))
}

/// The position in decimal.
pub open spec fn the_columns() -> spec_fn(i32, i32) -> Datum {
    |c: i32, x: i32| Datum::Text(decimal(x as int))
}

/// A number that does not change.
pub open spec fn the_number(n: i32) -> spec_fn(i32, i32) -> Datum {
    |c: i32, x: i32| Datum::Int(n)
}

/// A text that does not change.
pub open spec fn the_text(s: Seq<char>) -> spec_fn(i32, i32) -> Datum {
    |c: i32, x: i32| Datum::Text(s)
}

/// The function that adds `n`, wrapping around at the bounds of `i32`.
pub open spec fn adding(n: i32) -> spec_fn(i32) -> i32 {
    |v: i32| v.wrapping_add(n)
}

/// Whether `source` gives `f` of the count and the position, whatever they
/// are, and reads just the signals `reads` to do so.
#[verifier::opaque]
pub open spec fn means(source: Expr, f: spec_fn(i32, i32) -> Datum, reads: Seq<usize>) -> bool {
    &&& forall|c: i32, x: i32| #[trigger] source.value_of(page_env(c, x), None) == f(c, x)
    &&& forall|c: i32, x: i32| #[trigger] source.reads_of(page_env(c, x), None) == reads
}

/// Whether the update function `g` takes any number `v` to `f(v)`, whatever
/// the count and the position are.
#[verifier::opaque]
pub open spec fn applies(g: Expr, f: spec_fn(i32) -> i32) -> bool {
    forall|c: i32, x: i32, v: i32| #[trigger]
        g.value_of(page_env(c, x), Some(Datum::Int(v))) == Datum::Int(f(v))
}

/// Whether the binding keeps `facet` of `node` at `f` of the count and the
/// position, and reads just the signals `reads` to do so.
pub open spec fn shows(
    b: BindingView,
    node: usize,
    facet: FacetView,
    f: spec_fn(i32, i32) -> Datum,
    reads: Seq<usize>,
) -> bool {
    &&& b.node == node
    &&& b.role matches RoleView::Facet { facet: g, source }
    &&& g == facet
    &&& means(source, f, reads)
}

/// Whether the binding is a handler of `event` on `node` with one step, which
/// takes the signal `target` from any number `v` to `f(v)`.
pub open spec fn handles(
    b: BindingView,
    node: usize,
    event: Seq<char>,
    target: usize,
    f: spec_fn(i32) -> i32,
) -> bool {
    &&& b.node == node
    &&& b.role matches RoleView::Event { event: e, steps }
    &&& e == event
    &&& steps.len() == 1
    &&& steps[0].target.id == target
    &&& applies(steps[0].f, f)
}

/// Whether every binding of the store is on a node below `bound`.
#[verifier::opaque]
pub open spec fn below(s: StoreView, bound: usize) -> bool {
    forall|b: int| 0 <= b < s.bindings.len() ==> (#[trigger] s.bindings[b]).node < bound
}

/// Whether the store is that of a page on which nothing is mounted yet: the
/// count and the position at zero, every binding unmounted.
#[verifier::opaque]
pub open spec fn pristine(s: StoreView) -> bool {
    &&& s.wf()
    &&& !s.released
    &&& s.root is None
    &&& s.env == page_env(0, 0)
    &&& s.eager == seq![false, false]
    &&& forall|b: int|
        0 <= b < s.bindings.len() ==> (#[trigger] s.bindings[b]).phase == Phase::Unmounted
}

/// Whether the second store is the first with `n` more bindings.
#[verifier::opaque]
pub open spec fn grown(s: StoreView, t: StoreView, n: int) -> bool {
    &&& t.bindings.len() == s.bindings.len() + n
    &&& forall|b: int| 0 <= b < s.bindings.len() ==> #[trigger] t.bindings[b] == s.bindings[b]
}

proof fn lemma_grown_none(s: StoreView)
    ensures
        grown(s, s, 0),
{
    reveal(grown);
}

proof fn lemma_grown_chain(s: StoreView, t: StoreView, u: StoreView, n: int, m: int)
    requires
        grown(s, t, n),
        grown(t, u, m),
        n >= 0,
    ensures
        grown(s, u, n + m),
{
    reveal(grown);
    assert forall|b: int| 0 <= b < s.bindings.len() implies #[trigger] u.bindings[b]
        == s.bindings[b] by {
        assert(t.bindings[b] == s.bindings[b]);
        assert(u.bindings[b] == t.bindings[b]);
    }
}

proof fn lemma_grown_len(s: StoreView, t: StoreView, n: int)
    requires
        grown(s, t, n),
    ensures
        t.bindings.len() == s.bindings.len() + n,
{
    reveal(grown);
}

proof fn lemma_grown_keeps(s: StoreView, t: StoreView, n: int, b: int)
    requires
        grown(s, t, n),
        0 <= b < s.bindings.len(),
    ensures
        t.bindings[b] == s.bindings[b],
        t.bindings.len() == s.bindings.len() + n,
{
    reveal(grown);
}

proof fn lemma_widen(s: StoreView, bound: usize, wider: usize)
    requires
        below(s, bound),
        bound <= wider,
    ensures
        below(s, wider),
{
    reveal(below);
}

/// No facet of a node is held while all bindings are on nodes below it.
proof fn lemma_fresh(s: StoreView, node: usize, facet: FacetView)
    requires
        below(s, node),
    ensures
        !s.held(node, facet),
{
    reveal(below);
}

/// A facet that is free stays free when a binding is made that does not own
/// it.
proof fn lemma_still_free(
    s: StoreView,
    by_node: usize,
    by_role: RoleView,
    node: usize,
    facet: FacetView,
)
    requires
        !s.held(node, facet),
        !blank(by_node, by_role).owns(node, facet),
    ensures
        !s.wired(by_node, by_role).held(node, facet),
{
    let t = s.wired(by_node, by_role);
    assert forall|b: int| 0 <= b < t.bindings.len() implies !(#[trigger] t.bindings[b]).owns(
        node,
        facet,
    ) by {
        if b < s.bindings.len() {
            assert(t.bindings[b] == s.bindings[b]);
            assert(!s.bindings[b].owns(node, facet));
        }
    }
}

/// A binding that fits the page and whose facet is free is not refused, and
/// leaves the store pristine, with the new binding last.
proof fn lemma_place(s: StoreView, node: usize, role: RoleView, bound: usize)
    requires
        pristine(s),
        below(s, bound),
        node < bound,
        blank(node, role).typed(page_kinds()),
        role matches RoleView::Facet { facet, .. } ==> !s.held(node, facet),
    ensures
        s.wf(),
        s.wire_fault(node, role) is None,
        pristine(s.wired(node, role)),
        below(s.wired(node, role), bound),
        grown(s, s.wired(node, role), 1),
        s.wired(node, role).bindings.len() == s.bindings.len() + 1,
        s.wired(node, role).bindings[s.bindings.len() as int] == blank(node, role),
{
    reveal(pristine);
    reveal(below);
    reveal(grown);
    assert(kinds_of(s.env) =~= page_kinds());
    s.lemma_wired_wf(node, role);
}

proof fn lemma_means_count()
    ensures
        means(Expr::Read(0), the_count(), seq![0usize]),
        Expr::Read(0).kind_of(page_kinds(), None) == Some(Kind::Int),
{
    reveal(means);
}

proof fn lemma_means_double(e: Expr)
    requires
        e == Expr::Mul(Box::new(Expr::Read(0)), Box::new(Expr::Lit(Value::Int(2)))),
    ensures
        means(e, the_double(), seq![0usize]),
        e.kind_of(page_kinds(), None) == Some(Kind::Int),
{
    reveal(means);
    reveal_with_fuel(Expr::value_of, 3);
    reveal_with_fuel(Expr::reads_of, 3);
    reveal_with_fuel(Expr::kind_of, 3);
    assert forall|c: i32, x: i32| #[trigger] e.reads_of(page_env(c, x), None) == seq![0usize] by {
        assert(e.reads_of(page_env(c, x), None) =~= seq![0usize]);
    }
}

proof fn lemma_means_parity(e: Expr)
    requires
        e == Expr::Equals(
            Box::new(Expr::Rem(Box::new(Expr::Read(0)), 2)),
            Box::new(Expr::Lit(Value::Int(1))),
        ),
    ensures
        means(e, the_parity(), seq![0usize]),
        e.kind_of(page_kinds(), None) == Some(Kind::Bool),
{
    reveal(means);
    reveal_with_fuel(Expr::value_of, 4);
    reveal_with_fuel(Expr::reads_of, 4);
    reveal_with_fuel(Expr::kind_of, 4);
    assert forall|c: i32, x: i32| #[trigger] e.reads_of(page_env(c, x), None) == seq![0usize] by {
        assert(e.reads_of(page_env(c, x), None) =~= seq![0usize]);
    }
}

proof fn lemma_means_columns(e: Expr)
    requires
        e == Expr::Show(Box::new(Expr::Read(1))),
    ensures
        means(e, the_columns(), seq![1usize]),
        e.kind_of(page_kinds(), None) == Some(Kind::Text),
{
    reveal(means);
    reveal_with_fuel(Expr::value_of, 3);
    reveal_with_fuel(Expr::reads_of, 3);
    reveal_with_fuel(Expr::kind_of, 3);
}

proof fn lemma_means_number(n: i32)
    ensures
        means(Expr::Lit(Value::Int(n)), the_number(n), Seq::empty()),
        Expr::Lit(Value::Int(n)).kind_of(page_kinds(), None) == Some(Kind::Int),
{
    reveal(means);
}

proof fn lemma_means_text(v: Value)
    requires
        v is Text,
    ensures
        means(Expr::Lit(v), the_text(v@->Text_0), Seq::empty()),
        Expr::Lit(v).kind_of(page_kinds(), None) == Some(Kind::Text),
{
    reveal(means);
}

proof fn lemma_applies_plus(g: Expr, n: i32)
    requires
        g == Expr::Add(Box::new(Expr::Arg), Box::new(Expr::Lit(Value::Int(n)))),
    ensures
        applies(g, adding(n)),
        g.kind_of(page_kinds(), Some(Kind::Int)) == Some(Kind::Int),
{
    reveal(applies);
    reveal_with_fuel(Expr::value_of, 3);
    reveal_with_fuel(Expr::kind_of, 3);
}

fn counter(store: &mut Store, count: &Reader, set_count: Writer) -> (ids: (
    usize,
    usize,
    usize,
    usize,
))
    requires
        pristine(old(store)@),
        below(old(store)@, BUTTON),
        count.source == Expr::Read(0),
        set_count.id == 0,
    ensures
        pristine(final(store)@),
        below(final(store)@, BAR),
        grown(old(store)@, final(store)@, 4),
        ids.0 == old(store)@.bindings.len(),
        ids.1 == ids.0 + 1,
        ids.2 == ids.0 + 2,
        ids.3 == ids.0 + 3,
        handles(final(store)@.bindings[ids.0 as int], BUTTON, "click"@, 0, adding(1)),
        shows(
            final(store)@.bindings[ids.1 as int],
            BUTTON,
            FacetView::Class("red"@),
            the_parity(),
            seq![0usize],
        ),
        shows(
            final(store)@.bindings[ids.2 as int],
            BUTTON_COUNT,
            FacetView::Text,
            the_count(),
            seq![0usize],
        ),
        shows(final(store)@.bindings[ids.3 as int], COUNT, FacetView::Text, the_count(), seq![0usize]),
{
    let ghost s0 = store@;
    let ghost base = s0.bindings.len() as int;

    let up = plus(1);
    let ghost up_f = up;
    let mut steps: Vec<Step> = Vec::new();
    steps.push(Step { target: set_count, f: up });
    let ghost click = RoleView::Event { event: "click"@, steps: steps@ };
    proof {
        lemma_applies_plus(up_f, 1);
        lemma_widen(s0, BUTTON, BAR);
        lemma_place(s0, BUTTON, click, BAR);
        lemma_fresh(s0, BUTTON, FacetView::Class("red"@));
        lemma_still_free(s0, BUTTON, click, BUTTON, FacetView::Class("red"@));
    }
    let count_click = store.on(BUTTON, "click", steps).unwrap();
    let ghost s1 = store@;

    let odd = is_odd(count);
    let ghost red_role = RoleView::Facet { facet: FacetView::Class("red"@), source: odd };
    proof {
        lemma_means_parity(odd);
        lemma_place(s1, BUTTON, red_role, BAR);
    }
    let red = store.bind_class(BUTTON, "red", Prop::Reactive(Reader { source: odd })).unwrap();
    let ghost s2 = store@;

    let first = count.source.duplicate();
    let ghost first_role = RoleView::Facet { facet: FacetView::Text, source: first };
    proof {
        lemma_means_count();
        assert(below(s2, BUTTON_COUNT)) by {
            reveal(below);
            assert(below(s0, BUTTON));
        }
        lemma_fresh(s2, BUTTON_COUNT, FacetView::Text);
        lemma_place(s2, BUTTON_COUNT, first_role, BAR);
    }
    let button_count = store.bind_text(BUTTON_COUNT, Prop::Reactive(Reader { source: first })).unwrap();
    let ghost s3 = store@;

    let second = count.source.duplicate();
    let ghost second_role = RoleView::Facet { facet: FacetView::Text, source: second };
    proof {
        assert(below(s3, COUNT)) by {
            reveal(below);
            assert(below(s2, BUTTON_COUNT));
        }
        lemma_fresh(s3, COUNT, FacetView::Text);
        lemma_place(s3, COUNT, second_role, BAR);
    }
    let count_text = store.bind_text(COUNT, Prop::Reactive(Reader { source: second })).unwrap();
    proof {
        let s4 = store@;
        lemma_grown_chain(s0, s1, s2, 1, 1);
        lemma_grown_chain(s0, s2, s3, 2, 1);
        lemma_grown_chain(s0, s3, s4, 3, 1);
        assert(s4.bindings[base] == blank(BUTTON, click));
        assert(s4.bindings[base + 1] == blank(BUTTON, red_role));
        assert(s4.bindings[base + 2] == blank(BUTTON_COUNT, first_role));
        assert(s4.bindings[base + 3] == blank(COUNT, second_role));
    }
    (count_click, red, button_count, count_text)
}

fn gauge(store: &mut Store, node: usize, progress: Expr, Ghost(f): Ghost<
    spec_fn(i32, i32) -> Datum,
>) -> (bar: ProgressBar)
    requires
        pristine(old(store)@),
        below(old(store)@, node),
        node < usize::MAX,
        progress.kind_of(page_kinds(), None) is Some,
        means(progress, f, seq![0usize]),
    ensures
        pristine(final(store)@),
        below(final(store)@, (node + 1) as usize),
        grown(old(store)@, final(store)@, 2),
        bar.max == old(store)@.bindings.len(),
        bar.value == bar.max + 1,
        shows(
            final(store)@.bindings[bar.max as int],
            node,
            FacetView::Attribute("max"@),
            the_number(50),
            Seq::empty(),
        ),
        shows(final(store)@.bindings[bar.value as int], node, FacetView::Attribute("value"@), f, seq![0usize]),
{
    let ghost s0 = store@;
    let prop = Prop::Reactive(Reader { source: progress });
    proof {
        reveal_strlit("max");
        reveal_strlit("value");
        assert("max"@.len() != "value"@.len());
        let next = (node + 1) as usize;
        lemma_means_number(50);
        lemma_widen(s0, node, next);
        lemma_fresh(s0, node, FacetView::Attribute("max"@));
        lemma_fresh(s0, node, FacetView::Attribute("value"@));
        lemma_place(s0, node, max_role(Some(50)), next);
        lemma_still_free(s0, node, max_role(Some(50)), node, FacetView::Attribute("value"@));
        let s1 = s0.wired(node, max_role(Some(50)));
        lemma_place(s1, node, value_role(prop), next);
        lemma_grown_chain(s0, s1, s1.wired(node, value_role(prop)), 1, 1);
    }
    progress_bar(store, node, Some(50), prop).unwrap()
}

fn mover(store: &mut Store, x: &Reader, set_x: Writer) -> (ids: (
    usize,
    usize,
    usize,
    usize,
    usize,
    usize,
))
    requires
        pristine(old(store)@),
        below(old(store)@, MOVER),
        x.source == Expr::Read(1),
        set_x.id == 1,
    ensures
        pristine(final(store)@),
        grown(old(store)@, final(store)@, 6),
        ids.0 == old(store)@.bindings.len(),
        ids.1 == ids.0 + 1,
        ids.2 == ids.0 + 2,
        ids.3 == ids.0 + 3,
        ids.4 == ids.0 + 4,
        ids.5 == ids.0 + 5,
        handles(final(store)@.bindings[ids.0 as int], MOVER, "click"@, 1, adding(10)),
        shows(
            final(store)@.bindings[ids.1 as int],
            MOVER,
            FacetView::Attribute("style"@),
            the_text("position: absolute"@),
            Seq::empty(),
        ),
        shows(
            final(store)@.bindings[ids.2 as int],
            MOVER,
            FacetView::Style("left"@),
            the_left(),
            seq![1usize],
        ),
        shows(
            final(store)@.bindings[ids.3 as int],
            MOVER,
            FacetView::Style("background-color"@),
            the_colour(),
            seq![1usize],
        ),
        shows(
            final(store)@.bindings[ids.4 as int],
            MOVER,
            FacetView::Style("max-width"@),
            the_text("400px"@),
            Seq::empty(),
        ),
        shows(
            final(store)@.bindings[ids.5 as int],
            MOVER,
            FacetView::Style("--columns"@),
            the_columns(),
            seq![1usize],
        ),
{
    let ghost s0 = store@;
    let ghost base = s0.bindings.len() as int;
    let ghost f_style = FacetView::Attribute("style"@);
    let ghost f_left = FacetView::Style("left"@);
    let ghost f_colour = FacetView::Style("background-color"@);
    let ghost f_width = FacetView::Style("max-width"@);
    let ghost f_columns = FacetView::Style("--columns"@);
    proof {
        reveal_strlit("left");
        reveal_strlit("background-color");
        reveal_strlit("max-width");
        reveal_strlit("--columns");
        assert("left"@.len() == 4);
        assert("background-color"@.len() == 16);
        assert("max-width"@.len() == 9);
        assert("max-width"@[0] == 'm');
        assert("--columns"@.len() == 9);
        assert("--columns"@[0] == '-');
        assert("--columns"@[1] == '-');
        assert(f_left != f_colour && f_left != f_width && f_left != f_columns);
        assert(f_colour != f_width && f_colour != f_columns && f_width != f_columns);
        lemma_widen(s0, MOVER, 9);
        lemma_fresh(s0, MOVER, f_style);
        lemma_fresh(s0, MOVER, f_left);
        lemma_fresh(s0, MOVER, f_colour);
        lemma_fresh(s0, MOVER, f_width);
        lemma_fresh(s0, MOVER, f_columns);
    }

    let along = plus(10);
    let ghost along_f = along;
    let mut steps: Vec<Step> = Vec::new();
    steps.push(Step { target: set_x, f: along });
    let ghost click = RoleView::Event { event: "click"@, steps: steps@ };
    proof {
        lemma_applies_plus(along_f, 10);
        lemma_place(s0, MOVER, click, 9);
        lemma_still_free(s0, MOVER, click, MOVER, f_style);
        lemma_still_free(s0, MOVER, click, MOVER, f_left);
        lemma_still_free(s0, MOVER, click, MOVER, f_colour);
        lemma_still_free(s0, MOVER, click, MOVER, f_width);
        lemma_still_free(s0, MOVER, click, MOVER, f_columns);
    }
    let move_click = store.on(MOVER, "click", steps).unwrap();
    let ghost s1 = store@;

    let fixed = Value::Text(String::from_str("position: absolute"));
    let ghost position_role = RoleView::Facet { facet: f_style, source: Expr::Lit(fixed) };
    proof {
        lemma_means_text(fixed);
        lemma_place(s1, MOVER, position_role, 9);
        lemma_still_free(s1, MOVER, position_role, MOVER, f_left);
        lemma_still_free(s1, MOVER, position_role, MOVER, f_colour);
        lemma_still_free(s1, MOVER, position_role, MOVER, f_width);
        lemma_still_free(s1, MOVER, position_role, MOVER, f_columns);
    }
    let position = store.bind_attribute(MOVER, "style", Prop::Static(fixed)).unwrap();
    let ghost s2 = store@;

    let offset = left_offset(x);
    let ghost left_role = RoleView::Facet { facet: f_left, source: offset };
    proof {
        assert(means(offset, the_left(), seq![1usize])) by {
            reveal(means);
        }
        lemma_place(s2, MOVER, left_role, 9);
        lemma_still_free(s2, MOVER, left_role, MOVER, f_colour);
        lemma_still_free(s2, MOVER, left_role, MOVER, f_width);
        lemma_still_free(s2, MOVER, left_role, MOVER, f_columns);
    }
    let left = store.bind_style(MOVER, "left", Prop::Reactive(Reader { source: offset })).unwrap();
    let ghost s3 = store@;

    let colour = background(x);
    let ghost colour_role = RoleView::Facet { facet: f_colour, source: colour };
    proof {
        assert(means(colour, the_colour(), seq![1usize])) by {
            reveal(means);
        }
        lemma_place(s3, MOVER, colour_role, 9);
        lemma_still_free(s3, MOVER, colour_role, MOVER, f_width);
        lemma_still_free(s3, MOVER, colour_role, MOVER, f_columns);
    }
    let background = store.bind_style(
        MOVER,
        "background-color",
        Prop::Reactive(Reader { source: colour }),
    ).unwrap();
    let ghost s4 = store@;

    let limit = Value::Text(String::from_str("400px"));
    let ghost width_role = RoleView::Facet { facet: f_width, source: Expr::Lit(limit) };
    proof {
        lemma_means_text(limit);
        lemma_place(s4, MOVER, width_role, 9);
        lemma_still_free(s4, MOVER, width_role, MOVER, f_columns);
    }
    let max_width = store.bind_style(MOVER, "max-width", Prop::Static(limit)).unwrap();
    let ghost s5 = store@;

    let wide = columns(x);
    let ghost columns_role = RoleView::Facet { facet: f_columns, source: wide };
    proof {
        lemma_means_columns(wide);
        lemma_place(s5, MOVER, columns_role, 9);
    }
    let columns = store.bind_css_var(MOVER, "--columns", Prop::Reactive(Reader { source: wide })).unwrap();
    proof {
        let s6 = store@;
        lemma_grown_chain(s0, s1, s2, 1, 1);
        lemma_grown_chain(s0, s2, s3, 2, 1);
        lemma_grown_chain(s0, s3, s4, 3, 1);
        lemma_grown_chain(s0, s4, s5, 4, 1);
        lemma_grown_chain(s0, s5, s6, 5, 1);
        assert(s6.bindings[base] == blank(MOVER, click));
        assert(s6.bindings[base + 1] == blank(MOVER, position_role));
        assert(s6.bindings[base + 2] == blank(MOVER, left_role));
        assert(s6.bindings[base + 3] == blank(MOVER, colour_role));
        assert(s6.bindings[base + 4] == blank(MOVER, width_role));
        assert(s6.bindings[base + 5] == blank(MOVER, columns_role));
    }
    (move_click, position, left, background, max_width, columns)
}

/// Whether the store holds the sixteen bindings of the page, described one
/// by one: what each shows or does as a function of the count and the
/// position.
pub open spec fn laid_out(s: StoreView) -> bool {
    &&& s.bindings.len() == 16
    &&& handles(s.bindings[0], BUTTON, "click"@, 0, adding(1))
    &&& shows(
        s.bindings[1],
        BUTTON,
        FacetView::Class("red"@),
        the_parity(),
        seq![0usize],
    )
    &&& shows(s.bindings[2], BUTTON_COUNT, FacetView::Text, the_count(), seq![0usize])
    &&& shows(s.bindings[3], COUNT, FacetView::Text, the_count(), seq![0usize])
    &&& shows(
        s.bindings[4],
        BAR,
        FacetView::Attribute("max"@),
        the_number(50),
        Seq::empty(),
    )
    &&& shows(
        s.bindings[5],
        BAR,
        FacetView::Attribute("value"@),
        the_count(),
        seq![0usize],
    )
    &&& shows(
        s.bindings[6],
        DOUBLE,
        FacetView::Text,
        the_double(),
        seq![0usize],
    )
    &&& shows(
        s.bindings[7],
        DOUBLE_BAR,
        FacetView::Attribute("max"@),
        the_number(50),
        Seq::empty(),
    )
    &&& shows(
        s.bindings[8],
        DOUBLE_BAR,
        FacetView::Attribute("value"@),
        the_double(),
        seq![0usize],
    )
    &&& shows(
        s.bindings[9],
        INJECTED,
        FacetView::InnerHtml,
        the_text("<p>This HTML will be injected.</p>"@),
        Seq::empty(),
    )
    &&& handles(s.bindings[10], MOVER, "click"@, 1, adding(10))
    &&& shows(
        s.bindings[11],
        MOVER,
        FacetView::Attribute("style"@),
        the_text("position: absolute"@),
        Seq::empty(),
    )
    &&& shows(
        s.bindings[12],
        MOVER,
        FacetView::Style("left"@),
        the_left(),
        seq![1usize],
    )
    &&& shows(
        s.bindings[13],
        MOVER,
        FacetView::Style("background-color"@),
        the_colour(),
        seq![1usize],
    )
    &&& shows(
        s.bindings[14],
        MOVER,
        FacetView::Style("max-width"@),
        the_text("400px"@),
        Seq::empty(),
    )
    &&& shows(
        s.bindings[15],
        MOVER,
        FacetView::Style("--columns"@),
        the_columns(),
        seq![1usize],
    )
}

/// What the store and the handles of a freshly built page are: the store is
/// pristine and laid out as the page, and the handles name its signals and
/// its bindings in the order in which they were made.
pub open spec fn is_app(s: StoreView, app: App) -> bool {
    &&& pristine(s)
    &&& laid_out(s)
    &&& app.count.source == Expr::Read(0)
    &&& app.set_count.id == 0
    &&& app.x.source == Expr::Read(1)
    &&& app.set_x.id == 1
    &&& app.double_count.source == Expr::Mul(
        Box::new(Expr::Read(0)),
        Box::new(Expr::Lit(Value::Int(2))),
    )
    &&& app.count_click == 0
    &&& app.red == 1
    &&& app.button_count == 2
    &&& app.count_text == 3
    &&& app.bar == (ProgressBar { max: 4, value: 5 })
    &&& app.double_text == 6
    &&& app.double_bar == (ProgressBar { max: 7, value: 8 })
    &&& app.injected == 9
    &&& app.move_click == 10
    &&& app.position == 11
    &&& app.left == 12
    &&& app.background == 13
    &&& app.max_width == 14
    &&& app.columns == 15
}

/// Builds the demonstration page in a store of its own: a counter button
/// that turns red on odd counts, the count and its double as text and as
/// progress bars to fifty, a block of injected markup, and a button that
/// moves ten to the right with each click. Nothing is mounted yet.
pub fn app() -> (r: (Store, App))
    ensures
        is_app(r.0@, r.1),
{
    let mut store = Store::new();
    let (count, set_count) = store.create(Value::Int(0)).unwrap();
    let (x, set_x) = store.create(Value::Int(0)).unwrap();
    let ghost s0 = store@;
    proof {
        assert(s0.env =~= page_env(0, 0));
        assert(s0.eager =~= seq![false, false]);
        assert(s0.bindings =~= Seq::empty());
        assert(pristine(s0)) by {
            reveal(pristine);
        }
        assert(below(s0, BUTTON)) by {
            reveal(below);
        }
    }
    let double = double_count(&count);
    proof {
        lemma_means_double(double);
        lemma_means_count();
        assert(kinds_of(s0.env) =~= page_kinds());
    }
    let double_count = store.derive(double).unwrap();

    let ids = counter(&mut store, &count, set_count);
    let ghost s1 = store@;
    let bar = gauge(&mut store, BAR, count.source.duplicate(), Ghost(the_count()));
    let ghost s2 = store@;

    let twice = double_count.source.duplicate();
    let ghost twice_role = RoleView::Facet { facet: FacetView::Text, source: twice };
    proof {
        lemma_fresh(s2, DOUBLE, FacetView::Text);
        lemma_widen(s2, DOUBLE, DOUBLE_BAR);
        lemma_place(s2, DOUBLE, twice_role, DOUBLE_BAR);
    }
    let double_text = store.bind_text(DOUBLE, Prop::Reactive(Reader { source: twice })).unwrap();
    let ghost s3 = store@;
    let double_bar = gauge(
        &mut store,
        DOUBLE_BAR,
        double_count.source.duplicate(),
        Ghost(the_double()),
    );
    let ghost s4 = store@;

    let html = Value::Text(String::from_str("<p>This HTML will be injected.</p>"));
    let ghost html_role = RoleView::Facet { facet: FacetView::InnerHtml, source: Expr::Lit(html) };
    proof {
        lemma_means_text(html);
        lemma_fresh(s4, INJECTED, FacetView::InnerHtml);
        lemma_widen(s4, INJECTED, MOVER);
        lemma_place(s4, INJECTED, html_role, MOVER);
    }
    let injected = store.bind_inner_html(INJECTED, Prop::Static(html)).unwrap();
    let ghost s5 = store@;
    let moves = mover(&mut store, &x, set_x);
    proof {
        let s6 = store@;
        lemma_grown_len(s0, s1, 4);
        lemma_grown_len(s1, s2, 2);
        lemma_grown_len(s2, s3, 1);
        lemma_grown_len(s3, s4, 2);
        lemma_grown_len(s4, s5, 1);
        lemma_grown_len(s5, s6, 6);
        lemma_grown_chain(s1, s2, s3, 2, 1);
        lemma_grown_chain(s1, s3, s4, 3, 2);
        lemma_grown_chain(s1, s4, s5, 5, 1);
        lemma_grown_chain(s1, s5, s6, 6, 6);
        lemma_grown_chain(s2, s3, s4, 1, 2);
        lemma_grown_chain(s2, s4, s5, 3, 1);
        lemma_grown_chain(s2, s5, s6, 4, 6);
        lemma_grown_chain(s3, s4, s5, 2, 1);
        lemma_grown_chain(s3, s5, s6, 3, 6);
        lemma_grown_chain(s4, s5, s6, 1, 6);
        lemma_grown_keeps(s1, s6, 12, 0);
        lemma_grown_keeps(s1, s6, 12, 1);
        lemma_grown_keeps(s1, s6, 12, 2);
        lemma_grown_keeps(s1, s6, 12, 3);
        lemma_grown_keeps(s2, s6, 10, 4);
        lemma_grown_keeps(s2, s6, 10, 5);
        lemma_grown_keeps(s3, s6, 9, 6);
        lemma_grown_keeps(s4, s6, 7, 7);
        lemma_grown_keeps(s4, s6, 7, 8);
        lemma_grown_keeps(s5, s6, 6, 9);
    }
    (
        store,
        App {
            count,
            set_count,
            x,
            set_x,
            double_count,
            count_click: ids.0,
            red: ids.1,
            button_count: ids.2,
            count_text: ids.3,
            bar,
            double_text,
            double_bar,
            injected,
            move_click: moves.0,
            position: moves.1,
            left: moves.2,
            background: moves.3,
            max_width: moves.4,
            columns: moves.5,
        },
    )
}

/// Whether the store is that of a mounted page on which the count is `c` and
/// the position `x`.
#[verifier::opaque]
pub open spec fn page_at(t: StoreView, c: i32, x: i32) -> bool {
    &&& t.wf()
    &&& !t.released
    &&& t.env == page_env(c, x)
    &&& t.eager == seq![false, false]
    &&& laid_out(t)
    &&& forall|b: int| 0 <= b < t.bindings.len() ==> (#[trigger] t.bindings[b]).phase == Phase::Mounted
}

/// The layout of a page speaks of the node and the role of each binding and
/// of nothing else.
proof fn lemma_layout_kept(s: StoreView, t: StoreView)
    requires
        laid_out(s),
        t.bindings.len() == s.bindings.len(),
        forall|b: int|
            0 <= b < s.bindings.len() ==> (#[trigger] t.bindings[b]).node == s.bindings[b].node
                && t.bindings[b].role == s.bindings[b].role,
    ensures
        laid_out(t),
{
    assert(t.bindings[0].role == s.bindings[0].role);
    assert(t.bindings[1].role == s.bindings[1].role);
    assert(t.bindings[2].role == s.bindings[2].role);
    assert(t.bindings[3].role == s.bindings[3].role);
    assert(t.bindings[4].role == s.bindings[4].role);
    assert(t.bindings[5].role == s.bindings[5].role);
    assert(t.bindings[6].role == s.bindings[6].role);
    assert(t.bindings[7].role == s.bindings[7].role);
    assert(t.bindings[8].role == s.bindings[8].role);
    assert(t.bindings[9].role == s.bindings[9].role);
    assert(t.bindings[10].role == s.bindings[10].role);
    assert(t.bindings[11].role == s.bindings[11].role);
    assert(t.bindings[12].role == s.bindings[12].role);
    assert(t.bindings[13].role == s.bindings[13].role);
    assert(t.bindings[14].role == s.bindings[14].role);
    assert(t.bindings[15].role == s.bindings[15].role);
}

/// Mounting a freshly built page gives the mounted page at count zero and
/// position zero.
pub proof fn lemma_mount_gives_page(s: StoreView, app: App, root: usize)
    requires
        is_app(s, app),
    ensures
        page_at(s.mounted(root), 0, 0),
{
    reveal(pristine);
    reveal(page_at);
    s.lemma_mounted_wf(root);
    let t = s.mounted(root);
    assert forall|b: int| 0 <= b < s.bindings.len() implies (#[trigger] t.bindings[b]).node
        == s.bindings[b].node && t.bindings[b].role == s.bindings[b].role by {
        assert(s.bindings[b].phase == Phase::Unmounted);
    }
    lemma_layout_kept(s, t);
    assert forall|b: int| 0 <= b < t.bindings.len() implies (#[trigger] t.bindings[b]).phase
        == Phase::Mounted by {
        assert(s.bindings[b].phase == Phase::Unmounted);
    }
}

/// A write to the count or the position of a mounted page gives the mounted
/// page at the new count or position.
proof fn lemma_page_written(t: StoreView, c: i32, x: i32, id: usize, v: i32)
    requires
        page_at(t, c, x),
        id < 2,
    ensures
        page_at(t.written(id, Datum::Int(v)), if id == 0 { v } else { c }, if id == 0 { x } else { v }),
{
    reveal(page_at);
    let u = t.written(id, Datum::Int(v));
    t.lemma_written_wf(id, Datum::Int(v));
    crate::laws::lemma_write_lands(t, id, Datum::Int(v));
    assert(u.env =~= page_env(if id == 0 { v } else { c }, if id == 0 { x } else { v }));
    assert forall|b: int| 0 <= b < t.bindings.len() implies (#[trigger] u.bindings[b]).node
        == t.bindings[b].node && u.bindings[b].role == t.bindings[b].role && u.bindings[b].phase
        == t.bindings[b].phase by {}
    lemma_layout_kept(t, u);
    assert forall|b: int| 0 <= b < u.bindings.len() implies (#[trigger] u.bindings[b]).phase
        == Phase::Mounted by {
        assert(t.bindings[b].phase == Phase::Mounted);
    }
}

/// A click on the counter button of a mounted page adds one to the count and
/// leaves the position: what the handler of the button makes of the page at
/// count `c` is the page at count `c + 1`, wrapping around at the bounds of
/// `i32`.
pub proof fn lemma_count_click(t: StoreView, c: i32, x: i32)
    requires
        page_at(t, c, x),
    ensures
        t.fire_fault(0) is None,
        page_at(
            t.after_steps(t.bindings[0].role->steps, t.bindings[0].role->steps.len() as int),
            c.wrapping_add(1),
            x,
        ),
{
    let steps = t.bindings[0].role->steps;
    assert(handles(t.bindings[0], BUTTON, "click"@, 0, adding(1)) && t.bindings[0].phase
        == Phase::Mounted) by {
        reveal(page_at);
    }
    assert(t.env == page_env(c, x) && !t.released && t.bindings.len() == 16) by {
        reveal(page_at);
    }
    assert(steps[0].f.value_of(page_env(c, x), Some(Datum::Int(c))) == Datum::Int(
        c.wrapping_add(1),
    )) by {
        reveal(applies);
    }
    reveal_with_fuel(StoreView::after_steps, 2);
    assert(t.after_steps(steps, 1) == t.written(0, Datum::Int(c.wrapping_add(1))));
    lemma_page_written(t, c, x, 0, c.wrapping_add(1));
}

/// A click on the moving button of a mounted page adds ten to the position
/// and leaves the count.
pub proof fn lemma_move_click(t: StoreView, c: i32, x: i32)
    requires
        page_at(t, c, x),
    ensures
        t.fire_fault(10) is None,
        page_at(
            t.after_steps(t.bindings[10].role->steps, t.bindings[10].role->steps.len() as int),
            c,
            x.wrapping_add(10),
        ),
{
    let steps = t.bindings[10].role->steps;
    assert(handles(t.bindings[10], MOVER, "click"@, 1, adding(10)) && t.bindings[10].phase
        == Phase::Mounted) by {
        reveal(page_at);
    }
    assert(t.env == page_env(c, x) && !t.released && t.bindings.len() == 16) by {
        reveal(page_at);
    }
    assert(steps[0].f.value_of(page_env(c, x), Some(Datum::Int(x))) == Datum::Int(
        x.wrapping_add(10),
    )) by {
        reveal(applies);
    }
    reveal_with_fuel(StoreView::after_steps, 2);
    assert(t.after_steps(steps, 1) == t.written(1, Datum::Int(x.wrapping_add(10))));
    lemma_page_written(t, c, x, 1, x.wrapping_add(10));
}

/// What a mounted page shows at count `c` and position `x`: the count in the
/// button and in the paragraph, the class `red` where the count leaves the
/// remainder one when divided by two, the count and its double as the values
/// of the progress bars, whose maximum is fifty, the double as text, and the
/// offset, colour and columns of the moving button.
pub proof fn lemma_page_shows(t: StoreView, c: i32, x: i32)
    requires
        page_at(t, c, x),
    ensures
        t.bindings[1].shown == Datum::Bool(rem(c as int, 2) == 1),
        t.bindings[2].shown == Datum::Int(c),
        t.bindings[3].shown == Datum::Int(c),
        t.bindings[4].shown == Datum::Int(50),
        t.bindings[5].shown == Datum::Int(c),
        t.bindings[6].shown == Datum::Int(c.wrapping_mul(2)),
        t.bindings[7].shown == Datum::Int(50),
        t.bindings[8].shown == Datum::Int(c.wrapping_mul(2)),
        t.bindings[9].shown == Datum::Text("<p>This HTML will be injected.</p>"@),
        t.bindings[11].shown == Datum::Text("position: absolute"@),
        t.bindings[12].shown == Datum::Text(left_text(x)),
        t.bindings[13].shown == Datum::Text(background_text(x)),
        t.bindings[14].shown == Datum::Text("400px"@),
        t.bindings[15].shown == Datum::Text(decimal(x as int)),
{
    reveal(page_at);
    reveal(StoreView::wf);
    reveal(means);
    assert(t.bindings[1].fresh(t.env));
    assert(t.bindings[2].fresh(t.env));
    assert(t.bindings[3].fresh(t.env));
    assert(t.bindings[4].fresh(t.env));
    assert(t.bindings[5].fresh(t.env));
    assert(t.bindings[6].fresh(t.env));
    assert(t.bindings[7].fresh(t.env));
    assert(t.bindings[8].fresh(t.env));
    assert(t.bindings[9].fresh(t.env));
    assert(t.bindings[11].fresh(t.env));
    assert(t.bindings[12].fresh(t.env));
    assert(t.bindings[13].fresh(t.env));
    assert(t.bindings[14].fresh(t.env));
    assert(t.bindings[15].fresh(t.env));
}

} // verus!
