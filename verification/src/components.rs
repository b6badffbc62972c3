//! A progress bar, and the computations that the demonstration page shows.

use vstd::prelude::*;
use vstd::string::*;
use crate::dom::FacetView;
use crate::expr::Expr;
use crate::model::{Fault, RoleView};
use crate::store::{Prop, Reader, Store};
use crate::value::{decimal, Datum, Kind, Value};

verus! {

/// The maximum of a progress bar that is given none.
pub const DEFAULT_MAX: u16 = 100;

/// The bindings of a progress bar: that of its `max` attribute and that of
/// its `value` attribute.
#[derive(Debug, PartialEq, Eq)]
pub struct ProgressBar {
    pub max: usize,
    pub value: usize,
}

/// What the `max` attribute of a progress bar is bound to: the given
/// maximum, or the default where none is given.
pub open spec fn max_role(max: Option<u16>) -> RoleView {
    RoleView::Facet {
        facet: FacetView::Attribute("max"@),
        source: Expr::Lit(
            Value::Int(
                match max {
                    Some(m) => m as i32,
                    None => DEFAULT_MAX as i32,
                },
            ),
        ),
    }
}

/// What the `value` attribute of a progress bar is bound to.
pub open spec fn value_role(progress: Prop) -> RoleView {
    RoleView::Facet { facet: FacetView::Attribute("value"@), source: progress.source() }
}

/// Shows progress towards a goal on `node`: binds its `max` attribute to the
/// fixed maximum and its `value` attribute to `progress`. Both bindings are
/// made unmounted. Where the second is refused the first stays in the store.
pub fn progress_bar(store: &mut Store, node: usize, max: Option<u16>, progress: Prop) -> (r: Result<
    ProgressBar,
    Fault,
>)
    requires
        old(store)@.wf(),
    ensures
        final(store)@.wf(),
        match r {
            Ok(bar) => {
                &&& old(store)@.wire_fault(node, max_role(max)) is None
                &&& old(store)@.wired(node, max_role(max)).wire_fault(node, value_role(progress))
                    is None
                &&& final(store)@ == old(store)@.wired(node, max_role(max)).wired(
                    node,
                    value_role(progress),
                )
                &&& bar.max == old(store)@.bindings.len()
                &&& bar.value == old(store)@.bindings.len() + 1
            },
            Err(e) => if old(store)@.wire_fault(node, max_role(max)) is Some {
                old(store)@.wire_fault(node, max_role(max)) == Some(e) && final(store)@ == old(
                    store,
                )@
            } else {
                &&& old(store)@.wired(node, max_role(max)).wire_fault(node, value_role(progress))
                    == Some(e)
                &&& final(store)@ == old(store)@.wired(node, max_role(max))
            },
        },
{
    let limit: u16 = match max {
        Some(m) => m,
        None => DEFAULT_MAX,
    };
    let first = store.bind_attribute(node, "max", Prop::Static(Value::Int(limit as i32)));
    match first {
        Ok(max_binding) => {
            match store.bind_attribute(node, "value", progress) {
                Ok(value_binding) => Ok(ProgressBar { max: max_binding, value: value_binding }),
                Err(e) => Err(e),
            }
        },
        Err(e) => Err(e),
    }
}

/// The function that adds `n` to a number: the update that a click makes.
pub fn plus(n: i32) -> (f: Expr)
    ensures
        f == Expr::Add(Box::new(Expr::Arg), Box::new(Expr::Lit(Value::Int(n)))),
{
    Expr::Add(Box::new(Expr::Arg), Box::new(Expr::Lit(Value::Int(n))))
}

/// Twice the number that `count` reads.
pub fn double_count(count: &Reader) -> (e: Expr)
    ensures
        e == Expr::Mul(Box::new(count.source), Box::new(Expr::Lit(Value::Int(2)))),
{
    Expr::Mul(Box::new(count.source.duplicate()), Box::new(Expr::Lit(Value::Int(2))))
}

/// Whether the number that `count` reads leaves the remainder one when
/// divided by two.
pub fn is_odd(count: &Reader) -> (e: Expr)
    ensures
        e == Expr::Equals(
            Box::new(Expr::Rem(Box::new(count.source), 2)),
            Box::new(Expr::Lit(Value::Int(1))),
        ),
{
    Expr::Equals(
        Box::new(Expr::Rem(Box::new(count.source.duplicate()), 2)),
        Box::new(Expr::Lit(Value::Int(1))),
    )
}

/// The `left` offset of the moving button for the position `x`: a hundred
/// more than `x`, in pixels.
pub open spec fn left_text(x: i32) -> Seq<char> {
    decimal(x.wrapping_add(100) as int) + "px"@
}

/// The colour whose red part is written `red`, with a green and a blue part
/// of a hundred.
pub open spec fn colour_text(red: Seq<char>) -> Seq<char> {
    "rgb("@ + red + ", "@ + decimal(100) + ", 100)"@
}

/// The background colour of the moving button for the position `x`.
pub open spec fn background_text(x: i32) -> Seq<char> {
    colour_text(decimal(x as int))
}

/// The `left` offset for the number that `x` reads.
pub fn left_offset(x: &Reader) -> (e: Expr)
    ensures
        forall|env: Seq<Datum>| #[trigger]
            e.value_of(env, None) == Datum::Text(left_text(x.source.value_of(env, None).number())),
        forall|env: Seq<Datum>| #[trigger] e.reads_of(env, None) == x.source.reads_of(env, None),
        forall|kinds: Seq<Kind>| #[trigger]
            e.kind_of(kinds, None) == if x.source.kind_of(kinds, None) == Some(Kind::Int) {
                Some(Kind::Text)
            } else {
                None
            },
{
    let e = Expr::Join(
        Box::new(
            Expr::Show(
                Box::new(
                    Expr::Add(Box::new(x.source.duplicate()), Box::new(Expr::Lit(Value::Int(100)))),
                ),
            ),
        ),
        Box::new(Expr::Lit(Value::Text(String::from_str("px")))),
    );
    proof {
        reveal_with_fuel(Expr::value_of, 4);
        reveal_with_fuel(Expr::reads_of, 4);
        reveal_with_fuel(Expr::kind_of, 4);
        assert forall|env: Seq<Datum>| #[trigger]
            e.reads_of(env, None) == x.source.reads_of(env, None) by {
            assert(e.reads_of(env, None) =~= x.source.reads_of(env, None));
        }
    }
    e
}

/// The background colour for the number that `x` reads.
pub fn background(x: &Reader) -> (e: Expr)
    ensures
        forall|env: Seq<Datum>| #[trigger]
            e.value_of(env, None) == Datum::Text(colour_text(x.source.value_of(env, None).text())),
        forall|env: Seq<Datum>| #[trigger] e.reads_of(env, None) == x.source.reads_of(env, None),
        forall|kinds: Seq<Kind>| #[trigger]
            e.kind_of(kinds, None) == if x.source.kind_of(kinds, None) is Some {
                Some(Kind::Text)
            } else {
                None
            },
{
    let open = Expr::Lit(Value::Text(String::from_str("rgb(")));
    let red = Expr::Show(Box::new(x.source.duplicate()));
    let comma = Expr::Lit(Value::Text(String::from_str(", ")));
    let green = Expr::Show(Box::new(Expr::Lit(Value::Int(100))));
    let close = Expr::Lit(Value::Text(String::from_str(", 100)")));
    let ghost parts = (open, red, comma, green, close);
    let head = Expr::Join(Box::new(open), Box::new(red));
    let middle = Expr::Join(Box::new(comma), Box::new(green));
    let ghost halves = (head, middle);
    let front = Expr::Join(Box::new(head), Box::new(middle));
    let ghost whole = front;
    let e = Expr::Join(Box::new(front), Box::new(close));
    proof {
        assert forall|env: Seq<Datum>| #[trigger]
            e.reads_of(env, None) == x.source.reads_of(env, None) by {
            assert(parts.0.reads_of(env, None) =~= Seq::empty());
            assert(parts.1.reads_of(env, None) == x.source.reads_of(env, None));
            assert(parts.2.reads_of(env, None) =~= Seq::empty());
            assert(parts.3.reads_of(env, None) =~= Seq::empty()) by {
                reveal_with_fuel(Expr::reads_of, 2);
            }
            assert(parts.4.reads_of(env, None) =~= Seq::empty());
            assert(halves.0.reads_of(env, None) =~= x.source.reads_of(env, None));
            assert(halves.1.reads_of(env, None) =~= Seq::empty());
            assert(whole.reads_of(env, None) =~= x.source.reads_of(env, None));
            assert(e.reads_of(env, None) =~= x.source.reads_of(env, None));
        }
        assert forall|kinds: Seq<Kind>| #[trigger]
            e.kind_of(kinds, None) == if x.source.kind_of(kinds, None) is Some {
                Some(Kind::Text)
            } else {
                None
            } by {
            let red = if x.source.kind_of(kinds, None) is Some {
                Some(Kind::Text)
            } else {
                None
            };
            assert(parts.0.kind_of(kinds, None) == Some(Kind::Text));
            assert(parts.1.kind_of(kinds, None) == red);
            assert(parts.2.kind_of(kinds, None) == Some(Kind::Text));
            assert(parts.3.kind_of(kinds, None) == Some(Kind::Text)) by {
                reveal_with_fuel(Expr::kind_of, 2);
            }
            assert(parts.4.kind_of(kinds, None) == Some(Kind::Text));
            assert(halves.0.kind_of(kinds, None) == red);
            assert(halves.1.kind_of(kinds, None) == Some(Kind::Text));
            assert(whole.kind_of(kinds, None) == red);
        }
        assert forall|env: Seq<Datum>| #[trigger]
            e.value_of(env, None) == Datum::Text(
                colour_text(x.source.value_of(env, None).text()),
            ) by {
            assert(parts.0.value_of(env, None).letters() == "rgb("@);
            assert(parts.1.value_of(env, None).letters() == x.source.value_of(env, None).text());
            assert(parts.2.value_of(env, None).letters() == ", "@);
            assert(parts.3.value_of(env, None).letters() == decimal(100)) by {
                reveal_with_fuel(Expr::value_of, 2);
            }
            assert(parts.4.value_of(env, None).letters() == ", 100)"@);
            assert(halves.0.value_of(env, None).letters() == "rgb("@ + x.source.value_of(
                env,
                None,
            ).text());
            assert(halves.1.value_of(env, None).letters() == ", "@ + decimal(100));
            assert(whole.value_of(env, None).letters() == halves.0.value_of(env, None).letters()
                + halves.1.value_of(env, None).letters());
            assert(e.value_of(env, None).letters() == whole.value_of(env, None).letters()
                + ", 100)"@);
            assert(e.value_of(env, None).letters() =~= colour_text(
                x.source.value_of(env, None).text(),
            ));
        }
    }
    e
}

/// The number of columns for the number that `x` reads: its string form.
pub fn columns(x: &Reader) -> (e: Expr)
    ensures
        e == Expr::Show(Box::new(x.source)),
{
    Expr::Show(Box::new(x.source.duplicate()))
}

} // verus!
