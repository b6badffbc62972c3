//! What holds of the store in every state and after every sequence of writes.

use vstd::prelude::*;
use crate::dom::{DomCallView, FacetView};
use crate::expr::{kinds_of, rem, Expr};
use crate::model::{Phase, RoleView, StoreView};
use crate::value::{Datum, Value};

verus! {

/// Whether each of the first `k` writes, made in order, is to a signal that
/// exists and of a value of that signal's kind.
pub open spec fn writes_fit(s: StoreView, writes: Seq<(usize, Datum)>, k: int) -> bool
    decreases k,
{
    if k <= 0 {
        true
    } else {
        &&& writes_fit(s, writes, k - 1)
        &&& writes[k - 1].0 < s.env.len()
        &&& writes[k - 1].1.kind() == s.env[writes[k - 1].0 as int].kind()
    }
}

/// The store after the first `k` of the given writes, made in order.
pub open spec fn after_writes(s: StoreView, writes: Seq<(usize, Datum)>, k: int) -> StoreView
    decreases k,
{
    if k <= 0 {
        s
    } else {
        after_writes(s, writes, k - 1).written(writes[k - 1].0, writes[k - 1].1)
    }
}

/// A sequence of writes keeps the invariant of the store, the kinds of the
/// signals, and the node, role and phase of every binding.
pub proof fn lemma_writes_keep_invariant(s: StoreView, writes: Seq<(usize, Datum)>, k: int)
    requires
        s.wf(),
        0 <= k <= writes.len(),
        writes_fit(s, writes, k),
    ensures
        after_writes(s, writes, k).wf(),
        s.same_frame(after_writes(s, writes, k)),
    decreases k,
{
    if k > 0 {
        lemma_writes_keep_invariant(s, writes, k - 1);
        let before = after_writes(s, writes, k - 1);
        let (id, v) = writes[k - 1];
        assert(kinds_of(before.env)[id as int] == before.env[id as int].kind());
        assert(kinds_of(s.env)[id as int] == s.env[id as int].kind());
        before.lemma_written_wf(id, v);
        assert(before.written(id, v).env.len() == before.env.len());
    } else {
        assert(kinds_of(s.env) =~= kinds_of(s.env));
    }
}

/// No render is stale. After any sequence of writes, each to a signal of the
/// store and of a value of its kind, every mounted facet binding shows what
/// its source gives over the signals as they are then, and is subscribed to
/// just the signals that its source reads then.
pub proof fn lemma_no_stale_render(s: StoreView, writes: Seq<(usize, Datum)>, b: int)
    requires
        s.wf(),
        writes_fit(s, writes, writes.len() as int),
        0 <= b < s.bindings.len(),
        s.bindings[b].phase == Phase::Mounted,
        s.bindings[b].role is Facet,
    ensures
        ({
            let t = after_writes(s, writes, writes.len() as int);
            let source = s.bindings[b].role->source;
            &&& t.bindings[b].phase == Phase::Mounted
            &&& t.bindings[b].role == s.bindings[b].role
            &&& t.bindings[b].shown == source.value_of(t.env, None)
            &&& t.bindings[b].deps == source.reads_of(t.env, None)
        }),
{
    lemma_writes_keep_invariant(s, writes, writes.len() as int);
    let t = after_writes(s, writes, writes.len() as int);
    assert(t.bindings[b].fresh(t.env)) by {
        reveal(StoreView::wf);
    }
}

/// A write lands: unless it is quiet, the signal holds the written value
/// afterwards, and every other signal holds what it held.
pub proof fn lemma_write_lands(s: StoreView, id: usize, v: Datum)
    requires
        id < s.env.len(),
    ensures
        s.written(id, v).env == s.env.update(id as int, v),
{
    if s.quiet(id, v) {
        assert(s.env.update(id as int, v) =~= s.env);
    }
}

/// Writing the value that a signal already holds, where the signal notifies
/// only on a change, changes nothing and issues no call.
pub proof fn lemma_same_value_is_quiet(s: StoreView, id: usize, v: Datum)
    requires
        id < s.env.len(),
        !s.eager[id as int],
        s.env[id as int] == v,
    ensures
        s.written(id, v) == s,
        s.write_calls(id, v) == Seq::<DomCallView>::empty(),
{
}

/// A write to a signal that no binding is subscribed to issues no call and
/// leaves every binding as it is.
pub proof fn lemma_unread_signal_is_silent(s: StoreView, id: usize, v: Datum)
    requires
        forall|b: int| 0 <= b < s.bindings.len() ==> !(#[trigger] s.bindings[b]).subscribed(id),
    ensures
        s.write_calls(id, v) == Seq::<DomCallView>::empty(),
        s.written(id, v).bindings == s.bindings,
{
    if !s.quiet(id, v) {
        let env = s.env.update(id as int, v);
        lemma_notices_empty(s, id, env, s.bindings.len() as int);
        assert(s.notified(id, env, s.bindings.len() as int).bindings =~= s.bindings);
    }
}

proof fn lemma_notices_empty(s: StoreView, id: usize, env: Seq<Datum>, n: int)
    requires
        n <= s.bindings.len(),
        forall|b: int| 0 <= b < s.bindings.len() ==> !(#[trigger] s.bindings[b]).subscribed(id),
    ensures
        s.notices(id, env, n) == Seq::<DomCallView>::empty(),
    decreases n,
{
    if n > 0 {
        lemma_notices_empty(s, id, env, n - 1);
        assert(!s.bindings[n - 1].subscribed(id));
    }
}

/// A write does not touch a binding that is not subscribed to the signal.
pub proof fn lemma_unsubscribed_is_untouched(s: StoreView, id: usize, v: Datum, b: int)
    requires
        0 <= b < s.bindings.len(),
        !s.bindings[b].subscribed(id),
    ensures
        s.written(id, v).bindings[b] == s.bindings[b],
{
}

/// Dependencies are tracked anew at each evaluation. A mounted binding whose
/// source reads `p` where the signal `flag` holds `true`, and `q` otherwise, is
/// subscribed to `flag` and, of `p` and `q`, to just the one that its source
/// reads now. This holds in every state of the store, so also after the flag
/// flipped: from then on a write to the signal no longer read does not reach
/// the binding, and a write to the newly read one does.
pub proof fn lemma_dependencies_follow_the_flag(
    s: StoreView,
    b: int,
    flag: usize,
    p: usize,
    q: usize,
)
    requires
        s.wf(),
        0 <= b < s.bindings.len(),
        s.bindings[b].phase == Phase::Mounted,
        s.bindings[b].role matches RoleView::Facet { facet, source } && source == Expr::If(
            Box::new(Expr::Read(flag)),
            Box::new(Expr::Read(p)),
            Box::new(Expr::Read(q)),
        ),
        p != flag,
        q != flag,
        p != q,
    ensures
        s.bindings[b].subscribed(flag),
        s.bindings[b].subscribed(p) <==> s.env[flag as int] == Datum::Bool(true),
        s.bindings[b].subscribed(q) <==> s.env[flag as int] != Datum::Bool(true),
{
    reveal_with_fuel(Expr::reads_of, 3);
    reveal_with_fuel(Expr::value_of, 3);
    let x = s.bindings[b];
    assert(x.fresh(s.env)) by {
        reveal(StoreView::wf);
    }
    let source = x.role->source;
    let reads = source.reads_of(s.env, None);
    if s.env[flag as int] == Datum::Bool(true) {
        assert(reads =~= seq![flag, p]);
        assert(reads[0] == flag && reads[1] == p);
    } else {
        assert(reads =~= seq![flag, q]);
        assert(reads[0] == flag && reads[1] == q);
    }
}

/// A class bound to "the count leaves the remainder one when divided by two"
/// is on the node exactly on those counts: the call that a render issues adds
/// the class where the remainder is one and removes it otherwise. For a count
/// that is not negative that is where the count is odd.
pub proof fn lemma_class_follows_parity(
    env: Seq<Datum>,
    id: usize,
    node: usize,
    name: Seq<char>,
)
    requires
        id < env.len(),
        env[id as int] is Int,
    ensures
        ({
            let c = env[id as int].number() as int;
            let source = Expr::Equals(
                Box::new(Expr::Rem(Box::new(Expr::Read(id)), 2)),
                Box::new(Expr::Lit(Value::Int(1))),
            );
            &&& FacetView::Class(name).write(node, source.value_of(env, None)) == if rem(c, 2)
                == 1 {
                DomCallView::AddClass { node, name }
            } else {
                DomCallView::RemoveClass { node, name }
            }
            &&& c >= 0 ==> (rem(c, 2) == 1 <==> c % 2 == 1)
        }),
{
    reveal_with_fuel(Expr::value_of, 4);
}

} // verus!
