//! The state of a store as a mathematical value, and what each operation
//! makes of it. The contracts of [`crate::store::Store`] are stated over
//! these functions.

use vstd::prelude::*;
use crate::dom::{DomCallView, FacetView};
use crate::expr::{kinds_of, Expr};
use crate::value::{Datum, Kind};

verus! {

/// Where a binding stands in its life. It starts unmounted, is mounted by its
/// first render, and is disposed when it is unmounted again; a disposed
/// binding stays so.
#[derive(Clone, Copy, Debug, PartialEq, Eq, Structural)]
pub enum Phase {
    Unmounted,
    Mounted,
    Disposed,
}

/// Why an operation was refused.
#[derive(Clone, Copy, Debug, PartialEq, Eq, Structural)]
pub enum Fault {
    /// The store was released, or the binding was disposed: a handle was used
    /// after its owner was gone.
    Released,
    /// The store has no signal or binding with this id.
    Unknown,
    /// A value has the wrong kind, a computation is not well typed, a custom
    /// property is not named as one, or the binding is not of the role that
    /// the operation is for.
    Mistyped,
    /// Another binding holds this facet of the node.
    Taken,
    /// The binding or the store is not in the phase that the step starts from.
    Transition,
}

/// The handle that writes to one signal.
#[derive(Clone, Copy, Debug, PartialEq, Eq, Structural)]
pub struct Writer {
    pub id: usize,
}

/// One step of an event handler: the signal `target` is updated with the
/// function `f`, in which [`Expr::Arg`] is the value that the signal holds.
#[derive(Debug, PartialEq, Eq)]
pub struct Step {
    pub target: Writer,
    pub f: Expr,
}

/// What a binding does for its node.
pub enum RoleView {
    /// It keeps one facet of the node at the value of `source`.
    Facet { facet: FacetView, source: Expr },
    /// It runs `steps` when the event of this name fires on the node.
    Event { event: Seq<char>, steps: Seq<Step> },
}

/// A binding: its node, what it does there, its phase, and, for a mounted
/// facet binding, the signals that its source read when it was last evaluated
/// and the value that it last wrote to the facet.
pub struct BindingView {
    pub node: usize,
    pub role: RoleView,
    pub phase: Phase,
    pub deps: Seq<usize>,
    pub shown: Datum,
}

/// A store: the value of each signal, whether each signal notifies on every
/// write (`eager`) or only on a change, the bindings in the order in which
/// they were made, which is the order in which a write notifies them, the
/// node the store is mounted under, and whether it was released.
pub struct StoreView {
    pub env: Seq<Datum>,
    pub eager: Seq<bool>,
    pub bindings: Seq<BindingView>,
    pub root: Option<usize>,
    pub released: bool,
}

impl BindingView {
    /// Whether a write to signal `id` notifies this binding: it is a mounted
    /// facet binding and its source read that signal when last evaluated.
    pub open spec fn subscribed(self, id: usize) -> bool {
        self.phase == Phase::Mounted && self.role is Facet && self.deps.contains(id)
    }

    /// Whether this binding holds the given facet of the given node.
    pub open spec fn owns(self, node: usize, facet: FacetView) -> bool {
        &&& self.phase != Phase::Disposed
        &&& self.node == node
        &&& self.role matches RoleView::Facet { facet: f, .. } && f == facet
    }

    /// Whether this binding fits signals of the given kinds: the source of a
    /// facet binding is well typed and gives a kind that the facet takes; each
    /// step of a handler writes to a signal that exists a value of its kind.
    pub open spec fn typed(self, kinds: Seq<Kind>) -> bool {
        match self.role {
            RoleView::Facet { facet, source } => source.kind_of(kinds, None) matches Some(k)
                && facet.accepts(k),
            RoleView::Event { event, steps } => forall|k: int|
                0 <= k < steps.len() ==> step_typed(#[trigger] steps[k], kinds),
        }
    }

    /// Whether a mounted facet binding is up to date over `env`: it shows the
    /// value that its source has now, and is subscribed to just the signals
    /// that the source reads now.
    pub open spec fn fresh(self, env: Seq<Datum>) -> bool {
        self.phase == Phase::Mounted ==> match self.role {
            RoleView::Facet { facet, source } => self.shown == source.value_of(env, None)
                && self.deps == source.reads_of(env, None),
            RoleView::Event { .. } => true,
        }
    }

    /// This binding after its source was evaluated over `env`.
    pub open spec fn refreshed(self, env: Seq<Datum>) -> BindingView {
        match self.role {
            RoleView::Facet { facet, source } => BindingView {
                deps: source.reads_of(env, None),
                shown: source.value_of(env, None),
                ..self
            },
            RoleView::Event { .. } => self,
        }
    }

    /// The call that a render of this binding over `env` issues: the write of
    /// its facet, or the attaching of its listener, whose id is `id`.
    pub open spec fn call(self, id: usize, env: Seq<Datum>) -> DomCallView {
        match self.role {
            RoleView::Facet { facet, source } => facet.write(self.node, source.value_of(env, None)),
            RoleView::Event { event, steps } => DomCallView::Listen {
                node: self.node,
                event,
                listener: id,
            },
        }
    }
}

/// Whether a handler step fits signals of the given kinds.
pub open spec fn step_typed(step: Step, kinds: Seq<Kind>) -> bool {
    step.target.id < kinds.len() && step.f.kind_of(kinds, Some(kinds[step.target.id as int]))
        == Some(kinds[step.target.id as int])
}

impl StoreView {
    /// The invariant of a store. Every binding fits the kinds of the signals,
    /// every mounted binding is up to date, and no facet of a node is held by
    /// two bindings.
    #[verifier::opaque]
    pub open spec fn wf(self) -> bool {
        &&& self.eager.len() == self.env.len()
        &&& forall|b: int|
            0 <= b < self.bindings.len() ==> (#[trigger] self.bindings[b]).typed(
                kinds_of(self.env),
            )
        &&& forall|b: int|
            0 <= b < self.bindings.len() ==> (#[trigger] self.bindings[b]).fresh(self.env)
        &&& forall|a: int, b: int, node: usize, facet: FacetView|
            0 <= a < b < self.bindings.len() && (#[trigger] self.bindings[a].owns(node, facet))
                ==> !(#[trigger] self.bindings[b].owns(node, facet))
    }

    /// The store that holds nothing.
    pub open spec fn empty() -> StoreView {
        StoreView {
            env: Seq::empty(),
            eager: Seq::empty(),
            bindings: Seq::empty(),
            root: None,
            released: false,
        }
    }

    /// The store with one more signal.
    pub open spec fn created(self, initial: Datum, eager: bool) -> StoreView {
        StoreView { env: self.env.push(initial), eager: self.eager.push(eager), ..self }
    }

    /// Whether a write of `v` to signal `id` changes nothing and notifies
    /// nobody: the signal notifies only on a change and holds `v` already.
    pub open spec fn quiet(self, id: usize, v: Datum) -> bool {
        !self.eager[id as int] && self.env[id as int] == v
    }

    /// The store after the first `n` bindings were notified of a write to
    /// signal `id` that has brought the signals to `env`.
    pub open spec fn notified(self, id: usize, env: Seq<Datum>, n: int) -> StoreView {
        StoreView {
            env,
            bindings: Seq::new(
                self.bindings.len(),
                |b: int|
                    if b < n && self.bindings[b].subscribed(id) {
                        self.bindings[b].refreshed(env)
                    } else {
                        self.bindings[b]
                    },
            ),
            ..self
        }
    }

    /// The calls that notifying the first `n` bindings of such a write
    /// issues: one for each subscribed binding, in the order of the bindings.
    pub open spec fn notices(self, id: usize, env: Seq<Datum>, n: int) -> Seq<DomCallView>
        decreases n,
    {
        if n <= 0 {
            Seq::empty()
        } else if self.bindings[n - 1].subscribed(id) {
            self.notices(id, env, n - 1).push(self.bindings[n - 1].call((n - 1) as usize, env))
        } else {
            self.notices(id, env, n - 1)
        }
    }

    /// The store after `v` was written to signal `id`. A quiet write leaves it
    /// as it is. Any other write replaces the value and re-evaluates every
    /// binding that is subscribed to the signal.
    pub open spec fn written(self, id: usize, v: Datum) -> StoreView {
        if self.quiet(id, v) {
            self
        } else {
            self.notified(id, self.env.update(id as int, v), self.bindings.len() as int)
        }
    }

    /// The calls that this write issues.
    pub open spec fn write_calls(self, id: usize, v: Datum) -> Seq<DomCallView> {
        if self.quiet(id, v) {
            Seq::empty()
        } else {
            self.notices(id, self.env.update(id as int, v), self.bindings.len() as int)
        }
    }
}

impl StoreView {
    /// Why a write to signal `id` of a value of kind `k` is refused, if it is.
    pub open spec fn write_fault(self, id: usize, k: Kind) -> Option<Fault> {
        if self.released {
            Some(Fault::Released)
        } else if id >= self.env.len() {
            Some(Fault::Unknown)
        } else if self.env[id as int].kind() != k {
            Some(Fault::Mistyped)
        } else {
            None
        }
    }

    /// Why the evaluation of `source` is refused, if it is.
    pub open spec fn read_fault(self, source: Expr) -> Option<Fault> {
        if self.released {
            Some(Fault::Released)
        } else if source.kind_of(kinds_of(self.env), None) is None {
            Some(Fault::Mistyped)
        } else {
            None
        }
    }

    /// The value that an update of signal `id` with the function `f` writes:
    /// `f` of the value that the signal holds.
    pub open spec fn update_value(self, id: usize, f: Expr) -> Datum {
        f.value_of(self.env, Some(self.env[id as int]))
    }

    /// Why an update of signal `id` with the function `f` is refused, if it
    /// is: `f` must take a value of the signal's kind to a value of that kind.
    pub open spec fn update_fault(self, id: usize, f: Expr) -> Option<Fault> {
        if self.released {
            Some(Fault::Released)
        } else if id >= self.env.len() {
            Some(Fault::Unknown)
        } else if f.kind_of(kinds_of(self.env), Some(self.env[id as int].kind())) != Some(
            self.env[id as int].kind(),
        ) {
            Some(Fault::Mistyped)
        } else {
            None
        }
    }

    /// No render is stale after a write: a write of a value of the signal's
    /// kind keeps the invariant of the store, by which every mounted binding
    /// shows what its source gives over the signals as they are now.
    pub proof fn lemma_written_wf(self, id: usize, v: Datum)
        requires
            self.wf(),
            id < self.env.len(),
            v.kind() == self.env[id as int].kind(),
        ensures
            self.written(id, v).wf(),
            kinds_of(self.written(id, v).env) == kinds_of(self.env),
    {
        reveal(StoreView::wf);
        if !self.quiet(id, v) {
            let env = self.env.update(id as int, v);
            let post = self.notified(id, env, self.bindings.len() as int);
            assert(kinds_of(env) =~= kinds_of(self.env));
            assert forall|b: int| 0 <= b < post.bindings.len() implies (
            #[trigger] post.bindings[b]).typed(kinds_of(post.env)) by {
                assert(self.bindings[b].typed(kinds_of(self.env)));
            }
            assert forall|b: int| 0 <= b < post.bindings.len() implies (
            #[trigger] post.bindings[b]).fresh(post.env) by {
                let x = self.bindings[b];
                assert(x.fresh(self.env));
                assert(x.typed(kinds_of(self.env)));
                if x.phase == Phase::Mounted && !x.subscribed(id) {
                    if let RoleView::Facet { facet, source } = x.role {
                        assert forall|r: usize| #[trigger]
                            source.reads_of(self.env, None).contains(r) implies env[r as int]
                            == self.env[r as int] by {
                            source.lemma_reads_exist(self.env, None, r);
                        }
                        source.lemma_local(self.env, env, None);
                    }
                }
            }
            assert forall|a: int, b: int, node: usize, facet: FacetView|
                0 <= a < b < post.bindings.len() && (#[trigger] post.bindings[a].owns(
                    node,
                    facet,
                )) implies !(#[trigger] post.bindings[b].owns(node, facet)) by {
                assert(self.bindings[a].owns(node, facet));
                assert(self.bindings[b].owns(node, facet) == post.bindings[b].owns(node, facet));
            }
        }
    }
}


impl StoreView {
    /// A new signal disturbs nothing: the store keeps its invariant, and no
    /// binding depends on the new signal.
    pub proof fn lemma_created_wf(self, initial: Datum, eager: bool)
        requires
            self.wf(),
        ensures
            self.created(initial, eager).wf(),
    {
        reveal(StoreView::wf);
        let post = self.created(initial, eager);
        let kinds = kinds_of(self.env);
        let more = kinds_of(post.env);
        assert forall|b: int| 0 <= b < post.bindings.len() implies (#[trigger] post.bindings[b]).typed(
            more,
        ) by {
            let x = self.bindings[b];
            assert(x.typed(kinds));
            match x.role {
                RoleView::Facet { facet, source } => {
                    source.lemma_kind_grows(kinds, more, None);
                },
                RoleView::Event { event, steps } => {
                    assert forall|k: int| 0 <= k < steps.len() implies step_typed(
                        #[trigger] steps[k],
                        more,
                    ) by {
                        assert(step_typed(steps[k], kinds));
                        steps[k].f.lemma_kind_grows(
                            kinds,
                            more,
                            Some(kinds[steps[k].target.id as int]),
                        );
                    }
                },
            }
        }
        assert forall|b: int| 0 <= b < post.bindings.len() implies (#[trigger] post.bindings[b]).fresh(
            post.env,
        ) by {
            let x = self.bindings[b];
            assert(x.fresh(self.env));
            assert(x.typed(kinds));
            if x.phase == Phase::Mounted {
                if let RoleView::Facet { facet, source } = x.role {
                    assert forall|r: usize| #[trigger]
                        source.reads_of(self.env, None).contains(r) implies post.env[r as int]
                        == self.env[r as int] by {
                        source.lemma_reads_exist(self.env, None, r);
                    }
                    source.lemma_local(self.env, post.env, None);
                }
            }
        }
    }
}


/// A binding as it is made: unmounted, subscribed to nothing.
pub open spec fn blank(node: usize, role: RoleView) -> BindingView {
    BindingView { node, role, phase: Phase::Unmounted, deps: Seq::empty(), shown: Datum::Bool(false) }
}

impl StoreView {
    /// Whether some binding holds the given facet of the given node.
    pub open spec fn held(self, node: usize, facet: FacetView) -> bool {
        exists|b: int| 0 <= b < self.bindings.len() && (#[trigger] self.bindings[b]).owns(node, facet)
    }

    /// Why a binding of this role on this node cannot be made, if it cannot.
    /// A facet has one owner: a second binding for it is refused while the
    /// first is not disposed.
    pub open spec fn wire_fault(self, node: usize, role: RoleView) -> Option<Fault> {
        if self.released {
            Some(Fault::Released)
        } else if !blank(node, role).typed(kinds_of(self.env)) {
            Some(Fault::Mistyped)
        } else if role matches RoleView::Facet { facet, .. } && self.held(node, facet) {
            Some(Fault::Taken)
        } else {
            None
        }
    }

    /// The store with one more binding, unmounted.
    pub open spec fn wired(self, node: usize, role: RoleView) -> StoreView {
        StoreView { bindings: self.bindings.push(blank(node, role)), ..self }
    }

    /// Why binding `b` cannot leave the phase `from`, if it cannot.
    pub open spec fn phase_fault(self, b: usize, from: Phase) -> Option<Fault> {
        if self.released {
            Some(Fault::Released)
        } else if b >= self.bindings.len() {
            Some(Fault::Unknown)
        } else if self.bindings[b as int].phase == Phase::Disposed {
            Some(Fault::Released)
        } else if self.bindings[b as int].phase != from {
            Some(Fault::Transition)
        } else {
            None
        }
    }

    /// The store after the first render of binding `b`: the binding is
    /// mounted, shows the value of its source and is subscribed to the signals
    /// that the source read.
    pub open spec fn rendered(self, b: usize) -> StoreView {
        StoreView {
            bindings: self.bindings.update(
                b as int,
                BindingView { phase: Phase::Mounted, ..self.bindings[b as int].refreshed(self.env) },
            ),
            ..self
        }
    }

    /// The store after binding `b` was disposed: it is subscribed to nothing
    /// and holds no facet any more.
    pub open spec fn disposed(self, b: usize) -> StoreView {
        StoreView {
            bindings: self.bindings.update(
                b as int,
                BindingView { phase: Phase::Disposed, ..self.bindings[b as int] },
            ),
            ..self
        }
    }

    /// The call that disposing binding `b` issues: a listener is removed, a
    /// facet is left as it is.
    pub open spec fn dispose_call(self, b: usize) -> Option<DomCallView> {
        match self.bindings[b as int].role {
            RoleView::Facet { .. } => None,
            RoleView::Event { event, steps } => Some(
                DomCallView::Unlisten { node: self.bindings[b as int].node, event, listener: b },
            ),
        }
    }

    /// A binding that is not refused keeps the invariant of the store.
    pub proof fn lemma_wired_wf(self, node: usize, role: RoleView)
        requires
            self.wf(),
            self.wire_fault(node, role) is None,
        ensures
            self.wired(node, role).wf(),
    {
        reveal(StoreView::wf);
        let post = self.wired(node, role);
        let last = self.bindings.len() as int;
        assert forall|b: int| 0 <= b < post.bindings.len() implies (#[trigger] post.bindings[b]).typed(
            kinds_of(post.env),
        ) by {
            if b < last {
                assert(self.bindings[b].typed(kinds_of(self.env)));
            }
        }
        assert forall|b: int| 0 <= b < post.bindings.len() implies (#[trigger] post.bindings[b]).fresh(
            post.env,
        ) by {
            if b < last {
                assert(self.bindings[b].fresh(self.env));
            }
        }
        assert forall|a: int, b: int, n: usize, facet: FacetView|
            0 <= a < b < post.bindings.len() && (#[trigger] post.bindings[a].owns(
                n,
                facet,
            )) implies !(#[trigger] post.bindings[b].owns(n, facet)) by {
            assert(self.bindings[a].owns(n, facet));
            if b < last {
                assert(post.bindings[b] == self.bindings[b]);
            } else if post.bindings[b].owns(n, facet) {
                assert(self.held(n, facet));
            }
        }
    }

    /// The first render of an unmounted binding keeps the invariant of the
    /// store.
    pub proof fn lemma_rendered_wf(self, b: usize)
        requires
            self.wf(),
            b < self.bindings.len(),
            self.bindings[b as int].phase == Phase::Unmounted,
        ensures
            self.rendered(b).wf(),
    {
        reveal(StoreView::wf);
        let post = self.rendered(b);
        assert forall|j: int| 0 <= j < post.bindings.len() implies (#[trigger] post.bindings[j]).typed(
            kinds_of(post.env),
        ) by {
            assert(self.bindings[j].typed(kinds_of(self.env)));
        }
        assert forall|j: int| 0 <= j < post.bindings.len() implies (#[trigger] post.bindings[j]).fresh(
            post.env,
        ) by {
            assert(self.bindings[j].fresh(self.env));
        }
        assert forall|i: int, j: int, n: usize, facet: FacetView|
            0 <= i < j < post.bindings.len() && (#[trigger] post.bindings[i].owns(
                n,
                facet,
            )) implies !(#[trigger] post.bindings[j].owns(n, facet)) by {
            assert(self.bindings[i].owns(n, facet));
            assert(post.bindings[j].owns(n, facet) ==> self.bindings[j].owns(n, facet));
        }
    }

    /// Disposing a binding keeps the invariant of the store.
    pub proof fn lemma_disposed_wf(self, b: usize)
        requires
            self.wf(),
            b < self.bindings.len(),
        ensures
            self.disposed(b).wf(),
    {
        reveal(StoreView::wf);
        let post = self.disposed(b);
        assert forall|j: int| 0 <= j < post.bindings.len() implies (#[trigger] post.bindings[j]).typed(
            kinds_of(post.env),
        ) by {
            assert(self.bindings[j].typed(kinds_of(self.env)));
        }
        assert forall|j: int| 0 <= j < post.bindings.len() implies (#[trigger] post.bindings[j]).fresh(
            post.env,
        ) by {
            assert(self.bindings[j].fresh(self.env));
        }
        assert forall|i: int, j: int, n: usize, facet: FacetView|
            0 <= i < j < post.bindings.len() && (#[trigger] post.bindings[i].owns(
                n,
                facet,
            )) implies !(#[trigger] post.bindings[j].owns(n, facet)) by {
            assert(self.bindings[i].owns(n, facet));
            assert(post.bindings[j].owns(n, facet) ==> self.bindings[j].owns(n, facet));
        }
    }
}


impl StoreView {
    /// The store after the first `n` bindings, where unmounted, had their
    /// first render.
    pub open spec fn mounting(self, n: int) -> StoreView {
        StoreView {
            bindings: Seq::new(
                self.bindings.len(),
                |b: int|
                    if b < n && self.bindings[b].phase == Phase::Unmounted {
                        BindingView { phase: Phase::Mounted, ..self.bindings[b].refreshed(self.env) }
                    } else {
                        self.bindings[b]
                    },
            ),
            ..self
        }
    }

    /// The calls that those first renders issue, in the order of the
    /// bindings.
    pub open spec fn mount_calls(self, n: int) -> Seq<DomCallView>
        decreases n,
    {
        if n <= 0 {
            Seq::empty()
        } else if self.bindings[n - 1].phase == Phase::Unmounted {
            self.mount_calls(n - 1).push(self.bindings[n - 1].call((n - 1) as usize, self.env))
        } else {
            self.mount_calls(n - 1)
        }
    }

    /// Why the store cannot be mounted, if it cannot: it can be mounted once.
    pub open spec fn mount_fault(self) -> Option<Fault> {
        if self.released {
            Some(Fault::Released)
        } else if self.root is Some {
            Some(Fault::Transition)
        } else {
            None
        }
    }

    /// The store after it was mounted under `root`: every binding that was
    /// unmounted is mounted.
    pub open spec fn mounted(self, root: usize) -> StoreView {
        StoreView { root: Some(root), ..self.mounting(self.bindings.len() as int) }
    }

    /// The store after the first `n` bindings, where mounted, were disposed.
    pub open spec fn releasing(self, n: int) -> StoreView {
        StoreView {
            bindings: Seq::new(
                self.bindings.len(),
                |b: int|
                    if b < n && self.bindings[b].phase == Phase::Mounted {
                        BindingView { phase: Phase::Disposed, ..self.bindings[b] }
                    } else {
                        self.bindings[b]
                    },
            ),
            ..self
        }
    }

    /// The calls that disposing them issues: one for each mounted handler.
    pub open spec fn release_calls(self, n: int) -> Seq<DomCallView>
        decreases n,
    {
        if n <= 0 {
            Seq::empty()
        } else if self.bindings[n - 1].phase == Phase::Mounted && self.dispose_call(
            (n - 1) as usize,
        ) is Some {
            self.release_calls(n - 1).push(self.dispose_call((n - 1) as usize).unwrap())
        } else {
            self.release_calls(n - 1)
        }
    }

    /// The call that takes the subtree away, where the store was mounted.
    pub open spec fn detach_calls(self) -> Seq<DomCallView> {
        match self.root {
            Some(root) => seq![DomCallView::Detach { root }],
            None => Seq::empty(),
        }
    }

    /// The store after it was released: every mounted binding is disposed,
    /// and no handle works any more.
    pub open spec fn released_all(self) -> StoreView {
        StoreView { released: true, ..self.releasing(self.bindings.len() as int) }
    }

    /// The store after the first `k` of the given handler steps ran, each an
    /// update of its target with its function.
    pub open spec fn after_steps(self, steps: Seq<Step>, k: int) -> StoreView
        decreases k,
    {
        if k <= 0 {
            self
        } else {
            let before = self.after_steps(steps, k - 1);
            let step = steps[k - 1];
            before.written(step.target.id, before.update_value(step.target.id, step.f))
        }
    }

    /// The calls that those steps issue, in order.
    pub open spec fn step_calls(self, steps: Seq<Step>, k: int) -> Seq<DomCallView>
        decreases k,
    {
        if k <= 0 {
            Seq::empty()
        } else {
            let before = self.after_steps(steps, k - 1);
            let step = steps[k - 1];
            self.step_calls(steps, k - 1) + before.write_calls(
                step.target.id,
                before.update_value(step.target.id, step.f),
            )
        }
    }

    /// Why the handler `b` cannot be fired, if it cannot.
    pub open spec fn fire_fault(self, b: usize) -> Option<Fault> {
        if self.released {
            Some(Fault::Released)
        } else if b >= self.bindings.len() {
            Some(Fault::Unknown)
        } else if self.bindings[b as int].role is Facet {
            Some(Fault::Mistyped)
        } else if self.bindings[b as int].phase == Phase::Disposed {
            Some(Fault::Released)
        } else if self.bindings[b as int].phase != Phase::Mounted {
            Some(Fault::Transition)
        } else {
            None
        }
    }

    /// Why the facet binding `b` has nothing to show, if it has not.
    pub open spec fn show_fault(self, b: usize) -> Option<Fault> {
        if self.released {
            Some(Fault::Released)
        } else if b >= self.bindings.len() {
            Some(Fault::Unknown)
        } else if self.bindings[b as int].role is Event {
            Some(Fault::Mistyped)
        } else if self.bindings[b as int].phase == Phase::Disposed {
            Some(Fault::Released)
        } else if self.bindings[b as int].phase != Phase::Mounted {
            Some(Fault::Transition)
        } else {
            None
        }
    }

    /// The bindings among the first `n` that are subscribed to signal `id`,
    /// in the order in which a write notifies them.
    pub open spec fn subscribers(self, id: usize, n: int) -> Seq<usize>
        decreases n,
    {
        if n <= 0 {
            Seq::empty()
        } else if self.bindings[n - 1].subscribed(id) {
            self.subscribers(id, n - 1).push((n - 1) as usize)
        } else {
            self.subscribers(id, n - 1)
        }
    }

    /// Whether the two stores have the same bindings but for what they show
    /// and depend on, the same kinds of signals, and the same root and
    /// release state.
    pub open spec fn same_frame(self, other: StoreView) -> bool {
        &&& other.released == self.released
        &&& other.root == self.root
        &&& other.eager == self.eager
        &&& kinds_of(other.env) == kinds_of(self.env)
        &&& other.env.len() == self.env.len()
        &&& other.bindings.len() == self.bindings.len()
        &&& forall|b: int|
            0 <= b < self.bindings.len() ==> {
                &&& (#[trigger] other.bindings[b]).node == self.bindings[b].node
                &&& other.bindings[b].role == self.bindings[b].role
                &&& other.bindings[b].phase == self.bindings[b].phase
            }
    }

    /// Running the steps of a well-typed handler keeps the invariant of the
    /// store, and changes only signal values and what bindings show.
    pub proof fn lemma_after_steps(self, steps: Seq<Step>, k: int)
        requires
            self.wf(),
            0 <= k <= steps.len(),
            forall|j: int| 0 <= j < steps.len() ==> step_typed(#[trigger] steps[j], kinds_of(self.env)),
        ensures
            self.after_steps(steps, k).wf(),
            self.same_frame(self.after_steps(steps, k)),
        decreases k,
    {
        if k > 0 {
            self.lemma_after_steps(steps, k - 1);
            let before = self.after_steps(steps, k - 1);
            let step = steps[k - 1];
            assert(step_typed(step, kinds_of(self.env)));
            let id = step.target.id;
            assert(kinds_of(before.env)[id as int] == before.env[id as int].kind());
            step.f.lemma_kind_sound(before.env, Some(before.env[id as int]));
            before.lemma_written_wf(id, before.update_value(id, step.f));
            let after = before.written(id, before.update_value(id, step.f));
            assert(after.env.len() == before.env.len());
        } else {
            assert(kinds_of(self.env) =~= kinds_of(self.env));
        }
    }
}


impl StoreView {
    /// The first renders of a mount keep the invariant of the store.
    pub proof fn lemma_mounting_wf(self, n: int)
        requires
            self.wf(),
            0 <= n <= self.bindings.len() <= usize::MAX,
        ensures
            self.mounting(n).wf(),
        decreases n,
    {
        if n > 0 {
            self.lemma_mounting_wf(n - 1);
            let mid = self.mounting(n - 1);
            if self.bindings[n - 1].phase == Phase::Unmounted {
                assert(mid.bindings[n - 1] == self.bindings[n - 1]);
                mid.lemma_rendered_wf((n - 1) as usize);
                assert(self.mounting(n).bindings =~= mid.rendered((n - 1) as usize).bindings);
            } else {
                assert(self.mounting(n).bindings =~= mid.bindings);
            }
        } else {
            assert(self.mounting(0).bindings =~= self.bindings);
        }
    }

    /// Mounting keeps the invariant of the store: right after the mount every
    /// binding that was rendered shows what its source gives.
    pub proof fn lemma_mounted_wf(self, root: usize)
        requires
            self.wf(),
            self.bindings.len() <= usize::MAX,
        ensures
            self.mounted(root).wf(),
    {
        self.lemma_mounting_wf(self.bindings.len() as int);
        reveal(StoreView::wf);
    }
}


} // verus!
