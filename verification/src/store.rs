//! The signal store and the binding engine.

use vstd::prelude::*;
use vstd::string::*;
use crate::dom::{calls_of, custom_name, is_custom, DomCall, DomCallView, Facet, FacetView};
use crate::expr::{env_of, kinds_of, Expr};
use crate::model::{blank, step_typed, BindingView, Fault, Phase, RoleView, Step, StoreView, Writer};
use crate::value::Value;

verus! {

/// The handle that reads a signal or a derived value. Its `source` is the
/// computation that a read evaluates: for a signal the read of its cell, for a
/// derived value the function it was made from.
#[derive(Debug, PartialEq, Eq)]
pub struct Reader {
    pub source: Expr,
}

/// A value that a component is given: fixed when the component is made, or
/// read from a signal or a derived value whenever it is needed.
#[derive(Debug, PartialEq, Eq)]
pub enum Prop {
    Static(Value),
    Reactive(Reader),
}

enum Role {
    Facet { facet: Facet, source: Expr },
    Event { event: String, steps: Vec<Step> },
}

struct Binding {
    node: usize,
    role: Role,
    phase: Phase,
    deps: Vec<usize>,
    shown: Value,
}

/// One reactive scope: the signals of one user interface tree and the
/// bindings that depend on them.
pub struct Store {
    values: Vec<Value>,
    eager: Vec<bool>,
    bindings: Vec<Binding>,
    root: Option<usize>,
    released: bool,
}

impl Role {
    closed spec fn view(&self) -> RoleView {
        match self {
            Role::Facet { facet, source } => RoleView::Facet { facet: facet@, source: *source },
            Role::Event { event, steps } => RoleView::Event { event: event@, steps: steps@ },
        }
    }
}

impl Binding {
    closed spec fn view(&self) -> BindingView {
        BindingView {
            node: self.node,
            role: self.role.view(),
            phase: self.phase,
            deps: self.deps@,
            shown: self.shown@,
        }
    }
}

impl View for Store {
    type V = StoreView;

    closed spec fn view(&self) -> StoreView {
        StoreView {
            env: env_of(self.values@),
            eager: self.eager@,
            bindings: Seq::new(self.bindings@.len(), |b: int| self.bindings@[b].view()),
            root: self.root,
            released: self.released,
        }
    }
}

fn has(list: &Vec<usize>, x: usize) -> (r: bool)
    ensures
        r == list@.contains(x),
{
    let mut i: usize = 0;
    while i < list.len()
        invariant
            i <= list.len(),
            forall|j: int| 0 <= j < i ==> list@[j] != x,
        decreases list.len() - i,
    {
        if list[i] == x {
            return true;
        }
        i += 1;
    }
    false
}

impl Store {
    /// An empty store: no signal, no binding, not mounted, not released.
    pub fn new() -> (store: Store)
        ensures
            store@.wf(),
            store@ == StoreView::empty(),
    {
        let store = Store {
            values: Vec::new(),
            eager: Vec::new(),
            bindings: Vec::new(),
            root: None,
            released: false,
        };
        assert(store@.env =~= Seq::empty());
        assert(store@.eager =~= Seq::empty());
        assert(store@.bindings =~= Seq::empty());
        proof {
            reveal(StoreView::wf);
        }
        store
    }

    fn cell(&mut self, initial: Value, eager: bool) -> (r: Result<(Reader, Writer), Fault>)
        requires
            old(self)@.wf(),
        ensures
            final(self)@.wf(),
            match r {
                Ok((reader, writer)) => {
                    &&& !old(self)@.released
                    &&& final(self)@ == old(self)@.created(initial@, eager)
                    &&& writer.id == old(self)@.env.len()
                    &&& reader.source == Expr::Read(writer.id)
                },
                Err(e) => old(self)@.released && e == Fault::Released && final(self)@ == old(self)@,
            },
    {
        if self.released {
            return Err(Fault::Released);
        }
        let id: usize = self.values.len();
        self.values.push(initial);
        self.eager.push(eager);
        proof {
            let pre = old(self)@;
            let post = self@;
            assert(post.env =~= pre.env.push(initial@));
            assert(post.bindings =~= pre.bindings);
            pre.lemma_created_wf(initial@, eager);
        }
        Ok((Reader { source: Expr::Read(id) }, Writer { id }))
    }
}

impl Store {
    /// Creates a signal that holds `initial` and notifies its subscribers when
    /// a write changes its value. Returns the handle that reads it and the
    /// handle that writes it.
    pub fn create(&mut self, initial: Value) -> (r: Result<(Reader, Writer), Fault>)
        requires
            old(self)@.wf(),
        ensures
            final(self)@.wf(),
            match r {
                Ok((reader, writer)) => {
                    &&& !old(self)@.released
                    &&& final(self)@ == old(self)@.created(initial@, false)
                    &&& writer.id == old(self)@.env.len()
                    &&& reader.source == Expr::Read(writer.id)
                },
                Err(e) => old(self)@.released && e == Fault::Released && final(self)@ == old(self)@,
            },
    {
        self.cell(initial, false)
    }

    /// Creates a signal that notifies its subscribers on every write, whether
    /// or not the value changed: for values whose equality says nothing.
    pub fn create_eager(&mut self, initial: Value) -> (r: Result<(Reader, Writer), Fault>)
        requires
            old(self)@.wf(),
        ensures
            final(self)@.wf(),
            match r {
                Ok((reader, writer)) => {
                    &&& !old(self)@.released
                    &&& final(self)@ == old(self)@.created(initial@, true)
                    &&& writer.id == old(self)@.env.len()
                    &&& reader.source == Expr::Read(writer.id)
                },
                Err(e) => old(self)@.released && e == Fault::Released && final(self)@ == old(self)@,
            },
    {
        self.cell(initial, true)
    }

    /// Makes a derived value from the function `f`. It has no storage of its
    /// own: each read evaluates `f` over the signals as they are then.
    pub fn derive(&self, f: Expr) -> (r: Result<Reader, Fault>)
        ensures
            match r {
                Ok(reader) => self@.read_fault(f) is None && reader.source == f,
                Err(e) => self@.read_fault(f) == Some(e),
            },
    {
        if self.released {
            return Err(Fault::Released);
        }
        match f.check(&self.values, None) {
            Some(_) => Ok(Reader { source: f }),
            None => Err(Fault::Mistyped),
        }
    }

    fn subscribed(&self, b: usize, id: usize) -> (r: bool)
        requires
            b < self@.bindings.len(),
        ensures
            r == self@.bindings[b as int].subscribed(id),
    {
        match &self.bindings[b].role {
            Role::Facet { .. } => self.bindings[b].phase == Phase::Mounted && has(
                &self.bindings[b].deps,
                id,
            ),
            Role::Event { .. } => false,
        }
    }

    fn evaluate(&self, b: usize) -> (out: (Value, Vec<usize>, DomCall))
        requires
            b < self@.bindings.len(),
            self@.bindings[b as int].typed(kinds_of(self@.env)),
        ensures
            out.2@ == self@.bindings[b as int].call(b, self@.env),
            self@.bindings[b as int].role is Facet ==> {
                &&& out.0@ == self@.bindings[b as int].refreshed(self@.env).shown
                &&& out.1@ == self@.bindings[b as int].refreshed(self@.env).deps
            },
    {
        let mut reads: Vec<usize> = Vec::new();
        match &self.bindings[b].role {
            Role::Facet { facet, source } => {
                let value = source.eval(&self.values, None, &mut reads);
                let call = facet.write(self.bindings[b].node, &value);
                (value, reads, call)
            },
            Role::Event { event, steps } => {
                let call = DomCall::Listen {
                    node: self.bindings[b].node,
                    event: event.clone(),
                    listener: b,
                };
                (Value::Bool(false), reads, call)
            },
        }
    }

    fn write(&mut self, id: usize, v: Value) -> (calls: Vec<DomCall>)
        requires
            old(self)@.wf(),
            old(self)@.write_fault(id, v@.kind()) is None,
        ensures
            final(self)@.wf(),
            final(self)@ == old(self)@.written(id, v@),
            calls_of(calls@) == old(self)@.write_calls(id, v@),
    {
        let mut calls: Vec<DomCall> = Vec::new();
        let ghost pre = self@;
        let ghost datum = v@;
        assert(self.eager@.len() == self.values@.len()) by {
            reveal(StoreView::wf);
        }
        if !self.eager[id] && self.values[id].same(&v) {
            assert(calls_of(calls@) =~= Seq::empty());
            return calls;
        }
        let ghost env = pre.env.update(id as int, datum);
        proof {
            pre.lemma_written_wf(id, datum);
        }
        self.values[id] = v;
        let n: usize = self.bindings.len();
        let mut b: usize = 0;
        assert(self@.env =~= env);
        assert(self@.bindings =~= pre.notified(id, env, 0).bindings);
        assert(calls_of(calls@) =~= pre.notices(id, env, 0));
        while b < n
            invariant
                b <= n,
                n == pre.bindings.len(),
                pre.wf(),
                kinds_of(env) == kinds_of(pre.env),
                self@ == pre.notified(id, env, b as int),
                calls_of(calls@) == pre.notices(id, env, b as int),
            decreases n - b,
        {
            assert(self@.bindings[b as int] == pre.bindings[b as int]);
            assert(pre.bindings[b as int].typed(kinds_of(pre.env))) by {
                reveal(StoreView::wf);
            }
            let ghost mid = self@;
            if self.subscribed(b, id) {
                let (value, reads, call) = self.evaluate(b);
                let ghost before = calls@;
                self.bindings[b].deps = reads;
                self.bindings[b].shown = value;
                calls.push(call);
                assert(calls_of(calls@) =~= calls_of(before).push(call@));
                assert(self@.bindings[b as int] == pre.bindings[b as int].refreshed(env));
            }
            assert(self@.bindings.len() == n);
            assert forall|j: int| 0 <= j < n implies self@.bindings[j] == pre.notified(
                id,
                env,
                b + 1,
            ).bindings[j] by {
                if j != b {
                    assert(self@.bindings[j] == mid.bindings[j]);
                    assert(mid.bindings[j] == pre.notified(id, env, b as int).bindings[j]);
                }
            }
            b += 1;
            assert(self@.bindings =~= pre.notified(id, env, b as int).bindings);
        }
        calls
    }
}

impl Reader {
    /// Reads the current value: of a signal what it holds, of a derived value
    /// what its function gives over the signals as they are now.
    pub fn get(&self, store: &Store) -> (r: Result<Value, Fault>)
        ensures
            match r {
                Ok(v) => store@.read_fault(self.source) is None && v@ == self.source.value_of(
                    store@.env,
                    None,
                ),
                Err(e) => store@.read_fault(self.source) == Some(e),
            },
    {
        if store.released {
            return Err(Fault::Released);
        }
        match self.source.check(&store.values, None) {
            Some(_) => {
                let mut reads: Vec<usize> = Vec::new();
                Ok(self.source.eval(&store.values, None, &mut reads))
            },
            None => Err(Fault::Mistyped),
        }
    }

    /// The signals that a read made now depends on, in the order in which it
    /// reads them.
    pub fn dependencies(&self, store: &Store) -> (r: Result<Vec<usize>, Fault>)
        ensures
            match r {
                Ok(ids) => store@.read_fault(self.source) is None && ids@
                    == self.source.reads_of(store@.env, None),
                Err(e) => store@.read_fault(self.source) == Some(e),
            },
    {
        if store.released {
            return Err(Fault::Released);
        }
        match self.source.check(&store.values, None) {
            Some(_) => {
                let mut reads: Vec<usize> = Vec::new();
                let _ = self.source.eval(&store.values, None, &mut reads);
                assert(reads@ =~= self.source.reads_of(store@.env, None));
                Ok(reads)
            },
            None => Err(Fault::Mistyped),
        }
    }
}

impl Writer {
    /// Replaces the value of the signal. Unless the write is quiet, every
    /// binding subscribed to the signal is re-evaluated, in the order of the
    /// bindings, before this returns; the calls to make on the document are
    /// handed back in that order.
    pub fn set(&self, store: &mut Store, v: Value) -> (r: Result<Vec<DomCall>, Fault>)
        requires
            old(store)@.wf(),
        ensures
            final(store)@.wf(),
            match r {
                Ok(calls) => {
                    &&& old(store)@.write_fault(self.id, v@.kind()) is None
                    &&& final(store)@ == old(store)@.written(self.id, v@)
                    &&& calls_of(calls@) == old(store)@.write_calls(self.id, v@)
                },
                Err(e) => old(store)@.write_fault(self.id, v@.kind()) == Some(e) && final(store)@
                    == old(store)@,
            },
    {
        if store.released {
            return Err(Fault::Released);
        }
        if self.id >= store.values.len() {
            return Err(Fault::Unknown);
        }
        if store.values[self.id].kind() != v.kind() {
            return Err(Fault::Mistyped);
        }
        Ok(store.write(self.id, v))
    }

    /// Reads the value of the signal, applies `f` to it and writes the result
    /// as `set` would, all in one step.
    pub fn update(&self, store: &mut Store, f: &Expr) -> (r: Result<Vec<DomCall>, Fault>)
        requires
            old(store)@.wf(),
        ensures
            final(store)@.wf(),
            match r {
                Ok(calls) => {
                    &&& old(store)@.update_fault(self.id, *f) is None
                    &&& final(store)@ == old(store)@.written(
                        self.id,
                        old(store)@.update_value(self.id, *f),
                    )
                    &&& calls_of(calls@) == old(store)@.write_calls(
                        self.id,
                        old(store)@.update_value(self.id, *f),
                    )
                },
                Err(e) => old(store)@.update_fault(self.id, *f) == Some(e) && final(store)@ == old(
                    store,
                )@,
            },
    {
        if store.released {
            return Err(Fault::Released);
        }
        if self.id >= store.values.len() {
            return Err(Fault::Unknown);
        }
        let kind = store.values[self.id].kind();
        match f.check(&store.values, Some(kind)) {
            Some(k) => if k != kind {
                return Err(Fault::Mistyped);
            },
            None => {
                return Err(Fault::Mistyped);
            },
        }
        let mut reads: Vec<usize> = Vec::new();
        let v = f.eval(&store.values, Some(&store.values[self.id]), &mut reads);
        proof {
            f.lemma_kind_sound(store@.env, Some(store@.env[self.id as int]));
        }
        Ok(store.write(self.id, v))
    }
}


impl Prop {
    /// The computation that gives the value of this prop: a constant for a
    /// static one, the reader's source for a reactive one.
    pub open spec fn source(self) -> Expr {
        match self {
            Prop::Static(v) => Expr::Lit(v),
            Prop::Reactive(reader) => reader.source,
        }
    }

    /// Turns this prop into the computation that gives its value.
    pub fn into_source(self) -> (e: Expr)
        ensures
            e == self.source(),
    {
        match self {
            Prop::Static(v) => Expr::Lit(v),
            Prop::Reactive(reader) => reader.source,
        }
    }

    /// The current value of this prop, static or reactive alike.
    pub fn resolve(&self, store: &Store) -> (r: Result<Value, Fault>)
        ensures
            match r {
                Ok(v) => store@.read_fault(self.source()) is None && v@ == self.source().value_of(
                    store@.env,
                    None,
                ),
                Err(e) => store@.read_fault(self.source()) == Some(e),
            },
    {
        match self {
            Prop::Static(v) => {
                if store.released {
                    Err(Fault::Released)
                } else {
                    Ok(v.duplicate())
                }
            },
            Prop::Reactive(reader) => reader.get(store),
        }
    }
}

impl Store {
    fn fits(&self, role: &Role) -> (r: bool)
        ensures
            r == blank(0, role.view()).typed(kinds_of(self@.env)),
    {
        match role {
            Role::Facet { facet, source } => match source.check(&self.values, None) {
                Some(k) => facet.accepts(k),
                None => false,
            },
            Role::Event { event, steps } => {
                let mut k: usize = 0;
                while k < steps.len()
                    invariant
                        k <= steps.len(),
                        role.view() == (RoleView::Event { event: event@, steps: steps@ }),
                        forall|j: int|
                            0 <= j < k ==> step_typed(#[trigger] steps@[j], kinds_of(self@.env)),
                    decreases steps.len() - k,
                {
                    let id: usize = steps[k].target.id;
                    let known = id < self.values.len();
                    let fit = known && match steps[k].f.check(
                        &self.values,
                        Some(self.values[id].kind()),
                    ) {
                        Some(got) => got == self.values[id].kind(),
                        None => false,
                    };
                    if !fit {
                        assert(!step_typed(steps@[k as int], kinds_of(self@.env)));
                        assert(!blank(0, role.view()).typed(kinds_of(self@.env))) by {
                            let made = blank(0, role.view());
                            if made.typed(kinds_of(self@.env)) {
                                assert(made.role->steps == steps@);
                                assert(step_typed(made.role->steps[k as int], kinds_of(self@.env)));
                            }
                        }
                        return false;
                    }
                    k += 1;
                }
                true
            },
        }
    }

    fn holder(&self, node: usize, facet: &Facet) -> (r: bool)
        ensures
            r == self@.held(node, facet@),
    {
        let mut i: usize = 0;
        while i < self.bindings.len()
            invariant
                i <= self.bindings.len(),
                forall|j: int| 0 <= j < i ==> !(#[trigger] self@.bindings[j]).owns(node, facet@),
            decreases self.bindings.len() - i,
        {
            if self.bindings[i].phase != Phase::Disposed && self.bindings[i].node == node {
                match &self.bindings[i].role {
                    Role::Facet { facet: other, .. } => {
                        if other.same(facet) {
                            assert(self@.bindings[i as int].owns(node, facet@));
                            return true;
                        }
                    },
                    Role::Event { .. } => {},
                }
            }
            i += 1;
        }
        false
    }

    fn wire(&mut self, node: usize, role: Role) -> (r: Result<usize, Fault>)
        requires
            old(self)@.wf(),
        ensures
            final(self)@.wf(),
            match r {
                Ok(b) => {
                    &&& old(self)@.wire_fault(node, role.view()) is None
                    &&& final(self)@ == old(self)@.wired(node, role.view())
                    &&& b == old(self)@.bindings.len()
                },
                Err(e) => old(self)@.wire_fault(node, role.view()) == Some(e) && final(self)@
                    == old(self)@,
            },
    {
        if self.released {
            return Err(Fault::Released);
        }
        if !self.fits(&role) {
            return Err(Fault::Mistyped);
        }
        let taken = match &role {
            Role::Facet { facet, .. } => self.holder(node, facet),
            Role::Event { .. } => false,
        };
        if taken {
            return Err(Fault::Taken);
        }
        let b: usize = self.bindings.len();
        let ghost pre = self@;
        let ghost made = role.view();
        self.bindings.push(
            Binding { node, role, phase: Phase::Unmounted, deps: Vec::new(), shown: Value::Bool(false) },
        );
        proof {
            assert(self@.bindings =~= pre.bindings.push(blank(node, made)));
            pre.lemma_wired_wf(node, made);
        }
        Ok(b)
    }

    /// Renders binding `b` for the first time. A facet binding evaluates its
    /// source, subscribes to the signals read and writes the facet; a handler
    /// is attached to its event. The binding is mounted from then on.
    pub fn render(&mut self, b: usize) -> (r: Result<DomCall, Fault>)
        requires
            old(self)@.wf(),
        ensures
            final(self)@.wf(),
            match r {
                Ok(call) => {
                    &&& old(self)@.phase_fault(b, Phase::Unmounted) is None
                    &&& final(self)@ == old(self)@.rendered(b)
                    &&& call@ == old(self)@.bindings[b as int].call(b, old(self)@.env)
                },
                Err(e) => old(self)@.phase_fault(b, Phase::Unmounted) == Some(e) && final(self)@
                    == old(self)@,
            },
    {
        if self.released {
            return Err(Fault::Released);
        }
        if b >= self.bindings.len() {
            return Err(Fault::Unknown);
        }
        if self.bindings[b].phase == Phase::Disposed {
            return Err(Fault::Released);
        }
        if self.bindings[b].phase != Phase::Unmounted {
            return Err(Fault::Transition);
        }
        let ghost pre = self@;
        assert(pre.bindings[b as int].typed(kinds_of(pre.env))) by {
            reveal(StoreView::wf);
        }
        let (value, reads, call) = self.evaluate(b);
        let facet = match &self.bindings[b].role {
            Role::Facet { .. } => true,
            Role::Event { .. } => false,
        };
        if facet {
            self.bindings[b].deps = reads;
            self.bindings[b].shown = value;
        }
        self.bindings[b].phase = Phase::Mounted;
        proof {
            assert(self@.bindings =~= pre.rendered(b).bindings);
            pre.lemma_rendered_wf(b);
        }
        Ok(call)
    }

    /// Disposes the mounted binding `b`. It is notified of nothing from then
    /// on and gives up its facet; the call that removes a listener is handed
    /// back. A disposed binding cannot be mounted again.
    pub fn dispose(&mut self, b: usize) -> (r: Result<Option<DomCall>, Fault>)
        requires
            old(self)@.wf(),
        ensures
            final(self)@.wf(),
            match r {
                Ok(call) => {
                    &&& old(self)@.phase_fault(b, Phase::Mounted) is None
                    &&& final(self)@ == old(self)@.disposed(b)
                    &&& match call {
                        Some(c) => old(self)@.dispose_call(b) == Some(c@),
                        None => old(self)@.dispose_call(b) is None,
                    }
                },
                Err(e) => old(self)@.phase_fault(b, Phase::Mounted) == Some(e) && final(self)@
                    == old(self)@,
            },
    {
        if self.released {
            return Err(Fault::Released);
        }
        if b >= self.bindings.len() {
            return Err(Fault::Unknown);
        }
        if self.bindings[b].phase == Phase::Disposed {
            return Err(Fault::Released);
        }
        if self.bindings[b].phase != Phase::Mounted {
            return Err(Fault::Transition);
        }
        let ghost pre = self@;
        let call = match &self.bindings[b].role {
            Role::Facet { .. } => None,
            Role::Event { event, .. } => Some(
                DomCall::Unlisten { node: self.bindings[b].node, event: event.clone(), listener: b },
            ),
        };
        self.bindings[b].phase = Phase::Disposed;
        proof {
            assert(self@.bindings =~= pre.disposed(b).bindings);
            pre.lemma_disposed_wf(b);
        }
        Ok(call)
    }
}


impl Store {
    fn bind(&mut self, node: usize, facet: Facet, source: Expr) -> (r: Result<usize, Fault>)
        requires
            old(self)@.wf(),
        ensures
            final(self)@.wf(),
            match r {
                Ok(b) => {
                    &&& old(self)@.wire_fault(node, RoleView::Facet { facet: facet@, source }) is None
                    &&& final(self)@ == old(self)@.wired(
                        node,
                        RoleView::Facet { facet: facet@, source },
                    )
                    &&& b == old(self)@.bindings.len()
                },
                Err(e) => old(self)@.wire_fault(node, RoleView::Facet { facet: facet@, source })
                    == Some(e) && final(self)@ == old(self)@,
            },
    {
        self.wire(node, Role::Facet { facet, source })
    }

    /// Binds the text content of `node` to `source`, a number or a text. The
    /// binding is made unmounted; its id is handed back.
    pub fn bind_text(&mut self, node: usize, source: Prop) -> (r: Result<usize, Fault>)
        requires
            old(self)@.wf(),
        ensures
            final(self)@.wf(),
            match r {
                Ok(b) => {
                    &&& old(self)@.wire_fault(
                        node,
                        RoleView::Facet { facet: FacetView::Text, source: source.source() },
                    ) is None
                    &&& final(self)@ == old(self)@.wired(
                        node,
                        RoleView::Facet { facet: FacetView::Text, source: source.source() },
                    )
                    &&& b == old(self)@.bindings.len()
                },
                Err(e) => old(self)@.wire_fault(
                    node,
                    RoleView::Facet { facet: FacetView::Text, source: source.source() },
                ) == Some(e) && final(self)@ == old(self)@,
            },
    {
        self.bind(node, Facet::Text, source.into_source())
    }

    /// Binds the attribute `name` of `node` to `source`, of any kind. While
    /// the value is `false` the attribute is absent.
    pub fn bind_attribute(&mut self, node: usize, name: &str, source: Prop) -> (r: Result<
        usize,
        Fault,
    >)
        requires
            old(self)@.wf(),
        ensures
            final(self)@.wf(),
            match r {
                Ok(b) => {
                    &&& old(self)@.wire_fault(
                        node,
                        RoleView::Facet { facet: FacetView::Attribute(name@), source: source.source() },
                    ) is None
                    &&& final(self)@ == old(self)@.wired(
                        node,
                        RoleView::Facet { facet: FacetView::Attribute(name@), source: source.source() },
                    )
                    &&& b == old(self)@.bindings.len()
                },
                Err(e) => old(self)@.wire_fault(
                    node,
                    RoleView::Facet { facet: FacetView::Attribute(name@), source: source.source() },
                ) == Some(e) && final(self)@ == old(self)@,
            },
    {
        self.bind(node, Facet::Attribute(String::from_str(name)), source.into_source())
    }

    /// Binds the presence of the class `name` on `node` to `source`, a
    /// boolean.
    pub fn bind_class(&mut self, node: usize, name: &str, source: Prop) -> (r: Result<usize, Fault>)
        requires
            old(self)@.wf(),
        ensures
            final(self)@.wf(),
            match r {
                Ok(b) => {
                    &&& old(self)@.wire_fault(
                        node,
                        RoleView::Facet { facet: FacetView::Class(name@), source: source.source() },
                    ) is None
                    &&& final(self)@ == old(self)@.wired(
                        node,
                        RoleView::Facet { facet: FacetView::Class(name@), source: source.source() },
                    )
                    &&& b == old(self)@.bindings.len()
                },
                Err(e) => old(self)@.wire_fault(
                    node,
                    RoleView::Facet { facet: FacetView::Class(name@), source: source.source() },
                ) == Some(e) && final(self)@ == old(self)@,
            },
    {
        self.bind(node, Facet::Class(String::from_str(name)), source.into_source())
    }

    /// Binds the property `property` of the style of `node` to `source`, a
    /// text.
    pub fn bind_style(&mut self, node: usize, property: &str, source: Prop) -> (r: Result<
        usize,
        Fault,
    >)
        requires
            old(self)@.wf(),
        ensures
            final(self)@.wf(),
            match r {
                Ok(b) => {
                    &&& old(self)@.wire_fault(
                        node,
                        RoleView::Facet { facet: FacetView::Style(property@), source: source.source() },
                    ) is None
                    &&& final(self)@ == old(self)@.wired(
                        node,
                        RoleView::Facet { facet: FacetView::Style(property@), source: source.source() },
                    )
                    &&& b == old(self)@.bindings.len()
                },
                Err(e) => old(self)@.wire_fault(
                    node,
                    RoleView::Facet { facet: FacetView::Style(property@), source: source.source() },
                ) == Some(e) && final(self)@ == old(self)@,
            },
    {
        self.bind(node, Facet::Style(String::from_str(property)), source.into_source())
    }

    /// Binds the custom property `name` of the style of `node` to `source`, a
    /// text. It is a style binding whose name must begin with `--`; any other
    /// name is refused as mistyped.
    pub fn bind_css_var(&mut self, node: usize, name: &str, source: Prop) -> (r: Result<
        usize,
        Fault,
    >)
        requires
            old(self)@.wf(),
        ensures
            final(self)@.wf(),
            match r {
                Ok(b) => {
                    &&& is_custom(name@)
                    &&& old(self)@.wire_fault(
                        node,
                        RoleView::Facet { facet: FacetView::Style(name@), source: source.source() },
                    ) is None
                    &&& final(self)@ == old(self)@.wired(
                        node,
                        RoleView::Facet { facet: FacetView::Style(name@), source: source.source() },
                    )
                    &&& b == old(self)@.bindings.len()
                },
                Err(e) => {
                    &&& final(self)@ == old(self)@
                    &&& Some(e) == if !old(self)@.released && !is_custom(name@) {
                        Some(Fault::Mistyped)
                    } else {
                        old(self)@.wire_fault(
                            node,
                            RoleView::Facet { facet: FacetView::Style(name@), source: source.source() },
                        )
                    }
                },
            },
    {
        if !self.released && !custom_name(name) {
            return Err(Fault::Mistyped);
        }
        self.bind(node, Facet::Style(String::from_str(name)), source.into_source())
    }

    /// Binds the children of `node` to `source`, a text of markup that the
    /// document parses. The text is handed on as it is, with nothing escaped:
    /// whoever supplies it can inject any markup.
    pub fn bind_inner_html(&mut self, node: usize, source: Prop) -> (r: Result<usize, Fault>)
        requires
            old(self)@.wf(),
        ensures
            final(self)@.wf(),
            match r {
                Ok(b) => {
                    &&& old(self)@.wire_fault(
                        node,
                        RoleView::Facet { facet: FacetView::InnerHtml, source: source.source() },
                    ) is None
                    &&& final(self)@ == old(self)@.wired(
                        node,
                        RoleView::Facet { facet: FacetView::InnerHtml, source: source.source() },
                    )
                    &&& b == old(self)@.bindings.len()
                },
                Err(e) => old(self)@.wire_fault(
                    node,
                    RoleView::Facet { facet: FacetView::InnerHtml, source: source.source() },
                ) == Some(e) && final(self)@ == old(self)@,
            },
    {
        self.bind(node, Facet::InnerHtml, source.into_source())
    }

    /// Binds a handler to the event `event` of `node`. When the event fires
    /// the steps run in order, each an update of one signal.
    pub fn on(&mut self, node: usize, event: &str, steps: Vec<Step>) -> (r: Result<usize, Fault>)
        requires
            old(self)@.wf(),
        ensures
            final(self)@.wf(),
            match r {
                Ok(b) => {
                    &&& old(self)@.wire_fault(
                        node,
                        RoleView::Event { event: event@, steps: steps@ },
                    ) is None
                    &&& final(self)@ == old(self)@.wired(
                        node,
                        RoleView::Event { event: event@, steps: steps@ },
                    )
                    &&& b == old(self)@.bindings.len()
                },
                Err(e) => old(self)@.wire_fault(node, RoleView::Event { event: event@, steps: steps@ })
                    == Some(e) && final(self)@ == old(self)@,
            },
    {
        self.wire(node, Role::Event { event: String::from_str(event), steps })
    }
}


/// The contents of two lists of calls, one after the other.
proof fn lemma_calls_join(a: Seq<DomCall>, b: Seq<DomCall>)
    ensures
        calls_of(a + b) == calls_of(a) + calls_of(b),
{
    assert(calls_of(a + b) =~= calls_of(a) + calls_of(b));
}

impl Store {
    /// Mounts the store under the node `root`: every binding that is still
    /// unmounted gets its first render, in the order in which the bindings
    /// were made. The calls of those renders are handed back, followed by the
    /// call that puts the subtree under `root`. A store is mounted once.
    pub fn mount(&mut self, root: usize) -> (r: Result<Vec<DomCall>, Fault>)
        requires
            old(self)@.wf(),
        ensures
            final(self)@.wf(),
            match r {
                Ok(calls) => {
                    &&& old(self)@.mount_fault() is None
                    &&& final(self)@ == old(self)@.mounted(root)
                    &&& calls_of(calls@) == old(self)@.mount_calls(
                        old(self)@.bindings.len() as int,
                    ).push(DomCallView::Attach { root })
                },
                Err(e) => old(self)@.mount_fault() == Some(e) && final(self)@ == old(self)@,
            },
    {
        if self.released {
            return Err(Fault::Released);
        }
        if self.root.is_some() {
            return Err(Fault::Transition);
        }
        let ghost pre = self@;
        let mut calls: Vec<DomCall> = Vec::new();
        let n: usize = self.bindings.len();
        let mut b: usize = 0;
        assert(self@.bindings =~= pre.mounting(0).bindings);
        assert(calls_of(calls@) =~= pre.mount_calls(0));
        while b < n
            invariant
                b <= n,
                n == pre.bindings.len(),
                !pre.released,
                self@.wf(),
                self@ == pre.mounting(b as int),
                calls_of(calls@) == pre.mount_calls(b as int),
            decreases n - b,
        {
            let ghost mid = self@;
            let ghost before = calls@;
            if self.bindings[b].phase == Phase::Unmounted {
                match self.render(b) {
                    Ok(call) => {
                        calls.push(call);
                        assert(calls_of(calls@) =~= calls_of(before).push(call@));
                    },
                    Err(_) => {},
                }
            }
            assert forall|j: int| 0 <= j < n implies self@.bindings[j] == pre.mounting(
                b + 1,
            ).bindings[j] by {
                assert(mid.bindings[j] == pre.mounting(b as int).bindings[j]);
            }
            b += 1;
            assert(self@.bindings =~= pre.mounting(b as int).bindings);
        }
        let ghost before = calls@;
        self.root = Some(root);
        proof {
            reveal(StoreView::wf);
        }
        calls.push(DomCall::Attach { root });
        assert(calls_of(calls@) =~= calls_of(before).push(DomCallView::Attach { root }));
        Ok(calls)
    }

    /// Releases the store: the disposer of a mounted tree. Every mounted
    /// binding is disposed, and from then on every handle of this store is
    /// refused. The calls that remove the listeners are handed back, followed
    /// by the call that takes the subtree away, where the store was mounted.
    pub fn release(&mut self) -> (r: Result<Vec<DomCall>, Fault>)
        requires
            old(self)@.wf(),
        ensures
            final(self)@.wf(),
            match r {
                Ok(calls) => {
                    &&& !old(self)@.released
                    &&& final(self)@ == old(self)@.released_all()
                    &&& calls_of(calls@) == old(self)@.release_calls(
                        old(self)@.bindings.len() as int,
                    ) + old(self)@.detach_calls()
                },
                Err(e) => old(self)@.released && e == Fault::Released && final(self)@ == old(
                    self,
                )@,
            },
    {
        if self.released {
            return Err(Fault::Released);
        }
        let ghost pre = self@;
        let mut calls: Vec<DomCall> = Vec::new();
        let n: usize = self.bindings.len();
        let mut b: usize = 0;
        assert(self@.bindings =~= pre.releasing(0).bindings);
        assert(calls_of(calls@) =~= pre.release_calls(0));
        while b < n
            invariant
                b <= n,
                n == pre.bindings.len(),
                !pre.released,
                self@.wf(),
                self@ == pre.releasing(b as int),
                calls_of(calls@) == pre.release_calls(b as int),
            decreases n - b,
        {
            let ghost mid = self@;
            let ghost before = calls@;
            assert(self@.bindings.len() == n);
            assert(mid.bindings[b as int] == pre.bindings[b as int]);
            assert(mid.dispose_call(b) == pre.dispose_call(b));
            if self.bindings[b].phase == Phase::Mounted {
                match self.dispose(b) {
                    Ok(Some(call)) => {
                        calls.push(call);
                        assert(calls_of(calls@) =~= calls_of(before).push(call@));
                    },
                    Ok(None) => {},
                    Err(_) => {},
                }
            }
            assert forall|j: int| 0 <= j < n implies self@.bindings[j] == pre.releasing(
                b + 1,
            ).bindings[j] by {
                assert(mid.bindings[j] == pre.releasing(b as int).bindings[j]);
                if j != b {
                    assert(self@.bindings[j] == mid.bindings[j]);
                }
            }
            b += 1;
            assert(self@.bindings =~= pre.releasing(b as int).bindings);
        }
        let ghost before = calls@;
        match self.root {
            Some(root) => {
                calls.push(DomCall::Detach { root });
                assert(calls_of(calls@) =~= calls_of(before) + pre.detach_calls());
            },
            None => {
                assert(calls_of(calls@) =~= calls_of(before) + pre.detach_calls());
            },
        }
        self.released = true;
        proof {
            reveal(StoreView::wf);
        }
        Ok(calls)
    }

    fn step_count(&self, b: usize) -> (n: usize)
        requires
            b < self@.bindings.len(),
        ensures
            match self@.bindings[b as int].role {
                RoleView::Event { event, steps } => n == steps.len(),
                RoleView::Facet { .. } => n == 0,
            },
    {
        match &self.bindings[b].role {
            Role::Event { steps, .. } => steps.len(),
            Role::Facet { .. } => 0,
        }
    }

    fn step_value(&self, b: usize, k: usize) -> (r: Option<(usize, Value)>)
        requires
            b < self@.bindings.len(),
            self@.bindings[b as int].typed(kinds_of(self@.env)),
        ensures
            match self@.bindings[b as int].role {
                RoleView::Event { event, steps } => if k < steps.len() {
                    r matches Some((id, v)) && id == steps[k as int].target.id && v@
                        == self@.update_value(id, steps[k as int].f)
                } else {
                    r is None
                },
                RoleView::Facet { .. } => r is None,
            },
    {
        match &self.bindings[b].role {
            Role::Event { steps, .. } => {
                if k < steps.len() {
                    let id: usize = steps[k].target.id;
                    assert(step_typed(steps@[k as int], kinds_of(self@.env)));
                    let mut reads: Vec<usize> = Vec::new();
                    let v = steps[k].f.eval(&self.values, Some(&self.values[id]), &mut reads);
                    Some((id, v))
                } else {
                    None
                }
            },
            Role::Facet { .. } => None,
        }
    }

    /// Fires the event of the mounted handler `b`: its steps run in order, each
    /// one to completion, with all its notifications, before the next. The
    /// calls to make on the document are handed back in the order issued.
    pub fn fire(&mut self, b: usize) -> (r: Result<Vec<DomCall>, Fault>)
        requires
            old(self)@.wf(),
        ensures
            final(self)@.wf(),
            match r {
                Ok(calls) => {
                    &&& old(self)@.fire_fault(b) is None
                    &&& old(self)@.bindings[b as int].role matches RoleView::Event { event, steps }
                    &&& final(self)@ == old(self)@.after_steps(steps, steps.len() as int)
                    &&& calls_of(calls@) == old(self)@.step_calls(steps, steps.len() as int)
                },
                Err(e) => old(self)@.fire_fault(b) == Some(e) && final(self)@ == old(self)@,
            },
    {
        if self.released {
            return Err(Fault::Released);
        }
        if b >= self.bindings.len() {
            return Err(Fault::Unknown);
        }
        let n: usize = self.step_count(b);
        let handler = match &self.bindings[b].role {
            Role::Event { .. } => true,
            Role::Facet { .. } => false,
        };
        if !handler {
            return Err(Fault::Mistyped);
        }
        if self.bindings[b].phase == Phase::Disposed {
            return Err(Fault::Released);
        }
        if self.bindings[b].phase != Phase::Mounted {
            return Err(Fault::Transition);
        }
        let ghost pre = self@;
        let ghost steps = pre.bindings[b as int].role->steps;
        assert(pre.bindings[b as int].typed(kinds_of(pre.env))) by {
            reveal(StoreView::wf);
        }
        let mut calls: Vec<DomCall> = Vec::new();
        let mut k: usize = 0;
        assert(calls_of(calls@) =~= pre.step_calls(steps, 0));
        while k < n
            invariant
                k <= n,
                n == steps.len(),
                b < pre.bindings.len(),
                pre.wf(),
                pre.bindings[b as int].role is Event,
                steps == pre.bindings[b as int].role->steps,
                forall|j: int| 0 <= j < steps.len() ==> step_typed(#[trigger] steps[j], kinds_of(pre.env)),
                !pre.released,
                self@.wf(),
                self@ == pre.after_steps(steps, k as int),
                calls_of(calls@) == pre.step_calls(steps, k as int),
            decreases n - k,
        {
            proof {
                pre.lemma_after_steps(steps, k as int);
                assert(self@.bindings[b as int].role == pre.bindings[b as int].role);
                assert(self@.bindings[b as int].typed(kinds_of(self@.env))) by {
                    reveal(StoreView::wf);
                }
            }
            let ghost before = calls@;
            match self.step_value(b, k) {
                Some((id, v)) => {
                    proof {
                        assert(step_typed(steps[k as int], kinds_of(pre.env)));
                        assert(kinds_of(self@.env)[id as int] == self@.env[id as int].kind());
                        steps[k as int].f.lemma_kind_sound(self@.env, Some(self@.env[id as int]));
                    }
                    let mut more = self.write(id, v);
                    let ghost added = more@;
                    calls.append(&mut more);
                    proof {
                        lemma_calls_join(before, added);
                    }
                },
                None => {},
            }
            k += 1;
        }
        Ok(calls)
    }

    /// The phase of binding `b`, or `None` where the store has no such
    /// binding.
    pub fn phase(&self, b: usize) -> (r: Option<Phase>)
        ensures
            match r {
                Some(phase) => b < self@.bindings.len() && phase == self@.bindings[b as int].phase,
                None => b >= self@.bindings.len(),
            },
    {
        if b < self.bindings.len() {
            Some(self.bindings[b].phase)
        } else {
            None
        }
    }

    /// What the facet of the mounted binding `b` holds: the call that the
    /// binding last issued on it.
    pub fn showing(&self, b: usize) -> (r: Result<DomCall, Fault>)
        ensures
            match r {
                Ok(call) => {
                    &&& self@.show_fault(b) is None
                    &&& self@.bindings[b as int].role matches RoleView::Facet { facet, source }
                    &&& call@ == facet.write(self@.bindings[b as int].node, self@.bindings[b as int].shown)
                    &&& self@.wf() ==> call@ == facet.write(
                        self@.bindings[b as int].node,
                        source.value_of(self@.env, None),
                    )
                },
                Err(e) => self@.show_fault(b) == Some(e),
            },
    {
        if self.released {
            return Err(Fault::Released);
        }
        if b >= self.bindings.len() {
            return Err(Fault::Unknown);
        }
        proof {
            reveal(StoreView::wf);
        }
        match &self.bindings[b].role {
            Role::Event { .. } => Err(Fault::Mistyped),
            Role::Facet { facet, .. } => {
                if self.bindings[b].phase == Phase::Disposed {
                    Err(Fault::Released)
                } else if self.bindings[b].phase != Phase::Mounted {
                    Err(Fault::Transition)
                } else {
                    Ok(facet.write(self.bindings[b].node, &self.bindings[b].shown))
                }
            },
        }
    }

    /// The bindings that a write to the signal of `writer` notifies now, in
    /// the order in which it notifies them.
    pub fn subscribers(&self, writer: &Writer) -> (r: Result<Vec<usize>, Fault>)
        ensures
            match r {
                Ok(ids) => {
                    &&& !self@.released
                    &&& writer.id < self@.env.len()
                    &&& ids@ == self@.subscribers(writer.id, self@.bindings.len() as int)
                },
                Err(e) => Some(e) == if self@.released {
                    Some(Fault::Released)
                } else if writer.id >= self@.env.len() {
                    Some(Fault::Unknown)
                } else {
                    None
                },
            },
    {
        if self.released {
            return Err(Fault::Released);
        }
        if writer.id >= self.values.len() {
            return Err(Fault::Unknown);
        }
        let mut ids: Vec<usize> = Vec::new();
        let n: usize = self.bindings.len();
        let mut b: usize = 0;
        while b < n
            invariant
                b <= n,
                n == self@.bindings.len(),
                ids@ == self@.subscribers(writer.id, b as int),
            decreases n - b,
        {
            if self.subscribed(b, writer.id) {
                ids.push(b);
            }
            b += 1;
        }
        Ok(ids)
    }
}


/// Mounts what `factory` builds under the node `root`. The factory is called
/// once; the store that it hands back is mounted, and the store, the handles
/// that came with it and the calls of the mount are handed on. The store is
/// the disposer of the tree: its release unmounts it.
pub fn mount<T, F: FnOnce() -> (Store, T)>(root: usize, factory: F) -> (r: Result<
    (Store, T, Vec<DomCall>),
    Fault,
>)
    requires
        factory.requires(()),
        forall|built: (Store, T)| factory.ensures((), built) ==> built.0@.wf(),
    ensures
        match r {
            Ok((store, handles, calls)) => exists|built: (Store, T)|
                {
                    &&& #[trigger] factory.ensures((), built)
                    &&& built.0@.mount_fault() is None
                    &&& store@ == built.0@.mounted(root)
                    &&& store@.wf()
                    &&& handles == built.1
                    &&& calls_of(calls@) == built.0@.mount_calls(
                        built.0@.bindings.len() as int,
                    ).push(DomCallView::Attach { root })
                },
            Err(e) => exists|built: (Store, T)|
                #[trigger] factory.ensures((), built) && built.0@.mount_fault() == Some(e),
        },
{
    let (mut store, handles) = factory();
    let ghost built = (store, handles);
    match store.mount(root) {
        Ok(calls) => {
            assert(factory.ensures((), built));
            Ok((store, handles, calls))
        },
        Err(e) => {
            assert(factory.ensures((), built));
            Err(e)
        },
    }
}


} // verus!
