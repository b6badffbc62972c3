use reactive_core::{DomCall, Expr, Fault, Prop, Reader, Store, Value};

fn lit(n: i32) -> Box<Expr> {
    Box::new(Expr::Lit(Value::Int(n)))
}

fn reactive(reader: &Reader) -> Prop {
    Prop::Reactive(Reader { source: reader.source.duplicate() })
}

fn set_text(node: usize, text: &str) -> DomCall {
    DomCall::SetText { node, text: text.to_string() }
}

#[test]
fn a_new_signal_holds_its_initial_value() {
    let mut store = Store::new();
    let (count, set_count) = store.create(Value::Int(0)).unwrap();
    assert_eq!(count.get(&store), Ok(Value::Int(0)));
    assert_eq!(count.source, Expr::Read(0));
    assert_eq!(set_count.id, 0);
    let (name, set_name) = store.create(Value::Text("a".to_string())).unwrap();
    assert_eq!(name.get(&store), Ok(Value::Text("a".to_string())));
    assert_eq!(set_name.id, 1);
    assert_eq!(count.get(&store), Ok(Value::Int(0)));
}

#[test]
fn set_replaces_the_value() {
    let mut store = Store::new();
    let (count, set_count) = store.create(Value::Int(0)).unwrap();
    assert_eq!(set_count.set(&mut store, Value::Int(5)), Ok(vec![]));
    assert_eq!(count.get(&store), Ok(Value::Int(5)));
}

#[test]
fn a_derived_value_is_recomputed_on_every_read() {
    let mut store = Store::new();
    let (count, set_count) = store.create(Value::Int(0)).unwrap();
    let double = store
        .derive(Expr::Mul(Box::new(count.source.duplicate()), lit(2)))
        .unwrap();
    assert_eq!(double.get(&store), Ok(Value::Int(0)));
    set_count.set(&mut store, Value::Int(5)).unwrap();
    assert_eq!(double.get(&store), Ok(Value::Int(10)));
    set_count.set(&mut store, Value::Int(-4)).unwrap();
    assert_eq!(double.get(&store), Ok(Value::Int(-8)));
}

#[test]
fn a_derived_value_may_read_another() {
    let mut store = Store::new();
    let (count, set_count) = store.create(Value::Int(3)).unwrap();
    let double = store
        .derive(Expr::Mul(Box::new(count.source.duplicate()), lit(2)))
        .unwrap();
    let more = store
        .derive(Expr::Add(Box::new(double.source.duplicate()), lit(1)))
        .unwrap();
    assert_eq!(more.get(&store), Ok(Value::Int(7)));
    set_count.set(&mut store, Value::Int(10)).unwrap();
    assert_eq!(more.get(&store), Ok(Value::Int(21)));
    assert_eq!(more.dependencies(&store), Ok(vec![0]));
}

#[test]
fn update_applies_the_function_to_the_held_value() {
    let mut store = Store::new();
    let (count, set_count) = store.create(Value::Int(41)).unwrap();
    let f = Expr::Add(Box::new(Expr::Arg), lit(1));
    assert_eq!(set_count.update(&mut store, &f), Ok(vec![]));
    assert_eq!(count.get(&store), Ok(Value::Int(42)));
    let (other, _) = store.create(Value::Int(8)).unwrap();
    let g = Expr::Mul(Box::new(Expr::Arg), Box::new(other.source.duplicate()));
    set_count.update(&mut store, &g).unwrap();
    assert_eq!(count.get(&store), Ok(Value::Int(336)));
}

#[test]
fn update_notifies_as_set_does() {
    let mut store = Store::new();
    let (count, set_count) = store.create(Value::Int(0)).unwrap();
    let b = store.bind_text(1, reactive(&count)).unwrap();
    store.render(b).unwrap();
    let f = Expr::Add(Box::new(Expr::Arg), lit(1));
    assert_eq!(set_count.update(&mut store, &f), Ok(vec![set_text(1, "1")]));
    let same = Expr::Arg;
    assert_eq!(set_count.update(&mut store, &same), Ok(vec![]));
}

#[test]
fn a_write_of_the_held_value_notifies_nobody() {
    let mut store = Store::new();
    let (count, set_count) = store.create(Value::Int(3)).unwrap();
    let b = store.bind_text(1, reactive(&count)).unwrap();
    assert_eq!(store.render(b), Ok(set_text(1, "3")));
    assert_eq!(set_count.set(&mut store, Value::Int(3)), Ok(vec![]));
    assert_eq!(set_count.set(&mut store, Value::Int(4)), Ok(vec![set_text(1, "4")]));
    assert_eq!(set_count.set(&mut store, Value::Int(4)), Ok(vec![]));
    assert_eq!(store.showing(b), Ok(set_text(1, "4")));
}

#[test]
fn an_eager_signal_notifies_on_every_write() {
    let mut store = Store::new();
    let (count, set_count) = store.create_eager(Value::Int(3)).unwrap();
    let b = store.bind_text(1, reactive(&count)).unwrap();
    store.render(b).unwrap();
    assert_eq!(set_count.set(&mut store, Value::Int(3)), Ok(vec![set_text(1, "3")]));
    assert_eq!(set_count.set(&mut store, Value::Int(3)), Ok(vec![set_text(1, "3")]));
}

#[test]
fn every_binding_shows_the_latest_value_after_each_write() {
    let mut store = Store::new();
    let (count, set_count) = store.create(Value::Int(0)).unwrap();
    let double = store
        .derive(Expr::Mul(Box::new(count.source.duplicate()), lit(2)))
        .unwrap();
    let plain = store.bind_text(1, reactive(&count)).unwrap();
    let twice = store.bind_attribute(2, "value", reactive(&double)).unwrap();
    store.mount(0).unwrap();
    for n in [4, 4, -1, 7, 0, 1000] {
        set_count.set(&mut store, Value::Int(n)).unwrap();
        assert_eq!(store.showing(plain), Ok(set_text(1, &n.to_string())));
        assert_eq!(
            store.showing(twice),
            Ok(DomCall::SetAttribute {
                node: 2,
                name: "value".to_string(),
                value: (2 * n).to_string(),
            })
        );
    }
}

#[test]
fn subscribers_are_notified_in_the_order_of_the_bindings() {
    let mut store = Store::new();
    let (count, set_count) = store.create(Value::Int(0)).unwrap();
    let (other, set_other) = store.create(Value::Int(0)).unwrap();
    let a = store.bind_text(7, reactive(&count)).unwrap();
    let b = store.bind_text(3, reactive(&other)).unwrap();
    let c = store.bind_text(5, reactive(&count)).unwrap();
    store.mount(0).unwrap();
    assert_eq!(store.subscribers(&set_count), Ok(vec![a, c]));
    assert_eq!(store.subscribers(&set_other), Ok(vec![b]));
    assert_eq!(
        set_count.set(&mut store, Value::Int(9)),
        Ok(vec![set_text(7, "9"), set_text(5, "9")])
    );
    assert_eq!(set_other.set(&mut store, Value::Int(2)), Ok(vec![set_text(3, "2")]));
}

#[test]
fn dependencies_are_tracked_anew_after_the_flag_flips() {
    let mut store = Store::new();
    let (flag, set_flag) = store.create(Value::Bool(true)).unwrap();
    let (a, set_a) = store.create(Value::Int(1)).unwrap();
    let (b, set_b) = store.create(Value::Int(2)).unwrap();
    let pick = store
        .derive(Expr::If(
            Box::new(flag.source.duplicate()),
            Box::new(a.source.duplicate()),
            Box::new(b.source.duplicate()),
        ))
        .unwrap();
    assert_eq!(pick.dependencies(&store), Ok(vec![0, 1]));
    let shown = store.bind_text(1, reactive(&pick)).unwrap();
    assert_eq!(store.render(shown), Ok(set_text(1, "1")));
    assert_eq!(store.subscribers(&set_a), Ok(vec![shown]));
    assert_eq!(store.subscribers(&set_b), Ok(vec![]));

    assert_eq!(set_a.set(&mut store, Value::Int(10)), Ok(vec![set_text(1, "10")]));
    assert_eq!(set_b.set(&mut store, Value::Int(20)), Ok(vec![]));

    assert_eq!(set_flag.set(&mut store, Value::Bool(false)), Ok(vec![set_text(1, "20")]));
    assert_eq!(pick.dependencies(&store), Ok(vec![0, 2]));
    assert_eq!(store.subscribers(&set_a), Ok(vec![]));
    assert_eq!(store.subscribers(&set_b), Ok(vec![shown]));

    assert_eq!(set_a.set(&mut store, Value::Int(11)), Ok(vec![]));
    assert_eq!(store.showing(shown), Ok(set_text(1, "20")));
    assert_eq!(set_b.set(&mut store, Value::Int(21)), Ok(vec![set_text(1, "21")]));

    assert_eq!(set_flag.set(&mut store, Value::Bool(true)), Ok(vec![set_text(1, "11")]));
    assert_eq!(set_b.set(&mut store, Value::Int(22)), Ok(vec![]));
    assert_eq!(set_a.set(&mut store, Value::Int(12)), Ok(vec![set_text(1, "12")]));
}

#[test]
fn a_prop_resolves_to_its_current_value() {
    let mut store = Store::new();
    let (count, set_count) = store.create(Value::Int(1)).unwrap();
    let fixed = Prop::Static(Value::Int(50));
    let live = reactive(&count);
    assert_eq!(fixed.resolve(&store), Ok(Value::Int(50)));
    assert_eq!(live.resolve(&store), Ok(Value::Int(1)));
    set_count.set(&mut store, Value::Int(2)).unwrap();
    assert_eq!(fixed.resolve(&store), Ok(Value::Int(50)));
    assert_eq!(live.resolve(&store), Ok(Value::Int(2)));
    assert_eq!(fixed.into_source(), Expr::Lit(Value::Int(50)));
    assert_eq!(live.into_source(), Expr::Read(0));
}

#[test]
fn a_released_store_refuses_every_handle() {
    let mut store = Store::new();
    let (count, set_count) = store.create(Value::Int(1)).unwrap();
    let b = store.bind_text(1, reactive(&count)).unwrap();
    store.mount(0).unwrap();
    assert_eq!(store.release(), Ok(vec![DomCall::Detach { root: 0 }]));
    assert_eq!(count.get(&store), Err(Fault::Released));
    assert_eq!(count.dependencies(&store), Err(Fault::Released));
    assert_eq!(set_count.set(&mut store, Value::Int(2)), Err(Fault::Released));
    assert_eq!(set_count.update(&mut store, &Expr::Arg), Err(Fault::Released));
    assert_eq!(store.create(Value::Int(0)), Err(Fault::Released));
    assert_eq!(store.create_eager(Value::Int(0)), Err(Fault::Released));
    assert_eq!(store.derive(Expr::Lit(Value::Int(0))), Err(Fault::Released));
    assert_eq!(store.bind_text(2, reactive(&count)), Err(Fault::Released));
    assert_eq!(store.bind_css_var(2, "columns", reactive(&count)), Err(Fault::Released));
    assert_eq!(store.on(2, "click", vec![]), Err(Fault::Released));
    assert_eq!(store.render(b), Err(Fault::Released));
    assert_eq!(store.dispose(b), Err(Fault::Released));
    assert_eq!(store.fire(b), Err(Fault::Released));
    assert_eq!(store.showing(b), Err(Fault::Released));
    assert_eq!(store.subscribers(&set_count), Err(Fault::Released));
    assert_eq!(store.mount(0), Err(Fault::Released));
    assert_eq!(store.release(), Err(Fault::Released));
    assert_eq!(Prop::Static(Value::Int(1)).resolve(&store), Err(Fault::Released));
}

#[test]
fn a_handle_of_no_signal_is_unknown() {
    let mut store = Store::new();
    let (_, set_count) = store.create(Value::Int(1)).unwrap();
    let mut other = Store::new();
    assert_eq!(set_count.set(&mut other, Value::Int(2)), Err(Fault::Unknown));
    assert_eq!(set_count.update(&mut other, &Expr::Arg), Err(Fault::Unknown));
    assert_eq!(other.subscribers(&set_count), Err(Fault::Unknown));
    assert_eq!(other.render(0), Err(Fault::Unknown));
    assert_eq!(other.dispose(0), Err(Fault::Unknown));
    assert_eq!(other.fire(0), Err(Fault::Unknown));
    assert_eq!(other.showing(0), Err(Fault::Unknown));
    assert_eq!(other.phase(0), None);
}

#[test]
fn values_of_the_wrong_kind_are_refused() {
    let mut store = Store::new();
    let (count, set_count) = store.create(Value::Int(1)).unwrap();
    assert_eq!(set_count.set(&mut store, Value::Bool(true)), Err(Fault::Mistyped));
    assert_eq!(
        set_count.set(&mut store, Value::Text("1".to_string())),
        Err(Fault::Mistyped)
    );
    assert_eq!(count.get(&store), Ok(Value::Int(1)));
    let to_text = Expr::Show(Box::new(Expr::Arg));
    assert_eq!(set_count.update(&mut store, &to_text), Err(Fault::Mistyped));
    let unknown = Expr::Add(Box::new(Expr::Arg), Box::new(Expr::Read(9)));
    assert_eq!(set_count.update(&mut store, &unknown), Err(Fault::Mistyped));
    assert_eq!(store.derive(Expr::Read(9)), Err(Fault::Mistyped));
    assert_eq!(store.derive(Expr::Arg), Err(Fault::Mistyped));
    let foreign = Reader { source: Expr::Read(4) };
    assert_eq!(foreign.get(&store), Err(Fault::Mistyped));
    assert_eq!(foreign.dependencies(&store), Err(Fault::Mistyped));
    assert_eq!(Prop::Reactive(foreign).resolve(&store), Err(Fault::Mistyped));
}
