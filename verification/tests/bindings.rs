use reactive_core::{DomCall, Expr, Fault, Phase, Prop, Reader, Step, Store, Value, Writer};

fn reactive(reader: &Reader) -> Prop {
    Prop::Reactive(Reader { source: reader.source.duplicate() })
}

fn fixed(s: &str) -> Prop {
    Prop::Static(Value::Text(s.to_string()))
}

fn odd(count: &Reader) -> Prop {
    Prop::Reactive(Reader {
        source: Expr::Equals(
            Box::new(Expr::Rem(Box::new(count.source.duplicate()), 2)),
            Box::new(Expr::Lit(Value::Int(1))),
        ),
    })
}

fn add_step(target: Writer, n: i32) -> Step {
    Step {
        target,
        f: Expr::Add(Box::new(Expr::Arg), Box::new(Expr::Lit(Value::Int(n)))),
    }
}

#[test]
fn a_binding_goes_from_unmounted_to_mounted_to_disposed() {
    let mut store = Store::new();
    let (count, _) = store.create(Value::Int(0)).unwrap();
    let b = store.bind_text(1, reactive(&count)).unwrap();
    assert_eq!(store.phase(b), Some(Phase::Unmounted));
    assert_eq!(store.showing(b), Err(Fault::Transition));
    assert_eq!(store.dispose(b), Err(Fault::Transition));
    assert_eq!(
        store.render(b),
        Ok(DomCall::SetText { node: 1, text: "0".to_string() })
    );
    assert_eq!(store.phase(b), Some(Phase::Mounted));
    assert_eq!(store.render(b), Err(Fault::Transition));
    assert_eq!(store.dispose(b), Ok(None));
    assert_eq!(store.phase(b), Some(Phase::Disposed));
    assert_eq!(store.render(b), Err(Fault::Released));
    assert_eq!(store.dispose(b), Err(Fault::Released));
    assert_eq!(store.showing(b), Err(Fault::Released));
}

#[test]
fn a_disposed_binding_is_notified_no_more() {
    let mut store = Store::new();
    let (count, set_count) = store.create(Value::Int(0)).unwrap();
    let kept = store.bind_text(1, reactive(&count)).unwrap();
    let gone = store.bind_text(2, reactive(&count)).unwrap();
    store.mount(0).unwrap();
    assert_eq!(store.subscribers(&set_count), Ok(vec![kept, gone]));
    store.dispose(gone).unwrap();
    assert_eq!(store.subscribers(&set_count), Ok(vec![kept]));
    assert_eq!(
        set_count.set(&mut store, Value::Int(1)),
        Ok(vec![DomCall::SetText { node: 1, text: "1".to_string() }])
    );
}

#[test]
fn a_facet_has_one_owner() {
    let mut store = Store::new();
    let (count, _) = store.create(Value::Int(0)).unwrap();
    let first = store.bind_text(1, reactive(&count)).unwrap();
    assert_eq!(store.bind_text(1, reactive(&count)), Err(Fault::Taken));
    assert!(store.bind_text(2, reactive(&count)).is_ok());
    assert!(store.bind_attribute(1, "title", reactive(&count)).is_ok());
    assert_eq!(store.bind_attribute(1, "title", fixed("x")), Err(Fault::Taken));
    assert!(store.bind_attribute(1, "lang", fixed("x")).is_ok());
    assert!(store.bind_style(1, "left", fixed("1px")).is_ok());
    assert_eq!(store.bind_style(1, "left", fixed("2px")), Err(Fault::Taken));
    assert!(store.bind_css_var(1, "--gap", fixed("2px")).is_ok());
    assert_eq!(store.bind_style(1, "--gap", fixed("3px")), Err(Fault::Taken));
    assert!(store.bind_inner_html(1, fixed("<b>x</b>")).is_ok());
    assert_eq!(store.bind_inner_html(1, fixed("")), Err(Fault::Taken));
    store.render(first).unwrap();
    store.dispose(first).unwrap();
    assert!(store.bind_text(1, reactive(&count)).is_ok());
}

#[test]
fn each_facet_takes_its_kinds_only() {
    let mut store = Store::new();
    let (count, _) = store.create(Value::Int(0)).unwrap();
    let (flag, _) = store.create(Value::Bool(true)).unwrap();
    let (name, _) = store.create(Value::Text("n".to_string())).unwrap();
    assert_eq!(store.bind_text(1, reactive(&flag)), Err(Fault::Mistyped));
    assert!(store.bind_text(1, reactive(&count)).is_ok());
    assert!(store.bind_text(2, reactive(&name)).is_ok());
    assert_eq!(store.bind_class(1, "red", reactive(&count)), Err(Fault::Mistyped));
    assert_eq!(store.bind_class(1, "red", reactive(&name)), Err(Fault::Mistyped));
    assert!(store.bind_class(1, "red", reactive(&flag)).is_ok());
    assert_eq!(store.bind_style(1, "left", reactive(&count)), Err(Fault::Mistyped));
    assert!(store.bind_style(1, "left", reactive(&name)).is_ok());
    assert_eq!(store.bind_inner_html(1, reactive(&flag)), Err(Fault::Mistyped));
    assert!(store.bind_attribute(1, "a", reactive(&count)).is_ok());
    assert!(store.bind_attribute(1, "b", reactive(&flag)).is_ok());
    assert!(store.bind_attribute(1, "c", reactive(&name)).is_ok());
    let broken = Prop::Reactive(Reader { source: Expr::Read(17) });
    assert_eq!(store.bind_attribute(1, "d", broken), Err(Fault::Mistyped));
}

#[test]
fn a_custom_property_needs_two_leading_hyphens() {
    let mut store = Store::new();
    assert_eq!(store.bind_css_var(1, "columns", fixed("3")), Err(Fault::Mistyped));
    assert_eq!(store.bind_css_var(1, "-columns", fixed("3")), Err(Fault::Mistyped));
    assert_eq!(store.bind_css_var(1, "", fixed("3")), Err(Fault::Mistyped));
    let b = store.bind_css_var(1, "--columns", fixed("3")).unwrap();
    assert_eq!(
        store.render(b),
        Ok(DomCall::SetStyle {
            node: 1,
            property: "--columns".to_string(),
            value: "3".to_string(),
        })
    );
}

#[test]
fn a_text_binding_renders_numbers_and_texts() {
    let mut store = Store::new();
    let (count, set_count) = store.create(Value::Int(-12)).unwrap();
    let (name, set_name) = store.create(Value::Text("a & b".to_string())).unwrap();
    let n = store.bind_text(1, reactive(&count)).unwrap();
    let t = store.bind_text(2, reactive(&name)).unwrap();
    assert_eq!(store.render(n), Ok(DomCall::SetText { node: 1, text: "-12".to_string() }));
    assert_eq!(store.render(t), Ok(DomCall::SetText { node: 2, text: "a & b".to_string() }));
    assert_eq!(
        set_count.set(&mut store, Value::Int(7)),
        Ok(vec![DomCall::SetText { node: 1, text: "7".to_string() }])
    );
    assert_eq!(
        set_name.set(&mut store, Value::Text("<i>".to_string())),
        Ok(vec![DomCall::SetText { node: 2, text: "<i>".to_string() }])
    );
}

#[test]
fn a_false_attribute_is_removed() {
    let mut store = Store::new();
    let (flag, set_flag) = store.create(Value::Bool(false)).unwrap();
    let b = store.bind_attribute(4, "disabled", reactive(&flag)).unwrap();
    assert_eq!(
        store.render(b),
        Ok(DomCall::RemoveAttribute { node: 4, name: "disabled".to_string() })
    );
    assert_eq!(
        set_flag.set(&mut store, Value::Bool(true)),
        Ok(vec![DomCall::SetAttribute {
            node: 4,
            name: "disabled".to_string(),
            value: "true".to_string(),
        }])
    );
    assert_eq!(
        set_flag.set(&mut store, Value::Bool(false)),
        Ok(vec![DomCall::RemoveAttribute { node: 4, name: "disabled".to_string() }])
    );
    let word = store.bind_attribute(4, "title", fixed("false")).unwrap();
    assert_eq!(
        store.render(word),
        Ok(DomCall::SetAttribute {
            node: 4,
            name: "title".to_string(),
            value: "false".to_string(),
        })
    );
}

#[test]
fn class_presence_matches_parity() {
    let mut store = Store::new();
    let (count, set_count) = store.create(Value::Int(0)).unwrap();
    let b = store.bind_class(1, "red", odd(&count)).unwrap();
    let on = DomCall::AddClass { node: 1, name: "red".to_string() };
    let off = DomCall::RemoveClass { node: 1, name: "red".to_string() };
    assert_eq!(store.render(b), Ok(off));
    let off = DomCall::RemoveClass { node: 1, name: "red".to_string() };
    for (n, want) in [(0, &off), (1, &on), (2, &off), (3, &on)] {
        set_count.set(&mut store, Value::Int(n)).unwrap();
        assert_eq!(store.showing(b).as_ref(), Ok(want));
    }
    set_count.set(&mut store, Value::Int(-3)).unwrap();
    assert_eq!(store.showing(b).as_ref(), Ok(&off));
}

#[test]
fn a_write_that_keeps_the_parity_still_writes_the_class() {
    let mut store = Store::new();
    let (count, set_count) = store.create(Value::Int(1)).unwrap();
    let b = store.bind_class(1, "red", odd(&count)).unwrap();
    store.render(b).unwrap();
    assert_eq!(
        set_count.set(&mut store, Value::Int(3)),
        Ok(vec![DomCall::AddClass { node: 1, name: "red".to_string() }])
    );
}

#[test]
fn raw_markup_is_handed_on_unescaped() {
    let mut store = Store::new();
    let b = store.bind_inner_html(3, fixed("<p>hi</p>")).unwrap();
    assert_eq!(
        store.render(b),
        Ok(DomCall::SetInnerHtml { node: 3, html: "<p>hi</p>".to_string() })
    );
    assert_eq!(
        store.showing(b),
        Ok(DomCall::SetInnerHtml { node: 3, html: "<p>hi</p>".to_string() })
    );
    let (markup, set_markup) = store
        .create(Value::Text("<script>a&b</script>".to_string()))
        .unwrap();
    let live = store.bind_inner_html(4, reactive(&markup)).unwrap();
    assert_eq!(
        store.render(live),
        Ok(DomCall::SetInnerHtml { node: 4, html: "<script>a&b</script>".to_string() })
    );
    assert_eq!(
        set_markup.set(&mut store, Value::Text("<em>\"x\"</em>".to_string())),
        Ok(vec![DomCall::SetInnerHtml { node: 4, html: "<em>\"x\"</em>".to_string() }])
    );
}

#[test]
fn a_static_binding_is_rendered_once() {
    let mut store = Store::new();
    let (_, set_count) = store.create(Value::Int(0)).unwrap();
    let b = store.bind_style(1, "max-width", fixed("400px")).unwrap();
    assert_eq!(
        store.render(b),
        Ok(DomCall::SetStyle {
            node: 1,
            property: "max-width".to_string(),
            value: "400px".to_string(),
        })
    );
    assert_eq!(set_count.set(&mut store, Value::Int(1)), Ok(vec![]));
    assert_eq!(store.subscribers(&set_count), Ok(vec![]));
}

#[test]
fn a_handler_runs_its_steps_in_order() {
    let mut store = Store::new();
    let (count, set_count) = store.create(Value::Int(0)).unwrap();
    let (total, set_total) = store.create(Value::Int(100)).unwrap();
    let shown = store.bind_text(1, reactive(&count)).unwrap();
    let sum = store.bind_text(2, reactive(&total)).unwrap();
    let add_count = Step {
        target: set_total,
        f: Expr::Add(Box::new(Expr::Arg), Box::new(count.source.duplicate())),
    };
    let click = store
        .on(3, "click", vec![add_step(set_count, 1), add_count, add_step(set_count, 1)])
        .unwrap();
    assert_eq!(store.fire(click), Err(Fault::Transition));
    assert_eq!(
        store.mount(0),
        Ok(vec![
            DomCall::SetText { node: 1, text: "0".to_string() },
            DomCall::SetText { node: 2, text: "100".to_string() },
            DomCall::Listen { node: 3, event: "click".to_string(), listener: click },
            DomCall::Attach { root: 0 },
        ])
    );
    assert_eq!(
        store.fire(click),
        Ok(vec![
            DomCall::SetText { node: 1, text: "1".to_string() },
            DomCall::SetText { node: 2, text: "101".to_string() },
            DomCall::SetText { node: 1, text: "2".to_string() },
        ])
    );
    assert_eq!(count.get(&store), Ok(Value::Int(2)));
    assert_eq!(total.get(&store), Ok(Value::Int(101)));
    assert_eq!(store.fire(shown), Err(Fault::Mistyped));
    assert_eq!(store.showing(click), Err(Fault::Mistyped));
    assert_eq!(store.showing(sum), Ok(DomCall::SetText { node: 2, text: "101".to_string() }));
}

#[test]
fn a_handler_must_fit_its_signals() {
    let mut store = Store::new();
    let (_, set_count) = store.create(Value::Int(0)).unwrap();
    let (_, set_name) = store.create(Value::Text(String::new())).unwrap();
    let missing = Writer { id: 9 };
    assert_eq!(store.on(1, "click", vec![add_step(missing, 1)]), Err(Fault::Mistyped));
    assert_eq!(store.on(1, "click", vec![add_step(set_name, 1)]), Err(Fault::Mistyped));
    let to_text = Step { target: set_count, f: Expr::Show(Box::new(Expr::Arg)) };
    assert_eq!(store.on(1, "click", vec![to_text]), Err(Fault::Mistyped));
    assert!(store.on(1, "click", vec![add_step(set_count, 1)]).is_ok());
    assert!(store.on(1, "click", vec![]).is_ok());
}

#[test]
fn a_disposed_handler_is_removed_and_fires_no_more() {
    let mut store = Store::new();
    let (_, set_count) = store.create(Value::Int(0)).unwrap();
    let click = store.on(1, "click", vec![add_step(set_count, 1)]).unwrap();
    assert_eq!(
        store.render(click),
        Ok(DomCall::Listen { node: 1, event: "click".to_string(), listener: click })
    );
    assert_eq!(store.fire(click), Ok(vec![]));
    assert_eq!(
        store.dispose(click),
        Ok(Some(DomCall::Unlisten { node: 1, event: "click".to_string(), listener: click }))
    );
    assert_eq!(store.fire(click), Err(Fault::Released));
}

#[test]
fn a_store_is_mounted_once() {
    let mut store = Store::new();
    assert_eq!(store.mount(5), Ok(vec![DomCall::Attach { root: 5 }]));
    assert_eq!(store.mount(5), Err(Fault::Transition));
    assert_eq!(store.mount(6), Err(Fault::Transition));
}

#[test]
fn mount_renders_what_is_still_unmounted() {
    let mut store = Store::new();
    let (count, _) = store.create(Value::Int(1)).unwrap();
    let a = store.bind_text(1, reactive(&count)).unwrap();
    let b = store.bind_text(2, reactive(&count)).unwrap();
    let c = store.bind_text(3, reactive(&count)).unwrap();
    store.render(a).unwrap();
    store.render(b).unwrap();
    store.dispose(b).unwrap();
    assert_eq!(
        store.mount(0),
        Ok(vec![
            DomCall::SetText { node: 3, text: "1".to_string() },
            DomCall::Attach { root: 0 },
        ])
    );
    assert_eq!(store.phase(a), Some(Phase::Mounted));
    assert_eq!(store.phase(b), Some(Phase::Disposed));
    assert_eq!(store.phase(c), Some(Phase::Mounted));
}

#[test]
fn release_disposes_the_mounted_bindings() {
    let mut store = Store::new();
    let (count, set_count) = store.create(Value::Int(1)).unwrap();
    let a = store.bind_text(1, reactive(&count)).unwrap();
    let click = store.on(1, "click", vec![add_step(set_count, 1)]).unwrap();
    let b = store.bind_text(2, reactive(&count)).unwrap();
    store.render(a).unwrap();
    store.render(click).unwrap();
    assert_eq!(
        store.release(),
        Ok(vec![DomCall::Unlisten { node: 1, event: "click".to_string(), listener: click }])
    );
    assert_eq!(store.phase(a), Some(Phase::Disposed));
    assert_eq!(store.phase(click), Some(Phase::Disposed));
    assert_eq!(store.phase(b), Some(Phase::Unmounted));
}
