use reactive_core::components::{
    background, columns, double_count, is_odd, left_offset, plus, DEFAULT_MAX,
};
use reactive_core::page::{BAR, BUTTON, BUTTON_COUNT, COUNT, DOUBLE, DOUBLE_BAR, INJECTED, MOVER};
use reactive_core::{
    app, mount, progress_bar, DomCall, Expr, Fault, Phase, Prop, ProgressBar, Reader, Store, Value,
};

fn text(node: usize, text: &str) -> DomCall {
    DomCall::SetText { node, text: text.to_string() }
}

fn attribute(node: usize, name: &str, value: &str) -> DomCall {
    DomCall::SetAttribute { node, name: name.to_string(), value: value.to_string() }
}

fn style(node: usize, property: &str, value: &str) -> DomCall {
    DomCall::SetStyle { node, property: property.to_string(), value: value.to_string() }
}

#[test]
fn three_clicks_count_to_three() {
    let (mut store, page) = app();
    store.mount(0).unwrap();
    for _ in 0..3 {
        store.fire(page.count_click).unwrap();
    }
    assert_eq!(page.count.get(&store), Ok(Value::Int(3)));
    assert_eq!(page.double_count.get(&store), Ok(Value::Int(6)));
    assert_eq!(store.showing(page.button_count), Ok(text(BUTTON_COUNT, "3")));
    assert_eq!(store.showing(page.count_text), Ok(text(COUNT, "3")));
    assert_eq!(store.showing(page.double_text), Ok(text(DOUBLE, "6")));
    assert_eq!(
        store.showing(page.red),
        Ok(DomCall::AddClass { node: BUTTON, name: "red".to_string() })
    );
}

#[test]
fn one_click_issues_the_calls_of_the_count() {
    let (mut store, page) = app();
    store.mount(0).unwrap();
    assert_eq!(
        store.fire(page.count_click),
        Ok(vec![
            DomCall::AddClass { node: BUTTON, name: "red".to_string() },
            text(BUTTON_COUNT, "1"),
            text(COUNT, "1"),
            attribute(BAR, "value", "1"),
            text(DOUBLE, "2"),
            attribute(DOUBLE_BAR, "value", "2"),
        ])
    );
    assert_eq!(page.x.get(&store), Ok(Value::Int(0)));
}

#[test]
fn the_progress_bars_follow_the_count() {
    let (mut store, page) = app();
    store.mount(0).unwrap();
    page.set_count.set(&mut store, Value::Int(25)).unwrap();
    assert_eq!(store.showing(page.bar.value), Ok(attribute(BAR, "value", "25")));
    assert_eq!(store.showing(page.bar.max), Ok(attribute(BAR, "max", "50")));
    assert_eq!(store.showing(page.double_bar.value), Ok(attribute(DOUBLE_BAR, "value", "50")));
    assert_eq!(store.showing(page.double_bar.max), Ok(attribute(DOUBLE_BAR, "max", "50")));
}

#[test]
fn a_progress_bar_shows_its_progress_and_its_maximum() {
    let mut store = Store::new();
    let (count, set_count) = store.create(Value::Int(0)).unwrap();
    let progress = Prop::Reactive(Reader { source: count.source.duplicate() });
    let bar = progress_bar(&mut store, 1, Some(50), progress).unwrap();
    assert_eq!(bar, ProgressBar { max: 0, value: 1 });
    store.mount(0).unwrap();
    assert_eq!(
        set_count.set(&mut store, Value::Int(25)),
        Ok(vec![attribute(1, "value", "25")])
    );
    assert_eq!(store.showing(bar.value), Ok(attribute(1, "value", "25")));
    assert_eq!(store.showing(bar.max), Ok(attribute(1, "max", "50")));
}

#[test]
fn a_progress_bar_without_a_maximum_takes_the_default() {
    let mut store = Store::new();
    let bar = progress_bar(&mut store, 1, None, Prop::Static(Value::Int(30))).unwrap();
    assert_eq!(DEFAULT_MAX, 100);
    assert_eq!(store.render(bar.max), Ok(attribute(1, "max", "100")));
    assert_eq!(store.render(bar.value), Ok(attribute(1, "value", "30")));
    let big = progress_bar(&mut store, 2, Some(u16::MAX), Prop::Static(Value::Int(1))).unwrap();
    assert_eq!(store.render(big.max), Ok(attribute(2, "max", "65535")));
}

#[test]
fn a_progress_bar_is_refused_where_its_attributes_are_taken() {
    let mut store = Store::new();
    store.bind_attribute(1, "value", Prop::Static(Value::Int(0))).unwrap();
    assert_eq!(
        progress_bar(&mut store, 1, None, Prop::Static(Value::Int(30))),
        Err(Fault::Taken)
    );
    assert_eq!(store.phase(1), Some(Phase::Unmounted));
    assert_eq!(store.phase(2), None);
    assert_eq!(
        progress_bar(&mut store, 1, None, Prop::Static(Value::Int(30))),
        Err(Fault::Taken)
    );
    assert_eq!(store.phase(2), None);
    let broken = Prop::Reactive(Reader { source: Expr::Read(3) });
    assert_eq!(progress_bar(&mut store, 5, None, broken), Err(Fault::Mistyped));
}

#[test]
fn the_page_mounts_with_every_facet_at_its_first_value() {
    let (mut store, page) = app();
    assert_eq!(store.phase(15), Some(Phase::Unmounted));
    assert_eq!(store.phase(16), None);
    assert_eq!(
        store.mount(0),
        Ok(vec![
            DomCall::Listen { node: BUTTON, event: "click".to_string(), listener: page.count_click },
            DomCall::RemoveClass { node: BUTTON, name: "red".to_string() },
            text(BUTTON_COUNT, "0"),
            text(COUNT, "0"),
            attribute(BAR, "max", "50"),
            attribute(BAR, "value", "0"),
            text(DOUBLE, "0"),
            attribute(DOUBLE_BAR, "max", "50"),
            attribute(DOUBLE_BAR, "value", "0"),
            DomCall::SetInnerHtml {
                node: INJECTED,
                html: "<p>This HTML will be injected.</p>".to_string(),
            },
            DomCall::Listen { node: MOVER, event: "click".to_string(), listener: page.move_click },
            attribute(MOVER, "style", "position: absolute"),
            style(MOVER, "left", "100px"),
            style(MOVER, "background-color", "rgb(0, 100, 100)"),
            style(MOVER, "max-width", "400px"),
            style(MOVER, "--columns", "0"),
            DomCall::Attach { root: 0 },
        ])
    );
    assert_eq!(
        (page.count_click, page.red, page.button_count, page.count_text),
        (0, 1, 2, 3)
    );
    assert_eq!(page.bar, ProgressBar { max: 4, value: 5 });
    assert_eq!(page.double_text, 6);
    assert_eq!(page.double_bar, ProgressBar { max: 7, value: 8 });
    assert_eq!(page.injected, 9);
    assert_eq!(
        (page.move_click, page.position, page.left, page.background, page.max_width, page.columns),
        (10, 11, 12, 13, 14, 15)
    );
}

#[test]
fn a_click_moves_the_button() {
    let (mut store, page) = app();
    store.mount(0).unwrap();
    assert_eq!(
        store.fire(page.move_click),
        Ok(vec![
            style(MOVER, "left", "110px"),
            style(MOVER, "background-color", "rgb(10, 100, 100)"),
            style(MOVER, "--columns", "10"),
        ])
    );
    store.fire(page.move_click).unwrap();
    assert_eq!(page.x.get(&store), Ok(Value::Int(20)));
    assert_eq!(store.showing(page.left), Ok(style(MOVER, "left", "120px")));
    assert_eq!(
        store.showing(page.background),
        Ok(style(MOVER, "background-color", "rgb(20, 100, 100)"))
    );
    assert_eq!(store.showing(page.columns), Ok(style(MOVER, "--columns", "20")));
    assert_eq!(store.showing(page.max_width), Ok(style(MOVER, "max-width", "400px")));
    assert_eq!(store.showing(page.position), Ok(attribute(MOVER, "style", "position: absolute")));
    assert_eq!(page.count.get(&store), Ok(Value::Int(0)));
}

#[test]
fn the_page_is_unmounted_by_its_release() {
    let (mut store, page) = app();
    store.mount(3).unwrap();
    assert_eq!(
        store.release(),
        Ok(vec![
            DomCall::Unlisten { node: BUTTON, event: "click".to_string(), listener: page.count_click },
            DomCall::Unlisten { node: MOVER, event: "click".to_string(), listener: page.move_click },
            DomCall::Detach { root: 3 },
        ])
    );
    assert_eq!(store.fire(page.count_click), Err(Fault::Released));
    assert_eq!(page.count.get(&store), Err(Fault::Released));
}

#[test]
fn two_pages_do_not_share_state() {
    let (mut first, page) = app();
    let (mut second, other) = app();
    first.mount(0).unwrap();
    second.mount(0).unwrap();
    first.fire(page.count_click).unwrap();
    assert_eq!(page.count.get(&first), Ok(Value::Int(1)));
    assert_eq!(other.count.get(&second), Ok(Value::Int(0)));
}

#[test]
fn the_projections_of_the_page() {
    let count = Reader { source: Expr::Read(0) };
    let cells = vec![Value::Int(7)];
    let value = |e: Expr| {
        let mut reads = Vec::new();
        e.eval(&cells, None, &mut reads)
    };
    assert_eq!(value(double_count(&count)), Value::Int(14));
    assert_eq!(value(is_odd(&count)), Value::Bool(true));
    assert_eq!(value(left_offset(&count)), Value::Text("107px".to_string()));
    assert_eq!(value(background(&count)), Value::Text("rgb(7, 100, 100)".to_string()));
    assert_eq!(value(columns(&count)), Value::Text("7".to_string()));
    let mut reads = Vec::new();
    assert_eq!(plus(10).eval(&cells, Some(&Value::Int(5)), &mut reads), Value::Int(15));
}

#[test]
fn a_factory_is_mounted_under_the_root() {
    let (mut store, page, calls) = mount(3, app).unwrap();
    assert_eq!(calls.len(), 17);
    assert_eq!(calls[2], text(BUTTON_COUNT, "0"));
    assert_eq!(calls[16], DomCall::Attach { root: 3 });
    assert_eq!(store.phase(page.columns), Some(Phase::Mounted));
    assert_eq!(store.fire(page.count_click).map(|calls| calls.len()), Ok(6));
    let gone = store.release().unwrap();
    assert_eq!(gone.last(), Some(&DomCall::Detach { root: 3 }));
}

#[test]
fn a_factory_whose_store_is_mounted_already_is_refused() {
    let built = || {
        let mut store = Store::new();
        store.mount(1).unwrap();
        (store, 7u8)
    };
    assert_eq!(mount(2, built).err(), Some(Fault::Transition));
    let released = || {
        let mut store = Store::new();
        store.release().unwrap();
        (store, ())
    };
    assert_eq!(mount(2, released).err(), Some(Fault::Released));
    let empty = || (Store::new(), "handles");
    let (_, handles, calls) = mount(2, empty).unwrap();
    assert_eq!(handles, "handles");
    assert_eq!(calls, vec![DomCall::Attach { root: 2 }]);
}
