use kiriko::anim::{Animation, Property};
use kiriko::markers::Marker;
use kiriko::model::{
    BlendMode, Composition, Document, Folder, FootageItem, Layer, LayerKind, LinearColour, MatteChannel, MatteRef,
    MediaRef, ProjectItem, SolidDef, Switches, TextDocument, TransformGroup, TransformProp,
};
use kiriko::ops::{apply, replay, Op, OpError};
use kiriko::rational::rat;
use kiriko::time::{CompTime, Duration, FrameRate};

fn secs(s: i64) -> CompTime {
    CompTime(rat(s, 1))
}

fn layer(id: u128, name: &str, kind: LayerKind) -> Layer {
    Layer {
        id,
        name: name.to_string(),
        kind,
        in_point: secs(0),
        out_point: secs(10),
        start_offset: secs(0),
        transform: TransformGroup::default(),
        matte: None,
        blend: BlendMode::default(),
        switches: Switches::default(),
    }
}

fn comp(id: u128) -> Composition {
    Composition {
        id,
        name: "Comp".to_string(),
        width: 1920,
        height: 1080,
        frame_rate: FrameRate::new(60, 1).unwrap(),
        duration: Duration(rat(10, 1)),
        background: LinearColour::black(),
        work_area: None,
        layers: vec![layer(11, "text", LayerKind::Text {
            document: TextDocument { text: "hi".to_string(), size: 0x4048_0000_0000_0000, fill: LinearColour::black() },
        })],
        markers: vec![Marker::user(77, rat(1, 1))],
    }
}

fn doc() -> Document {
    let mut d = Document::new();
    d.items.push(ProjectItem::Composition(comp(1)));
    d.items.push(ProjectItem::Footage(FootageItem {
        id: 2,
        name: "clip".to_string(),
        media: MediaRef { relative_path: "a.mp4".to_string(), absolute_path: "/x/a.mp4".to_string() },
    }));
    d.items.push(ProjectItem::Folder(Folder { id: 3, name: "Solids".to_string(), children: vec![4] }));
    d.items.push(ProjectItem::Solid(SolidDef {
        id: 4,
        name: "Red".to_string(),
        colour: LinearColour([0x3F80_0000, 0, 0, 0x3F80_0000]),
        width: 100,
        height: 100,
    }));
    d
}

fn comp_of(d: &Document) -> &Composition {
    d.comp(1).unwrap()
}

/// Apply an op, then its inverse: the document comes back and the inverse of
/// the inverse is the op again (checked by applying it once more).
fn round_trip(op: Op, check: impl Fn(&Document, &Document)) {
    let mut d = doc();
    let before = doc();
    let inv = apply(&mut d, &op).unwrap();
    let again = apply(&mut d, &inv).unwrap();
    check(&d, &before);
    let mut d2 = doc();
    apply(&mut d2, &again).unwrap();
    let mut d3 = doc();
    apply(&mut d3, &op).unwrap();
    check(&d2, &d3);
}

fn same_names(a: &Document, b: &Document) {
    assert_eq!(a.items.len(), b.items.len());
    for (x, y) in a.items.iter().zip(b.items.iter()) {
        assert_eq!(x.id(), y.id());
        assert_eq!(x.name(), y.name());
    }
    let (ca, cb) = (comp_of(a), comp_of(b));
    assert_eq!(ca.layers.len(), cb.layers.len());
    for (x, y) in ca.layers.iter().zip(cb.layers.iter()) {
        assert_eq!(x.id, y.id);
        assert_eq!(x.name, y.name);
        assert_eq!(x.in_point, y.in_point);
        assert_eq!(x.out_point, y.out_point);
        assert_eq!(x.blend, y.blend);
        assert_eq!(x.matte, y.matte);
    }
    assert_eq!(ca.work_area, cb.work_area);
}

#[test]
fn add_and_remove_item_round_trip() {
    let item = ProjectItem::Folder(Folder { id: 9, name: "New".to_string(), children: vec![] });
    round_trip(Op::AddItem { index: 1, item: Box::new(item) }, same_names);
    round_trip(Op::RemoveItem { id: 2 }, same_names);
}

#[test]
fn rename_item_returns_the_old_name() {
    let mut d = doc();
    let inv = apply(&mut d, &Op::RenameItem { id: 2, name: "renamed".to_string() }).unwrap();
    assert_eq!(d.item(2).unwrap().name(), "renamed");
    match inv {
        Op::RenameItem { id, name } => {
            assert_eq!(id, 2);
            assert_eq!(name, "clip");
        },
        _ => panic!("expected a rename"),
    }
    round_trip(Op::RenameItem { id: 4, name: "Blue".to_string() }, same_names);
}

#[test]
fn layer_ops_round_trip() {
    round_trip(Op::AddLayer { comp: 1, index: 0, layer: Box::new(layer(12, "solid", LayerKind::Solid { def: 4 })) }, same_names);
    round_trip(Op::RemoveLayer { comp: 1, layer: 11 }, same_names);
    round_trip(
        Op::SetLayerSpan { comp: 1, layer: 11, in_point: secs(1), out_point: secs(3), start_offset: secs(1) },
        same_names,
    );
    round_trip(Op::RenameLayer { comp: 1, layer: 11, name: "title".to_string() }, same_names);
    round_trip(Op::SetLayerBlend { comp: 1, layer: 11, blend: BlendMode::Screen }, same_names);
    round_trip(
        Op::SetLayerMatte { comp: 1, layer: 11, matte: Some(MatteRef { layer: 11, channel: MatteChannel::Luma, inverted: true }) },
        same_names,
    );
    round_trip(Op::SetWorkArea { comp: 1, work_area: Some((secs(2), secs(5))) }, same_names);
}

#[test]
fn transform_property_is_replaced_and_restored() {
    let mut d = doc();
    let inv = apply(
        &mut d,
        &Op::SetTransformProperty { comp: 1, layer: 11, prop: TransformProp::Opacity, animation: Animation::Static(0) },
    )
    .unwrap();
    assert!(matches!(comp_of(&d).layers[0].transform.opacity.animation, Animation::Static(0)));
    apply(&mut d, &inv).unwrap();
    // Back to the default 100 %.
    assert!(matches!(comp_of(&d).layers[0].transform.opacity.animation, Animation::Static(0x4059_0000_0000_0000)));
    assert!(!Property::fixed(5).is_animated());
}

#[test]
fn text_document_is_replaced_and_restored() {
    let mut d = doc();
    let newdoc = TextDocument { text: "bye".to_string(), size: 1, fill: LinearColour::black() };
    let inv = apply(&mut d, &Op::SetTextDocument { comp: 1, layer: 11, document: newdoc }).unwrap();
    match &comp_of(&d).layers[0].kind {
        LayerKind::Text { document } => assert_eq!(document.text, "bye"),
        _ => panic!("expected text"),
    }
    apply(&mut d, &inv).unwrap();
    match &comp_of(&d).layers[0].kind {
        LayerKind::Text { document } => assert_eq!(document.text, "hi"),
        _ => panic!("expected text"),
    }
}

#[test]
fn every_error_leaves_the_document_alone() {
    let mut d = doc();
    let item = ProjectItem::Folder(Folder { id: 9, name: "New".to_string(), children: vec![] });
    assert_eq!(apply(&mut d, &Op::AddItem { index: 9, item: Box::new(item) }).unwrap_err(), OpError::BadIndex);
    assert_eq!(apply(&mut d, &Op::RemoveItem { id: 99 }).unwrap_err(), OpError::UnknownItem);
    assert_eq!(apply(&mut d, &Op::RenameItem { id: 99, name: "x".to_string() }).unwrap_err(), OpError::UnknownItem);
    assert_eq!(apply(&mut d, &Op::RemoveLayer { comp: 2, layer: 11 }).unwrap_err(), OpError::UnknownComp);
    assert_eq!(apply(&mut d, &Op::RemoveLayer { comp: 1, layer: 99 }).unwrap_err(), OpError::UnknownLayer);
    let bad = Layer { out_point: secs(0), ..layer(13, "bad", LayerKind::Solid { def: 4 }) };
    assert_eq!(apply(&mut d, &Op::AddLayer { comp: 1, index: 0, layer: Box::new(bad) }).unwrap_err(), OpError::InvalidSpan);
    let ok = layer(14, "ok", LayerKind::Solid { def: 4 });
    assert_eq!(apply(&mut d, &Op::AddLayer { comp: 1, index: 5, layer: Box::new(ok) }).unwrap_err(), OpError::BadIndex);
    assert_eq!(
        apply(&mut d, &Op::SetLayerSpan { comp: 1, layer: 11, in_point: secs(3), out_point: secs(3), start_offset: secs(0) })
            .unwrap_err(),
        OpError::InvalidSpan
    );
    assert_eq!(apply(&mut d, &Op::SetWorkArea { comp: 1, work_area: Some((secs(5), secs(2))) }).unwrap_err(), OpError::InvalidSpan);
    let mut d2 = doc();
    apply(&mut d2, &Op::AddLayer { comp: 1, index: 0, layer: Box::new(layer(12, "solid", LayerKind::Solid { def: 4 })) }).unwrap();
    let newdoc = TextDocument { text: "bye".to_string(), size: 1, fill: LinearColour::black() };
    assert_eq!(apply(&mut d2, &Op::SetTextDocument { comp: 1, layer: 12, document: newdoc }).unwrap_err(), OpError::UnknownLayer);
    same_names(&d, &doc());
}

#[test]
fn documents_query_their_items() {
    let d = doc();
    assert_eq!(d.root_items(), vec![1, 2, 3]);
    assert!(d.comp(1).is_some());
    assert!(d.comp(2).is_none());
    assert_eq!(d.solid(4).unwrap().width, 100);
    assert_eq!(d.folder(3).unwrap().children, vec![4]);
    assert!(d.item(5).is_none());
    // A fresh document id is a version 7 UUID.
    assert_eq!((Document::new().id >> 76) & 0xf, 7);
    assert_ne!(Document::new().id, Document::new().id);
}

#[test]
fn camera_layers_carry_their_zoom() {
    let cam = layer(20, "cam", LayerKind::Camera { zoom: Property::fixed(0x4092_C000_0000_0000) });
    let copy = cam.clone();
    match copy.kind {
        LayerKind::Camera { zoom } => assert!(matches!(zoom.animation, Animation::Static(0x4092_C000_0000_0000))),
        _ => panic!("expected a camera"),
    }
}

#[test]
fn replaying_a_journal_stops_at_the_first_op_that_fails() {
    let mut d = doc();
    let journal = vec![
        Op::RenameItem { id: 2, name: "renamed".to_string() },
        Op::RemoveItem { id: 99 },
        Op::RenameItem { id: 4, name: "never".to_string() },
    ];
    assert_eq!(replay(&mut d, &journal), 1);
    assert_eq!(d.item(2).unwrap().name(), "renamed");
    assert_eq!(d.item(4).unwrap().name(), "Red");
    // A journal that applies whole replays every op, and ops clone equal.
    let all = vec![journal[0].clone(), Op::RenameItem { id: 4, name: "Blue".to_string() }];
    assert_eq!(all[0], journal[0]);
    assert_eq!(replay(&mut d, &all), 2);
    assert_eq!(d.item(4).unwrap().name(), "Blue");
}
