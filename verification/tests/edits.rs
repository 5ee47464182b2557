use kiriko::edits::{footage_layer_op, new_composition_op};
use kiriko::model::{Document, FootageItem, LayerKind, MediaRef, ProjectItem};
use kiriko::ops::{apply, Op};
use kiriko::rational::rat;
use kiriko::time::CompTime;

fn footage(id: u128, name: &str) -> ProjectItem {
    ProjectItem::Footage(FootageItem {
        id,
        name: name.to_string(),
        media: MediaRef { relative_path: "a.mp4".to_string(), absolute_path: "/x/a.mp4".to_string() },
    })
}

#[test]
fn a_new_composition_is_numbered_and_appended() {
    let mut d = Document::new();
    d.items.push(footage(1, "clip"));
    let op = new_composition_op(&d, 7, 3).unwrap();
    match &op {
        Op::AddItem { index, item } => {
            assert_eq!(*index, 1);
            match item.as_ref() {
                ProjectItem::Composition(c) => {
                    assert_eq!(c.name, "Comp 3");
                    assert_eq!((c.width, c.height), (1920, 1080));
                    assert_eq!(c.frame_rate.0, rat(60, 1));
                    assert_eq!(c.duration.0, rat(30, 1));
                    assert!(c.layers.is_empty());
                },
                _ => panic!("expected a composition"),
            }
        },
        _ => panic!("expected an added item"),
    }
    apply(&mut d, &op).unwrap();
    assert!(d.comp(7).is_some());
}

#[test]
fn footage_lands_as_a_top_layer_of_the_shorter_length() {
    let mut d = Document::new();
    d.items.push(footage(1, "clip"));
    d.items.push(ProjectItem::Composition(match new_composition_op(&d, 7, 1).unwrap() {
        Op::AddItem { item, .. } => match *item {
            ProjectItem::Composition(c) => c,
            _ => unreachable!(),
        },
        _ => unreachable!(),
    }));
    let short = footage_layer_op(&d, 7, 1, 9, Some(rat(5, 1))).unwrap();
    match &short {
        Op::AddLayer { comp, index, layer } => {
            assert_eq!((*comp, *index), (7, 0));
            assert_eq!(layer.name, "clip");
            assert!(matches!(layer.kind, LayerKind::Footage { item: 1, retime: None }));
            assert_eq!(layer.out_point, CompTime(rat(5, 1)));
        },
        _ => panic!("expected an added layer"),
    }
    match footage_layer_op(&d, 7, 1, 9, Some(rat(40, 1))).unwrap() {
        Op::AddLayer { layer, .. } => assert_eq!(layer.out_point, CompTime(rat(30, 1))),
        _ => panic!("expected an added layer"),
    }
    match footage_layer_op(&d, 7, 1, 9, None).unwrap() {
        Op::AddLayer { layer, .. } => assert_eq!(layer.out_point, CompTime(rat(30, 1))),
        _ => panic!("expected an added layer"),
    }
    assert!(footage_layer_op(&d, 8, 1, 9, None).is_none());
    assert!(footage_layer_op(&d, 7, 7, 9, None).is_none());
}
