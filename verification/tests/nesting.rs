use kiriko::model::{
    BlendMode, Composition, Document, Layer, LayerKind, LinearColour, ProjectItem, Switches, TransformGroup,
};
use kiriko::nesting::{nest_precomp, would_cycle, NestError};
use kiriko::ops::{apply, Op};
use kiriko::rational::rat;
use kiriko::retime::{pinned_rate, Boundary, Ease, RetimeSegment};
use kiriko::time::{CompTime, Duration, FrameRate};

fn precomp_layer(id: u128, nested: u128) -> Layer {
    Layer {
        id,
        name: "nest".to_string(),
        kind: LayerKind::Precomp { comp: nested },
        in_point: CompTime(rat(0, 1)),
        out_point: CompTime(rat(1, 1)),
        start_offset: CompTime(rat(0, 1)),
        transform: TransformGroup::default(),
        matte: None,
        blend: BlendMode::Normal,
        switches: Switches::default(),
    }
}

fn comp(id: u128, nests: &[u128]) -> ProjectItem {
    ProjectItem::Composition(Composition {
        id,
        name: format!("c{id}"),
        width: 16,
        height: 16,
        frame_rate: FrameRate::new(24, 1).unwrap(),
        duration: Duration(rat(1, 1)),
        background: LinearColour::black(),
        work_area: None,
        layers: nests.iter().enumerate().map(|(i, n)| precomp_layer(100 * id + i as u128, *n)).collect(),
        markers: vec![],
    })
}

#[test]
fn nesting_that_would_loop_is_detected() {
    // 1 nests 2, 2 nests 3; 4 stands alone.
    let mut d = Document::new();
    d.items.push(comp(1, &[2]));
    d.items.push(comp(2, &[3]));
    d.items.push(comp(3, &[]));
    d.items.push(comp(4, &[]));
    // Putting 1 inside 3 would loop: 3 is reachable from 1.
    assert!(would_cycle(&d, 1, 3));
    // Putting 3 inside 1 is fine: 1 is not reachable from 3.
    assert!(!would_cycle(&d, 3, 1));
    // A comp inside itself always loops.
    assert!(would_cycle(&d, 4, 4));
    assert!(!would_cycle(&d, 4, 1));
    // A diamond with a shared child still terminates.
    let mut e = Document::new();
    e.items.push(comp(1, &[2, 3]));
    e.items.push(comp(2, &[3]));
    e.items.push(comp(3, &[9]));
    assert!(would_cycle(&e, 1, 9));
    assert!(!would_cycle(&e, 2, 1));
}

#[test]
fn a_fitted_rate_pins_the_span() {
    let lo = Boundary::new(rat(0, 1), rat(0, 1));
    let hi = Boundary::new(rat(2, 1), rat(3, 1));
    // Mean speed 3/2; from v0 = 1 with a Linear ease, v1 = 1 + (3/2 − 1)·2 = 2.
    let seg = pinned_rate(&lo, &hi, rat(1, 1), Ease::Linear).unwrap();
    assert_eq!((seg.v0, seg.v1), (rat(1, 1), rat(2, 1)));
    // Slow ease: v1 = 1 + (1/2)·3 = 5/2.
    let slow = pinned_rate(&lo, &hi, rat(1, 1), Ease::Slow).unwrap();
    assert_eq!(slow.v1, rat(5, 2));
    let mut r = kiriko::retime::Retime {
        boundaries: vec![lo, hi],
        segments: vec![RetimeSegment::Rate(slow)],
        allow_reverse: false,
        interpolation: kiriko::retime::Interpolation::Nearest,
    };
    r.recompute_boundaries().unwrap();
    assert_eq!(r.boundaries[1].s, rat(3, 1));
    // An empty span has no speed.
    assert!(pinned_rate(&lo, &lo, rat(1, 1), Ease::Linear).is_none());
}

#[test]
fn nesting_a_comp_adds_a_top_precomp_layer_of_the_shorter_length() {
    let mut d = Document::new();
    d.items.push(comp(1, &[2]));
    d.items.push(comp(2, &[]));
    d.items.push(comp(5, &[]));
    if let ProjectItem::Composition(c) = &mut d.items[2] {
        c.duration = Duration(rat(1, 2));
    }
    let op = nest_precomp(&d, 1, 5, 77).unwrap();
    match &op {
        Op::AddLayer { comp, index, layer } => {
            assert_eq!((*comp, *index), (1, 0));
            assert_eq!(layer.id, 77);
            assert_eq!(layer.name, "c5");
            assert!(matches!(layer.kind, LayerKind::Precomp { comp: 5 }));
            assert_eq!(layer.in_point, CompTime(rat(0, 1)));
            assert_eq!(layer.out_point, CompTime(rat(1, 2)));
        },
        _ => panic!("expected an added layer"),
    }
    apply(&mut d, &op).unwrap();
    // The guard keeps refusing what would now loop.
    assert_eq!(nest_precomp(&d, 5, 1, 78).err(), Some(NestError::WouldLoop));
}

#[test]
fn nesting_refuses_loops_and_unknown_comps() {
    let mut d = Document::new();
    d.items.push(comp(1, &[2]));
    d.items.push(comp(2, &[]));
    assert_eq!(nest_precomp(&d, 2, 1, 9).err(), Some(NestError::WouldLoop));
    assert_eq!(nest_precomp(&d, 1, 1, 9).err(), Some(NestError::WouldLoop));
    assert_eq!(nest_precomp(&d, 1, 3, 9).err(), Some(NestError::UnknownComp));
    assert_eq!(nest_precomp(&d, 3, 1, 9).err(), Some(NestError::UnknownComp));
}
