//! The document model: projects, folders, footage items, solids,
//! compositions and their layers. Ids are the 128-bit values of the
//! project's UUIDs; colours and float-valued settings are carried as IEEE-754
//! bit patterns. All mutation goes through the operations in `ops`; this
//! module is data and queries.

use crate::anim::{AnimationView, Property};
use crate::markers::{Marker, MarkerView};
use crate::retime::{Retime, RetimeView};
use crate::time::{CompTime, Duration, FrameRate};
use vstd::prelude::*;

verus! {

/// Linear-light RGBA, each channel an `f32` bit pattern.
#[derive(Debug, Clone, Copy, PartialEq, Eq)]
pub struct LinearColour(pub [u32; 4]);

impl LinearColour {
    /// Opaque black.
    pub fn black() -> (r: LinearColour)
        ensures
            r == LinearColour([0u32, 0u32, 0u32, 0x3F80_0000u32]),
    {
        LinearColour([0, 0, 0, 0x3F80_0000])
    }
}

/// A media reference: where the footage file lives.
#[derive(Debug, PartialEq)]
pub struct MediaRef {
    pub relative_path: String,
    pub absolute_path: String,
}

/// What a media reference holds.
pub struct MediaRefView {
    pub relative_path: Seq<char>,
    pub absolute_path: Seq<char>,
}

impl View for MediaRef {
    type V = MediaRefView;

    open spec fn view(&self) -> MediaRefView {
        MediaRefView { relative_path: self.relative_path@, absolute_path: self.absolute_path@ }
    }
}

impl Clone for MediaRef {
    fn clone(&self) -> (r: Self)
        ensures
            r@ == self@,
    {
        MediaRef { relative_path: self.relative_path.clone(), absolute_path: self.absolute_path.clone() }
    }
}

/// A footage item of the project.
#[derive(Debug, PartialEq)]
pub struct FootageItem {
    pub id: u128,
    pub name: String,
    pub media: MediaRef,
}

/// What a footage item holds.
pub struct FootageView {
    pub id: u128,
    pub name: Seq<char>,
    pub media: MediaRefView,
}

impl View for FootageItem {
    type V = FootageView;

    open spec fn view(&self) -> FootageView {
        FootageView { id: self.id, name: self.name@, media: self.media@ }
    }
}

impl Clone for FootageItem {
    fn clone(&self) -> (r: Self)
        ensures
            r@ == self@,
    {
        FootageItem { id: self.id, name: self.name.clone(), media: self.media.clone() }
    }
}

/// A shared solid definition: many layers can reference one colour and size.
#[derive(Debug, PartialEq)]
pub struct SolidDef {
    pub id: u128,
    pub name: String,
    pub colour: LinearColour,
    pub width: u32,
    pub height: u32,
}

/// What a solid definition holds.
pub struct SolidView {
    pub id: u128,
    pub name: Seq<char>,
    pub colour: LinearColour,
    pub width: u32,
    pub height: u32,
}

impl View for SolidDef {
    type V = SolidView;

    open spec fn view(&self) -> SolidView {
        SolidView { id: self.id, name: self.name@, colour: self.colour, width: self.width, height: self.height }
    }
}

impl Clone for SolidDef {
    fn clone(&self) -> (r: Self)
        ensures
            r@ == self@,
    {
        SolidDef { id: self.id, name: self.name.clone(), colour: self.colour, width: self.width, height: self.height }
    }
}

/// A project folder with its ordered children ids.
#[derive(Debug, PartialEq)]
pub struct Folder {
    pub id: u128,
    pub name: String,
    pub children: Vec<u128>,
}

/// What a folder holds.
pub struct FolderView {
    pub id: u128,
    pub name: Seq<char>,
    pub children: Seq<u128>,
}

impl View for Folder {
    type V = FolderView;

    open spec fn view(&self) -> FolderView {
        FolderView { id: self.id, name: self.name@, children: self.children@ }
    }
}

impl Clone for Folder {
    fn clone(&self) -> (r: Self)
        ensures
            r@ == self@,
    {
        Folder { id: self.id, name: self.name.clone(), children: crate::anim::copy_vec(&self.children) }
    }
}

/// Which transform property an operation addresses.
#[derive(Debug, Clone, Copy, PartialEq, Eq, Structural)]
pub enum TransformProp {
    AnchorX,
    AnchorY,
    PositionX,
    PositionY,
    PositionZ,
    ScaleX,
    ScaleY,
    Rotation,
    RotationX,
    RotationY,
    Opacity,
}

/// A layer transform: separated scalar dimensions, each an animatable
/// property. Scales and opacity are percentages; rotations are degrees.
#[derive(Debug, PartialEq)]
pub struct TransformGroup {
    pub anchor_x: Property,
    pub anchor_y: Property,
    pub position_x: Property,
    pub position_y: Property,
    pub scale_x: Property,
    pub scale_y: Property,
    pub rotation: Property,
    pub position_z: Property,
    pub rotation_x: Property,
    pub rotation_y: Property,
    pub opacity: Property,
}

/// What a transform group holds.
pub struct TransformView {
    pub anchor_x: AnimationView,
    pub anchor_y: AnimationView,
    pub position_x: AnimationView,
    pub position_y: AnimationView,
    pub scale_x: AnimationView,
    pub scale_y: AnimationView,
    pub rotation: AnimationView,
    pub position_z: AnimationView,
    pub rotation_x: AnimationView,
    pub rotation_y: AnimationView,
    pub opacity: AnimationView,
}

impl View for TransformGroup {
    type V = TransformView;

    open spec fn view(&self) -> TransformView {
        TransformView {
            anchor_x: self.anchor_x@,
            anchor_y: self.anchor_y@,
            position_x: self.position_x@,
            position_y: self.position_y@,
            scale_x: self.scale_x@,
            scale_y: self.scale_y@,
            rotation: self.rotation@,
            position_z: self.position_z@,
            rotation_x: self.rotation_x@,
            rotation_y: self.rotation_y@,
            opacity: self.opacity@,
        }
    }
}

impl Clone for TransformGroup {
    fn clone(&self) -> (r: Self)
        ensures
            r@ == self@,
    {
        TransformGroup {
            anchor_x: self.anchor_x.clone(),
            anchor_y: self.anchor_y.clone(),
            position_x: self.position_x.clone(),
            position_y: self.position_y.clone(),
            scale_x: self.scale_x.clone(),
            scale_y: self.scale_y.clone(),
            rotation: self.rotation.clone(),
            position_z: self.position_z.clone(),
            rotation_x: self.rotation_x.clone(),
            rotation_y: self.rotation_y.clone(),
            opacity: self.opacity.clone(),
        }
    }
}

/// Bit pattern of the `f64` value 100.0.
pub const HUNDRED_BITS: u64 = 0x4059_0000_0000_0000;

/// The animation of property `p` in a transform.
pub open spec fn prop_of(t: TransformView, p: TransformProp) -> AnimationView {
    match p {
        TransformProp::AnchorX => t.anchor_x,
        TransformProp::AnchorY => t.anchor_y,
        TransformProp::PositionX => t.position_x,
        TransformProp::PositionY => t.position_y,
        TransformProp::PositionZ => t.position_z,
        TransformProp::ScaleX => t.scale_x,
        TransformProp::ScaleY => t.scale_y,
        TransformProp::Rotation => t.rotation,
        TransformProp::RotationX => t.rotation_x,
        TransformProp::RotationY => t.rotation_y,
        TransformProp::Opacity => t.opacity,
    }
}

/// A transform with property `p` replaced by `a`.
pub open spec fn with_prop(t: TransformView, p: TransformProp, a: AnimationView) -> TransformView {
    match p {
        TransformProp::AnchorX => TransformView { anchor_x: a, ..t },
        TransformProp::AnchorY => TransformView { anchor_y: a, ..t },
        TransformProp::PositionX => TransformView { position_x: a, ..t },
        TransformProp::PositionY => TransformView { position_y: a, ..t },
        TransformProp::PositionZ => TransformView { position_z: a, ..t },
        TransformProp::ScaleX => TransformView { scale_x: a, ..t },
        TransformProp::ScaleY => TransformView { scale_y: a, ..t },
        TransformProp::Rotation => TransformView { rotation: a, ..t },
        TransformProp::RotationX => TransformView { rotation_x: a, ..t },
        TransformProp::RotationY => TransformView { rotation_y: a, ..t },
        TransformProp::Opacity => TransformView { opacity: a, ..t },
    }
}

/// The identity transform: no offset or rotation, 100% scale and opacity.
pub open spec fn default_transform() -> TransformView {
    TransformView {
        anchor_x: AnimationView::Static(0),
        anchor_y: AnimationView::Static(0),
        position_x: AnimationView::Static(0),
        position_y: AnimationView::Static(0),
        scale_x: AnimationView::Static(HUNDRED_BITS),
        scale_y: AnimationView::Static(HUNDRED_BITS),
        rotation: AnimationView::Static(0),
        position_z: AnimationView::Static(0),
        rotation_x: AnimationView::Static(0),
        rotation_y: AnimationView::Static(0),
        opacity: AnimationView::Static(HUNDRED_BITS),
    }
}

impl Default for TransformGroup {
    fn default() -> (r: Self)
        ensures
            r@ == default_transform(),
    {
        TransformGroup {
            anchor_x: Property::fixed(0),
            anchor_y: Property::fixed(0),
            position_x: Property::fixed(0),
            position_y: Property::fixed(0),
            scale_x: Property::fixed(HUNDRED_BITS),
            scale_y: Property::fixed(HUNDRED_BITS),
            rotation: Property::fixed(0),
            position_z: Property::fixed(0),
            rotation_x: Property::fixed(0),
            rotation_y: Property::fixed(0),
            opacity: Property::fixed(HUNDRED_BITS),
        }
    }
}

impl TransformGroup {
    /// The property `prop` addresses.
    pub fn get(&self, prop: TransformProp) -> (r: &Property)
        ensures
            r@ == prop_of(self@, prop),
    {
        match prop {
            TransformProp::AnchorX => &self.anchor_x,
            TransformProp::AnchorY => &self.anchor_y,
            TransformProp::PositionX => &self.position_x,
            TransformProp::PositionY => &self.position_y,
            TransformProp::ScaleX => &self.scale_x,
            TransformProp::ScaleY => &self.scale_y,
            TransformProp::Rotation => &self.rotation,
            TransformProp::PositionZ => &self.position_z,
            TransformProp::RotationX => &self.rotation_x,
            TransformProp::RotationY => &self.rotation_y,
            TransformProp::Opacity => &self.opacity,
        }
    }

    /// Mutable access to the property `prop` addresses.
    pub fn get_mut(&mut self, prop: TransformProp) -> (r: &mut Property)
        ensures
            (*r)@ == prop_of(old(self)@, prop),
            final(self)@ == with_prop(old(self)@, prop, (*final(r))@),
    {
        match prop {
            TransformProp::AnchorX => &mut self.anchor_x,
            TransformProp::AnchorY => &mut self.anchor_y,
            TransformProp::PositionX => &mut self.position_x,
            TransformProp::PositionY => &mut self.position_y,
            TransformProp::ScaleX => &mut self.scale_x,
            TransformProp::ScaleY => &mut self.scale_y,
            TransformProp::Rotation => &mut self.rotation,
            TransformProp::PositionZ => &mut self.position_z,
            TransformProp::RotationX => &mut self.rotation_x,
            TransformProp::RotationY => &mut self.rotation_y,
            TransformProp::Opacity => &mut self.opacity,
        }
    }
}

/// Which channel of the matte layer gates this layer.
#[derive(Debug, Clone, Copy, PartialEq, Eq, Structural)]
pub enum MatteChannel {
    Alpha,
    Luma,
}

/// Using another layer's alpha or luma to gate this layer.
#[derive(Debug, Clone, Copy, PartialEq, Eq, Structural)]
pub struct MatteRef {
    pub layer: u128,
    pub channel: MatteChannel,
    pub inverted: bool,
}

/// A layer's switches.
#[derive(Debug, Clone, Copy, PartialEq, Eq, Structural)]
pub struct Switches {
    pub visible: bool,
    pub audible: bool,
    pub locked: bool,
    /// 2.5D: this layer positions in z and honours the active camera.
    pub three_d: bool,
}

impl Default for Switches {
    fn default() -> (r: Self)
        ensures
            r == (Switches { visible: true, audible: true, locked: false, three_d: false }),
    {
        Switches { visible: true, audible: true, locked: false, three_d: false }
    }
}

/// Per-layer composite operator.
#[derive(Debug, Clone, Copy, PartialEq, Eq, Structural)]
pub enum BlendMode {
    Normal,
    Add,
    Multiply,
    Screen,
    Overlay,
    SoftLight,
    HardLight,
    Lighten,
    Darken,
}

impl Default for BlendMode {
    fn default() -> (r: Self)
        ensures
            r == BlendMode::Normal,
    {
        BlendMode::Normal
    }
}

/// Editable text: one run, a pixel size at natural scale (`f64` bit
/// pattern) and a fill colour.
#[derive(Debug, PartialEq)]
pub struct TextDocument {
    pub text: String,
    pub size: u64,
    pub fill: LinearColour,
}

/// What a text document holds.
pub struct TextView {
    pub text: Seq<char>,
    pub size: u64,
    pub fill: LinearColour,
}

impl View for TextDocument {
    type V = TextView;

    open spec fn view(&self) -> TextView {
        TextView { text: self.text@, size: self.size, fill: self.fill }
    }
}

impl Clone for TextDocument {
    fn clone(&self) -> (r: Self)
        ensures
            r@ == self@,
    {
        TextDocument { text: self.text.clone(), size: self.size, fill: self.fill }
    }
}

/// What a layer draws.
#[derive(Debug, PartialEq)]
pub enum LayerKind {
    /// A footage item, optionally retimed (local time → source time).
    Footage { item: u128, retime: Option<Retime> },
    /// A solid definition as the source.
    Solid { def: u128 },
    /// Another composition as the source.
    Precomp { comp: u128 },
    /// Editable styled text.
    Text { document: TextDocument },
    /// A 3D viewpoint; `zoom` is the focal distance in comp pixels.
    Camera { zoom: Property },
}

/// What a layer kind holds.
pub enum LayerKindView {
    Footage { item: u128, retime: Option<RetimeView> },
    Solid { def: u128 },
    Precomp { comp: u128 },
    Text { document: TextView },
    Camera { zoom: AnimationView },
}

impl View for LayerKind {
    type V = LayerKindView;

    open spec fn view(&self) -> LayerKindView {
        match self {
            LayerKind::Footage { item, retime } => LayerKindView::Footage {
                item: *item,
                retime: match retime {
                    Some(r) => Some(r@),
                    None => None,
                },
            },
            LayerKind::Solid { def } => LayerKindView::Solid { def: *def },
            LayerKind::Precomp { comp } => LayerKindView::Precomp { comp: *comp },
            LayerKind::Text { document } => LayerKindView::Text { document: document@ },
            LayerKind::Camera { zoom } => LayerKindView::Camera { zoom: zoom@ },
        }
    }
}

impl Clone for LayerKind {
    fn clone(&self) -> (r: Self)
        ensures
            r@ == self@,
    {
        match self {
            LayerKind::Footage { item, retime } => LayerKind::Footage {
                item: *item,
                retime: match retime {
                    Some(x) => Some(x.clone()),
                    None => None,
                },
            },
            LayerKind::Solid { def } => LayerKind::Solid { def: *def },
            LayerKind::Precomp { comp } => LayerKind::Precomp { comp: *comp },
            LayerKind::Text { document } => LayerKind::Text { document: document.clone() },
            LayerKind::Camera { zoom } => LayerKind::Camera { zoom: zoom.clone() },
        }
    }
}

/// A layer of a composition.
#[derive(Debug, PartialEq)]
pub struct Layer {
    pub id: u128,
    pub name: String,
    pub kind: LayerKind,
    pub in_point: CompTime,
    /// Exclusive; must be after `in_point`.
    pub out_point: CompTime,
    /// Where layer time 0 sits on the comp timeline.
    pub start_offset: CompTime,
    pub transform: TransformGroup,
    /// A missing or deleted target degrades to "no matte", never an error.
    pub matte: Option<MatteRef>,
    pub blend: BlendMode,
    pub switches: Switches,
}

/// What a layer holds.
pub struct LayerView {
    pub id: u128,
    pub name: Seq<char>,
    pub kind: LayerKindView,
    pub in_point: CompTime,
    pub out_point: CompTime,
    pub start_offset: CompTime,
    pub transform: TransformView,
    pub matte: Option<MatteRef>,
    pub blend: BlendMode,
    pub switches: Switches,
}

impl View for Layer {
    type V = LayerView;

    open spec fn view(&self) -> LayerView {
        LayerView {
            id: self.id,
            name: self.name@,
            kind: self.kind@,
            in_point: self.in_point,
            out_point: self.out_point,
            start_offset: self.start_offset,
            transform: self.transform@,
            matte: self.matte,
            blend: self.blend,
            switches: self.switches,
        }
    }
}

impl Clone for Layer {
    fn clone(&self) -> (r: Self)
        ensures
            r@ == self@,
    {
        Layer {
            id: self.id,
            name: self.name.clone(),
            kind: self.kind.clone(),
            in_point: self.in_point,
            out_point: self.out_point,
            start_offset: self.start_offset,
            transform: self.transform.clone(),
            matte: self.matte,
            blend: self.blend,
            switches: self.switches,
        }
    }
}

/// The views of a layer list.
pub open spec fn layer_views(s: Seq<Layer>) -> Seq<LayerView> {
    s.map_values(|l: Layer| l@)
}

/// A composition: size, rate, duration, layers (index 0 = top of the
/// stack) and timeline markers.
#[derive(Debug, PartialEq)]
pub struct Composition {
    pub id: u128,
    pub name: String,
    pub width: u32,
    pub height: u32,
    pub frame_rate: FrameRate,
    pub duration: Duration,
    pub background: LinearColour,
    /// Preview and export span; None = the full comp.
    pub work_area: Option<(CompTime, CompTime)>,
    pub layers: Vec<Layer>,
    pub markers: Vec<Marker>,
}

/// What a composition holds.
pub struct CompView {
    pub id: u128,
    pub name: Seq<char>,
    pub width: u32,
    pub height: u32,
    pub frame_rate: FrameRate,
    pub duration: Duration,
    pub background: LinearColour,
    pub work_area: Option<(CompTime, CompTime)>,
    pub layers: Seq<LayerView>,
    pub markers: Seq<MarkerView>,
}

impl View for Composition {
    type V = CompView;

    open spec fn view(&self) -> CompView {
        CompView {
            id: self.id,
            name: self.name@,
            width: self.width,
            height: self.height,
            frame_rate: self.frame_rate,
            duration: self.duration,
            background: self.background,
            work_area: self.work_area,
            layers: layer_views(self.layers@),
            markers: crate::markers::marker_views(self.markers@),
        }
    }
}

/// A copy of a layer list.
fn clone_layers(v: &Vec<Layer>) -> (r: Vec<Layer>)
    ensures
        layer_views(r@) == layer_views(v@),
{
    let mut r: Vec<Layer> = Vec::new();
    for i in 0..v.len()
        invariant
            layer_views(r@) == layer_views(v@.subrange(0, i as int)),
    {
        let c = v[i].clone();
        let ghost before = r@;
        assert(layer_views(before).len() == before.len());
        r.push(c);
        assert(layer_views(r@) =~= layer_views(v@.subrange(0, i + 1))) by {
            assert forall|k: int| 0 <= k < r@.len() implies #[trigger] layer_views(r@)[k] == layer_views(
                v@.subrange(0, i + 1),
            )[k] by {
                if k < before.len() {
                    assert(layer_views(before)[k] == layer_views(r@)[k]);
                    assert(layer_views(v@.subrange(0, i as int))[k] == layer_views(v@.subrange(0, i + 1))[k]);
                } else {
                    assert(r@[k] == c);
                }
            }
        }
    }
    assert(v@.subrange(0, v@.len() as int) =~= v@);
    r
}

/// A copy of a marker list.
fn clone_markers(v: &Vec<Marker>) -> (r: Vec<Marker>)
    ensures
        crate::markers::marker_views(r@) == crate::markers::marker_views(v@),
{
    let mut r: Vec<Marker> = Vec::new();
    for i in 0..v.len()
        invariant
            crate::markers::marker_views(r@) == crate::markers::marker_views(v@.subrange(0, i as int)),
    {
        let c = v[i].clone();
        let ghost before = r@;
        assert(crate::markers::marker_views(before).len() == before.len());
        r.push(c);
        assert(crate::markers::marker_views(r@) =~= crate::markers::marker_views(v@.subrange(0, i + 1))) by {
            assert forall|k: int| 0 <= k < r@.len() implies #[trigger] crate::markers::marker_views(r@)[k]
                == crate::markers::marker_views(v@.subrange(0, i + 1))[k] by {
                if k < before.len() {
                    assert(crate::markers::marker_views(before)[k] == crate::markers::marker_views(r@)[k]);
                    assert(crate::markers::marker_views(v@.subrange(0, i as int))[k]
                        == crate::markers::marker_views(v@.subrange(0, i + 1))[k]);
                } else {
                    assert(r@[k] == c);
                }
            }
        }
    }
    assert(v@.subrange(0, v@.len() as int) =~= v@);
    r
}

impl Clone for Composition {
    fn clone(&self) -> (r: Self)
        ensures
            r@ == self@,
    {
        Composition {
            id: self.id,
            name: self.name.clone(),
            width: self.width,
            height: self.height,
            frame_rate: self.frame_rate,
            duration: self.duration,
            background: self.background,
            work_area: self.work_area,
            layers: clone_layers(&self.layers),
            markers: clone_markers(&self.markers),
        }
    }
}

/// An entry of the Project panel.
#[derive(Debug, PartialEq)]
pub enum ProjectItem {
    Footage(FootageItem),
    Folder(Folder),
    Composition(Composition),
    Solid(SolidDef),
}

/// What a project item holds.
pub enum ItemView {
    Footage(FootageView),
    Folder(FolderView),
    Composition(CompView),
    Solid(SolidView),
}

impl View for ProjectItem {
    type V = ItemView;

    open spec fn view(&self) -> ItemView {
        match self {
            ProjectItem::Footage(f) => ItemView::Footage(f@),
            ProjectItem::Folder(f) => ItemView::Folder(f@),
            ProjectItem::Composition(c) => ItemView::Composition(c@),
            ProjectItem::Solid(x) => ItemView::Solid(x@),
        }
    }
}

impl Clone for ProjectItem {
    fn clone(&self) -> (r: Self)
        ensures
            r@ == self@,
    {
        match self {
            ProjectItem::Footage(f) => ProjectItem::Footage(f.clone()),
            ProjectItem::Folder(f) => ProjectItem::Folder(f.clone()),
            ProjectItem::Composition(c) => ProjectItem::Composition(c.clone()),
            ProjectItem::Solid(x) => ProjectItem::Solid(x.clone()),
        }
    }
}

/// An item's id.
pub open spec fn item_id(it: ItemView) -> u128 {
    match it {
        ItemView::Footage(f) => f.id,
        ItemView::Folder(f) => f.id,
        ItemView::Composition(c) => c.id,
        ItemView::Solid(x) => x.id,
    }
}

/// An item's name.
pub open spec fn item_name(it: ItemView) -> Seq<char> {
    match it {
        ItemView::Footage(f) => f.name,
        ItemView::Folder(f) => f.name,
        ItemView::Composition(c) => c.name,
        ItemView::Solid(x) => x.name,
    }
}

/// An item renamed to `name`, everything else unchanged.
pub open spec fn with_name(it: ItemView, name: Seq<char>) -> ItemView {
    match it {
        ItemView::Footage(f) => ItemView::Footage(FootageView { name, ..f }),
        ItemView::Folder(f) => ItemView::Folder(FolderView { name, ..f }),
        ItemView::Composition(c) => ItemView::Composition(CompView { name, ..c }),
        ItemView::Solid(x) => ItemView::Solid(SolidView { name, ..x }),
    }
}

impl ProjectItem {
    /// The item's id.
    pub fn id(&self) -> (r: u128)
        ensures
            r == item_id(self@),
    {
        match self {
            ProjectItem::Footage(f) => f.id,
            ProjectItem::Folder(f) => f.id,
            ProjectItem::Composition(c) => c.id,
            ProjectItem::Solid(x) => x.id,
        }
    }

    /// The item's name.
    pub fn name(&self) -> (r: &str)
        ensures
            r@ == item_name(self@),
    {
        match self {
            ProjectItem::Footage(f) => f.name.as_str(),
            ProjectItem::Folder(f) => f.name.as_str(),
            ProjectItem::Composition(c) => c.name.as_str(),
            ProjectItem::Solid(x) => x.name.as_str(),
        }
    }

    /// Rename the item, leaving everything else as it was.
    pub fn set_name(&mut self, name: String)
        ensures
            final(self)@ == with_name(old(self)@, name@),
    {
        match self {
            ProjectItem::Footage(f) => f.name = name,
            ProjectItem::Folder(f) => f.name = name,
            ProjectItem::Composition(c) => c.name = name,
            ProjectItem::Solid(x) => x.name = name,
        }
    }
}

/// The folders new solids and compositions are filed into automatically.
#[derive(Debug, Clone, Copy, PartialEq, Eq, Structural)]
pub struct AutoFolders {
    pub solids: Option<u128>,
    pub compositions: Option<u128>,
}

impl Default for AutoFolders {
    fn default() -> (r: Self)
        ensures
            r == (AutoFolders { solids: None, compositions: None }),
    {
        AutoFolders { solids: None, compositions: None }
    }
}

/// The whole editable document.
#[derive(Debug, PartialEq)]
pub struct Document {
    pub id: u128,
    /// Flat item storage; Project panel order is this order, folders
    /// reference their children by id.
    pub items: Vec<ProjectItem>,
    pub auto_folders: AutoFolders,
}

/// What a document holds.
pub struct DocView {
    pub id: u128,
    pub items: Seq<ItemView>,
    pub auto_folders: AutoFolders,
}

/// The views of an item list.
pub open spec fn item_views(s: Seq<ProjectItem>) -> Seq<ItemView> {
    s.map_values(|i: ProjectItem| i@)
}

impl View for Document {
    type V = DocView;

    open spec fn view(&self) -> DocView {
        DocView { id: self.id, items: item_views(self.items@), auto_folders: self.auto_folders }
    }
}

/// The first index from `k` on whose item has id `id`.
pub open spec fn first_item_from(items: Seq<ItemView>, id: u128, k: int) -> Option<int>
    decreases items.len() - k,
{
    if k < 0 || k >= items.len() {
        None
    } else if item_id(items[k]) == id {
        Some(k)
    } else {
        first_item_from(items, id, k + 1)
    }
}

/// The first index whose item has id `id`.
pub open spec fn first_item(items: Seq<ItemView>, id: u128) -> Option<int> {
    first_item_from(items, id, 0)
}

/// The index of the first item with id `id` when that item is a composition.
pub open spec fn comp_index(items: Seq<ItemView>, id: u128) -> Option<int> {
    match first_item(items, id) {
        Some(i) => if items[i] is Composition {
            Some(i)
        } else {
            None
        },
        None => None,
    }
}

/// Some folder of `items` lists `id` among its children.
pub open spec fn in_some_folder(items: Seq<ItemView>, id: u128) -> bool {
    exists|k: int| 0 <= k < items.len() && #[trigger] items[k] is Folder && items[k]->Folder_0.children.contains(id)
}

/// The ids at the Project panel root, in order: every item not listed as a
/// folder's child.
pub open spec fn root_ids(items: Seq<ItemView>) -> Seq<u128> {
    items.map_values(|it: ItemView| item_id(it)).filter(|id: u128| !in_some_folder(items, id))
}

/// A fresh version 7 UUID from the current time and randomness, as its
/// 128-bit big-endian value.
///
/// Calls `uuid::Uuid::now_v7` and `Uuid::as_u128`. Claimed: the version
/// nibble reads 7 and the variant bits read `10`, as the crate's v7
/// encoding writes them; the rest depends on the clock and the random source
/// and is left unsaid.
#[verifier::external_body]
fn new_v7_id() -> (r: u128)
    ensures
        (r >> 76u128) & 0xfu128 == 7,
        (r >> 62u128) & 0x3u128 == 2,
{
    uuid::Uuid::now_v7().as_u128()
}

impl Document {
    /// An empty document with a fresh id.
    pub fn new() -> (r: Document)
        ensures
            r@.items == Seq::<ItemView>::empty(),
            r@.auto_folders == (AutoFolders { solids: None, compositions: None }),
            (r@.id >> 76u128) & 0xfu128 == 7,
            (r@.id >> 62u128) & 0x3u128 == 2,
    {
        let items: Vec<ProjectItem> = Vec::new();
        assert(item_views(items@) =~= Seq::<ItemView>::empty());
        Document { id: new_v7_id(), items, auto_folders: AutoFolders::default() }
    }

    /// The position of the first item with id `id`.
    pub fn item_index(&self, id: u128) -> (r: Option<usize>)
        ensures
            match r {
                None => first_item(self@.items, id) is None,
                Some(i) => first_item(self@.items, id) == Some(i as int) && i < self.items@.len(),
            },
    {
        let n = self.items.len();
        let mut i: usize = 0;
        while i < n
            invariant
                n == self.items@.len(),
                i <= n,
                first_item(self@.items, id) == first_item_from(self@.items, id, i as int),
            decreases n - i,
        {
            if self.items[i].id() == id {
                return Some(i);
            }
            i = i + 1;
        }
        None
    }

    /// The first item with id `id`.
    pub fn item(&self, id: u128) -> (r: Option<&ProjectItem>)
        ensures
            match r {
                None => first_item(self@.items, id) is None,
                Some(x) => first_item(self@.items, id) matches Some(k) && x@ == self@.items[k],
            },
    {
        match self.item_index(id) {
            Some(i) => Some(&self.items[i]),
            None => None,
        }
    }

    /// The composition whose id is `id`, if the first item with that id is one.
    pub fn comp(&self, id: u128) -> (r: Option<&Composition>)
        ensures
            match r {
                None => comp_index(self@.items, id) is None,
                Some(c) => comp_index(self@.items, id) matches Some(k) && self@.items[k] == ItemView::Composition(c@),
            },
    {
        match self.item(id) {
            Some(ProjectItem::Composition(c)) => Some(c),
            _ => None,
        }
    }

    /// The solid whose id is `id`, if the first item with that id is one.
    pub fn solid(&self, id: u128) -> (r: Option<&SolidDef>)
        ensures
            match r {
                None => !(first_item(self@.items, id) matches Some(k) && self@.items[k] is Solid),
                Some(x) => first_item(self@.items, id) matches Some(k) && self@.items[k] == ItemView::Solid(x@),
            },
    {
        match self.item(id) {
            Some(ProjectItem::Solid(x)) => Some(x),
            _ => None,
        }
    }

    /// The folder whose id is `id`, if the first item with that id is one.
    pub fn folder(&self, id: u128) -> (r: Option<&Folder>)
        ensures
            match r {
                None => !(first_item(self@.items, id) matches Some(k) && self@.items[k] is Folder),
                Some(x) => first_item(self@.items, id) matches Some(k) && self@.items[k] == ItemView::Folder(x@),
            },
    {
        match self.item(id) {
            Some(ProjectItem::Folder(x)) => Some(x),
            _ => None,
        }
    }

    /// Ids that sit at the Project panel root, in item order: every item not
    /// listed as any folder's child (missing children are ignored).
    pub fn root_items(&self) -> (r: Vec<u128>)
        ensures
            r@ == root_ids(self@.items),
    {
        let ghost items = self@.items;
        let n = self.items.len();
        let mut in_folder: Vec<u128> = Vec::new();
        for i in 0..n
            invariant
                n == self.items@.len(),
                items == self@.items,
                forall|x: u128|
                    in_folder@.contains(x) <==> exists|k: int|
                        0 <= k < i && #[trigger] items[k] is Folder && items[k]->Folder_0.children.contains(x),
        {
            if let ProjectItem::Folder(f) = &self.items[i] {
                let ghost before = in_folder@;
                for j in 0..f.children.len()
                    invariant
                        items[i as int] == ItemView::Folder(f@),
                        forall|x: u128|
                            #![trigger in_folder@.contains(x)]
                            in_folder@.contains(x) <==> (before.contains(x) || f.children@.subrange(0, j as int).contains(x)),
                {
                    let ghost pre = in_folder@;
                    in_folder.push(f.children[j]);
                    proof {
                        broadcast use vstd::seq_lib::group_seq_properties;
                        let c = f.children@[j as int];
                        assert(f.children@.subrange(0, j + 1) =~= f.children@.subrange(0, j as int).push(c));
                        assert(in_folder@ == pre.push(c));
                        assert forall|x: u128|
                            in_folder@.contains(x) <==> (before.contains(x) || f.children@.subrange(0, j + 1).contains(x)) by {
                            assert(pre.push(c).contains(x) <==> (pre.contains(x) || x == c));
                            assert(pre.contains(x) <==> (before.contains(x) || f.children@.subrange(0, j as int).contains(x)));
                            assert(f.children@.subrange(0, j as int).push(c).contains(x) <==> (
                            f.children@.subrange(0, j as int).contains(x) || x == c));
                            assert(in_folder@.contains(x) == pre.push(c).contains(x));
                            assert(f.children@.subrange(0, j + 1).contains(x) == f.children@.subrange(0, j as int).push(c).contains(x));
                        }
                    }
                }
                assert(f.children@.subrange(0, f.children@.len() as int) =~= f.children@);
                assert forall|x: u128|
                    in_folder@.contains(x) <==> exists|k: int|
                        0 <= k < i + 1 && #[trigger] items[k] is Folder && items[k]->Folder_0.children.contains(x) by {
                    if in_folder@.contains(x) {
                        if before.contains(x) {
                            let k = choose|k: int| 0 <= k < i && #[trigger] items[k] is Folder && items[k]->Folder_0.children.contains(x);
                            assert(0 <= k < i + 1 && items[k] is Folder && items[k]->Folder_0.children.contains(x));
                        } else {
                            assert(items[i as int] is Folder && items[i as int]->Folder_0.children.contains(x));
                        }
                    }
                    if exists|k: int| 0 <= k < i + 1 && #[trigger] items[k] is Folder && items[k]->Folder_0.children.contains(x) {
                        let k = choose|k: int| 0 <= k < i + 1 && #[trigger] items[k] is Folder && items[k]->Folder_0.children.contains(x);
                        if k < i {
                            assert(before.contains(x));
                        } else {
                            assert(f.children@.contains(x));
                        }
                    }
                }
            } else {
                assert forall|x: u128|
                    in_folder@.contains(x) <==> exists|k: int|
                        0 <= k < i + 1 && #[trigger] items[k] is Folder && items[k]->Folder_0.children.contains(x) by {
                    if exists|k: int| 0 <= k < i + 1 && #[trigger] items[k] is Folder && items[k]->Folder_0.children.contains(x) {
                        let k = choose|k: int| 0 <= k < i + 1 && #[trigger] items[k] is Folder && items[k]->Folder_0.children.contains(x);
                        assert(k != i);
                    }
                }
            }
        }
        let ghost ids = items.map_values(|it: ItemView| item_id(it));
        let mut out: Vec<u128> = Vec::new();
        for i in 0..n
            invariant
                n == self.items@.len(),
                items == self@.items,
                ids == items.map_values(|it: ItemView| item_id(it)),
                forall|x: u128|
                    in_folder@.contains(x) <==> exists|k: int|
                        0 <= k < n && #[trigger] items[k] is Folder && items[k]->Folder_0.children.contains(x),
                out@ == ids.subrange(0, i as int).filter(|id: u128| !in_some_folder(items, id)),
        {
            let id = self.items[i].id();
            let mut found = false;
            for j in 0..in_folder.len()
                invariant
                    found <==> in_folder@.subrange(0, j as int).contains(id),
            {
                if in_folder[j] == id {
                    found = true;
                }
                proof {
                    broadcast use vstd::seq_lib::group_seq_properties;
                    assert(in_folder@.subrange(0, j + 1) =~= in_folder@.subrange(0, j as int).push(in_folder@[j as int]));
                }
            }
            assert(in_folder@.subrange(0, in_folder@.len() as int) =~= in_folder@);
            assert(found == in_some_folder(items, id));
            proof {
                reveal(Seq::filter);
                assert(ids.subrange(0, i + 1).drop_last() =~= ids.subrange(0, i as int));
                assert(ids.subrange(0, i + 1).last() == id);
            }
            if !found {
                out.push(id);
            }
        }
        assert(ids.subrange(0, n as int) =~= ids);
        out
    }
}

} // verus!
