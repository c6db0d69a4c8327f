//! Composition layers: what the renderer is handed for one overlay.
//!
//! A layer names its swapchain by the overlay's handle and its space by a
//! tracking origin; whoever submits the frame resolves both.

use crate::float_bits::{
    is_positive, lt, FRAC_PI_2, NEG_FRAC_PI_2, NEG_HALF, ONE, TWO_PI, ZERO,
};
use crate::overlay::{Overlay, SKYBOX_Z_ORDER};
use crate::handle::slot_of;
use crate::slots::{in_slot_order, slot_order};
use crate::types::{OverlayKind, Pose, Quaternion, Rect2Di, TrackingOrigin, Vector3};
use vstd::prelude::*;

verus! {

/// The texture's alpha channel blends the layer, and its colours are not
/// premultiplied by it.
pub const LAYER_FLAGS: u64 = 0x6;

/// Which eye sees a layer.
#[derive(Clone, Copy, Debug, PartialEq, Eq, Structural)]
pub enum EyeVisibility {
    Both,
    Left,
    Right,
}

/// A colour; each channel a bit pattern.
#[derive(Clone, Copy, Debug, PartialEq, Eq, Structural)]
pub struct Color4 {
    pub r: u32,
    pub g: u32,
    pub b: u32,
    pub a: u32,
}

/// The blend-bias payload of a layer: each colour channel is multiplied by
/// the scale, then the bias is added.
#[derive(Clone, Copy, Debug, PartialEq, Eq, Structural)]
pub struct ColorScaleBias {
    pub color_scale: Color4,
    pub color_bias: Color4,
}

/// What all layer shapes share.
#[derive(Clone, Copy, Debug, PartialEq, Eq, Structural)]
pub struct LayerBase {
    /// The tracking origin whose space the pose is in.
    pub origin: TrackingOrigin,
    pub layer_flags: u64,
    pub eye_visibility: EyeVisibility,
    /// The handle of the overlay whose swapchain is shown.
    pub swapchain: u64,
    pub image_array_index: u32,
    pub image_rect: Rect2Di,
}

/// A flat rectangle of the given width; its height follows from the aspect
/// ratio of the image rectangle.
#[derive(Clone, Copy, Debug, PartialEq, Eq, Structural)]
pub struct QuadLayer {
    pub base: LayerBase,
    pub pose: Pose,
    pub width: u32,
}

/// A section of a cylinder: an overlay of the given width, bent by the
/// given curvature, anchored at the pose.
#[derive(Clone, Copy, Debug, PartialEq, Eq, Structural)]
pub struct CylinderLayer {
    pub base: LayerBase,
    pub pose: Pose,
    pub width: u32,
    pub curvature: u32,
}

/// A sphere around the pose, textured by an equirectangular image.
#[derive(Clone, Copy, Debug, PartialEq, Eq, Structural)]
pub struct EquirectLayer {
    pub base: LayerBase,
    pub pose: Pose,
    pub radius: u32,
    pub central_horizontal_angle: u32,
    pub upper_vertical_angle: u32,
    pub lower_vertical_angle: u32,
}

/// A layer of one of the three shapes.
#[derive(Clone, Copy, Debug, PartialEq, Eq, Structural)]
pub enum OverlayLayerInner {
    Quad(QuadLayer),
    /// Curved overlays.
    Cylinder(CylinderLayer),
    /// The skybox.
    Equirect2(EquirectLayer),
}

/// A layer and its blend-bias payload, if it has one.
#[derive(Clone, Copy, Debug, PartialEq, Eq)]
pub struct OverlayLayer {
    layer: OverlayLayerInner,
    color_bias_khr: Option<ColorScaleBias>,
}

/// Why a layer was not changed.
#[derive(Clone, Copy, Debug, PartialEq, Eq, Structural)]
pub enum LayerError {
    /// The layer already carries a blend-bias payload.
    AlphaAlreadySet,
}

/// The payload that gives a layer the blend factor `alpha`: alpha is
/// scaled by it, the other channels of scale and bias are zero.
pub open spec fn alpha_payload(alpha: u32) -> ColorScaleBias {
    ColorScaleBias {
        color_scale: Color4 { r: ZERO, g: ZERO, b: ZERO, a: alpha },
        color_bias: Color4 { r: ZERO, g: ZERO, b: ZERO, a: ZERO },
    }
}

impl OverlayLayerInner {
    /// The part that all shapes share.
    pub open spec fn base(self) -> LayerBase {
        match self {
            OverlayLayerInner::Quad(quad) => quad.base,
            OverlayLayerInner::Cylinder(cylinder) => cylinder.base,
            OverlayLayerInner::Equirect2(equirect2) => equirect2.base,
        }
    }

    /// The part that all shapes share.
    pub fn deref(&self) -> (base: &LayerBase)
        ensures
            *base == self.base(),
    {
        match self {
            OverlayLayerInner::Quad(quad) => &quad.base,
            OverlayLayerInner::Cylinder(cylinder) => &cylinder.base,
            OverlayLayerInner::Equirect2(equirect2) => &equirect2.base,
        }
    }
}

impl OverlayLayer {
    /// The layer itself.
    pub closed spec fn inner(self) -> OverlayLayerInner {
        self.layer
    }

    /// The blend-bias payload.
    pub closed spec fn color_bias(self) -> Option<ColorScaleBias> {
        self.color_bias_khr
    }

    /// A layer without payload.
    pub fn from(value: OverlayLayerInner) -> (layer: Self)
        ensures
            layer.inner() == value,
            layer.color_bias() is None,
    {
        OverlayLayer { layer: value, color_bias_khr: None }
    }

    /// The layer itself.
    pub fn layer(&self) -> (inner: &OverlayLayerInner)
        ensures
            *inner == self.inner(),
    {
        &self.layer
    }

    /// The blend-bias payload, if one was attached.
    pub fn color_scale_bias(&self) -> (payload: Option<ColorScaleBias>)
        ensures
            payload == self.color_bias(),
    {
        self.color_bias_khr
    }

    /// The part that all shapes share.
    pub fn deref(&self) -> (base: &LayerBase)
        ensures
            *base == self.inner().base(),
    {
        self.layer.deref()
    }

    /// Attaches the payload for the blend factor `alpha`. A layer takes one
    /// payload: a second one is refused and the layer stays as it was.
    pub fn set_alpha(&mut self, alpha: u32) -> (r: Result<(), LayerError>)
        ensures
            final(self).inner() == old(self).inner(),
            old(self).color_bias() is Some ==> r == Err::<(), LayerError>(
                LayerError::AlphaAlreadySet,
            ) && final(self).color_bias() == old(self).color_bias(),
            old(self).color_bias() is None ==> r == Ok::<(), LayerError>(())
                && final(self).color_bias() == Some(alpha_payload(alpha)),
    {
        if self.color_bias_khr.is_some() {
            return Err(LayerError::AlphaAlreadySet);
        }
        self.color_bias_khr = Some(
            ColorScaleBias {
                color_scale: Color4 { r: ZERO, g: ZERO, b: ZERO, a: alpha },
                color_bias: Color4 { r: ZERO, g: ZERO, b: ZERO, a: ZERO },
            },
        );
        Ok(())
    }
}

/// Where an overlay without a transform stands: half a meter ahead of the
/// viewer, unrotated.
pub open spec fn default_pose() -> Pose {
    Pose {
        position: Vector3 { x: ZERO, y: ZERO, z: NEG_HALF },
        orientation: Quaternion { x: ZERO, y: ZERO, z: ZERO, w: ONE },
    }
}

/// The overlay is drawn this frame: it is visible, it has been given a
/// texture, and it is no skybox layer unless the skybox is asked for.
pub open spec fn shown(overlay: Overlay, render_skybox: bool) -> bool {
    &&& overlay.visible
    &&& overlay.z_order == SKYBOX_Z_ORDER ==> render_skybox
    &&& overlay.rect is Some
}

/// The tracking origin of an overlay's layer: that of its transform, or
/// the session's current one.
pub open spec fn layer_origin(overlay: Overlay, current_origin: TrackingOrigin) -> TrackingOrigin {
    match overlay.transform {
        Some(transform) => transform.0,
        None => current_origin,
    }
}

/// The pose of an overlay's layer: that of its transform, or the default.
pub open spec fn layer_pose(overlay: Overlay) -> Pose {
    match overlay.transform {
        Some(transform) => transform.1,
        None => default_pose(),
    }
}

/// The shared part of the layer of the overlay `handle`: both eyes, the
/// first image of the overlay's swapchain, the rectangle its texture filled.
pub open spec fn layer_base(
    handle: u64,
    overlay: Overlay,
    current_origin: TrackingOrigin,
) -> LayerBase {
    LayerBase {
        origin: layer_origin(overlay, current_origin),
        layer_flags: LAYER_FLAGS,
        eye_visibility: EyeVisibility::Both,
        swapchain: handle,
        image_array_index: 0,
        image_rect: overlay.rect->0,
    }
}

/// The shape of an overlay's layer. A curved overlay is a cylinder only
/// where its curvature is above zero, else it is flat; a sphere spans the
/// full turn and from straight down to straight up.
pub open spec fn layer_shape(
    handle: u64,
    overlay: Overlay,
    current_origin: TrackingOrigin,
) -> OverlayLayerInner {
    let base = layer_base(handle, overlay, current_origin);
    let pose = layer_pose(overlay);
    match overlay.kind {
        OverlayKind::Quad => OverlayLayerInner::Quad(
            QuadLayer { base, pose, width: overlay.width },
        ),
        OverlayKind::Curved { curvature } => if lt(ZERO, curvature) {
            OverlayLayerInner::Cylinder(
                CylinderLayer { base, pose, width: overlay.width, curvature },
            )
        } else {
            OverlayLayerInner::Quad(QuadLayer { base, pose, width: overlay.width })
        },
        OverlayKind::Sphere => OverlayLayerInner::Equirect2(
            EquirectLayer {
                base,
                pose,
                radius: overlay.width,
                central_horizontal_angle: TWO_PI,
                upper_vertical_angle: FRAC_PI_2,
                lower_vertical_angle: NEG_FRAC_PI_2,
            },
        ),
    }
}

/// The payload of an overlay's layer: one for its blend factor where it
/// has one, none where it is opaque.
pub open spec fn layer_payload(overlay: Overlay) -> Option<ColorScaleBias> {
    match overlay.alpha {
        Some(alpha) => Some(alpha_payload(alpha)),
        None => None,
    }
}

/// The layer of the overlay `handle`: its shape with its payload.
pub closed spec fn layer_of(
    handle: u64,
    overlay: Overlay,
    current_origin: TrackingOrigin,
) -> OverlayLayer {
    OverlayLayer {
        layer: layer_shape(handle, overlay, current_origin),
        color_bias_khr: layer_payload(overlay),
    }
}

/// The layer of an overlay has the overlay's shape and payload.
pub proof fn lemma_layer_of(handle: u64, overlay: Overlay, current_origin: TrackingOrigin)
    ensures
        layer_of(handle, overlay, current_origin).inner() == layer_shape(
            handle,
            overlay,
            current_origin,
        ),
        layer_of(handle, overlay, current_origin).color_bias() == layer_payload(overlay),
{
}

/// Builds the layer of an overlay that has been given a texture.
pub fn build_layer(handle: u64, overlay: &Overlay, current_origin: TrackingOrigin) -> (layer:
    OverlayLayer)
    requires
        overlay.rect is Some,
    ensures
        layer == layer_of(handle, *overlay, current_origin),
        layer.inner() == layer_shape(handle, *overlay, current_origin),
        layer.color_bias() == layer_payload(*overlay),
{
    let rect: Rect2Di = match overlay.rect {
        Some(rect) => rect,
        None => unreached(),
    };
    let (origin, pose) = match overlay.transform {
        Some((origin, pose)) => (origin, pose),
        None => (
            current_origin,
            Pose {
                position: Vector3 { x: ZERO, y: ZERO, z: NEG_HALF },
                orientation: Quaternion { x: ZERO, y: ZERO, z: ZERO, w: ONE },
            },
        ),
    };
    let base = LayerBase {
        origin,
        layer_flags: LAYER_FLAGS,
        eye_visibility: EyeVisibility::Both,
        swapchain: handle,
        image_array_index: 0,
        image_rect: rect,
    };
    let inner = match overlay.kind {
        OverlayKind::Quad => OverlayLayerInner::Quad(
            QuadLayer { base, pose, width: overlay.width },
        ),
        OverlayKind::Curved { curvature } => {
            if is_positive(curvature) {
                OverlayLayerInner::Cylinder(
                    CylinderLayer { base, pose, width: overlay.width, curvature },
                )
            } else {
                OverlayLayerInner::Quad(QuadLayer { base, pose, width: overlay.width })
            }
        },
        OverlayKind::Sphere => OverlayLayerInner::Equirect2(
            EquirectLayer {
                base,
                pose,
                radius: overlay.width,
                central_horizontal_angle: TWO_PI,
                upper_vertical_angle: FRAC_PI_2,
                lower_vertical_angle: NEG_FRAC_PI_2,
            },
        ),
    };
    let mut layer = OverlayLayer::from(inner);
    match overlay.alpha {
        Some(alpha) => {
            let _ = layer.set_alpha(alpha);
        },
        None => {},
    }
    layer
}

/// The position in `sorted` just behind the last entry whose draw order is
/// at most `order`.
pub open spec fn place(sorted: Seq<(i64, OverlayLayer)>, order: i64) -> int
    decreases sorted.len(),
{
    if sorted.len() == 0 {
        0
    } else if sorted.last().0 <= order {
        sorted.len() as int
    } else {
        place(sorted.drop_last(), order)
    }
}

/// The entries by ascending draw order, entries of equal order in the
/// order they came in: each entry in turn goes behind the last one placed
/// whose order is not above its own.
pub open spec fn stable_sort(entries: Seq<(i64, OverlayLayer)>) -> Seq<(i64, OverlayLayer)>
    decreases entries.len(),
{
    if entries.len() == 0 {
        entries
    } else {
        let sorted = stable_sort(entries.drop_last());
        sorted.insert(place(sorted, entries.last().0), entries.last())
    }
}

/// No entry stands before one of lower draw order.
pub open spec fn ascending(entries: Seq<(i64, OverlayLayer)>) -> bool {
    forall|i: int, j: int| 0 <= i < j < entries.len() ==> entries[i].0 <= entries[j].0
}

/// The test for one draw order.
pub open spec fn has_order(order: i64) -> spec_fn((i64, OverlayLayer)) -> bool {
    |entry: (i64, OverlayLayer)| entry.0 == order
}

/// Every entry before the place is at most `order` where the entries
/// ascend, and every entry from the place on is above it.
pub proof fn lemma_place(sorted: Seq<(i64, OverlayLayer)>, order: i64)
    ensures
        0 <= place(sorted, order) <= sorted.len(),
        forall|i: int| place(sorted, order) <= i < sorted.len() ==> sorted[i].0 > order,
        ascending(sorted) ==> forall|i: int| 0 <= i < place(sorted, order) ==> sorted[i].0 <= order,
    decreases sorted.len(),
{
    if sorted.len() > 0 && sorted.last().0 > order {
        lemma_place(sorted.drop_last(), order);
        assert forall|i: int| 0 <= i < sorted.len() - 1 implies sorted.drop_last()[i]
            == sorted[i] by {}
        if ascending(sorted) {
            assert(ascending(sorted.drop_last()));
        }
    }
}

/// Sorting keeps the number of entries and leaves them ascending.
pub proof fn lemma_stable_sort_ascending(entries: Seq<(i64, OverlayLayer)>)
    ensures
        stable_sort(entries).len() == entries.len(),
        ascending(stable_sort(entries)),
    decreases entries.len(),
{
    if entries.len() > 0 {
        let sorted = stable_sort(entries.drop_last());
        let entry = entries.last();
        lemma_stable_sort_ascending(entries.drop_last());
        lemma_place(sorted, entry.0);
        let k = place(sorted, entry.0);
        let out = sorted.insert(k, entry);
        assert forall|i: int, j: int| 0 <= i < j < out.len() implies out[i].0 <= out[j].0 by {
            let a = if i < k {
                i
            } else {
                i - 1
            };
            let b = if j < k {
                j
            } else {
                j - 1
            };
            if i != k {
                assert(out[i] == sorted[a]);
            }
            if j != k {
                assert(out[j] == sorted[b]);
            }
        }
    }
}

/// A sequence none of whose entries has the draw order holds no entry of
/// that order.
proof fn lemma_none_of_order(entries: Seq<(i64, OverlayLayer)>, order: i64)
    requires
        forall|i: int| 0 <= i < entries.len() ==> entries[i].0 != order,
    ensures
        entries.filter(has_order(order)) == Seq::<(i64, OverlayLayer)>::empty(),
    decreases entries.len(),
{
    reveal(Seq::filter);
    if entries.len() > 0 {
        assert forall|i: int| 0 <= i < entries.len() - 1 implies entries.drop_last()[i]
            == entries[i] by {}
        lemma_none_of_order(entries.drop_last(), order);
    }
}

/// Sorting is stable: the entries of any one draw order come out as they
/// went in, in the same order.
pub proof fn lemma_stable_sort_stable(entries: Seq<(i64, OverlayLayer)>, order: i64)
    ensures
        stable_sort(entries).filter(has_order(order)) == entries.filter(has_order(order)),
    decreases entries.len(),
{
    reveal(Seq::filter);
    if entries.len() > 0 {
        let pred = has_order(order);
        let sorted = stable_sort(entries.drop_last());
        let entry = entries.last();
        lemma_stable_sort_stable(entries.drop_last(), order);
        lemma_stable_sort_ascending(entries.drop_last());
        lemma_place(sorted, entry.0);
        let k = place(sorted, entry.0);
        let head = sorted.subrange(0, k);
        let tail = sorted.subrange(k, sorted.len() as int);
        assert(sorted =~= head + tail);
        assert(sorted.insert(k, entry) =~= (head + seq![entry]) + tail);
        Seq::filter_distributes_over_add(head, tail, pred);
        Seq::filter_distributes_over_add(head + seq![entry], tail, pred);
        Seq::filter_distributes_over_add(head, seq![entry], pred);
        assert(seq![entry].drop_last() =~= Seq::<(i64, OverlayLayer)>::empty());
        assert(Seq::<(i64, OverlayLayer)>::empty().filter(pred) =~= Seq::<
            (i64, OverlayLayer),
        >::empty());
        if entry.0 == order {
            lemma_none_of_order(tail, order);
            assert(seq![entry].filter(pred) =~= seq![entry]);
            assert(head.filter(pred) + seq![entry] + Seq::<(i64, OverlayLayer)>::empty()
                =~= head.filter(pred).push(entry));
            assert(head.filter(pred) + Seq::<(i64, OverlayLayer)>::empty() =~= head.filter(pred));
        } else {
            assert(seq![entry].filter(pred) =~= Seq::<(i64, OverlayLayer)>::empty());
            assert(head.filter(pred) + Seq::<(i64, OverlayLayer)>::empty() =~= head.filter(pred));
        }
    }
}

/// Two ascending arrangements that agree on the entries of every draw
/// order, and on their order, are the same.
proof fn lemma_ascending_unique(a: Seq<(i64, OverlayLayer)>, b: Seq<(i64, OverlayLayer)>)
    requires
        ascending(a),
        ascending(b),
        forall|order: i64| a.filter(has_order(order)) == b.filter(has_order(order)),
    ensures
        a == b,
    decreases a.len(),
{
    reveal(Seq::filter);
    if a.len() == 0 {
        if b.len() > 0 {
            let order = b[0].0;
            b.lemma_filter_contains(has_order(order), 0);
            assert(a.filter(has_order(order)).len() == 0);
        }
        assert(a =~= b);
    } else {
        let x = a.last();
        let z = x.0;
        assert(a.filter(has_order(z)) == a.drop_last().filter(has_order(z)).push(x));
        assert(b.filter(has_order(z)).len() > 0);
        assert(b.len() > 0);
        let y = b.last();
        let zy = y.0;
        assert(b.filter(has_order(zy)) == b.drop_last().filter(has_order(zy)).push(y));
        // an entry of a has the order of b's last entry, and the other way round
        let in_a = a.filter(has_order(zy))[0];
        a.lemma_filter_pred(has_order(zy), 0);
        assert(a.filter(has_order(zy)).contains(in_a));
        a.lemma_filter_contains_rev(has_order(zy), in_a);
        let i = choose|i: int| 0 <= i < a.len() && a[i] == in_a;
        assert(zy <= z) by {
            if i < a.len() - 1 {
                assert(a[i].0 <= a[a.len() - 1].0);
            }
        }
        let in_b = b.filter(has_order(z))[0];
        b.lemma_filter_pred(has_order(z), 0);
        assert(b.filter(has_order(z)).contains(in_b));
        b.lemma_filter_contains_rev(has_order(z), in_b);
        let j = choose|j: int| 0 <= j < b.len() && b[j] == in_b;
        assert(z <= zy) by {
            if j < b.len() - 1 {
                assert(b[j].0 <= b[b.len() - 1].0);
            }
        }
        assert(x == y) by {
            assert(a.filter(has_order(z)).last() == x);
            assert(b.filter(has_order(z)).last() == y);
        }
        let a0 = a.drop_last();
        let b0 = b.drop_last();
        assert forall|order: i64| a0.filter(has_order(order)) == b0.filter(
            has_order(order),
        ) by {
            assert(a.filter(has_order(order)) == b.filter(has_order(order)));
            if order == z {
                assert(a0.filter(has_order(z)) =~= a.filter(has_order(z)).drop_last());
                assert(b0.filter(has_order(z)) =~= b.filter(has_order(z)).drop_last());
            }
        }
        assert(ascending(a0)) by {
            assert forall|i: int, j: int| 0 <= i < j < a0.len() implies a0[i].0 <= a0[j].0 by {
                assert(a0[i] == a[i] && a0[j] == a[j]);
            }
        }
        assert(ascending(b0)) by {
            assert forall|i: int, j: int| 0 <= i < j < b0.len() implies b0[i].0 <= b0[j].0 by {
                assert(b0[i] == b[i] && b0[j] == b[j]);
            }
        }
        lemma_ascending_unique(a0, b0);
        assert(a =~= a0.push(x));
        assert(b =~= b0.push(y));
    }
}

/// Sorting is the one way to arrange the entries by ascending draw order
/// that keeps the entries of each draw order in the order they came in.
pub proof fn lemma_stable_sort_unique(
    entries: Seq<(i64, OverlayLayer)>,
    arranged: Seq<(i64, OverlayLayer)>,
)
    requires
        ascending(arranged),
        forall|order: i64|
            arranged.filter(has_order(order)) == entries.filter(has_order(order)),
    ensures
        arranged == stable_sort(entries),
{
    lemma_stable_sort_ascending(entries);
    assert forall|order: i64|
        arranged.filter(has_order(order)) == stable_sort(entries).filter(has_order(order)) by {
        lemma_stable_sort_stable(entries, order);
    }
    lemma_ascending_unique(arranged, stable_sort(entries));
}

/// Sorting neither drops nor adds an entry.
pub proof fn lemma_stable_sort_permutes(entries: Seq<(i64, OverlayLayer)>)
    ensures
        stable_sort(entries).to_multiset() == entries.to_multiset(),
    decreases entries.len(),
{
    if entries.len() > 0 {
        let rest = entries.drop_last();
        let sorted = stable_sort(rest);
        let entry = entries.last();
        lemma_stable_sort_permutes(rest);
        lemma_place(sorted, entry.0);
        vstd::seq_lib::to_multiset_insert(sorted, place(sorted, entry.0), entry);
        vstd::seq_lib::to_multiset_build(rest, entry);
        assert(rest.push(entry) =~= entries);
    }
}

/// Sorts the entries by ascending draw order, keeping entries of equal
/// order in the order they came in.
pub fn sort_layers(entries: &Vec<(i64, OverlayLayer)>) -> (sorted: Vec<(i64, OverlayLayer)>)
    ensures
        sorted@ == stable_sort(entries@),
{
    let mut sorted: Vec<(i64, OverlayLayer)> = Vec::new();
    let mut i: usize = 0;
    assert(entries@.take(0) =~= Seq::<(i64, OverlayLayer)>::empty());
    while i < entries.len()
        invariant
            i <= entries.len(),
            sorted@ == stable_sort(entries@.take(i as int)),
        decreases entries.len() - i,
    {
        let entry = entries[i];
        let mut k: usize = sorted.len();
        assert(sorted@.take(k as int) =~= sorted@);
        while k > 0 && sorted[k - 1].0 > entry.0
            invariant
                k <= sorted.len(),
                place(sorted@, entry.0) == place(sorted@.take(k as int), entry.0),
            decreases k,
        {
            assert(sorted@.take(k as int).drop_last() =~= sorted@.take(k - 1));
            k -= 1;
        }
        proof {
            lemma_stable_sort_ascending(entries@.take(i as int));
            assert(entries@.take(i + 1).drop_last() =~= entries@.take(i as int));
        }
        sorted.insert(k, entry);
        i += 1;
    }
    assert(entries@.take(entries.len() as int) =~= entries@);
    sorted
}

/// The layers of the entries, without their draw orders.
pub open spec fn layers_of(entries: Seq<(i64, OverlayLayer)>) -> Seq<OverlayLayer> {
    entries.map_values(|entry: (i64, OverlayLayer)| entry.1)
}

/// The entries of a frame before sorting: for each overlay that is shown,
/// in the given order of handles, its draw order and its layer.
pub open spec fn candidates(
    order: Seq<u64>,
    overlays: Map<u64, Overlay>,
    current_origin: TrackingOrigin,
    render_skybox: bool,
) -> Seq<(i64, OverlayLayer)>
    decreases order.len(),
{
    if order.len() == 0 {
        Seq::empty()
    } else {
        let before = candidates(order.drop_last(), overlays, current_origin, render_skybox);
        let handle = order.last();
        let overlay = overlays[handle];
        if shown(overlay, render_skybox) {
            before.push((overlay.z_order, layer_of(handle, overlay, current_origin)))
        } else {
            before
        }
    }
}

/// The layers of a frame: the layer of every overlay that is shown, by
/// ascending draw order, overlays of equal order by ascending slot index of
/// their handles.
pub open spec fn frame_layers(
    overlays: Map<u64, Overlay>,
    current_origin: TrackingOrigin,
    render_skybox: bool,
) -> Seq<OverlayLayer> {
    layers_of(
        stable_sort(
            candidates(slot_order(overlays.dom()), overlays, current_origin, render_skybox),
        ),
    )
}

/// Whether the overlay is drawn this frame.
pub fn is_shown(overlay: &Overlay, render_skybox: bool) -> (r: bool)
    ensures
        r == shown(*overlay, render_skybox),
{
    overlay.visible && (overlay.z_order != SKYBOX_Z_ORDER || render_skybox) && overlay.rect.is_some()
}

/// The layers of sorted entries.
pub fn strip_order(entries: &Vec<(i64, OverlayLayer)>) -> (layers: Vec<OverlayLayer>)
    ensures
        layers@ == layers_of(entries@),
{
    let mut layers: Vec<OverlayLayer> = Vec::new();
    let mut i: usize = 0;
    while i < entries.len()
        invariant
            i <= entries.len(),
            layers@ == layers_of(entries@.take(i as int)),
        decreases entries.len() - i,
    {
        layers.push(entries[i].1);
        assert(layers@ =~= layers_of(entries@.take(i + 1)));
        i += 1;
    }
    assert(entries@.take(entries.len() as int) =~= entries@);
    layers
}

/// A curved overlay whose curvature is not above zero gets the layer of a
/// flat overlay of the same width.
pub proof fn lemma_flat_when_uncurved(
    handle: u64,
    overlay: Overlay,
    curvature: u32,
    current_origin: TrackingOrigin,
)
    requires
        !lt(ZERO, curvature),
    ensures
        layer_shape(
            handle,
            Overlay { kind: OverlayKind::Curved { curvature }, ..overlay },
            current_origin,
        ) == layer_shape(handle, Overlay { kind: OverlayKind::Quad, ..overlay }, current_origin),
{
}

/// A cylinder is the layer of a curved overlay only, and its curvature is
/// above zero: no cylinder has an unbounded radius.
pub proof fn lemma_cylinder_is_curved(
    handle: u64,
    overlay: Overlay,
    current_origin: TrackingOrigin,
)
    ensures
        layer_shape(handle, overlay, current_origin) matches OverlayLayerInner::Cylinder(cylinder)
            ==> overlay.kind == (OverlayKind::Curved { curvature: cylinder.curvature }) && lt(
            ZERO,
            cylinder.curvature,
        ),
{
}

/// The handles of the overlays that are shown.
pub open spec fn shown_handles(overlays: Map<u64, Overlay>, render_skybox: bool) -> Set<u64> {
    Set::new(|h: u64| overlays.contains_key(h) && shown(overlays[h], render_skybox))
}

/// The entry of the overlay `handle` in a frame: its draw order and its
/// layer.
pub open spec fn entry_of(
    handle: u64,
    overlays: Map<u64, Overlay>,
    current_origin: TrackingOrigin,
) -> (i64, OverlayLayer) {
    (overlays[handle].z_order, layer_of(handle, overlays[handle], current_origin))
}

/// The handles of `order` whose overlays are shown.
pub open spec fn shown_of(
    order: Seq<u64>,
    overlays: Map<u64, Overlay>,
    render_skybox: bool,
) -> Set<u64> {
    Set::new(|h: u64| order.contains(h) && shown(overlays[h], render_skybox))
}

/// The entries of a frame are those of the listed overlays that are
/// shown: each of them has its entry, every entry is the entry of one of
/// them, and where no handle is listed twice there are as many entries as
/// such overlays.
pub proof fn lemma_candidates(
    order: Seq<u64>,
    overlays: Map<u64, Overlay>,
    current_origin: TrackingOrigin,
    render_skybox: bool,
)
    ensures
        forall|h: u64|
            #![trigger order.contains(h)]
            order.contains(h) && shown(overlays[h], render_skybox) ==> candidates(
                order,
                overlays,
                current_origin,
                render_skybox,
            ).contains(entry_of(h, overlays, current_origin)),
        forall|e: (i64, OverlayLayer)| #[trigger]
            candidates(order, overlays, current_origin, render_skybox).contains(e) ==> exists|
                h: u64,
            |
                #![trigger order.contains(h)]
                order.contains(h) && shown(overlays[h], render_skybox) && e == entry_of(
                    h,
                    overlays,
                    current_origin,
                ),
        shown_of(order, overlays, render_skybox).finite(),
        order.no_duplicates() ==> candidates(
            order,
            overlays,
            current_origin,
            render_skybox,
        ).len() == shown_of(order, overlays, render_skybox).len(),
    decreases order.len(),
{
    let all = candidates(order, overlays, current_origin, render_skybox);
    if order.len() == 0 {
        assert(shown_of(order, overlays, render_skybox) =~= Set::<u64>::empty());
    } else {
        let rest = order.drop_last();
        let last = order.last();
        let before = candidates(rest, overlays, current_origin, render_skybox);
        lemma_candidates(rest, overlays, current_origin, render_skybox);
        assert forall|h: u64| order.contains(h) <==> rest.contains(h) || h == last by {
            if order.contains(h) {
                let i = choose|i: int| 0 <= i < order.len() && order[i] == h;
                if i < rest.len() {
                    assert(rest[i] == h);
                }
            }
            if rest.contains(h) {
                let i = choose|i: int| 0 <= i < rest.len() && rest[i] == h;
                assert(order[i] == h);
            }
            assert(order[order.len() - 1] == last);
        }
        let mine = entry_of(last, overlays, current_origin);
        assert forall|e: (i64, OverlayLayer)| before.contains(e) implies all.contains(e) by {
            let i = choose|i: int| 0 <= i < before.len() && before[i] == e;
            assert(all[i] == e);
        }
        if shown(overlays[last], render_skybox) {
            assert(all == before.push(mine));
            assert(all[before.len() as int] == mine);
            assert forall|e: (i64, OverlayLayer)| all.contains(e) implies before.contains(e) || e
                == mine by {
                let i = choose|i: int| 0 <= i < all.len() && all[i] == e;
                if i < before.len() {
                    assert(before[i] == e);
                }
            }
            assert(shown_of(order, overlays, render_skybox) =~= shown_of(
                rest,
                overlays,
                render_skybox,
            ).insert(last));
        } else {
            assert(shown_of(order, overlays, render_skybox) =~= shown_of(
                rest,
                overlays,
                render_skybox,
            ));
        }
        assert forall|h: u64|
            #![trigger order.contains(h)]
            order.contains(h) && shown(overlays[h], render_skybox) implies all.contains(
            entry_of(h, overlays, current_origin),
        ) by {
            if h != last {
                assert(rest.contains(h));
            }
        }
        assert forall|e: (i64, OverlayLayer)| #[trigger] all.contains(e) implies exists|h: u64|
            #![trigger order.contains(h)]
            order.contains(h) && shown(overlays[h], render_skybox) && e == entry_of(
                h,
                overlays,
                current_origin,
            ) by {
            if before.contains(e) {
                let h = choose|h: u64|
                    #![trigger rest.contains(h)]
                    rest.contains(h) && shown(overlays[h], render_skybox) && e == entry_of(
                        h,
                        overlays,
                        current_origin,
                    );
                assert(order.contains(h));
            } else {
                assert(order.contains(last));
            }
        }
        if order.no_duplicates() {
            assert(rest.no_duplicates()) by {
                assert forall|i: int, j: int| 0 <= i < j < rest.len() implies rest[i]
                    != rest[j] by {
                    assert(rest[i] == order[i] && rest[j] == order[j]);
                }
            }
            assert(!rest.contains(last)) by {
                if rest.contains(last) {
                    let i = choose|i: int| 0 <= i < rest.len() && rest[i] == last;
                    assert(order[i] == order[order.len() - 1]);
                }
            }
        }
    }
}

/// The layers of a frame are the layers of the overlays that are shown,
/// one for each once the handles are listed in slot order: each such overlay
/// has its layer in the frame, every layer of the frame is the layer of
/// such an overlay, and there are as many layers as such overlays.
pub proof fn lemma_frame_layers(
    overlays: Map<u64, Overlay>,
    current_origin: TrackingOrigin,
    render_skybox: bool,
)
    requires
        in_slot_order(slot_order(overlays.dom()), overlays.dom()),
    ensures
        frame_layers(overlays, current_origin, render_skybox).len() == shown_handles(
            overlays,
            render_skybox,
        ).len(),
        forall|h: u64|
            #![trigger overlays.contains_key(h)]
            overlays.contains_key(h) && shown(overlays[h], render_skybox) ==> frame_layers(
                overlays,
                current_origin,
                render_skybox,
            ).contains(layer_of(h, overlays[h], current_origin)),
        forall|layer: OverlayLayer| #[trigger]
            frame_layers(overlays, current_origin, render_skybox).contains(layer) ==> exists|
                h: u64,
            |
                #![trigger overlays.contains_key(h)]
                overlays.contains_key(h) && shown(overlays[h], render_skybox) && layer == layer_of(
                    h,
                    overlays[h],
                    current_origin,
                ),
{
    broadcast use vstd::seq_lib::group_to_multiset_ensures;

    let order = slot_order(overlays.dom());
    let entries = candidates(order, overlays, current_origin, render_skybox);
    let sorted = stable_sort(entries);
    let layers = frame_layers(overlays, current_origin, render_skybox);
    lemma_candidates(order, overlays, current_origin, render_skybox);
    lemma_stable_sort_ascending(entries);
    lemma_stable_sort_permutes(entries);
    assert(order.no_duplicates()) by {
        assert forall|i: int, j: int| 0 <= i < j < order.len() implies order[i] != order[j] by {
            assert(slot_of(order[i]) < slot_of(order[j]));
        }
    }
    assert(shown_of(order, overlays, render_skybox) =~= shown_handles(overlays, render_skybox));
    assert forall|e: (i64, OverlayLayer)| entries.contains(e) <==> sorted.contains(e) by {
        assert(entries.to_multiset().count(e) == sorted.to_multiset().count(e));
    }
    assert forall|h: u64|
        #![trigger overlays.contains_key(h)]
        overlays.contains_key(h) && shown(overlays[h], render_skybox) implies layers.contains(
        layer_of(h, overlays[h], current_origin),
    ) by {
        assert(order.contains(h));
        let e = entry_of(h, overlays, current_origin);
        assert(sorted.contains(e));
        let i = choose|i: int| 0 <= i < sorted.len() && sorted[i] == e;
        assert(layers[i] == e.1);
    }
    assert forall|layer: OverlayLayer| #[trigger] layers.contains(layer) implies exists|h: u64|
        #![trigger overlays.contains_key(h)]
        overlays.contains_key(h) && shown(overlays[h], render_skybox) && layer == layer_of(
            h,
            overlays[h],
            current_origin,
        ) by {
        let i = choose|i: int| 0 <= i < layers.len() && layers[i] == layer;
        let e = sorted[i];
        assert(sorted.contains(e));
        assert(entries.contains(e));
        let h = choose|h: u64|
            #![trigger order.contains(h)]
            order.contains(h) && shown(overlays[h], render_skybox) && e == entry_of(
                h,
                overlays,
                current_origin,
            );
        assert(overlays.contains_key(h));
    }
}

} // verus!
