//! The shared document of a page: the nodes and groups that all views of the page are made from.

use vstd::prelude::*;
use vstd::string::StringExecFns;
use crate::bands::Band;
#[allow(unused_imports)]
use crate::bands::{band_views, BandView};
use crate::color::ColorImage;
#[allow(unused_imports)]
use crate::color::Color;
use crate::ident::uid_to_string;
#[allow(unused_imports)]
use crate::ident::{opt_text, uid_text};
use crate::json::{copy_documents, json_member, json_text};
#[allow(unused_imports)]
use crate::json::{all_of, json_of, member, text_at, Json};
use crate::layers::{copy_deform, transform_to_rec, DeformRec, Layer, LayerStack, TransformRec};
#[allow(unused_imports)]
use crate::layers::{
    deform_view, group_uid_of, stored_placement, DeformView, LayerView, StackView,
};
#[allow(unused_imports)]
use crate::raster::Grid;

verus! {

/// A group of a document.
pub struct GroupMeta {
    pub uid: String,
    pub name: String,
    pub visible: bool,
    /// The opacity as a bit pattern.
    pub opacity: u32,
    pub collapsed: bool,
}

#[verifier::ext_equal]
pub struct MetaView {
    pub uid: Seq<char>,
    pub name: Seq<char>,
    pub visible: bool,
    pub opacity: u32,
    pub collapsed: bool,
}

impl View for GroupMeta {
    type V = MetaView;

    open spec fn view(&self) -> MetaView {
        MetaView {
            uid: self.uid@,
            name: self.name@,
            visible: self.visible,
            opacity: self.opacity,
            collapsed: self.collapsed,
        }
    }
}

pub open spec fn meta_views(v: Seq<GroupMeta>) -> Seq<MetaView> {
    v.map_values(|g: GroupMeta| g@)
}

/// What a node shows.
pub enum NodeBody {
    Raster {
        base_image: ColorImage,
        display_image: ColorImage,
        effects: Vec<serde_json::Value>,
        base_file: String,
        mask_clip: Option<bool>,
    },
    Text { image: ColorImage, render_data: serde_json::Value },
}

/// What a node shows, as a mathematical value.
pub enum BodyView {
    Raster {
        base_image: Grid<Color>,
        display_image: Grid<Color>,
        effects: Seq<Json>,
        base_file: Seq<char>,
        mask_clip: Option<bool>,
    },
    Text { image: Grid<Color>, render_data: Json },
}

impl View for NodeBody {
    type V = BodyView;

    open spec fn view(&self) -> BodyView {
        match self {
            NodeBody::Raster { base_image, display_image, effects, base_file, mask_clip } => BodyView::Raster {
                base_image: base_image@,
                display_image: display_image@,
                effects: all_of(effects@),
                base_file: base_file@,
                mask_clip: *mask_clip,
            },
            NodeBody::Text { image, render_data } => BodyView::Text {
                image: image@,
                render_data: json_of(*render_data),
            },
        }
    }
}

/// A node of a document.
pub struct LayerNode {
    pub uid: String,
    pub name: String,
    pub z: u32,
    pub visible: bool,
    /// The opacity as a bit pattern.
    pub opacity: u32,
    pub group_uid: Option<String>,
    pub text_layer_idx: Option<u32>,
    pub transform: TransformRec,
    pub deform: Option<DeformRec>,
    /// Counts the changes of the picture.
    pub generation: u64,
    pub pixels_dirty: bool,
    pub body: NodeBody,
}

#[verifier::ext_equal]
pub struct NodeView {
    pub uid: Seq<char>,
    pub name: Seq<char>,
    pub z: u32,
    pub visible: bool,
    pub opacity: u32,
    pub group_uid: Option<Seq<char>>,
    pub text_layer_idx: Option<u32>,
    pub transform: TransformRec,
    pub deform: Option<DeformView>,
    pub generation: u64,
    pub pixels_dirty: bool,
    pub body: BodyView,
}

impl View for LayerNode {
    type V = NodeView;

    open spec fn view(&self) -> NodeView {
        NodeView {
            uid: self.uid@,
            name: self.name@,
            z: self.z,
            visible: self.visible,
            opacity: self.opacity,
            group_uid: opt_text(self.group_uid),
            text_layer_idx: self.text_layer_idx,
            transform: self.transform,
            deform: deform_view(self.deform),
            generation: self.generation,
            pixels_dirty: self.pixels_dirty,
            body: self.body@,
        }
    }
}

pub open spec fn node_views(v: Seq<LayerNode>) -> Seq<NodeView> {
    v.map_values(|n: LayerNode| n@)
}

impl NodeView {
    /// The pictures are whole.
    pub open spec fn valid(self) -> bool {
        match self.body {
            BodyView::Raster { base_image, display_image, .. } => base_image.valid()
                && display_image.valid(),
            BodyView::Text { image, .. } => image.valid(),
        }
    }
}

/// The document of a page: its nodes from the bottom to the top, and its groups.
pub struct DocPage {
    pub nodes: Vec<LayerNode>,
    pub groups: Vec<GroupMeta>,
}

/// The node that stands for a layer: in the group that it is in on its stack, without a mesh, and
/// with all its pixels still to be stored.
pub open spec fn raster_node(s: StackView, l: LayerView) -> NodeView {
    NodeView {
        uid: uid_text(l.uid),
        name: l.name,
        z: 0,
        visible: l.visible,
        opacity: l.opacity,
        group_uid: group_uid_of(s, l),
        text_layer_idx: None,
        transform: stored_placement(l.transform),
        deform: None,
        generation: 0,
        pixels_dirty: true,
        body: BodyView::Raster {
            base_image: l.base_image,
            display_image: l.image,
            effects: l.effects,
            base_file: uid_text(l.uid) + ".png"@,
            mask_clip: None,
        },
    }
}

/// Makes the node that stands for a layer; the stack tells its group.
pub fn layer_to_raster_node(stack: &LayerStack, layer: &Layer) -> (n: LayerNode)
    ensures
        n@ == raster_node(stack@, layer@),
{
    let uid = uid_to_string(layer.uid);
    let mut base_file = uid.clone();
    base_file.append(".png");
    LayerNode {
        uid,
        name: layer.name.clone(),
        z: 0,
        visible: layer.visible,
        opacity: layer.opacity,
        group_uid: stack.group_uid_for(layer),
        text_layer_idx: None,
        transform: transform_to_rec(layer.transform),
        deform: None,
        generation: 0,
        pixels_dirty: true,
        body: NodeBody::Raster {
            base_image: layer.base_image.copied(),
            display_image: layer.image.copied(),
            effects: copy_documents(&layer.effects),
            base_file,
            mask_clip: None,
        },
    }
}

/// The node that brings a removed layer back: in its group if the group is still there, with its
/// mesh, and with all its pixels to be stored.
pub open spec fn restored_node(s: StackView, l: LayerView) -> NodeView {
    NodeView { deform: l.deform, ..raster_node(s, l) }
}

pub fn layer_to_restored_node(stack: &LayerStack, layer: &Layer) -> (n: LayerNode)
    ensures
        n@ == restored_node(stack@, layer@),
{
    let mut n = layer_to_raster_node(stack, layer);
    n.pixels_dirty = true;
    n.deform = copy_deform(&layer.deform);
    n
}

/// The words of a text node: what its description holds as the text of its parameters.
pub open spec fn words_of(render_data: Json) -> Seq<char> {
    match member(render_data, "text_params"@) {
        Some(p) => match text_at(member(p, "text"@)) {
            Some(s) => s,
            None => Seq::empty(),
        },
        None => Seq::empty(),
    }
}

pub fn text_content_of(render_data: &serde_json::Value) -> (s: String)
    ensures
        s@ == words_of(json_of(*render_data)),
{
    match json_member(render_data, "text_params") {
        Some(p) => match json_member(p, "text") {
            Some(t) => match json_text(t) {
                Some(s) => s.to_owned(),
                None => String::new(),
            },
            None => String::new(),
        },
        None => String::new(),
    }
}

/// The places that the nodes give.
pub open spec fn bands_of(nodes: Seq<NodeView>) -> Seq<BandView> {
    nodes.map_values(
        |n: NodeView|
            match n.body {
                BodyView::Raster { .. } => BandView::Raster { uid: n.uid, z: n.z },
                BodyView::Text { .. } => BandView::PinnedText { uid: n.uid, z: n.z },
            },
    )
}

/// Derives the places from the nodes.
pub fn project_bands(nodes: &Vec<LayerNode>) -> (bands: Vec<Band>)
    ensures
        band_views(bands@) == bands_of(node_views(nodes@)),
{
    let ghost target = bands_of(node_views(nodes@));
    let mut bands: Vec<Band> = Vec::new();
    let mut i: usize = 0;
    while i < nodes.len()
        invariant
            i <= nodes@.len(),
            target == bands_of(node_views(nodes@)),
            band_views(bands@) == target.take(i as int),
        decreases nodes@.len() - i,
    {
        let ghost before = bands@;
        let n = &nodes[i];
        let b = match &n.body {
            NodeBody::Raster { .. } => Band::Raster { uid: n.uid.clone(), z: n.z },
            NodeBody::Text { .. } => Band::PinnedText { uid: n.uid.clone(), z: n.z },
        };
        let ghost bv = b@;
        bands.push(b);
        assert(band_views(bands@) =~= band_views(before).push(bv));
        assert(target[i as int] == bv);
        i += 1;
        assert(band_views(bands@) =~= target.take(i as int));
    }
    assert(target.take(target.len() as int) =~= target);
    bands
}

} // verus!
