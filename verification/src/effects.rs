//! Effects of layers: what is rendered when, and what the result makes of a layer.

use vstd::prelude::*;
use vstd::string::StringExecFns;
use crate::blank::is_blank;
#[allow(unused_imports)]
use crate::blank::blank;
use crate::color::ColorImage;
#[allow(unused_imports)]
use crate::color::Color;
use crate::ident::uid_to_string;
#[allow(unused_imports)]
use crate::ident::uid_text;
use crate::json::{copy_documents, parse_json_list, write_json_list};
#[allow(unused_imports)]
use crate::json::{all_of, parsed_list, pretty_json, Json};
use crate::layer_doc::{LayerNode, NodeBody};
#[allow(unused_imports)]
use crate::layer_doc::{BodyView, NodeView};
use crate::layers::{LayerId, LayerStack, LayerTransform, TransformRec};
#[allow(unused_imports)]
use crate::layers::{layer_called, LayerView, StackView};
#[allow(unused_imports)]
use crate::raster::Grid;

verus! {

/// The effects that a text describes; nothing where it is not a list.
pub open spec fn effects_of(text: Seq<char>) -> Option<Seq<Json>> {
    if blank(text) {
        Some(Seq::empty())
    } else {
        parsed_list(text)
    }
}

/// Reads a description of effects; a blank text means none.
pub fn parse_effects(text: &String) -> (r: Option<Vec<serde_json::Value>>)
    ensures
        r is Some <==> effects_of(text@) is Some,
        r is Some ==> effects_of(text@) == Some(all_of((r->0)@)),
{
    if is_blank(text.as_str()) {
        let none: Vec<serde_json::Value> = Vec::new();
        assert(all_of(none@) =~= Seq::empty());
        return Some(none);
    }
    match parse_json_list(text.as_str()) {
        Ok(v) => Some(v),
        Err(_) => None,
    }
}

/// The text that the editor of effects starts with: the effects of the layer, if it has any.
pub fn effects_seed(stack: &LayerStack, id: LayerId) -> (s: String)
    ensures
        s@ == match layer_called(stack@.layers, id) {
            Some(l) => if l.effects.len() > 0 {
                pretty_json(Json::List(l.effects))
            } else {
                Seq::empty()
            },
            None => Seq::empty(),
        },
{
    match stack.layer(id) {
        Some(l) => {
            assert(l@.effects.len() == l.effects@.len());
            if l.effects.len() > 0 {
                match write_json_list(&l.effects) {
                    Ok(s) => s,
                    Err(_) => String::new(),
                }
            } else {
                String::new()
            }
        },
        None => String::new(),
    }
}

/// A request for effects that waits.
pub struct PendingEffects {
    pub id: LayerId,
    pub text: String,
}

/// Whether effects are being rendered, and what waits for that to end.
pub struct EffectsQueue {
    pub in_flight: bool,
    pub pending: Option<PendingEffects>,
}

/// A rendering of effects to be started.
pub struct EffectsJob {
    pub id: LayerId,
    pub uid: String,
    /// The pixels without effects.
    pub base: ColorImage,
    pub transform: LayerTransform,
    pub text: String,
    pub effects: Vec<serde_json::Value>,
}

/// The layer can get effects.
pub open spec fn takes_effects(s: Option<StackView>, id: LayerId) -> Option<LayerView> {
    match s {
        Some(v) => match layer_called(v.layers, id) {
            Some(l) => if l.kind.base() {
                None
            } else {
                Some(l)
            },
            None => None,
        },
        None => None,
    }
}

/// The pixels that effects start from: what is shown, or what was shown before the effects that
/// the layer has.
pub open spec fn effects_source(l: LayerView) -> Grid<Color> {
    if l.effects.len() == 0 {
        l.image
    } else {
        l.base_image
    }
}

impl EffectsQueue {
    /// Effects are asked for.  A text that is not a list is refused; while others are rendered the
    /// request waits, and takes the place of any that waited before.
    pub fn apply_effects_to_raster(
        &mut self,
        has_page: bool,
        stack: &Option<LayerStack>,
        id: LayerId,
        text: &String,
    ) -> (job: Option<EffectsJob>)
        ensures
            ({
                let s = match *stack {
                    Some(x) => Some(x@),
                    None => None,
                };
                let fine = has_page && effects_of(text@) is Some;
                let layer = takes_effects(s, id);
                let starts = fine && !old(self).in_flight && layer is Some;
                &&& job is Some <==> starts
                &&& final(self).in_flight == (old(self).in_flight || starts)
                &&& if fine && old(self).in_flight {
                    &&& final(self).pending is Some
                    &&& (final(self).pending->0).id == id
                    &&& (final(self).pending->0).text@ == text@
                } else {
                    final(self).pending == old(self).pending
                }
                &&& starts ==> {
                    let j = job->0;
                    let l = layer->0;
                    &&& j.id == id
                    &&& j.uid@ == uid_text(l.uid)
                    &&& j.base@ == effects_source(l)
                    &&& j.transform == l.transform
                    &&& j.text@ == text@
                    &&& Some(all_of(j.effects@)) == effects_of(text@)
                }
            }),
    {
        if !has_page {
            return None;
        }
        let effects = match parse_effects(text) {
            Some(e) => e,
            None => {
                return None;
            },
        };
        if self.in_flight {
            self.pending = Some(PendingEffects { id, text: text.clone() });
            return None;
        }
        let s = match stack {
            Some(s) => s,
            None => {
                return None;
            },
        };
        let layer = match s.layer(id) {
            Some(l) => l,
            None => {
                return None;
            },
        };
        if layer.kind.is_base() {
            return None;
        }
        assert(layer@.effects.len() == layer.effects@.len());
        let base = if layer.effects.len() == 0 {
            layer.image.copied()
        } else {
            layer.base_image.copied()
        };
        self.in_flight = true;
        Some(
            EffectsJob {
                id,
                uid: uid_to_string(layer.uid),
                base,
                transform: layer.transform,
                text: text.clone(),
                effects,
            },
        )
    }

    /// A rendering ended, well or not: what waits is handed out, and nothing is rendered any more.
    pub fn finished(&mut self) -> (next: Option<PendingEffects>)
        ensures
            !final(self).in_flight,
            final(self).pending is None,
            next == old(self).pending,
    {
        self.in_flight = false;
        self.pending.take()
    }
}

/// The open editor for the effects of a layer.
pub struct EffectsEditor {
    pub id: LayerId,
    pub text: String,
}

/// A frame of the editor: applying closes it and hands its text over; cancelling, or closing its
/// window, closes it.
pub fn close_effects_editor(
    editor: &mut Option<EffectsEditor>,
    apply: bool,
    cancel: bool,
    window_open: bool,
) -> (applied: Option<EffectsEditor>)
    ensures
        applied == if apply {
            *old(editor)
        } else {
            None
        },
        *final(editor) == if apply || cancel || !window_open {
            None
        } else {
            *old(editor)
        },
{
    if apply {
        return editor.take();
    }
    if cancel || !window_open {
        *editor = None;
    }
    None
}

/// The placement of a layer after its effects were rendered: shifted so that its content stays,
/// or as it was where the effects are gone.
pub fn placement_after_effects(has_effects: bool, base: TransformRec, shifted: TransformRec) -> (r:
    TransformRec)
    ensures
        r == if has_effects {
            shifted
        } else {
            base
        },
{
    if has_effects {
        shifted
    } else {
        base
    }
}

/// The node with new effects.  The first effects keep the shown pixels as the base; the removal of
/// effects shows the base again.
pub open spec fn node_with_effects(
    n: NodeView,
    effects: Seq<Json>,
    display: Grid<Color>,
    transform: TransformRec,
) -> NodeView {
    match n.body {
        BodyView::Raster { base_image, display_image, effects: e, base_file, mask_clip } => NodeView {
            body: if effects.len() == 0 {
                BodyView::Raster {
                    base_image,
                    display_image: base_image,
                    effects: Seq::empty(),
                    base_file,
                    mask_clip,
                }
            } else {
                BodyView::Raster {
                    base_image: if e.len() == 0 {
                        display_image
                    } else {
                        base_image
                    },
                    display_image: display,
                    effects,
                    base_file,
                    mask_clip,
                }
            },
            transform,
            generation: if n.generation == u64::MAX {
                0
            } else {
                (n.generation + 1) as u64
            },
            ..n
        },
        BodyView::Text { .. } => n,
    }
}

/// Takes rendered effects over into the node of a layer.
pub fn apply_ps_raster_effects_result(
    node: &mut LayerNode,
    effects: &Vec<serde_json::Value>,
    display: &ColorImage,
    transform: TransformRec,
)
    ensures
        final(node)@ == node_with_effects(old(node)@, all_of(effects@), display@, transform),
{
    let ghost n0 = node@;
    assert(all_of(effects@).len() == effects@.len());
    match &mut node.body {
        NodeBody::Text { .. } => {},
        NodeBody::Raster { base_image, display_image, effects: e, .. } => {
            assert(all_of(e@).len() == e@.len());
            if effects.len() == 0 {
                *display_image = base_image.copied();
                *e = Vec::new();
                assert(all_of(e@) =~= Seq::empty());
            } else {
                if e.len() == 0 {
                    *base_image = display_image.copied();
                }
                *display_image = display.copied();
                *e = copy_documents(effects);
            }
            node.transform = transform;
            node.generation = if node.generation == u64::MAX {
                0
            } else {
                node.generation + 1
            };
        },
    }
}

/// Effects are reversible: whatever effects a layer without any gets, one after the other, their
/// removal shows its pixels again.
pub proof fn removing_effects_restores(
    n: NodeView,
    first: Seq<Json>,
    second: Seq<Json>,
    d1: Grid<Color>,
    d2: Grid<Color>,
    d3: Grid<Color>,
    t: TransformRec,
)
    requires
        n.body is Raster,
        n.body->Raster_effects.len() == 0,
        first.len() > 0,
    ensures
        ({
            let once = node_with_effects(n, first, d1, t);
            let twice = node_with_effects(once, second, d2, t);
            let gone = node_with_effects(twice, Seq::empty(), d3, t);
            &&& gone.body->display_image == n.body->display_image
            &&& gone.body->Raster_effects.len() == 0
            &&& once.body->Raster_base_image == n.body->display_image
        }),
{
}

} // verus!
