//! The texts of a page as layers.

use vstd::prelude::*;
use crate::color::ColorImage;
#[allow(unused_imports)]
use crate::color::Color;
#[allow(unused_imports)]
use crate::ident::opt_text;
#[allow(unused_imports)]
use crate::layers::{deform_view, DeformView};
use crate::layers::{DeformRec, LayerTransform};
#[allow(unused_imports)]
use crate::raster::Grid;

verus! {

/// A text of a page.
pub struct PsTextLayer {
    pub uid: String,
    pub name: String,
    pub visible: bool,
    /// The group of texts that it belongs to when it has no place of its own.
    pub layer_idx: u32,
    pub group_uid: Option<String>,
    /// The text has a place of its own in the order of the layers.
    pub pinned: bool,
    /// That place was given for the sake of a group.
    pub pinned_by_group: bool,
    pub text_content: String,
    pub image: ColorImage,
    pub transform: LayerTransform,
    pub deform: Option<DeformRec>,
    /// The picture is on the graphics card.
    pub uploaded: bool,
}

/// A text as a mathematical value.
#[verifier::ext_equal]
pub struct TextView {
    pub uid: Seq<char>,
    pub name: Seq<char>,
    pub visible: bool,
    pub layer_idx: u32,
    pub group_uid: Option<Seq<char>>,
    pub pinned: bool,
    pub pinned_by_group: bool,
    pub text_content: Seq<char>,
    pub image: Grid<Color>,
    pub transform: LayerTransform,
    pub deform: Option<DeformView>,
    pub uploaded: bool,
}

impl View for PsTextLayer {
    type V = TextView;

    open spec fn view(&self) -> TextView {
        TextView {
            uid: self.uid@,
            name: self.name@,
            visible: self.visible,
            layer_idx: self.layer_idx,
            group_uid: opt_text(self.group_uid),
            pinned: self.pinned,
            pinned_by_group: self.pinned_by_group,
            text_content: self.text_content@,
            image: self.image@,
            transform: self.transform,
            deform: deform_view(self.deform),
            uploaded: self.uploaded,
        }
    }
}

pub open spec fn text_views(v: Seq<PsTextLayer>) -> Seq<TextView> {
    v.map_values(|t: PsTextLayer| t@)
}

} // verus!
