pub mod autoclean;
pub mod band_moves;
pub mod bands;
pub mod blank;
pub mod brush_base;
pub mod brush_laws;
pub mod canvas;
pub mod canvas_laws;
pub mod cleaning_laws;
pub mod cleaning_tab;
pub mod color;
pub mod components;
pub mod composite;
pub mod doc_sync;
pub mod draw_plan;
pub mod edit_laws;
pub mod edit_op;
pub mod editor_laws;
pub mod effects;
pub mod float_bits;
pub mod fill_laws;
pub mod flood;
pub mod ident;
pub mod job_laws;
pub mod jobs;
pub mod json;
pub mod layer_doc;
pub mod layer_ops;
pub mod layers;
pub(crate) mod lists;
pub mod mask;
pub mod number_laws;
pub mod order;
pub mod order_laws;
pub mod overlay_rect;
pub mod page_laws;
pub mod page_session;
pub mod panel;
pub mod panel_actions;
pub mod panel_laws;
pub mod panel_rows;
pub mod ps_tab;
pub mod ps_tools;
pub mod quick_clean;
pub mod raster;
pub mod raster_edits;
pub mod ratio;
pub mod region_edit;
pub mod region_image;
pub mod region_inpaint;
pub mod region_laws;
pub mod selection_ops;
pub mod settings;
pub mod stack_laws;
pub mod strokes;
pub mod sync_laws;
pub mod tab_laws;
pub mod text;
pub mod text_layers;
pub mod text_mask;
pub mod tiles;
pub mod unified_order;
pub mod zamazka;
