//! The logic of a game editor, stated and proved.

pub mod json;
pub mod key_sets;
pub mod lanes;
pub mod lists;
pub mod number_words;
pub mod order;
pub mod paths;
pub mod scene_tab;
pub mod script_actions;
pub mod script_meta;
pub mod selection;
pub mod settings_retro;
pub mod settings_ui;
pub mod shader_graph;
pub mod shader_graph_acts;
pub mod shader_graph_view;
pub mod shader_palette;
pub mod shader_preview;
pub mod shaders;
pub mod shading;
pub mod shadow;
pub mod ship;
pub mod ship_run;
pub mod shot;
pub mod shot_run;
pub mod space;
pub mod space_tick;
pub mod sprite2d;
pub mod steam_boot;
pub mod system_gen;
pub mod table;
pub mod text;
pub mod viewport_marks;
