//! The rules behind the Sounding workbench: command lines, the runtime bus,
//! the voxel editor, chunk streaming, replay, input injection and the scenes'
//! discrete state, each stated as a contract and proved.

pub mod bodies;
pub mod bus;
pub mod cameras;
pub mod check_cli;
pub mod contact;
pub mod craft_library;
pub mod debug_control;
pub mod dive;
pub mod drawing;
pub mod editor;
pub mod export_cli;
pub mod flight;
pub mod gallery;
pub mod gamepad;
pub mod harbor;
pub mod harness_fixture;
pub mod input;
pub mod input_inject;
pub mod net;
pub mod overlay;
pub mod palette;
pub mod pause;
pub mod quadtree;
pub mod raycast;
pub mod readout;
pub mod replay;
pub mod rooms;
pub mod rover;
pub mod scenes;
pub mod seq_facts;
pub mod shapes;
pub mod sparkline;
pub mod stepping;
pub mod surface_stream;
pub mod text;
pub mod views;
pub mod voxel;
