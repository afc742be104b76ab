//! Mechanix homescreen and compositor logic.
//!
//! The homescreen: grid geometry and reflow (`grid`), pages (`pages`), the
//! edit chrome (`chrome`), the layout file and its matching against the
//! screen (`config`, `reload`), desktop entries (`desktop`), the gesture
//! state machine (`home`) and what a drag keeps and a cancel restores
//! (`drag`), widget processes and surfaces (`widgets`), what is painted
//! (`scene`) and the file watch (`watch`).
//!
//! The compositor: the per-output window stack and placement (`layout`),
//! input routing and focus (`focus`), the drawing order (`stacking`), key
//! bindings (`shortcuts`), output power (`output_power`), new outputs
//! (`output_setup`), frame pacing (`pacing`) and the device-state protocol
//! (`device_state`).

pub mod geometry;
pub mod text;

pub mod chrome;
pub mod config;
pub mod desktop;
pub mod drag;
pub mod grid;
pub mod home;
pub mod pages;
pub mod reload;
pub mod scene;
pub mod watch;
pub mod widgets;

pub mod device_state;
pub mod focus;
pub mod layout;
pub mod output_power;
pub mod output_setup;
pub mod pacing;
pub mod shortcuts;
pub mod stacking;
