//! A floating, fuzzy-matching tab picker for terminal multiplexers.
//!
//! The picker is a state machine: the host feeds it events
//! ([`state::State::update`]), takes the calls it asks for
//! ([`state::State::take_calls`]) and prints what it draws
//! ([`state::State::render`]). What each event makes of the state is the
//! subject of [`model`]; what holds of the whole is stated in the modules whose
//! names end in `laws`.

pub mod approx;
pub mod edits;
pub mod event_laws;
pub mod events;
pub mod fuzzy;
pub mod key_laws;
pub mod layout;
pub mod list_laws;
pub mod model;
pub mod names;
pub mod pane_laws;
pub mod render;
pub mod render_laws;
pub mod screen_laws;
pub mod search;
pub mod search_laws;
pub mod sort;
pub mod state;
pub mod state_laws;
pub mod style;
pub mod tabs;
pub mod text;
pub mod timer_laws;
pub mod timers;
pub mod width;
