//! The logic of a monitor for keyboard radio modes: which stations are being
//! heard and what they said, when the receivers are run and on what, how the
//! operator's dial, view and clears behave, and what the devices on offer are
//! called.
//!
//! Times are whole [`modes::Ticks`], audio frequencies whole thousandths of a
//! hertz.

pub mod calendar;
pub mod calendar_laws;
pub mod capture;
pub mod capture_laws;
pub mod channel;
pub mod channel_laws;
pub mod channels;
pub mod choices;
pub mod colormap;
pub mod continuous;
pub mod continuous_laws;
pub mod cycles;
pub mod demo;
pub mod devices;
pub mod devices_laws;
pub mod dial;
pub mod dial_laws;
pub mod drawing;
pub mod find;
pub mod health;
pub mod joining_laws;
pub mod listening;
pub mod modes;
pub mod order;
pub mod over_laws;
pub mod pane;
pub mod playback;
pub mod playback_laws;
pub mod reporting_laws;
pub mod rig;
pub mod rows;
pub mod rows_laws;
pub mod scan_laws;
pub mod schedule;
pub mod schedule_laws;
pub mod screen_laws;
pub mod settings;
pub mod slides;
pub mod startup;
pub mod text;
pub mod text_laws;
pub mod theme;
pub mod tracking_laws;
pub mod transmit;
pub mod transmit_laws;
pub mod transport;
pub mod tuning;
pub mod tuning_laws;
pub mod view;
pub mod view_laws;
pub mod watch;
pub mod waterfall;
pub mod waterfall_laws;
pub mod words;
