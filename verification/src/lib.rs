//! The logic of an FT8 and FT4 station: what is heard, who is worked next, and what is logged.

pub mod adif;
pub mod adif_status;
pub mod api;
pub mod bandmap;
pub mod clock;
pub mod control;
pub mod decode_log;
pub mod dispatch;
pub mod exchange;
pub mod floats;
pub mod history;
pub mod lines;
pub mod log_record;
pub mod message;
pub mod qso;
pub mod queue;
pub mod queue_laws;
pub mod rank;
pub mod receiver;
pub mod rig;
pub mod rig_steps;
pub mod rows;
pub mod scheduler;
pub mod screen;
pub mod sessions;
pub mod slots;
pub mod text;
pub mod text_map;
pub mod tracker;
pub mod tracker_laws;
pub mod waterfall;
pub mod web;
pub mod worked;
