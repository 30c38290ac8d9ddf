pub mod anki_due;
pub mod anki_review;
pub mod arxiv_laws;
pub mod arxiv_watch;
pub mod clock;
pub mod context_engine;
pub mod context_snapshot;
pub mod cuts;
pub mod escalation;
pub mod events;
pub mod figures;
pub mod focus;
pub mod ideation;
pub mod ids;
pub mod interruption;
pub mod json;
pub mod latex_status;
pub mod notifications;
pub mod order;
pub mod palette;
pub mod paths;
pub mod proc_sniper;
pub mod project_pulse;
pub mod projects;
pub mod random;
pub mod reference_library;
pub mod remote;
pub mod rubber_duck;
pub mod seqs;
pub mod session_timer;
pub mod signals;
pub mod stdtext;
pub mod sway;
pub mod text;
pub mod textmap;
pub mod time;
pub mod utf8;
