//! The logic of perch, a desktop Twitch client, as verified functions.
//!
//! Everything here works on plain values: what was typed, what Twitch or
//! streamlink answered, what the player reported. The windows, the processes,
//! the files and the network are the application's.

pub mod text;
pub mod double;
pub mod weighed;
pub mod seconds;
pub mod span;
pub mod moment;
pub mod settings;
pub mod target;
pub mod helix;
pub mod browse;
pub mod channel_page;
pub mod palette;
pub mod watch;
pub mod twitch;
pub mod browsing;
pub mod layout;
pub mod panes;
pub mod follows;
pub mod notices;
pub mod keys;
pub mod assets;
pub mod sidebar;
pub mod shell;
pub mod screen;
pub mod launch;
pub mod clock;
pub mod chat;
pub mod seek_bar;
pub mod video;
pub mod player;
pub mod vod;
pub mod cpu_log;
pub mod sampler;
pub mod quality;
pub mod playlist;
pub mod rewritten;
pub mod streamlink;
pub mod worker;
