//! The application configuration: where videos go, where the cache lives,
//! which players are tried and which extra channels are followed. Reading
//! the configuration file is the surrounding program's work; the defaults
//! that stand in when there is none are pinned down here.

use vstd::prelude::*;

verus! {

/// The configuration the session runs under.
pub struct AppConfig {
    pub video_path: String,
    pub cache_path: String,
    pub youtubedl_format: String,
    pub video_extension: String,
    /// Candidate players, each a binary path followed by its arguments; the
    /// first whose binary exists is used.
    pub players: Vec<Vec<String>>,
    /// Extra channel identifiers followed beside the subscription document.
    pub channel_ids: Vec<String>,
    pub mpv_mode: bool,
    pub mpv_path: String,
}

/// Whether mpv is preferred when no configuration says otherwise.
pub fn default_mpv_mode() -> (r: bool)
    ensures
        r == true,
{
    true
}

/// The mpv binary looked for when no configuration names one.
pub fn default_mpv_path() -> (r: String)
    ensures
        r@ == "/usr/bin/mpv"@,
{
    "/usr/bin/mpv".to_owned()
}

/// One player candidate: a binary and its fixed arguments.
fn player(binary: &str, arg1: &str, arg2: &str) -> (r: Vec<String>)
    ensures
        r@.len() == 3,
        r@[0]@ == binary@,
        r@[1]@ == arg1@,
        r@[2]@ == arg2@,
{
    let mut p: Vec<String> = Vec::new();
    p.push(binary.to_owned());
    p.push(arg1.to_owned());
    p.push(arg2.to_owned());
    p
}

impl Default for AppConfig {
    /// The configuration used when none can be read: temporary paths, a
    /// small download format, the well-known players in preference order,
    /// no extra channels, and mpv mode on.
    fn default() -> (r: AppConfig)
        ensures
            r.video_path@ == "/tmp"@,
            r.cache_path@ == "/tmp/yts.json"@,
            r.youtubedl_format@ == "[height <=? 360][ext = mp4]"@,
            r.video_extension@ == "mp4"@,
            r.players@.len() == 5,
            r.players@[0]@.len() == 3 && r.players@[0]@[0]@ == "/usr/bin/omxplayer"@
                && r.players@[0]@[1]@ == "-o"@ && r.players@[0]@[2]@ == "local"@,
            r.players@[1]@.len() == 3 && r.players@[1]@[0]@
                == "/Applications/VLC.app/Contents/MacOS/VLC"@ && r.players@[1]@[1]@
                == "--play-and-exit"@ && r.players@[1]@[2]@ == "-f"@,
            r.players@[2]@.len() == 3 && r.players@[2]@[0]@ == "/usr/bin/vlc"@
                && r.players@[2]@[1]@ == "--play-and-exit"@ && r.players@[2]@[2]@ == "-f"@,
            r.players@[3]@.len() == 3 && r.players@[3]@[0]@ == "/usr/bin/mpv"@
                && r.players@[3]@[1]@ == "-really-quiet"@ && r.players@[3]@[2]@ == "-fs"@,
            r.players@[4]@.len() == 3 && r.players@[4]@[0]@ == "/usr/bin/mplayer"@
                && r.players@[4]@[1]@ == "-really-quiet"@ && r.players@[4]@[2]@ == "-fs"@,
            r.channel_ids@.len() == 0,
            r.mpv_mode == true,
            r.mpv_path@ == "/usr/bin/mpv"@,
    {
        let mut players: Vec<Vec<String>> = Vec::new();
        players.push(player("/usr/bin/omxplayer", "-o", "local"));
        players.push(player("/Applications/VLC.app/Contents/MacOS/VLC", "--play-and-exit", "-f"));
        players.push(player("/usr/bin/vlc", "--play-and-exit", "-f"));
        players.push(player("/usr/bin/mpv", "-really-quiet", "-fs"));
        players.push(player("/usr/bin/mplayer", "-really-quiet", "-fs"));
        AppConfig {
            video_path: "/tmp".to_owned(),
            cache_path: "/tmp/yts.json".to_owned(),
            youtubedl_format: "[height <=? 360][ext = mp4]".to_owned(),
            video_extension: "mp4".to_owned(),
            players,
            channel_ids: Vec::new(),
            mpv_mode: default_mpv_mode(),
            mpv_path: default_mpv_path(),
        }
    }
}

} // verus!
