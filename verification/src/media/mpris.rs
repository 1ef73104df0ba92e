//! MPRIS players: what their properties say is playing.

use vstd::prelude::*;
use super::{MediaInfo, PlaybackStatus, PlayerId, mpris_display_name};
use crate::text::{copy_opt_string, copy_string, opt_view, str_eq};

verus! {

/// The track metadata that a player publishes, as plain values.
pub struct MprisMetadata {
    /// `xesam:title`
    pub title: Option<String>,
    /// `xesam:artist`
    pub artists: Option<Vec<String>>,
    /// `xesam:album`
    pub album: Option<String>,
    /// `mpris:artUrl`
    pub art_url: Option<String>,
    /// `xesam:url`
    pub url: Option<String>,
    /// `mpris:length`, in microseconds.
    pub length: Option<i64>,
}

/// The player properties that the widget reads, as plain values.
pub struct MprisProperties {
    pub metadata: Option<MprisMetadata>,
    pub playback_status: Option<String>,
    /// `Position`, in microseconds.
    pub position: Option<i64>,
    pub can_control: Option<bool>,
    pub can_play: Option<bool>,
    pub can_pause: Option<bool>,
    pub can_go_next: Option<bool>,
    pub can_go_previous: Option<bool>,
    pub can_seek: Option<bool>,
}

pub open spec fn text_or_empty(s: Option<String>) -> Seq<char> {
    match s {
        Some(v) => v@,
        None => Seq::empty(),
    }
}

pub open spec fn flag_or(b: Option<bool>, default: bool) -> bool {
    match b {
        Some(v) => v,
        None => default,
    }
}

/// Microseconds as milliseconds; negative and missing values are zero.
pub open spec fn micros_to_millis(v: Option<i64>) -> u64 {
    match v {
        Some(x) => if x > 0 { (x / 1000) as u64 } else { 0 },
        None => 0,
    }
}

pub open spec fn status_of(s: Option<String>) -> PlaybackStatus {
    match s {
        Some(v) => if v@ == "Playing"@ {
            PlaybackStatus::Playing
        } else if v@ == "Paused"@ {
            PlaybackStatus::Paused
        } else {
            PlaybackStatus::Stopped
        },
        None => PlaybackStatus::Stopped,
    }
}

fn micros_to_millis_exec(v: Option<i64>) -> (r: u64)
    ensures
        r == micros_to_millis(v),
{
    match v {
        Some(x) => if x > 0 { (x as u64) / 1000 } else { 0 },
        None => 0,
    }
}

fn text_or_empty_exec(s: &Option<String>) -> (r: String)
    ensures
        r@ == text_or_empty(*s),
{
    match s {
        Some(v) => copy_string(v),
        None => String::new(),
    }
}

/// What a player's properties say it plays; none without metadata or a
/// title. Capabilities are granted unless the player says otherwise (seeking
/// only when it says so), and nothing is controllable when `CanControl` is
/// false.
pub fn media_info_from_properties(bus_name: &str, properties: &MprisProperties) -> (r: Option<MediaInfo>)
    ensures
        r is Some <==> (properties.metadata matches Some(m) && text_or_empty(m.title).len() > 0),
        r matches Some(info) ==> ({
            let m = properties.metadata->0;
            let control = flag_or(properties.can_control, true);
            &&& info.player_name@ == mpris_display_name(bus_name@)
            &&& info.title@ == text_or_empty(m.title)
            &&& info.artist@ == match m.artists {
                Some(a) => if a@.len() > 0 { a@[0]@ } else { Seq::empty() },
                None => Seq::empty(),
            }
            &&& info.album@ == text_or_empty(m.album)
            &&& info.art_url == m.art_url
            &&& info.media_url == m.url
            &&& info.status == status_of(properties.playback_status)
            &&& info.position == micros_to_millis(properties.position)
            &&& info.duration == micros_to_millis(m.length)
            &&& info.can_play == (control && flag_or(properties.can_play, true))
            &&& info.can_pause == (control && flag_or(properties.can_pause, true))
            &&& info.can_go_next == (control && flag_or(properties.can_go_next, true))
            &&& info.can_go_previous == (control && flag_or(properties.can_go_previous, true))
            &&& info.can_seek == (control && flag_or(properties.can_seek, false))
        }),
{
    let m = match &properties.metadata {
        Some(m) => m,
        None => {
            return None;
        },
    };
    let title = text_or_empty_exec(&m.title);
    if title.as_str().unicode_len() == 0 {
        return None;
    }
    let status = match &properties.playback_status {
        Some(v) => {
            if str_eq(v.as_str(), "Playing") {
                PlaybackStatus::Playing
            } else if str_eq(v.as_str(), "Paused") {
                PlaybackStatus::Paused
            } else {
                PlaybackStatus::Stopped
            }
        },
        None => PlaybackStatus::Stopped,
    };
    let control = match properties.can_control {
        Some(v) => v,
        None => true,
    };
    let artist = match &m.artists {
        Some(a) => if a.len() > 0 { copy_string(&a[0]) } else { String::new() },
        None => String::new(),
    };
    let player = PlayerId::Mpris(bus_name.to_string());
    Some(
        MediaInfo {
            player_name: player.display_name(),
            title,
            artist,
            album: text_or_empty_exec(&m.album),
            art_url: copy_opt_string(&m.art_url),
            media_url: copy_opt_string(&m.url),
            status,
            position: micros_to_millis_exec(properties.position),
            duration: micros_to_millis_exec(m.length),
            can_play: control && match properties.can_play {
                Some(v) => v,
                None => true,
            },
            can_pause: control && match properties.can_pause {
                Some(v) => v,
                None => true,
            },
            can_go_next: control && match properties.can_go_next {
                Some(v) => v,
                None => true,
            },
            can_go_previous: control && match properties.can_go_previous {
                Some(v) => v,
                None => true,
            },
            can_seek: control && match properties.can_seek {
                Some(v) => v,
                None => false,
            },
        },
    )
}

} // verus!
