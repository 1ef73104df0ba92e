//! Media players: their identities, the playback position the widget shows
//! between samples, and which player the widget shows.

pub mod cider;
pub mod emby;
pub mod mpris;

use vstd::prelude::*;
use crate::battery::store::KeyedStore;
use crate::text::{
    append_chars, append_str, chars_of, copy_opt_string, copy_string, decimal, decimal2,
    eq_ignore_case, eq_ignore_case_str, opt_string_eq, opt_view, seq_eq, split_chars, split_on,
    str_eq, string_of, trim, views,
};

verus! {

broadcast use vstd::seq_lib::group_seq_properties;

/// Whether a player plays.
#[derive(Debug, Clone, Copy, PartialEq, Eq, Structural)]
pub enum PlaybackStatus {
    Playing,
    Paused,
    /// No track, or the player stopped.
    Stopped,
}

impl Default for PlaybackStatus {
    fn default() -> (r: Self)
        ensures
            r == PlaybackStatus::Stopped,
    {
        PlaybackStatus::Stopped
    }
}

/// A media player.
#[derive(Debug, Clone, PartialEq, Eq, Hash)]
pub enum PlayerId {
    /// Cider (Apple Music), through its REST API.
    Cider,
    /// An Emby Theater session.
    Emby(String),
    /// An MPRIS player, by its bus name.
    Mpris(String),
}

/// A key that tells players apart: a tag and the name.
pub open spec fn player_key(p: PlayerId) -> Seq<char> {
    match p {
        PlayerId::Cider => "c:"@,
        PlayerId::Emby(s) => "e:"@ + s@,
        PlayerId::Mpris(s) => "m:"@ + s@,
    }
}

pub open spec fn same_player(a: PlayerId, b: PlayerId) -> bool {
    match (a, b) {
        (PlayerId::Cider, PlayerId::Cider) => true,
        (PlayerId::Emby(x), PlayerId::Emby(y)) => x@ == y@,
        (PlayerId::Mpris(x), PlayerId::Mpris(y)) => x@ == y@,
        _ => false,
    }
}

proof fn lemma_tagged_eq(t: Seq<char>, u: Seq<char>, x: Seq<char>, y: Seq<char>)
    requires
        t.len() == 2,
        u.len() == 2,
    ensures
        (t + x == u + y) <==> (t == u && x == y),
{
    if t + x == u + y {
        assert(t =~= (t + x).take(2));
        assert(u =~= (u + y).take(2));
        assert(x =~= (t + x).skip(2));
        assert(y =~= (u + y).skip(2));
    }
}

/// Two players have the same key exactly when they are the same player, so
/// that a store keyed by `player_key` holds one entry per player.
pub proof fn law_keys_identify_players(a: PlayerId, b: PlayerId)
    ensures
        (player_key(a) == player_key(b)) <==> same_player(a, b),
{
    reveal_strlit("c:");
    reveal_strlit("e:");
    reveal_strlit("m:");
    match (a, b) {
        (PlayerId::Cider, PlayerId::Cider) => {},
        (PlayerId::Cider, PlayerId::Emby(y)) => {
            assert(player_key(a).len() == 2);
            if player_key(a) == player_key(b) {
                assert(player_key(b)[1] == ':');
                assert(player_key(b)[0] == 'e');
            }
        },
        (PlayerId::Cider, PlayerId::Mpris(y)) => {
            if player_key(a) == player_key(b) {
                assert(player_key(b)[0] == 'm');
            }
        },
        (PlayerId::Emby(x), PlayerId::Cider) => {
            if player_key(a) == player_key(b) {
                assert(player_key(a)[0] == 'e');
            }
        },
        (PlayerId::Mpris(x), PlayerId::Cider) => {
            if player_key(a) == player_key(b) {
                assert(player_key(a)[0] == 'm');
            }
        },
        (PlayerId::Emby(x), PlayerId::Emby(y)) => lemma_tagged_eq("e:"@, "e:"@, x@, y@),
        (PlayerId::Mpris(x), PlayerId::Mpris(y)) => lemma_tagged_eq("m:"@, "m:"@, x@, y@),
        (PlayerId::Emby(x), PlayerId::Mpris(y)) => {
            lemma_tagged_eq("e:"@, "m:"@, x@, y@);
            assert("e:"@[0] != "m:"@[0]);
        },
        (PlayerId::Mpris(x), PlayerId::Emby(y)) => {
            lemma_tagged_eq("m:"@, "e:"@, x@, y@);
            assert("e:"@[0] != "m:"@[0]);
        },
    }
}

impl PlayerId {
    pub fn copy(&self) -> (r: PlayerId)
        ensures
            r == *self,
    {
        match self {
            PlayerId::Cider => PlayerId::Cider,
            PlayerId::Emby(s) => PlayerId::Emby(copy_string(s)),
            PlayerId::Mpris(s) => PlayerId::Mpris(copy_string(s)),
        }
    }

    /// The key that tells this player apart from others.
    pub fn key(&self) -> (r: String)
        ensures
            r@ == player_key(*self),
    {
        match self {
            PlayerId::Cider => crate::text::owned("c:"),
            PlayerId::Emby(s) => {
                let mut v = chars_of("e:");
                append_str(&mut v, s.as_str());
                string_of(&v)
            },
            PlayerId::Mpris(s) => {
                let mut v = chars_of("m:");
                append_str(&mut v, s.as_str());
                string_of(&v)
            },
        }
    }

    /// Whether two identities name the same player.
    pub fn same(&self, other: &PlayerId) -> (r: bool)
        ensures
            r == same_player(*self, *other),
    {
        match (self, other) {
            (PlayerId::Cider, PlayerId::Cider) => true,
            (PlayerId::Emby(x), PlayerId::Emby(y)) => str_eq(x.as_str(), y.as_str()),
            (PlayerId::Mpris(x), PlayerId::Mpris(y)) => str_eq(x.as_str(), y.as_str()),
            _ => false,
        }
    }
}

/// What `char::to_uppercase` yields for `c`; a function of `c` alone (the
/// Unicode case tables of the standard library).
pub uninterp spec fn char_uppercase(c: char) -> Seq<char>;

/// `char::to_uppercase`, collected. Claimed of the standard library: the
/// result is `char_uppercase(c)`, and for an ASCII lower-case letter it is
/// the matching upper-case letter, as its documentation says.
#[verifier::external_body]
fn uppercase(c: char) -> (r: Vec<char>)
    ensures
        r@ == char_uppercase(c),
        'a' <= c <= 'z' ==> r@ == seq![((c as u32) - 32) as char],
{
    c.to_uppercase().collect()
}

/// The name the widget shows for an MPRIS bus name: its fourth
/// dot-separated part, with the first letter in upper case.
pub open spec fn mpris_display_name(name: Seq<char>) -> Seq<char> {
    let parts = split_on(name, '.');
    if parts.len() >= 4 {
        let part = parts[3];
        if part.len() == 0 {
            part
        } else {
            char_uppercase(part[0]) + part.drop_first()
        }
    } else {
        name
    }
}

/// The name the widget shows for a player.
pub open spec fn display_name_of(p: PlayerId) -> Seq<char> {
    match p {
        PlayerId::Cider => "Cider"@,
        PlayerId::Emby(_) => "Emby"@,
        PlayerId::Mpris(name) => mpris_display_name(name@),
    }
}

impl PlayerId {
    /// The player's name for the widget ("org.mpris.MediaPlayer2.firefox.instance_1"
    /// becomes "Firefox").
    pub fn display_name(&self) -> (r: String)
        ensures
            r@ == display_name_of(*self),
    {
        match self {
            PlayerId::Cider => crate::text::owned("Cider"),
            PlayerId::Emby(_) => crate::text::owned("Emby"),
            PlayerId::Mpris(name) => {
                let parts = split_chars(&chars_of(name.as_str()), '.');
                if parts.len() >= 4 {
                    let part = &parts[3];
                    assert(views(parts@)[3] == part@);
                    if part.len() == 0 {
                        string_of(part)
                    } else {
                        let mut out = uppercase(part[0]);
                        let mut i: usize = 1;
                        while i < part.len()
                            invariant
                                1 <= i <= part@.len(),
                                out@ == char_uppercase(part@[0]) + part@.subrange(1, i as int),
                            decreases part@.len() - i,
                        {
                            out.push(part[i]);
                            i += 1;
                            assert(out@ =~= char_uppercase(part@[0]) + part@.subrange(1, i as int));
                        }
                        assert(part@.subrange(1, part@.len() as int) =~= part@.drop_first());
                        string_of(&out)
                    }
                } else {
                    copy_string(name)
                }
            },
        }
    }
}

// ---------------------------------------------------------------------------
// Media information
// ---------------------------------------------------------------------------

/// What a player is playing (its artwork stays with the caller).
#[derive(Debug, Clone, PartialEq, Eq)]
pub struct MediaInfo {
    pub player_name: String,
    pub title: String,
    pub artist: String,
    pub album: String,
    /// Artwork URL that the player reported.
    pub art_url: Option<String>,
    /// URI of the media itself (to tell tracks apart and find video artwork).
    pub media_url: Option<String>,
    pub status: PlaybackStatus,
    /// Position in milliseconds.
    pub position: u64,
    /// Duration in milliseconds (0 when unknown).
    pub duration: u64,
    pub can_play: bool,
    pub can_pause: bool,
    pub can_go_next: bool,
    pub can_go_previous: bool,
    pub can_seek: bool,
}

pub open spec fn minutes_seconds(ms: u64) -> Seq<char> {
    decimal((ms / 1000 / 60) as nat) + ":"@ + decimal2((ms / 1000 % 60) as nat)
}

impl MediaInfo {
    pub fn copy(&self) -> (r: MediaInfo)
        ensures
            r == *self,
    {
        MediaInfo {
            player_name: copy_string(&self.player_name),
            title: copy_string(&self.title),
            artist: copy_string(&self.artist),
            album: copy_string(&self.album),
            art_url: copy_opt_string(&self.art_url),
            media_url: copy_opt_string(&self.media_url),
            status: self.status,
            position: self.position,
            duration: self.duration,
            can_play: self.can_play,
            can_pause: self.can_pause,
            can_go_next: self.can_go_next,
            can_go_previous: self.can_go_previous,
            can_seek: self.can_seek,
        }
    }

    /// Whether a track is loaded: a player name and a title.
    pub fn is_active(&self) -> (r: bool)
        ensures
            r == (self.player_name@.len() > 0 && self.title@.len() > 0),
    {
        self.player_name.as_str().unicode_len() > 0 && self.title.as_str().unicode_len() > 0
    }

    /// The position as minutes and two-digit seconds.
    pub fn position_str(&self) -> (r: String)
        ensures
            r@ == minutes_seconds(self.position),
    {
        crate::overlay::format_media_time(self.position)
    }

    /// The duration as minutes and two-digit seconds.
    pub fn duration_str(&self) -> (r: String)
        ensures
            r@ == minutes_seconds(self.duration),
    {
        crate::overlay::format_media_time(self.duration)
    }
}

/// What tells one track from another.
#[derive(Debug, Clone, PartialEq, Eq)]
pub struct TrackSignature {
    pub title: String,
    pub artist: String,
    pub media_url: Option<String>,
}

pub open spec fn same_track(a: TrackSignature, b: TrackSignature) -> bool {
    a.title@ == b.title@ && a.artist@ == b.artist@ && opt_view(a.media_url) == opt_view(b.media_url)
}

pub open spec fn track_of(info: MediaInfo) -> TrackSignature {
    TrackSignature { title: info.title, artist: info.artist, media_url: info.media_url }
}

impl TrackSignature {
    pub fn of(info: &MediaInfo) -> (r: TrackSignature)
        ensures
            r == track_of(*info),
    {
        TrackSignature {
            title: copy_string(&info.title),
            artist: copy_string(&info.artist),
            media_url: copy_opt_string(&info.media_url),
        }
    }

    pub fn same(&self, other: &TrackSignature) -> (r: bool)
        ensures
            r == same_track(*self, *other),
    {
        str_eq(self.title.as_str(), other.title.as_str()) && str_eq(
            self.artist.as_str(),
            other.artist.as_str(),
        ) && opt_string_eq(&self.media_url, &other.media_url)
    }
}

// ---------------------------------------------------------------------------
// Playback position between samples
// ---------------------------------------------------------------------------

/// The last sample of a player's position, and the position the widget showed.
#[derive(Debug, Clone, PartialEq, Eq)]
pub struct PositionTracker {
    pub track: TrackSignature,
    /// The position the player reported.
    pub raw_position: u64,
    /// The position the widget showed.
    pub position: u64,
    pub duration: u64,
    /// When it was sampled, in milliseconds of a monotonic clock.
    pub sampled_at: u64,
    pub status: PlaybackStatus,
}

impl PositionTracker {
    pub fn copy(&self) -> (r: PositionTracker)
        ensures
            r == *self,
    {
        PositionTracker {
            track: TrackSignature {
                title: copy_string(&self.track.title),
                artist: copy_string(&self.track.artist),
                media_url: copy_opt_string(&self.track.media_url),
            },
            raw_position: self.raw_position,
            position: self.position,
            duration: self.duration,
            sampled_at: self.sampled_at,
            status: self.status,
        }
    }
}

pub open spec fn sat_add(a: u64, b: u64) -> u64 {
    if a + b > u64::MAX { u64::MAX } else { (a + b) as u64 }
}

pub open spec fn abs_diff(a: u64, b: u64) -> u64 {
    if a >= b { (a - b) as u64 } else { (b - a) as u64 }
}

/// The position to show for a new sample of the same track: the reported one
/// when it moved, else the previous one advanced by the time played, with a
/// paused player's small forward drift ignored.
pub open spec fn tracked_position(p: PositionTracker, info: MediaInfo, now: u64) -> u64 {
    let raw = info.position;
    let elapsed: u64 = if now >= p.sampled_at { (now - p.sampled_at) as u64 } else { 0 };
    let predicted = if p.status == PlaybackStatus::Playing {
        sat_add(p.position, elapsed)
    } else {
        p.position
    };
    let raw_changed = raw != p.raw_position;
    let incomplete = info.duration == 0 && raw == 0 && p.duration > 0;
    if incomplete {
        predicted
    } else {
        match (p.status, info.status) {
            (PlaybackStatus::Stopped, PlaybackStatus::Playing) => raw,
            (_, PlaybackStatus::Playing) => if raw_changed { raw } else { predicted },
            (PlaybackStatus::Playing, PlaybackStatus::Paused) => if raw_changed {
                raw
            } else {
                predicted
            },
            (PlaybackStatus::Paused, PlaybackStatus::Paused) => if raw_changed {
                if raw > p.raw_position && abs_diff(abs_diff(raw, p.raw_position), elapsed) <= 500 {
                    p.position
                } else {
                    raw
                }
            } else {
                p.position
            },
            (_, _) => raw,
        }
    }
}

/// The sample after the widget takes `info` at `now`, with the tracker it had.
pub open spec fn sampled(prev: Option<PositionTracker>, info: MediaInfo, now: u64) -> MediaInfo {
    let same = prev matches Some(p) && same_track(p.track, track_of(info));
    let duration = if same && info.duration == 0 { prev->0.duration } else { info.duration };
    let position = if same { tracked_position(prev->0, info, now) } else { info.position };
    MediaInfo {
        duration,
        position: if duration > 0 && position > duration { duration } else { position },
        ..info
    }
}

/// What a new sample shows. The position never passes a known duration.
/// The first sample of a track shows what the player reported. For the same
/// track: a missing duration is kept from before; a player that keeps
/// playing and reports the same position again is shown advanced by the time
/// since the last sample; a player that stays paused at the same reported
/// position stays where it was shown; a player that now stops shows what it
/// reports. Everything else in the sample is kept as reported.
pub proof fn law_position_tracking(prev: Option<PositionTracker>, info: MediaInfo, now: u64)
    ensures
        ({
            let out = sampled(prev, info, now);
            &&& out.duration > 0 ==> out.position <= out.duration
            &&& out.title == info.title && out.artist == info.artist && out.album == info.album
            &&& out.status == info.status && out.player_name == info.player_name
            &&& out.art_url == info.art_url && out.media_url == info.media_url
            &&& !(prev matches Some(p) && same_track(p.track, track_of(info))) ==> {
                &&& out.duration == info.duration
                &&& out.position == if info.duration > 0 && info.position > info.duration {
                    info.duration
                } else {
                    info.position
                }
            }
        }),
        prev matches Some(p) && same_track(p.track, track_of(info)) ==> {
            let out = sampled(prev, info, now);
            let p = prev->0;
            let clamp = |x: u64| if out.duration > 0 && x > out.duration { out.duration } else { x };
            &&& out.duration == if info.duration == 0 { p.duration } else { info.duration }
            &&& (info.duration > 0 && p.status == PlaybackStatus::Playing && info.status
                == PlaybackStatus::Playing && info.position == p.raw_position && now >= p.sampled_at)
                ==> out.position == clamp(
                if p.position + (now - p.sampled_at) > u64::MAX {
                    u64::MAX
                } else {
                    (p.position + (now - p.sampled_at)) as u64
                },
            )
            &&& (info.duration > 0 && p.status == PlaybackStatus::Paused && info.status
                == PlaybackStatus::Paused && info.position == p.raw_position) ==> out.position == clamp(
                p.position,
            )
            &&& (info.duration > 0 && info.status == PlaybackStatus::Stopped) ==> out.position == clamp(
                info.position,
            )
        },
{
}

/// Takes a new sample of a player: fills in the position (and a missing
/// duration) that the widget shows, and remembers the sample. Returns
/// whether this is the first sample of the track.
pub fn update_tracked_position(
    trackers: &mut KeyedStore<PositionTracker>,
    player_id: &PlayerId,
    info: &mut MediaInfo,
    now: u64,
) -> (first_sample: bool)
    ensures
        ({
            let key = player_key(*player_id);
            let prev = if old(trackers)@.contains_key(key) {
                Some(old(trackers)@[key])
            } else {
                None
            };
            &&& first_sample == !(prev matches Some(p) && same_track(p.track, track_of(*old(info))))
            &&& *final(info) == sampled(prev, *old(info), now)
            &&& final(trackers)@ == old(trackers)@.insert(
                key,
                PositionTracker {
                    track: track_of(*old(info)),
                    raw_position: old(info).position,
                    position: final(info).position,
                    duration: final(info).duration,
                    sampled_at: now,
                    status: old(info).status,
                },
            )
        }),
{
    let key = player_id.key();
    let track = TrackSignature::of(info);
    let raw_position = info.position;
    let mut first_sample = true;
    let previous = match trackers.get(key.as_str()) {
        Some(p) => if p.track.same(&track) {
            Some(p.copy())
        } else {
            None
        },
        None => None,
    };
    if let Some(p) = previous {
        first_sample = false;
        let elapsed = now.saturating_sub(p.sampled_at);
        let predicted = match p.status {
            PlaybackStatus::Playing => p.position.saturating_add(elapsed),
            _ => p.position,
        };
        let raw_changed = raw_position != p.raw_position;
        let incomplete = info.duration == 0 && raw_position == 0 && p.duration > 0;
        if info.duration == 0 {
            info.duration = p.duration;
        }
        info.position = if incomplete {
            predicted
        } else {
            match (p.status, info.status) {
                (PlaybackStatus::Stopped, PlaybackStatus::Playing) => raw_position,
                (_, PlaybackStatus::Playing) => if raw_changed { raw_position } else { predicted },
                (PlaybackStatus::Playing, PlaybackStatus::Paused) => if raw_changed {
                    raw_position
                } else {
                    predicted
                },
                (PlaybackStatus::Paused, PlaybackStatus::Paused) => if raw_changed {
                    let delta = if raw_position >= p.raw_position {
                        raw_position - p.raw_position
                    } else {
                        p.raw_position - raw_position
                    };
                    let gap = if delta >= elapsed { delta - elapsed } else { elapsed - delta };
                    if raw_position > p.raw_position && gap <= 500 {
                        p.position
                    } else {
                        raw_position
                    }
                } else {
                    p.position
                },
                (_, _) => raw_position,
            }
        };
    }
    if info.duration > 0 && info.position > info.duration {
        info.position = info.duration;
    }
    let tracker = PositionTracker {
        track,
        raw_position,
        position: info.position,
        duration: info.duration,
        sampled_at: now,
        status: info.status,
    };
    trackers.insert(key, tracker);
    first_sample
}

/// A proxy player (playerctld) lends its timeline, when it has one, and its
/// ability to seek to the player it mirrors.
pub fn merge_mpris_proxy_timeline(primary: &mut MediaInfo, proxy: &MediaInfo)
    ensures
        *final(primary) == (MediaInfo {
            position: if proxy.duration > 0 {
                if proxy.position > proxy.duration { proxy.duration } else { proxy.position }
            } else {
                old(primary).position
            },
            duration: if proxy.duration > 0 { proxy.duration } else { old(primary).duration },
            can_seek: old(primary).can_seek || proxy.can_seek,
            ..*old(primary)
        }),
{
    if proxy.duration > 0 {
        primary.position = if proxy.position > proxy.duration { proxy.duration } else { proxy.position };
        primary.duration = proxy.duration;
    }
    primary.can_seek = primary.can_seek || proxy.can_seek;
}

// ---------------------------------------------------------------------------
// MPRIS names
// ---------------------------------------------------------------------------

pub open spec fn mpris_prefix() -> Seq<char> {
    "org.mpris.MediaPlayer2."@
}

/// The identity part of an MPRIS bus name (after the common prefix), if it
/// has the prefix.
pub open spec fn mpris_identity(bus_name: Seq<char>) -> Option<Seq<char>> {
    if crate::text::starts_with(bus_name, mpris_prefix()) {
        Some(bus_name.skip(mpris_prefix().len() as int))
    } else {
        None
    }
}

/// Whether the identity's first dot-separated part is `name` (in any case).
pub open spec fn mpris_app_is(bus_name: Seq<char>, name: Seq<char>) -> bool {
    mpris_identity(bus_name) matches Some(id) && eq_ignore_case(split_on(id, '.')[0], name)
}

fn mpris_identity_chars(bus_name: &str) -> (r: Option<Vec<char>>)
    ensures
        match r {
            Some(v) => mpris_identity(bus_name@) == Some(v@),
            None => mpris_identity(bus_name@) is None,
        },
{
    let chars = chars_of(bus_name);
    let prefix = chars_of("org.mpris.MediaPlayer2.");
    if !crate::text::starts_with_chars(&chars, &prefix) {
        return None;
    }
    let mut rest: Vec<char> = Vec::new();
    let mut i: usize = prefix.len();
    while i < chars.len()
        invariant
            prefix@.len() <= i <= chars@.len(),
            rest@ == chars@.subrange(prefix@.len() as int, i as int),
        decreases chars@.len() - i,
    {
        rest.push(chars[i]);
        i += 1;
        assert(rest@ =~= chars@.subrange(prefix@.len() as int, i as int));
    }
    Some(rest)
}

fn mpris_app_matches(bus_name: &str, name: &str) -> (r: bool)
    ensures
        r == mpris_app_is(bus_name@, name@),
{
    match mpris_identity_chars(bus_name) {
        Some(id) => {
            let parts = split_chars(&id, '.');
            proof {
                crate::text::lemma_split_on(id@, '.');
            }
            assert(views(parts@)[0] == parts@[0]@);
            let first = crate::text::lower_chars(parts[0].as_slice());
            let wanted = crate::text::lower_chars(&chars_of(name));
            seq_eq(&first, &wanted)
        },
        None => false,
    }
}

/// Whether an MPRIS player is Cider (whose REST API is read instead).
pub fn is_cider_mpris_player(bus_name: &str) -> (r: bool)
    ensures
        r == mpris_app_is(bus_name@, "cider"@),
{
    mpris_app_matches(bus_name, "cider")
}

/// Whether an MPRIS player is Firefox.
pub fn is_firefox_mpris_player(bus_name: &str) -> (r: bool)
    ensures
        r == mpris_app_is(bus_name@, "firefox"@),
{
    mpris_app_matches(bus_name, "firefox")
}

/// Whether an MPRIS player is the playerctld proxy (its whole identity, in
/// any case).
pub fn is_playerctld_mpris_player(bus_name: &str) -> (r: bool)
    ensures
        r == (mpris_identity(bus_name@) matches Some(id) && eq_ignore_case(id, "playerctld"@)),
{
    match mpris_identity_chars(bus_name) {
        Some(id) => {
            let lowered = crate::text::lower_chars(&id);
            seq_eq(&lowered, &crate::text::lower_chars(&chars_of("playerctld")))
        },
        None => false,
    }
}

// ---------------------------------------------------------------------------
// Players
// ---------------------------------------------------------------------------

/// Every detected player, and the one the widget shows.
#[derive(Debug, Clone, PartialEq, Eq)]
pub struct MultiPlayerState {
    pub players: Vec<(PlayerId, MediaInfo)>,
    pub current_index: usize,
}

pub open spec fn is_playing(entry: (PlayerId, MediaInfo)) -> bool {
    entry.1.status == PlaybackStatus::Playing
}

impl MultiPlayerState {
    pub fn new() -> (r: MultiPlayerState)
        ensures
            r.players@.len() == 0,
            r.current_index == 0,
    {
        MultiPlayerState { players: Vec::new(), current_index: 0 }
    }

    /// The player the widget shows.
    pub fn current_player(&self) -> (r: Option<&(PlayerId, MediaInfo)>)
        ensures
            match r {
                Some(e) => self.current_index < self.players@.len() && *e == self.players@[self.current_index as int],
                None => self.current_index >= self.players@.len(),
            },
    {
        if self.current_index < self.players.len() {
            Some(&self.players[self.current_index])
        } else {
            None
        }
    }

    pub fn player_count(&self) -> (r: usize)
        ensures
            r == self.players@.len(),
    {
        self.players.len()
    }

    /// Shows the next player, after the last the first.
    pub fn next_player(&mut self)
        requires
            old(self).players@.len() > 0 ==> old(self).current_index < usize::MAX,
        ensures
            final(self).players == old(self).players,
            final(self).current_index == if old(self).players@.len() > 0 {
                ((old(self).current_index + 1) % (old(self).players@.len() as int)) as usize
            } else {
                old(self).current_index
            },
    {
        if self.players.len() > 0 {
            self.current_index = (self.current_index + 1) % self.players.len();
        }
    }

    /// Shows the previous player, before the first the last.
    pub fn prev_player(&mut self)
        ensures
            final(self).players == old(self).players,
            final(self).current_index == if old(self).players@.len() == 0 {
                old(self).current_index
            } else if old(self).current_index == 0 {
                (old(self).players@.len() - 1) as usize
            } else {
                (old(self).current_index - 1) as usize
            },
    {
        if self.players.len() > 0 {
            if self.current_index == 0 {
                self.current_index = self.players.len() - 1;
            } else {
                self.current_index = self.current_index - 1;
            }
        }
    }

    /// Shows the player at `index`, if there is one.
    pub fn select_player(&mut self, index: usize)
        ensures
            final(self).players == old(self).players,
            final(self).current_index == if index < old(self).players@.len() {
                index
            } else {
                old(self).current_index
            },
    {
        if index < self.players.len() {
            self.current_index = index;
        }
    }

    /// Flips the shown player between playing and paused, for feedback before
    /// the player confirms a play/pause command (a stopped player plays).
    pub fn toggle_current_playing(&mut self)
        ensures
            final(self).current_index == old(self).current_index,
            final(self).players@.len() == old(self).players@.len(),
            forall|i: int| 0 <= i < old(self).players@.len() && i != old(self).current_index
                ==> #[trigger] final(self).players@[i] == old(self).players@[i],
            old(self).current_index < old(self).players@.len() ==> ({
                let before = old(self).players@[old(self).current_index as int];
                final(self).players@[old(self).current_index as int] == (before.0, MediaInfo {
                    status: if before.1.status == PlaybackStatus::Playing {
                        PlaybackStatus::Paused
                    } else {
                        PlaybackStatus::Playing
                    },
                    ..before.1
                })
            }),
    {
        if self.current_index < self.players.len() {
            let entry = &self.players[self.current_index];
            let mut info = entry.1.copy();
            let id = entry.0.copy();
            info.status = match info.status {
                PlaybackStatus::Playing => PlaybackStatus::Paused,
                _ => PlaybackStatus::Playing,
            };
            let i = self.current_index;
            self.players.set(i, (id, info));
        }
    }
}

/// Stepping to the next player and back shows the same player again.
pub proof fn law_next_then_prev_returns(index: usize, count: usize)
    requires
        index < count,
    ensures
        ({
            let next = ((index + 1) % (count as int)) as usize;
            let back = if next == 0 { (count - 1) as usize } else { (next - 1) as usize };
            back == index
        }),
{
    if index + 1 < count {
        assert((index + 1) % (count as int) == index + 1) by (nonlinear_arith)
            requires
                0 <= index + 1 < count,
        ;
    } else {
        assert((index + 1) % (count as int) == 0) by (nonlinear_arith)
            requires
                index + 1 == count,
                count > 0,
        ;
    }
}

pub open spec fn same_id_as(id: PlayerId) -> spec_fn((PlayerId, MediaInfo)) -> bool {
    |e: (PlayerId, MediaInfo)| same_player(e.0, id)
}

pub open spec fn playing() -> spec_fn((PlayerId, MediaInfo)) -> bool {
    |e: (PlayerId, MediaInfo)| is_playing(e)
}

/// A player that plays now and did not before (or was not there).
pub open spec fn newly_playing(previous: Seq<(PlayerId, MediaInfo)>) -> spec_fn((PlayerId, MediaInfo)) -> bool {
    |e: (PlayerId, MediaInfo)| is_playing(e) && {
        let k = crate::text::first_match(previous, same_id_as(e.0));
        k < 0 || !is_playing(previous[k])
    }
}

/// Whether the first entry of `s` for `id` plays.
pub open spec fn plays_in(s: Seq<(PlayerId, MediaInfo)>, id: PlayerId) -> bool {
    let k = crate::text::first_match(s, same_id_as(id));
    k >= 0 && is_playing(s[k])
}

/// The player to show: one that just started playing; else the selected one,
/// unless it stopped while another plays; else the first playing one, or
/// the first.
pub open spec fn preferred(
    previous: Seq<(PlayerId, MediaInfo)>,
    players: Seq<(PlayerId, MediaInfo)>,
    selected: Option<PlayerId>,
) -> Option<PlayerId> {
    let first_playing = crate::text::first_match(players, playing());
    let fallback = if first_playing >= 0 { Some(players[first_playing].0) } else { Some(players[0].0) };
    if players.len() == 0 {
        selected
    } else if previous.len() > 0 && crate::text::first_match(players, newly_playing(previous)) >= 0 {
        Some(players[crate::text::first_match(players, newly_playing(previous))].0)
    } else {
        match selected {
            Some(sel) => if plays_in(previous, sel) && !plays_in(players, sel) && first_playing >= 0 {
                Some(players[first_playing].0)
            } else if crate::text::first_match(players, same_id_as(sel)) >= 0 {
                Some(sel)
            } else {
                fallback
            },
            None => fallback,
        }
    }
}

fn find_player(s: &[(PlayerId, MediaInfo)], id: &PlayerId) -> (r: Option<usize>)
    ensures
        r matches Some(k) ==> k < s@.len() && k as int == crate::text::first_match(s@, same_id_as(*id)),
        r is None ==> crate::text::first_match(s@, same_id_as(*id)) < 0,
{
    let mut i: usize = 0;
    while i < s.len()
        invariant
            i <= s@.len(),
            forall|j: int| 0 <= j < i ==> !(same_id_as(*id))(#[trigger] s@[j]),
        decreases s@.len() - i,
    {
        if s[i].0.same(id) {
            proof {
                crate::text::lemma_first_match(s@, same_id_as(*id), i as int);
            }
            return Some(i);
        }
        i += 1;
    }
    proof {
        crate::text::lemma_first_match(s@, same_id_as(*id), s@.len() as int);
    }
    None
}

fn find_playing(s: &[(PlayerId, MediaInfo)]) -> (r: Option<usize>)
    ensures
        r matches Some(k) ==> k < s@.len() && k as int == crate::text::first_match(s@, playing()),
        r is None ==> crate::text::first_match(s@, playing()) < 0,
{
    let mut i: usize = 0;
    while i < s.len()
        invariant
            i <= s@.len(),
            forall|j: int| 0 <= j < i ==> !(playing())(#[trigger] s@[j]),
        decreases s@.len() - i,
    {
        if s[i].1.status == PlaybackStatus::Playing {
            proof {
                crate::text::lemma_first_match(s@, playing(), i as int);
            }
            return Some(i);
        }
        i += 1;
    }
    proof {
        crate::text::lemma_first_match(s@, playing(), s@.len() as int);
    }
    None
}

fn plays_in_exec(s: &[(PlayerId, MediaInfo)], id: &PlayerId) -> (r: bool)
    ensures
        r == plays_in(s@, *id),
{
    match find_player(s, id) {
        Some(k) => s[k].1.status == PlaybackStatus::Playing,
        None => false,
    }
}

/// Which player to show after a new sample of all players.
pub fn preferred_player_id(
    previous: &MultiPlayerState,
    players: &[(PlayerId, MediaInfo)],
    selected: Option<&PlayerId>,
) -> (r: Option<PlayerId>)
    ensures
        r == preferred(previous.players@, players@, match selected {
            Some(s) => Some(*s),
            None => None,
        }),
{
    let ghost sel = match selected {
        Some(s) => Some(*s),
        None => None,
    };
    if players.len() == 0 {
        return match selected {
            Some(s) => Some(s.copy()),
            None => None,
        };
    }
    if previous.players.len() > 0 {
        let ghost prev = previous.players@;
        let mut i: usize = 0;
        while i < players.len()
            invariant
                i <= players@.len(),
                prev == previous.players@,
                prev.len() > 0,
                players@.len() > 0,
                sel == match selected {
                    Some(s) => Some(*s),
                    None => None,
                },
                forall|j: int| 0 <= j < i ==> !(newly_playing(prev))(#[trigger] players@[j]),
            decreases players@.len() - i,
        {
            if players[i].1.status == PlaybackStatus::Playing {
                let before = find_player(previous.players.as_slice(), &players[i].0);
                let newly = match before {
                    Some(k) => previous.players[k].1.status != PlaybackStatus::Playing,
                    None => true,
                };
                if newly {
                    proof {
                        assert((newly_playing(prev))(players@[i as int]));
                        crate::text::lemma_first_match(players@, newly_playing(prev), i as int);
                        assert(crate::text::first_match(players@, newly_playing(previous.players@)) == i);
                    }
                    return Some(players[i].0.copy());
                }
            }
            i += 1;
        }
        proof {
            crate::text::lemma_first_match(players@, newly_playing(prev), players@.len() as int);
        }
    }
    let first_playing = find_playing(players);
    if let Some(s) = selected {
        let was_playing = plays_in_exec(previous.players.as_slice(), s);
        let now_playing = plays_in_exec(players, s);
        if was_playing && !now_playing {
            if let Some(k) = first_playing {
                return Some(players[k].0.copy());
            }
        }
        if find_player(players, s).is_some() {
            return Some(s.copy());
        }
    }
    match first_playing {
        Some(k) => Some(players[k].0.copy()),
        None => Some(players[0].0.copy()),
    }
}

/// A player that plays now and did not play in the previous sample (it was
/// absent from it, or listed there without playing) is the one shown when it
/// comes first among such players, whatever player was selected: every
/// player before it in the new sample either does not play or was already
/// playing before.
pub proof fn law_newly_playing_player_is_shown(
    previous: Seq<(PlayerId, MediaInfo)>,
    players: Seq<(PlayerId, MediaInfo)>,
    selected: Option<PlayerId>,
    i: int,
)
    requires
        previous.len() > 0,
        0 <= i < players.len(),
        players[i].1.status == PlaybackStatus::Playing,
        forall|k: int|
            0 <= k < previous.len() && same_player(#[trigger] previous[k].0, players[i].0)
                ==> previous[k].1.status != PlaybackStatus::Playing,
        forall|j: int|
            0 <= j < i && (#[trigger] players[j]).1.status == PlaybackStatus::Playing ==> {
                &&& exists|k: int| 0 <= k < previous.len() && same_player(#[trigger] previous[k].0, players[j].0)
                &&& forall|k: int|
                    0 <= k < previous.len() && same_player(#[trigger] previous[k].0, players[j].0)
                        ==> previous[k].1.status == PlaybackStatus::Playing
            },
    ensures
        preferred(previous, players, selected) == Some(players[i].0),
{
    let fresh = newly_playing(previous);
    assert forall|j: int| 0 <= j < i implies !fresh(#[trigger] players[j]) by {
        if is_playing(players[j]) {
            let p = same_id_as(players[j].0);
            crate::text::lemma_first_match_bounds(previous, p);
            let k0 = crate::text::first_match(previous, p);
            if k0 < 0 {
                let w = choose|k: int| 0 <= k < previous.len() && same_player(#[trigger] previous[k].0, players[j].0);
                assert(p(previous[w]));
            } else {
                assert(p(previous[k0]));
            }
        }
    }
    let q = same_id_as(players[i].0);
    crate::text::lemma_first_match_bounds(previous, q);
    let k1 = crate::text::first_match(previous, q);
    if k1 >= 0 {
        assert(q(previous[k1]));
    }
    assert(fresh(players[i]));
    crate::text::lemma_first_match(players, fresh, i);
}

/// When any player is listed, the player shown is one of them.
pub proof fn law_shown_player_is_listed(
    previous: Seq<(PlayerId, MediaInfo)>,
    players: Seq<(PlayerId, MediaInfo)>,
    selected: Option<PlayerId>,
)
    requires
        players.len() > 0,
    ensures
        preferred(previous, players, selected) is Some,
        exists|k: int|
            0 <= k < players.len() && same_player(
                #[trigger] players[k].0,
                preferred(previous, players, selected)->0,
            ),
{
    let fresh = newly_playing(previous);
    crate::text::lemma_first_match_bounds(players, fresh);
    crate::text::lemma_first_match_bounds(players, playing());
    let shown = preferred(previous, players, selected)->0;
    let k: int = if previous.len() > 0 && crate::text::first_match(players, fresh) >= 0 {
        crate::text::first_match(players, fresh)
    } else {
        match selected {
            Some(sel) => {
                crate::text::lemma_first_match_bounds(players, same_id_as(sel));
                let first_playing = crate::text::first_match(players, playing());
                if plays_in(previous, sel) && !plays_in(players, sel) && first_playing >= 0 {
                    first_playing
                } else if crate::text::first_match(players, same_id_as(sel)) >= 0 {
                    let j = crate::text::first_match(players, same_id_as(sel));
                    assert(same_player(players[j].0, sel));
                    j
                } else if first_playing >= 0 {
                    first_playing
                } else {
                    0
                }
            },
            None => if crate::text::first_match(players, playing()) >= 0 {
                crate::text::first_match(players, playing())
            } else {
                0
            },
        }
    };
    assert(same_player(players[k].0, shown));
}

/// While no listed player plays, a selected player that is still listed
/// stays the one shown.
pub proof fn law_selection_kept_while_nothing_plays(
    previous: Seq<(PlayerId, MediaInfo)>,
    players: Seq<(PlayerId, MediaInfo)>,
    sel: PlayerId,
    k: int,
)
    requires
        0 <= k < players.len(),
        same_player(players[k].0, sel),
        forall|j: int| 0 <= j < players.len() ==> (#[trigger] players[j]).1.status != PlaybackStatus::Playing,
    ensures
        preferred(previous, players, Some(sel)) == Some(sel),
{
    let fresh = newly_playing(previous);
    crate::text::lemma_first_match_bounds(players, fresh);
    crate::text::lemma_first_match_bounds(players, playing());
    crate::text::lemma_first_match_bounds(players, same_id_as(sel));
    if crate::text::first_match(players, fresh) >= 0 {
        let j = crate::text::first_match(players, fresh);
        assert(fresh(players[j]));
    }
    if crate::text::first_match(players, playing()) >= 0 {
        let j = crate::text::first_match(players, playing());
        assert((playing())(players[j]));
    }
    assert((same_id_as(sel))(players[k]));
}

/// With no earlier sample and nothing selected, the first player that plays
/// is shown, or the first player when none plays.
pub proof fn law_first_playing_shown_without_history(
    players: Seq<(PlayerId, MediaInfo)>,
    i: int,
)
    requires
        players.len() > 0,
        0 <= i <= players.len(),
        i < players.len() ==> players[i].1.status == PlaybackStatus::Playing,
        forall|j: int| 0 <= j < i ==> (#[trigger] players[j]).1.status != PlaybackStatus::Playing,
    ensures
        preferred(Seq::empty(), players, None) == Some(if i < players.len() { players[i].0 } else { players[0].0 }),
{
    crate::text::lemma_first_match(players, playing(), i);
}

/// The index of the preferred player in the new list (the first when it is
/// not there), kept within the list.
pub open spec fn shown_index(players: Seq<(PlayerId, MediaInfo)>, preferred: Option<PlayerId>) -> int {
    let k = match preferred {
        Some(p) => {
            let j = crate::text::first_match(players, same_id_as(p));
            if j >= 0 { j } else { 0 }
        },
        None => 0,
    };
    let last = if players.len() == 0 { 0 } else { players.len() - 1 };
    if k > last { last } else { k }
}

/// Publishes a new sample of all players: the preferred player becomes the
/// selected one and is shown.
pub fn publish_players(
    state: &mut MultiPlayerState,
    selected: &mut Option<PlayerId>,
    players: Vec<(PlayerId, MediaInfo)>,
)
    ensures
        ({
            let p = preferred(old(state).players@, players@, *old(selected));
            &&& *final(selected) == p
            &&& final(state).players@ == players@
            &&& final(state).current_index == shown_index(players@, p)
        }),
{
    let preferred = preferred_player_id(state, players.as_slice(), selected.as_ref());
    let index = match &preferred {
        Some(p) => match find_player(players.as_slice(), p) {
            Some(k) => k,
            None => 0,
        },
        None => 0,
    };
    let last = if players.len() == 0 { 0 } else { players.len() - 1 };
    *selected = preferred;
    state.players = players;
    state.current_index = if index > last { last } else { index };
}

/// After a sample is published, the index shows a player whenever there is one.
pub proof fn law_published_index_is_valid(players: Seq<(PlayerId, MediaInfo)>, p: Option<PlayerId>)
    requires
        players.len() > 0,
    ensures
        0 <= shown_index(players, p) < players.len(),
{
    if let Some(id) = p {
        crate::text::lemma_first_match_bounds(players, same_id_as(id));
    }
}

// ---------------------------------------------------------------------------
// Bandcamp page metadata
// ---------------------------------------------------------------------------

/// How many artworks (and Bandcamp pages) are kept.
pub const MAX_CACHED_ARTWORKS: usize = 20;

pub open spec fn page_keys<M>(s: Seq<(String, M)>) -> Seq<Seq<char>> {
    Seq::new(s.len(), |i: int| s[i].0@)
}

pub open spec fn is_url(url: Seq<char>) -> spec_fn(Seq<char>) -> bool {
    |k: Seq<char>| k == url
}

pub open spec fn page_index<M>(s: Seq<(String, M)>, url: Seq<char>) -> int {
    crate::text::first_match(page_keys(s), is_url(url))
}

/// Metadata of Bandcamp pages, least recently used first, at most
/// `MAX_CACHED_ARTWORKS` pages, each once.
pub struct BandcampPageCache<M> {
    pages: Vec<(String, M)>,
}

impl<M> BandcampPageCache<M> {
    #[verifier::type_invariant]
    closed spec fn well_formed(self) -> bool {
        &&& page_keys(self.pages@).no_duplicates()
        &&& self.pages@.len() <= MAX_CACHED_ARTWORKS
    }

    /// The pages, least recently used first.
    pub closed spec fn entries(self) -> Seq<(String, M)> {
        self.pages@
    }

    pub fn new() -> (r: Self)
        ensures
            r.entries().len() == 0,
    {
        BandcampPageCache { pages: Vec::new() }
    }

    pub fn len(&self) -> (r: usize)
        ensures
            r == self.entries().len(),
            r <= MAX_CACHED_ARTWORKS,
    {
        proof {
            use_type_invariant(self);
        }
        self.pages.len()
    }

    fn find(&self, url: &str) -> (r: Option<usize>)
        ensures
            r matches Some(k) ==> k < self.pages@.len() && k as int == page_index(self.pages@, url@)
                && self.pages@[k as int].0@ == url@,
            r is None ==> page_index(self.pages@, url@) < 0,
    {
        let ghost keys = page_keys(self.pages@);
        let mut i: usize = 0;
        while i < self.pages.len()
            invariant
                i <= self.pages@.len(),
                keys == page_keys(self.pages@),
                forall|j: int| 0 <= j < i ==> !(is_url(url@))(#[trigger] keys[j]),
            decreases self.pages@.len() - i,
        {
            if str_eq(self.pages[i].0.as_str(), url) {
                proof {
                    crate::text::lemma_first_match(keys, is_url(url@), i as int);
                }
                return Some(i);
            }
            i += 1;
        }
        proof {
            crate::text::lemma_first_match(keys, is_url(url@), keys.len() as int);
        }
        None
    }

    /// Moves the entry at `k` to the most recent end.
    fn refresh(&mut self, k: usize)
        requires
            k < old(self).pages@.len(),
        ensures
            final(self).pages@ == old(self).pages@.remove(k as int).push(old(self).pages@[k as int]),
    {
        proof {
            use_type_invariant(&*self);
        }
        let ghost before = self.pages@;
        let mut pages: Vec<(String, M)> = Vec::new();
        std::mem::swap(&mut pages, &mut self.pages);
        let entry = pages.remove(k);
        pages.push(entry);
        proof {
            lemma_moved_keys_distinct(before, k as int);
        }
        self.pages = pages;
    }

    /// The metadata of a page, which becomes the most recently used.
    pub fn get(&mut self, url: &str) -> (r: Option<&M>)
        ensures
            ({
                let k = page_index(old(self).entries(), url@);
                &&& (r is Some) == (k >= 0)
                &&& k >= 0 ==> final(self).entries() == old(self).entries().remove(k).push(old(self).entries()[k])
                    && *r->0 == old(self).entries()[k].1
                &&& k < 0 ==> final(self).entries() == old(self).entries()
            }),
    {
        match self.find(url) {
            Some(k) => {
                self.refresh(k);
                let last = self.pages.len() - 1;
                Some(&self.pages[last].1)
            },
            None => None,
        }
    }

    /// Stores a page's metadata as the most recently used; a new page beyond
    /// the limit evicts the least recently used one.
    pub fn insert(&mut self, url: String, metadata: M)
        ensures
            ({
                let k = page_index(old(self).entries(), url@);
                final(self).entries() == if k >= 0 {
                    old(self).entries().remove(k).push((url, metadata))
                } else if old(self).entries().len() >= MAX_CACHED_ARTWORKS {
                    old(self).entries().remove(0).push((url, metadata))
                } else {
                    old(self).entries().push((url, metadata))
                }
            }),
    {
        proof {
            use_type_invariant(&*self);
        }
        let ghost before = self.pages@;
        let found = self.find(url.as_str());
        let mut pages: Vec<(String, M)> = Vec::new();
        std::mem::swap(&mut pages, &mut self.pages);
        match found {
            Some(k) => {
                pages.remove(k);
                proof {
                    crate::text::lemma_first_match_bounds(page_keys(before), is_url(url@));
                    assert(page_keys(before)[k as int] == before[k as int].0@);
                    lemma_removed_keys_distinct(before, k as int);
                    lemma_removed_misses(before, k as int, url@);
                }
            },
            None => {
                proof {
                    lemma_absent(before, url@);
                }
                if pages.len() >= MAX_CACHED_ARTWORKS {
                    pages.remove(0);
                    proof {
                        lemma_removed_keys_distinct(before, 0);
                        lemma_subseq_misses(before, 0, url@);
                    }
                }
            },
        }
        let ghost rest = pages@;
        pages.push((url, metadata));
        proof {
            lemma_push_fresh_key(rest, url, metadata);
        }
        self.pages = pages;
    }
}

proof fn lemma_removed_keys_distinct<M>(s: Seq<(String, M)>, k: int)
    requires
        page_keys(s).no_duplicates(),
        0 <= k < s.len(),
    ensures
        page_keys(s.remove(k)).no_duplicates(),
{
    let r = s.remove(k);
    assert forall|a: int, b: int| 0 <= a < r.len() && 0 <= b < r.len() && a != b implies page_keys(r)[a] != page_keys(r)[b] by {
        let a2 = if a < k { a } else { a + 1 };
        let b2 = if b < k { b } else { b + 1 };
        assert(r[a] == s[a2]);
        assert(r[b] == s[b2]);
        assert(page_keys(s)[a2] != page_keys(s)[b2]);
    }
}

proof fn lemma_removed_misses<M>(s: Seq<(String, M)>, k: int, url: Seq<char>)
    requires
        page_keys(s).no_duplicates(),
        0 <= k < s.len(),
        s[k].0@ == url,
    ensures
        forall|i: int| 0 <= i < s.remove(k).len() ==> s.remove(k)[i].0@ != url,
{
    let r = s.remove(k);
    assert forall|i: int| 0 <= i < r.len() implies r[i].0@ != url by {
        let i2 = if i < k { i } else { i + 1 };
        assert(r[i] == s[i2]);
        assert(page_keys(s)[i2] != page_keys(s)[k]);
    }
}

proof fn lemma_subseq_misses<M>(s: Seq<(String, M)>, k: int, url: Seq<char>)
    requires
        0 <= k < s.len(),
        page_index(s, url) < 0,
    ensures
        forall|i: int| 0 <= i < s.remove(k).len() ==> s.remove(k)[i].0@ != url,
{
    crate::text::lemma_first_match_bounds(page_keys(s), is_url(url));
    let r = s.remove(k);
    assert forall|i: int| 0 <= i < r.len() implies r[i].0@ != url by {
        let i2 = if i < k { i } else { i + 1 };
        assert(r[i] == s[i2]);
        assert(page_keys(s)[i2] == s[i2].0@);
    }
}

proof fn lemma_absent<M>(s: Seq<(String, M)>, url: Seq<char>)
    requires
        page_index(s, url) < 0,
    ensures
        forall|i: int| 0 <= i < s.len() ==> s[i].0@ != url,
{
    crate::text::lemma_first_match_bounds(page_keys(s), is_url(url));
    assert forall|i: int| 0 <= i < s.len() implies s[i].0@ != url by {
        assert(page_keys(s)[i] == s[i].0@);
    }
}

proof fn lemma_push_fresh_key<M>(s: Seq<(String, M)>, url: String, m: M)
    requires
        page_keys(s).no_duplicates(),
        forall|i: int| 0 <= i < s.len() ==> s[i].0@ != url@,
    ensures
        page_keys(s.push((url, m))).no_duplicates(),
{
    let t = s.push((url, m));
    assert forall|a: int, b: int| 0 <= a < t.len() && 0 <= b < t.len() && a != b implies page_keys(t)[a] != page_keys(t)[b] by {
        if a < s.len() && b < s.len() {
            assert(page_keys(s)[a] != page_keys(s)[b]);
        } else if a < s.len() {
            assert(s[a].0@ != url@);
        } else {
            assert(s[b].0@ != url@);
        }
    }
}

proof fn lemma_moved_keys_distinct<M>(s: Seq<(String, M)>, k: int)
    requires
        page_keys(s).no_duplicates(),
        0 <= k < s.len(),
    ensures
        page_keys(s.remove(k).push(s[k])).no_duplicates(),
{
    lemma_removed_keys_distinct(s, k);
    lemma_removed_misses(s, k, s[k].0@);
    lemma_push_fresh_key(s.remove(k), s[k].0, s[k].1);
}

// ---------------------------------------------------------------------------
// Artwork
// ---------------------------------------------------------------------------

/// Where artwork comes from.
#[derive(Debug, Clone, PartialEq, Eq, Hash)]
pub enum ArtworkSource {
    Image(String),
    /// A Bandcamp page, whose album cover is looked up.
    BandcampPage(String),
}

impl ArtworkSource {
    pub fn url(&self) -> (r: &str)
        ensures
            r@ == match *self {
                ArtworkSource::Image(u) => u@,
                ArtworkSource::BandcampPage(u) => u@,
            },
    {
        match self {
            ArtworkSource::Image(url) => url.as_str(),
            ArtworkSource::BandcampPage(url) => url.as_str(),
        }
    }

    /// The source as a key.
    pub fn key(&self) -> (r: String)
        ensures
            r@ == source_key(*self),
    {
        let (mut v, url) = match self {
            ArtworkSource::Image(url) => (chars_of("image:"), url),
            ArtworkSource::BandcampPage(url) => (chars_of("bandcamp:"), url),
        };
        append_str(&mut v, url.as_str());
        string_of(&v)
    }

    /// A verified album cover outranks a browser's placeholder.
    pub fn priority(&self) -> (r: u8)
        ensures
            r == if *self is BandcampPage { 1u8 } else { 0u8 },
    {
        match self {
            ArtworkSource::BandcampPage(_) => 1,
            ArtworkSource::Image(_) => 0,
        }
    }
}

/// The best artwork found so far for one track, and which sources were
/// tried.
pub struct TrackArtwork<A> {
    pub track: TrackSignature,
    /// The artwork and its pixel count.
    pub best: Option<(A, u64)>,
    pub best_priority: u8,
    /// The sources requested for this track, by `source_key`.
    pub attempted_sources: KeyedStore<()>,
    /// When a failed source may be requested again (milliseconds), by
    /// `source_key`.
    pub retry_after: KeyedStore<u64>,
}

/// A source as a key: its kind and its URL.
pub open spec fn source_key(source: ArtworkSource) -> Seq<char> {
    match source {
        ArtworkSource::Image(u) => "image:"@ + u@,
        ArtworkSource::BandcampPage(u) => "bandcamp:"@ + u@,
    }
}

/// The best artwork and its source's priority after a candidate is offered.
pub open spec fn accept_result<A>(
    best: Option<(A, u64)>,
    best_priority: u8,
    source: ArtworkSource,
    candidate: A,
    pixels: u64,
) -> (Option<(A, u64)>, u8) {
    let current = match best {
        Some((_, p)) => Some((p, best_priority)),
        None => None,
    };
    let priority: u8 = if source is BandcampPage { 1u8 } else { 0u8 };
    if better(current, priority, pixels) {
        (Some((candidate, pixels)), priority)
    } else {
        (best, best_priority)
    }
}

/// Whether a candidate of `priority` with `pixels` replaces the current best.
pub open spec fn better(best: Option<(u64, u8)>, priority: u8, pixels: u64) -> bool {
    match best {
        None => true,
        Some((best_pixels, best_priority)) => priority > best_priority || (priority == best_priority
            && pixels > best_pixels),
    }
}

impl<A> TrackArtwork<A> {
    pub fn new(track: TrackSignature) -> (r: Self)
        ensures
            r.track == track,
            r.best is None,
            r.best_priority == 0,
            r.attempted_sources@ == Map::<Seq<char>, ()>::empty(),
            r.retry_after@ == Map::<Seq<char>, u64>::empty(),
    {
        TrackArtwork {
            track,
            best: None,
            best_priority: 0,
            attempted_sources: KeyedStore::new(),
            retry_after: KeyedStore::new(),
        }
    }

    /// Keeps the candidate when its source ranks higher, or ranks the same
    /// with more pixels.
    pub fn accept(&mut self, source: &ArtworkSource, candidate: A, pixels: u64)
        ensures
            final(self).track == old(self).track,
            final(self).attempted_sources == old(self).attempted_sources,
            final(self).retry_after == old(self).retry_after,
            (final(self).best, final(self).best_priority) == accept_result(
                old(self).best,
                old(self).best_priority,
                *source,
                candidate,
                pixels,
            ),
            ({
                let current = match old(self).best {
                    Some((_, p)) => Some((p, old(self).best_priority)),
                    None => None,
                };
                let priority: u8 = if *source is BandcampPage { 1u8 } else { 0u8 };
                if better(current, priority, pixels) {
                    final(self).best == Some((candidate, pixels)) && final(self).best_priority == priority
                } else {
                    final(self).best == old(self).best && final(self).best_priority == old(self).best_priority
                }
            }),
    {
        let priority = source.priority();
        let is_better = match &self.best {
            None => true,
            Some((_, current)) => priority > self.best_priority || (priority == self.best_priority
                && pixels > *current),
        };
        if is_better {
            self.best = Some((candidate, pixels));
            self.best_priority = priority;
        }
    }
}

/// The pixel count of an image.
pub fn pixel_count(width: u32, height: u32) -> (r: u64)
    ensures
        r == width * height,
{
    assert(width * height <= u32::MAX * u32::MAX) by (nonlinear_arith);
    (width as u64) * (height as u64)
}

pub open spec fn cached_bytes<A>(s: Seq<(String, A, usize, u64)>) -> int
    decreases s.len(),
{
    if s.len() == 0 {
        0
    } else {
        cached_bytes(s.drop_last()) + s.last().2
    }
}

pub open spec fn cached_pixels<A>(s: Seq<(String, A, usize, u64)>) -> int
    decreases s.len(),
{
    if s.len() == 0 {
        0
    } else {
        cached_pixels(s.drop_last()) + s.last().3
    }
}

pub open spec fn cache_keys<A>(s: Seq<(String, A, usize, u64)>) -> Seq<Seq<char>> {
    Seq::new(s.len(), |i: int| s[i].0@)
}

pub open spec fn cache_index<A>(s: Seq<(String, A, usize, u64)>, url: Seq<char>) -> int {
    crate::text::first_match(cache_keys(s), is_url(url))
}

/// The entries left after evicting the least recently used until one of
/// `bytes` and `pixels` fits the budgets (or nothing is left).
pub open spec fn evicted<A>(
    s: Seq<(String, A, usize, u64)>,
    bytes: int,
    pixels: int,
    max_entries: int,
    max_bytes: int,
    max_pixels: int,
) -> Seq<(String, A, usize, u64)>
    decreases s.len(),
{
    if s.len() > 0 && (s.len() >= max_entries || cached_bytes(s) + bytes > max_bytes || cached_pixels(s)
        + pixels > max_pixels) {
        evicted(s.drop_first(), bytes, pixels, max_entries, max_bytes, max_pixels)
    } else {
        s
    }
}

/// The cache after `art` is stored under `url`: an entry of the URL is
/// replaced; the least recently used entries leave until the new one fits
/// every budget; artwork over a budget by itself is not stored.
pub open spec fn cache_after_insert<A>(
    contents: Seq<(String, A, usize, u64)>,
    limits: (usize, usize, u64),
    url: String,
    art: A,
    encoded_bytes: usize,
    pixels: int,
) -> Seq<(String, A, usize, u64)> {
    let (max_entries, max_bytes, max_pixels) = limits;
    let k = cache_index(contents, url@);
    let rest = if k >= 0 { contents.remove(k) } else { contents };
    if max_entries == 0 || encoded_bytes > max_bytes || pixels > max_pixels {
        contents
    } else {
        evicted(rest, encoded_bytes as int, pixels, max_entries as int, max_bytes as int, max_pixels as int).push(
            (url, art, encoded_bytes, pixels as u64),
        )
    }
}

/// Decoded artwork by URL, least recently used first, within a count, an
/// encoded-byte and a pixel budget.
pub struct ArtworkCache<A> {
    entries: Vec<(String, A, usize, u64)>,
    max_entries: usize,
    max_encoded_bytes: usize,
    max_source_pixels: u64,
    encoded_bytes: usize,
    source_pixels: u64,
}

proof fn lemma_cached_remove<A>(s: Seq<(String, A, usize, u64)>, k: int)
    requires
        0 <= k < s.len(),
    ensures
        cached_bytes(s.remove(k)) + s[k].2 == cached_bytes(s),
        cached_pixels(s.remove(k)) + s[k].3 == cached_pixels(s),
    decreases s.len(),
{
    if k == s.len() - 1 {
        assert(s.remove(k) =~= s.drop_last());
    } else {
        lemma_cached_remove(s.drop_last(), k);
        assert(s.remove(k).drop_last() =~= s.drop_last().remove(k));
        assert(s.remove(k).last() == s.last());
    }
}

proof fn lemma_cached_push<A>(s: Seq<(String, A, usize, u64)>, e: (String, A, usize, u64))
    ensures
        cached_bytes(s.push(e)) == cached_bytes(s) + e.2,
        cached_pixels(s.push(e)) == cached_pixels(s) + e.3,
{
    assert(s.push(e).drop_last() =~= s);
}

proof fn lemma_cached_nonnegative<A>(s: Seq<(String, A, usize, u64)>)
    ensures
        cached_bytes(s) >= 0,
        cached_pixels(s) >= 0,
    decreases s.len(),
{
    if s.len() > 0 {
        lemma_cached_nonnegative(s.drop_last());
    }
}

proof fn lemma_cache_keys_remove<A>(s: Seq<(String, A, usize, u64)>, k: int)
    requires
        cache_keys(s).no_duplicates(),
        0 <= k < s.len(),
    ensures
        cache_keys(s.remove(k)).no_duplicates(),
        forall|i: int| 0 <= i < s.remove(k).len() ==> s.remove(k)[i].0@ != s[k].0@,
{
    let r = s.remove(k);
    assert forall|a: int, b: int| 0 <= a < r.len() && 0 <= b < r.len() && a != b implies cache_keys(r)[a]
        != cache_keys(r)[b] by {
        let a2 = if a < k { a } else { a + 1 };
        let b2 = if b < k { b } else { b + 1 };
        assert(r[a] == s[a2]);
        assert(r[b] == s[b2]);
        assert(cache_keys(s)[a2] != cache_keys(s)[b2]);
    }
    assert forall|i: int| 0 <= i < r.len() implies r[i].0@ != s[k].0@ by {
        let i2 = if i < k { i } else { i + 1 };
        assert(r[i] == s[i2]);
        assert(cache_keys(s)[i2] != cache_keys(s)[k]);
    }
}

proof fn lemma_cache_remove_keeps_absent<A>(s: Seq<(String, A, usize, u64)>, k: int, x: Seq<char>)
    requires
        0 <= k < s.len(),
        forall|i: int| 0 <= i < s.len() ==> s[i].0@ != x,
    ensures
        forall|i: int| 0 <= i < s.remove(k).len() ==> s.remove(k)[i].0@ != x,
{
    let r = s.remove(k);
    assert forall|i: int| 0 <= i < r.len() implies r[i].0@ != x by {
        let i2 = if i < k { i } else { i + 1 };
        assert(r[i] == s[i2]);
    }
}

proof fn lemma_cache_keys_push<A>(s: Seq<(String, A, usize, u64)>, e: (String, A, usize, u64))
    requires
        cache_keys(s).no_duplicates(),
        forall|i: int| 0 <= i < s.len() ==> s[i].0@ != e.0@,
    ensures
        cache_keys(s.push(e)).no_duplicates(),
{
    let t = s.push(e);
    assert forall|a: int, b: int| 0 <= a < t.len() && 0 <= b < t.len() && a != b implies cache_keys(t)[a]
        != cache_keys(t)[b] by {
        if a < s.len() && b < s.len() {
            assert(cache_keys(s)[a] != cache_keys(s)[b]);
        } else if a < s.len() {
            assert(s[a].0@ != e.0@);
        } else {
            assert(s[b].0@ != e.0@);
        }
    }
}

impl<A> ArtworkCache<A> {
    #[verifier::type_invariant]
    closed spec fn consistent(self) -> bool {
        &&& cache_keys(self.entries@).no_duplicates()
        &&& self.encoded_bytes == cached_bytes(self.entries@)
        &&& self.source_pixels == cached_pixels(self.entries@)
        &&& cached_bytes(self.entries@) <= self.max_encoded_bytes
        &&& cached_pixels(self.entries@) <= self.max_source_pixels
        &&& self.entries@.len() <= self.max_entries
    }

    /// The entries (URL, artwork, encoded bytes, pixels), least recently used first.
    pub closed spec fn contents(self) -> Seq<(String, A, usize, u64)> {
        self.entries@
    }

    /// The count, encoded-byte and pixel budgets.
    pub closed spec fn limits(self) -> (usize, usize, u64) {
        (self.max_entries, self.max_encoded_bytes, self.max_source_pixels)
    }

    pub fn with_limits(max_entries: usize, max_encoded_bytes: usize, max_source_pixels: u64) -> (r: Self)
        ensures
            r.contents().len() == 0,
            r.limits() == (max_entries, max_encoded_bytes, max_source_pixels),
    {
        ArtworkCache {
            entries: Vec::new(),
            max_entries,
            max_encoded_bytes,
            max_source_pixels,
            encoded_bytes: 0,
            source_pixels: 0,
        }
    }

    /// Encoded bytes of the cached artwork.
    pub fn encoded_bytes(&self) -> (r: usize)
        ensures
            r == cached_bytes(self.contents()),
    {
        proof {
            use_type_invariant(self);
        }
        self.encoded_bytes
    }

    /// Pixels of the cached artwork.
    pub fn source_pixels(&self) -> (r: u64)
        ensures
            r == cached_pixels(self.contents()),
    {
        proof {
            use_type_invariant(self);
        }
        self.source_pixels
    }

    fn find(&self, url: &str) -> (r: Option<usize>)
        ensures
            r matches Some(k) ==> k < self.entries@.len() && k as int == cache_index(self.entries@, url@)
                && self.entries@[k as int].0@ == url@,
            r is None ==> cache_index(self.entries@, url@) < 0 && forall|i: int|
                0 <= i < self.entries@.len() ==> self.entries@[i].0@ != url@,
    {
        let ghost keys = cache_keys(self.entries@);
        let mut i: usize = 0;
        while i < self.entries.len()
            invariant
                i <= self.entries@.len(),
                keys == cache_keys(self.entries@),
                forall|j: int| 0 <= j < i ==> !(is_url(url@))(#[trigger] keys[j]),
            decreases self.entries@.len() - i,
        {
            if str_eq(self.entries[i].0.as_str(), url) {
                proof {
                    crate::text::lemma_first_match(keys, is_url(url@), i as int);
                }
                return Some(i);
            }
            i += 1;
        }
        proof {
            crate::text::lemma_first_match(keys, is_url(url@), keys.len() as int);
            assert forall|j: int| 0 <= j < self.entries@.len() implies self.entries@[j].0@ != url@ by {
                assert(keys[j] == self.entries@[j].0@);
            }
        }
        None
    }

    /// The artwork of `url`, which becomes the most recently used.
    pub fn get(&mut self, url: &str) -> (r: Option<&A>)
        ensures
            final(self).limits() == old(self).limits(),
            ({
                let k = cache_index(old(self).contents(), url@);
                &&& (r is Some) == (k >= 0)
                &&& k >= 0 ==> final(self).contents() == old(self).contents().remove(k).push(
                    old(self).contents()[k],
                ) && *r->0 == old(self).contents()[k].1
                &&& k < 0 ==> final(self).contents() == old(self).contents()
            }),
    {
        proof {
            use_type_invariant(&*self);
        }
        match self.find(url) {
            Some(k) => {
                let ghost before = self.entries@;
                let mut taken = ArtworkCache::with_limits(self.max_entries, self.max_encoded_bytes, self.max_source_pixels);
                std::mem::swap(&mut taken, self);
                proof {
                    use_type_invariant(&taken);
                }
                let ArtworkCache {
                    mut entries,
                    max_entries,
                    max_encoded_bytes,
                    max_source_pixels,
                    encoded_bytes,
                    source_pixels,
                } = taken;
                let entry = entries.remove(k);
                entries.push(entry);
                proof {
                    lemma_cache_keys_remove(before, k as int);
                    lemma_cache_keys_push(before.remove(k as int), before[k as int]);
                    lemma_cached_remove(before, k as int);
                    lemma_cached_push(before.remove(k as int), before[k as int]);
                }
                *self = ArtworkCache {
                    entries,
                    max_entries,
                    max_encoded_bytes,
                    max_source_pixels,
                    encoded_bytes,
                    source_pixels,
                };
                let last = self.entries.len() - 1;
                Some(&self.entries[last].1)
            },
            None => None,
        }
    }

    /// Caches artwork of `encoded_bytes` and `width` x `height` pixels as the
    /// most recently used, evicting the least recently used entries until it
    /// fits; artwork that alone exceeds a budget is not cached.
    pub fn insert(&mut self, url: String, art: A, encoded_bytes: usize, width: u32, height: u32)
        ensures
            final(self).limits() == old(self).limits(),
            final(self).contents() == cache_after_insert(
                old(self).contents(),
                old(self).limits(),
                url,
                art,
                encoded_bytes,
                width * height,
            ),
    {
        proof {
            use_type_invariant(&*self);
        }
        let pixels = pixel_count(width, height);
        if self.max_entries == 0 || encoded_bytes > self.max_encoded_bytes || pixels > self.max_source_pixels {
            return;
        }
        let ghost start = self.entries@;
        let found = self.find(url.as_str());
        let mut taken = ArtworkCache::with_limits(self.max_entries, self.max_encoded_bytes, self.max_source_pixels);
        std::mem::swap(&mut taken, self);
        proof {
            use_type_invariant(&taken);
        }
        let ArtworkCache {
            mut entries,
            max_entries,
            max_encoded_bytes: max_bytes,
            max_source_pixels: max_pixels,
            encoded_bytes: mut total_bytes,
            source_pixels: mut total_pixels,
        } = taken;
        match found {
            Some(k) => {
                let ghost before = entries@;
                let removed = entries.remove(k);
                proof {
                    lemma_cached_remove(before, k as int);
                    lemma_cache_keys_remove(before, k as int);
                    lemma_cached_nonnegative(before.remove(k as int));
                }
                total_bytes = total_bytes - removed.2;
                total_pixels = total_pixels - removed.3;
            },
            None => {},
        }
        let ghost rest = entries@;
        while entries.len() > 0 && (entries.len() >= max_entries || total_bytes > max_bytes - encoded_bytes
            || total_pixels > max_pixels - pixels)
            invariant
                encoded_bytes <= max_bytes,
                pixels <= max_pixels,
                total_bytes == cached_bytes(entries@),
                total_pixels == cached_pixels(entries@),
                cached_bytes(entries@) <= max_bytes,
                cached_pixels(entries@) <= max_pixels,
                cache_keys(entries@).no_duplicates(),
                forall|i: int| 0 <= i < entries@.len() ==> entries@[i].0@ != url@,
                evicted(entries@, encoded_bytes as int, pixels as int, max_entries as int, max_bytes as int, max_pixels as int)
                    == evicted(rest, encoded_bytes as int, pixels as int, max_entries as int, max_bytes as int, max_pixels as int),
            decreases entries@.len(),
        {
            let ghost before = entries@;
            let removed = entries.remove(0);
            proof {
                lemma_cached_remove(before, 0);
                lemma_cache_keys_remove(before, 0);
                lemma_cache_remove_keeps_absent(before, 0, url@);
                assert(before.remove(0) =~= before.drop_first());
                lemma_cached_nonnegative(before.remove(0));
            }
            total_bytes = total_bytes - removed.2;
            total_pixels = total_pixels - removed.3;
        }
        let ghost kept = entries@;
        proof {
            lemma_cached_nonnegative(kept);
            lemma_cache_keys_push(kept, (url, art, encoded_bytes, pixels));
            lemma_cached_push(kept, (url, art, encoded_bytes, pixels));
        }
        entries.push((url, art, encoded_bytes, pixels));
        *self = ArtworkCache {
            entries,
            max_entries,
            max_encoded_bytes: max_bytes,
            max_source_pixels: max_pixels,
            encoded_bytes: total_bytes + encoded_bytes,
            source_pixels: total_pixels + pixels,
        };
    }
}

/// Whether cache contents fit the count, encoded-byte and pixel budgets.
pub open spec fn within_budget<A>(contents: Seq<(String, A, usize, u64)>, limits: (usize, usize, u64)) -> bool {
    &&& contents.len() <= limits.0
    &&& cached_bytes(contents) <= limits.1
    &&& cached_pixels(contents) <= limits.2
}

proof fn lemma_evicted_leaves_room<A>(
    s: Seq<(String, A, usize, u64)>,
    bytes: int,
    pixels: int,
    max_entries: int,
    max_bytes: int,
    max_pixels: int,
)
    ensures
        ({
            let r = evicted(s, bytes, pixels, max_entries, max_bytes, max_pixels);
            r.len() == 0 || (r.len() < max_entries && cached_bytes(r) + bytes <= max_bytes && cached_pixels(r)
                + pixels <= max_pixels)
        }),
    decreases s.len(),
{
    if s.len() > 0 && (s.len() >= max_entries || cached_bytes(s) + bytes > max_bytes || cached_pixels(s)
        + pixels > max_pixels) {
        lemma_evicted_leaves_room(s.drop_first(), bytes, pixels, max_entries, max_bytes, max_pixels);
    }
}

/// The artwork cache never outgrows its budgets, and artwork that fits them
/// by itself is cached as the most recently used entry.
pub proof fn law_cache_stays_within_budget<A>(
    contents: Seq<(String, A, usize, u64)>,
    limits: (usize, usize, u64),
    url: String,
    art: A,
    encoded_bytes: usize,
    width: u32,
    height: u32,
)
    requires
        within_budget(contents, limits),
    ensures
        within_budget(cache_after_insert(contents, limits, url, art, encoded_bytes, width * height), limits),
        limits.0 > 0 && encoded_bytes <= limits.1 && width * height <= limits.2 ==> cache_after_insert(
            contents,
            limits,
            url,
            art,
            encoded_bytes,
            width * height,
        ).last() == (url, art, encoded_bytes, (width * height) as u64),
{
    let (max_entries, max_bytes, max_pixels) = limits;
    let pixels = width * height;
    assert(0 <= width * height) by (nonlinear_arith);
    let k = cache_index(contents, url@);
    let rest = if k >= 0 { contents.remove(k) } else { contents };
    if !(max_entries == 0 || encoded_bytes > max_bytes || pixels > max_pixels) {
        let r = evicted(rest, encoded_bytes as int, pixels, max_entries as int, max_bytes as int, max_pixels as int);
        lemma_evicted_leaves_room(rest, encoded_bytes as int, pixels, max_entries as int, max_bytes as int, max_pixels as int);
        lemma_cached_push(r, (url, art, encoded_bytes, pixels as u64));
        if r.len() == 0 {
            assert(cached_bytes(r) == 0 && cached_pixels(r) == 0);
        }
    }
}

// ---------------------------------------------------------------------------
// Ordering and captions
// ---------------------------------------------------------------------------

/// Playing players come first; then players by name.
pub open spec fn player_before(a: (PlayerId, MediaInfo), b: (PlayerId, MediaInfo)) -> bool {
    (is_playing(a) && !is_playing(b)) || (is_playing(a) == is_playing(b) && crate::text::text_less(
        a.1.player_name@,
        b.1.player_name@,
    ))
}

pub open spec fn goes_before(x: (PlayerId, MediaInfo)) -> spec_fn((PlayerId, MediaInfo)) -> bool {
    |e: (PlayerId, MediaInfo)| player_before(x, e)
}

/// `x` put into `s` before the first entry it goes before (after the ones
/// it ties with).
pub open spec fn inserted(s: Seq<(PlayerId, MediaInfo)>, x: (PlayerId, MediaInfo)) -> Seq<(PlayerId, MediaInfo)> {
    let j = crate::text::first_match(s, goes_before(x));
    if j < 0 { s.push(x) } else { s.insert(j, x) }
}

/// The players in display order: a stable sort by `player_before`.
pub open spec fn sorted_players(s: Seq<(PlayerId, MediaInfo)>) -> Seq<(PlayerId, MediaInfo)>
    decreases s.len(),
{
    if s.len() == 0 {
        s
    } else {
        inserted(sorted_players(s.drop_last()), s.last())
    }
}

fn player_goes_before(a: &(PlayerId, MediaInfo), b: &(PlayerId, MediaInfo)) -> (r: bool)
    ensures
        r == player_before(*a, *b),
{
    let a_playing = a.1.status == PlaybackStatus::Playing;
    let b_playing = b.1.status == PlaybackStatus::Playing;
    (a_playing && !b_playing) || (a_playing == b_playing && crate::text::text_less_exec(
        &chars_of(a.1.player_name.as_str()),
        &chars_of(b.1.player_name.as_str()),
    ))
}

/// Sorts players for display: playing ones first, then by name, ties in
/// their order.
pub fn sort_players(players: Vec<(PlayerId, MediaInfo)>) -> (r: Vec<(PlayerId, MediaInfo)>)
    ensures
        r@ == sorted_players(players@),
{
    let ghost s = players@;
    let n = players.len();
    let mut sorted: Vec<(PlayerId, MediaInfo)> = Vec::new();
    let mut rest = players;
    let mut i: usize = 0;
    while rest.len() > 0
        invariant
            i + rest@.len() == s.len(),
            s.len() == n,
            rest@ == s.skip(i as int),
            sorted@ == sorted_players(s.take(i as int)),
        decreases rest@.len(),
    {
        let x = rest.remove(0);
        proof {
            assert(x == s[i as int]);
            assert(s.take(i + 1).drop_last() =~= s.take(i as int));
        }
        let mut j: usize = 0;
        while j < sorted.len() && !player_goes_before(&x, &sorted[j])
            invariant
                j <= sorted@.len(),
                forall|t: int| 0 <= t < j ==> !(goes_before(x))(#[trigger] sorted@[t]),
            decreases sorted@.len() - j,
        {
            j += 1;
        }
        proof {
            crate::text::lemma_first_match(sorted@, goes_before(x), j as int);
        }
        if j < sorted.len() {
            sorted.insert(j, x);
        } else {
            sorted.push(x);
        }
        i += 1;
        proof {
            assert(rest@ =~= s.skip(i as int));
        }
    }
    assert(s.take(i as int) =~= s);
    sorted
}

/// No player that plays comes after one that does not.
spec fn playing_ones_first(r: Seq<(PlayerId, MediaInfo)>) -> bool {
    forall|i: int, j: int|
        0 <= i < j < r.len() && (#[trigger] r[j]).1.status == PlaybackStatus::Playing
            ==> (#[trigger] r[i]).1.status == PlaybackStatus::Playing
}

/// Sorting the players for display keeps exactly the players it was given,
/// each as many times, and puts every playing player before every player
/// that does not play.
pub proof fn law_playing_players_first(s: Seq<(PlayerId, MediaInfo)>)
    ensures
        sorted_players(s).to_multiset() == s.to_multiset(),
        forall|i: int, j: int|
            0 <= i < j < sorted_players(s).len() && (#[trigger] sorted_players(s)[j]).1.status
                == PlaybackStatus::Playing ==> (#[trigger] sorted_players(s)[i]).1.status
                == PlaybackStatus::Playing,
    decreases s.len(),
{
    if s.len() > 0 {
        let rest = s.drop_last();
        let x = s.last();
        law_playing_players_first(rest);
        let t = sorted_players(rest);
        assert(playing_ones_first(t));
        assert(s =~= rest.push(x));
        vstd::seq_lib::to_multiset_build(rest, x);
        let g = goes_before(x);
        crate::text::lemma_first_match_bounds(t, g);
        let j0 = crate::text::first_match(t, g);
        let r = sorted_players(s);
        assert(r == inserted(t, x));
        if j0 < 0 {
            vstd::seq_lib::to_multiset_build(t, x);
            assert(r =~= t.push(x));
            assert forall|i: int, j: int|
                0 <= i < j < r.len() && (#[trigger] r[j]).1.status == PlaybackStatus::Playing
                    implies (#[trigger] r[i]).1.status == PlaybackStatus::Playing by {
                if j == t.len() {
                    assert(!g(t[i]));
                } else {
                    assert(r[i] == t[i] && r[j] == t[j]);
                }
            }
        } else {
            vstd::seq_lib::to_multiset_insert(t, j0, x);
            assert(r =~= t.insert(j0, x));
            assert(g(t[j0]));
            assert forall|i: int, j: int|
                0 <= i < j < r.len() && (#[trigger] r[j]).1.status == PlaybackStatus::Playing
                    implies (#[trigger] r[i]).1.status == PlaybackStatus::Playing by {
                if is_playing(x) {
                    if i < j0 {
                        assert(!g(t[i]));
                        assert(r[i] == t[i]);
                    } else if i > j0 {
                        assert(r[i] == t[i - 1] && r[j] == t[j - 1]);
                    }
                } else if j != j0 {
                    if j > j0 {
                        assert(r[j] == t[j - 1]);
                        assert(!is_playing(t[j0]));
                    } else {
                        assert(r[i] == t[i] && r[j] == t[j]);
                    }
                }
            }
        }
        assert(playing_ones_first(r));
    }
}

/// Symbols that browsers put before a playing tab's title.
pub open spec fn caption_junk(c: char) -> bool {
    crate::text::is_ws(c) || c == '\u{25b6}' || c == '\u{25ba}' || c == '\u{23f8}' || c == '\u{fe0e}'
        || c == '\u{fe0f}'
}

fn caption_junk_char(c: char) -> (r: bool)
    ensures
        r == caption_junk(c),
{
    crate::text::is_ws_char(c) || c == '\u{25b6}' || c == '\u{25ba}' || c == '\u{23f8}' || c == '\u{fe0e}'
        || c == '\u{fe0f}'
}

pub open spec fn strip_caption_start(s: Seq<char>) -> Seq<char>
    decreases s.len(),
{
    if s.len() > 0 && caption_junk(s[0]) {
        strip_caption_start(s.drop_first())
    } else {
        s
    }
}

/// Whether a player's title is a Bandcamp page's caption: the page title, or
/// "title | artist", after leading play symbols and surrounding white space.
pub open spec fn page_caption(title: Seq<char>, page_title: Seq<char>, artist: Seq<char>) -> bool {
    let cleaned = crate::text::trim_end(strip_caption_start(title));
    page_title.len() > 0 && (cleaned == page_title || (artist.len() > 0 && cleaned == page_title + " | "@
        + artist))
}

fn caption_text(t: &Vec<char>) -> (cleaned: Vec<char>)
    ensures
        cleaned@ == crate::text::trim_end(strip_caption_start(t@)),
{
    let mut start: usize = 0;
    assert(t@.skip(0) =~= t@);
    while start < t.len() && caption_junk_char(t[start])
        invariant
            start <= t@.len(),
            strip_caption_start(t@) == strip_caption_start(t@.skip(start as int)),
        decreases t@.len() - start,
    {
        assert(t@.skip(start as int).drop_first() =~= t@.skip(start + 1));
        start += 1;
    }
    let mut end: usize = t.len();
    let ghost stripped = t@.skip(start as int);
    assert(strip_caption_start(t@) == stripped);
    assert(t@.subrange(start as int, t@.len() as int) =~= stripped);
    while end > start && crate::text::is_ws_char(t[end - 1])
        invariant
            start <= end <= t@.len(),
            crate::text::trim_end(stripped) == crate::text::trim_end(t@.subrange(start as int, end as int)),
        decreases end,
    {
        assert(t@.subrange(start as int, end as int).drop_last() =~= t@.subrange(start as int, end - 1));
        end -= 1;
    }
    let mut cleaned: Vec<char> = Vec::new();
    let mut i = start;
    while i < end
        invariant
            start <= i <= end <= t@.len(),
            cleaned@ == t@.subrange(start as int, i as int),
        decreases end - i,
    {
        cleaned.push(t[i]);
        i += 1;
        assert(cleaned@ =~= t@.subrange(start as int, i as int));
    }
    cleaned
}

/// Whether a player's title is the caption a Bandcamp page gives it.
pub fn is_bandcamp_page_caption(title: &str, page_title: &str, artist: &str) -> (r: bool)
    ensures
        r == page_caption(title@, page_title@, artist@),
{
    let cleaned = caption_text(&chars_of(title));
    let page = chars_of(page_title);
    if page.len() == 0 {
        return false;
    }
    if seq_eq(&cleaned, &page) {
        return true;
    }
    let artist_chars = chars_of(artist);
    if artist_chars.len() == 0 {
        return false;
    }
    let mut full = page;
    append_str(&mut full, " | ");
    append_chars(&mut full, &artist_chars);
    seq_eq(&cleaned, &full)
}


/// A track of a Bandcamp page.
#[derive(Debug, Clone, PartialEq, Eq)]
pub struct BandcampTrack {
    /// The track's own page.
    pub url: String,
    pub title: String,
    pub duration_ms: u64,
}

/// What a Bandcamp album or track page lists.
#[derive(Debug, Clone, PartialEq, Eq)]
pub struct BandcampPage {
    pub album: String,
    pub artist: String,
    pub tracks: Vec<BandcampTrack>,
    /// Whether every track of the album is listed.
    pub tracks_complete: bool,
}

pub open spec fn track_at_url(url: Seq<char>) -> spec_fn(BandcampTrack) -> bool {
    |t: BandcampTrack| t.url@ == url
}

pub open spec fn track_lasting(secs: int) -> spec_fn(BandcampTrack) -> bool {
    |t: BandcampTrack| t.duration_ms / 1000 == secs
}

/// How many tracks last `secs` whole seconds.
pub open spec fn tracks_lasting(tracks: Seq<BandcampTrack>, secs: int) -> nat
    decreases tracks.len(),
{
    if tracks.len() == 0 {
        0
    } else {
        tracks_lasting(tracks.drop_last(), secs) + if tracks.last().duration_ms / 1000 == secs { 1nat } else { 0nat }
    }
}

/// The track of a Bandcamp page that a player plays: the one whose own page
/// is playing; otherwise, for Firefox (which reports whole seconds) on a
/// page that lists every track, the only track of the playing length. Only
/// when the player's title is the caption the page gives (the track's title
/// on a track page, the album's otherwise).
pub open spec fn bandcamp_track(bus_name: Seq<char>, info: MediaInfo, page: Seq<char>, metadata: BandcampPage) -> Option<int> {
    let tracks = metadata.tracks@;
    let direct = crate::text::first_match(tracks, track_at_url(page));
    let caption = if direct >= 0 { tracks[direct].title@ } else { metadata.album@ };
    if !page_caption(info.title@, caption, metadata.artist@) {
        None
    } else if direct >= 0 {
        Some(direct)
    } else if !mpris_app_is(bus_name, "firefox"@) || !metadata.tracks_complete || info.duration == 0
        || info.duration % 1000 != 0 {
        None
    } else if tracks_lasting(tracks, (info.duration / 1000) as int) == 1 {
        Some(crate::text::first_match(tracks, track_lasting((info.duration / 1000) as int)))
    } else {
        None
    }
}

proof fn lemma_tracks_lasting_take(tracks: Seq<BandcampTrack>, i: int, secs: int)
    requires
        0 <= i < tracks.len(),
    ensures
        tracks_lasting(tracks.take(i + 1), secs) == tracks_lasting(tracks.take(i), secs) + if tracks[i].duration_ms
            / 1000 == secs { 1nat } else { 0nat },
{
    assert(tracks.take(i + 1).drop_last() =~= tracks.take(i));
}

/// The index of the track of `metadata` that the player plays (see
/// `bandcamp_track`), where there is one.
pub fn bandcamp_track_for(bus_name: &str, info: &MediaInfo, page: &str, metadata: &BandcampPage) -> (r: Option<usize>)
    ensures
        match r {
            Some(i) => bandcamp_track(bus_name@, *info, page@, *metadata) == Some(i as int) && i
                < metadata.tracks@.len(),
            None => bandcamp_track(bus_name@, *info, page@, *metadata) is None,
        },
{
    let ghost tracks = metadata.tracks@;
    let mut direct: Option<usize> = None;
    let mut i: usize = 0;
    while i < metadata.tracks.len()
        invariant
            tracks == metadata.tracks@,
            i <= tracks.len(),
            forall|j: int| 0 <= j < i ==> !track_at_url(page@)(tracks[j]),
        ensures
            i <= tracks.len(),
            forall|j: int| 0 <= j < i ==> !track_at_url(page@)(tracks[j]),
            i < tracks.len() ==> track_at_url(page@)(tracks[i as int]),
        decreases tracks.len() - i,
    {
        if str_eq(metadata.tracks[i].url.as_str(), page) {
            break;
        }
        i += 1;
    }
    proof {
        crate::text::lemma_first_match(tracks, track_at_url(page@), i as int);
    }
    if i < metadata.tracks.len() {
        direct = Some(i);
    }
    let caption: &str = match direct {
        Some(k) => metadata.tracks[k].title.as_str(),
        None => metadata.album.as_str(),
    };
    if !is_bandcamp_page_caption(info.title.as_str(), caption, metadata.artist.as_str()) {
        return None;
    }
    if direct.is_some() {
        return direct;
    }
    if !is_firefox_mpris_player(bus_name) || !metadata.tracks_complete || info.duration == 0
        || info.duration % 1000 != 0 {
        return None;
    }
    let secs = info.duration / 1000;
    let mut count: usize = 0;
    let mut first: usize = 0;
    let mut j: usize = 0;
    while j < metadata.tracks.len()
        invariant
            tracks == metadata.tracks@,
            j <= tracks.len(),
            count as int == tracks_lasting(tracks.take(j as int), secs as int),
            count <= j,
            count == 0 ==> forall|k: int| 0 <= k < j ==> !track_lasting(secs as int)(tracks[k]),
            count > 0 ==> first < j && track_lasting(secs as int)(tracks[first as int]) && forall|k: int|
                0 <= k < first ==> !track_lasting(secs as int)(tracks[k]),
        decreases tracks.len() - j,
    {
        proof {
            lemma_tracks_lasting_take(tracks, j as int, secs as int);
        }
        if metadata.tracks[j].duration_ms / 1000 == secs {
            if count == 0 {
                first = j;
            }
            count += 1;
        }
        j += 1;
    }
    assert(tracks.take(j as int) =~= tracks);
    if count == 1 {
        proof {
            crate::text::lemma_first_match(tracks, track_lasting(secs as int), first as int);
        }
        Some(first)
    } else {
        None
    }
}


/// Takes the title of the track that the player plays from its Bandcamp
/// page, and the artist, and (on an album page) the album, where the player
/// left them blank.
pub fn apply_bandcamp_metadata(bus_name: &str, info: &mut MediaInfo, page: &str, album_page: bool, metadata: &BandcampPage)
    ensures
        match bandcamp_track(bus_name@, *old(info), page@, *metadata) {
            None => *final(info) == *old(info),
            Some(k) => {
                &&& final(info).title@ == metadata.tracks@[k].title@
                &&& final(info).artist@ == if trim(old(info).artist@).len() == 0 {
                    metadata.artist@
                } else {
                    old(info).artist@
                }
                &&& final(info).album@ == if trim(old(info).album@).len() == 0 && album_page {
                    metadata.album@
                } else {
                    old(info).album@
                }
                &&& (MediaInfo { title: old(info).title, artist: old(info).artist, album: old(info).album, ..*final(info) }) == *old(info)
            },
        },
{
    let k = match bandcamp_track_for(bus_name, &*info, page, metadata) {
        Some(k) => k,
        None => return,
    };
    info.title = crate::text::copy_string(&metadata.tracks[k].title);
    if crate::text::trimmed_chars(info.artist.as_str()).len() == 0 {
        info.artist = crate::text::copy_string(&metadata.artist);
    }
    if crate::text::trimmed_chars(info.album.as_str()).len() == 0 && album_page {
        info.album = crate::text::copy_string(&metadata.album);
    }
}


// ---------------------------------------------------------------------------
// One round of the media monitor
// ---------------------------------------------------------------------------

/// Milliseconds between two searches for Emby credentials.
pub const EMBY_DISCOVERY_INTERVAL_MS: u64 = 30_000;

/// Whether the Emby credentials are looked for again: 30 seconds after the
/// last search.
pub fn emby_discovery_due(last_discovery_ms: u64, now_ms: u64) -> (r: bool)
    ensures
        r == (now_ms >= last_discovery_ms && now_ms - last_discovery_ms >= EMBY_DISCOVERY_INTERVAL_MS),
{
    now_ms >= last_discovery_ms && now_ms - last_discovery_ms >= EMBY_DISCOVERY_INTERVAL_MS
}

pub open spec fn is_playerctld(bus_name: Seq<char>) -> bool {
    mpris_identity(bus_name) matches Some(id) && eq_ignore_case(id, "playerctld"@)
}

/// The MPRIS players in the order they are read: playerctld, which mirrors
/// another player, last; the others in their order.
pub fn order_mpris_players<I>(players: Vec<(String, I)>) -> (r: Vec<(String, I)>)
    ensures
        r@ == players@.filter(|p: (String, I)| !is_playerctld(p.0@)) + players@.filter(
            |p: (String, I)| is_playerctld(p.0@),
        ),
{
    let ghost s = players@;
    let n = players.len();
    let mut first: Vec<(String, I)> = Vec::new();
    let mut last: Vec<(String, I)> = Vec::new();
    let mut rest = players;
    let mut i: usize = 0;
    while rest.len() > 0
        invariant
            i + rest@.len() == s.len(),
            s.len() == n,
            rest@ == s.skip(i as int),
            first@ == s.take(i as int).filter(|p: (String, I)| !is_playerctld(p.0@)),
            last@ == s.take(i as int).filter(|p: (String, I)| is_playerctld(p.0@)),
        decreases rest@.len(),
    {
        let p = rest.remove(0);
        proof {
            assert(p == s[i as int]);
            assert(s.take(i + 1) =~= s.take(i as int).push(p));
            s.take(i as int).lemma_filter_push(p, |p: (String, I)| !is_playerctld(p.0@));
            s.take(i as int).lemma_filter_push(p, |p: (String, I)| is_playerctld(p.0@));
        }
        if is_playerctld_mpris_player(p.0.as_str()) {
            last.push(p);
        } else {
            first.push(p);
        }
        i += 1;
        proof {
            assert(rest@ =~= s.skip(i as int));
        }
    }
    assert(s.take(i as int) =~= s);
    first.append(&mut last);
    first
}

/// Whether an MPRIS player is left out of a round: Cider's own MPRIS entry
/// when Cider's API already gave its player.
pub fn skips_mpris_player(bus_name: &str, has_cider_api_player: bool) -> (r: bool)
    ensures
        r == (has_cider_api_player && mpris_app_is(bus_name@, "cider"@)),
{
    has_cider_api_player && is_cider_mpris_player(bus_name)
}

/// The keys of the players of a round, under which per-player state is kept
/// (the rest is dropped).
pub fn present_player_keys(players: &Vec<(PlayerId, MediaInfo)>) -> (r: Vec<String>)
    ensures
        crate::text::string_views(r@) == players@.map_values(|p: (PlayerId, MediaInfo)| player_key(p.0)),
{
    let mut r: Vec<String> = Vec::new();
    let mut i: usize = 0;
    while i < players.len()
        invariant
            i <= players@.len(),
            crate::text::string_views(r@) == players@.take(i as int).map_values(|p: (PlayerId, MediaInfo)| player_key(p.0)),
        decreases players@.len() - i,
    {
        let ghost before = r@;
        r.push(players[i].0.key());
        proof {
            assert(crate::text::string_views(r@) =~= crate::text::string_views(before).push(player_key(players@[i as int].0)));
            assert(players@.take(i + 1).map_values(|p: (PlayerId, MediaInfo)| player_key(p.0)) =~= players@.take(
                i as int,
            ).map_values(|p: (PlayerId, MediaInfo)| player_key(p.0)).push(player_key(players@[i as int].0)));
        }
        i += 1;
    }
    assert(players@.take(i as int) =~= players@);
    r
}


// ---------------------------------------------------------------------------
// Artwork candidates
// ---------------------------------------------------------------------------

/// The parts of a URL that the artwork lookup reads.
pub struct UrlParts {
    pub host: Option<String>,
    pub path: String,
    /// The path's segments, where the path is hierarchical.
    pub segments: Option<Vec<String>>,
    /// The decoded query pairs, in order.
    pub query: Vec<(String, String)>,
}

impl View for UrlParts {
    type V = (Option<Seq<char>>, Seq<char>, Option<Seq<Seq<char>>>, Seq<(Seq<char>, Seq<char>)>);

    open spec fn view(&self) -> Self::V {
        (
            opt_view(self.host),
            self.path@,
            match self.segments {
                Some(v) => Some(crate::text::string_views(v@)),
                None => None,
            },
            self.query@.map_values(|q: (String, String)| (q.0@, q.1@)),
        )
    }
}

/// The parts of the URL that `text` is, where it is one.
pub uninterp spec fn parsed_url(text: Seq<char>) -> Option<
    (Option<Seq<char>>, Seq<char>, Option<Seq<Seq<char>>>, Seq<(Seq<char>, Seq<char>)>),
>;

/// Calls `reqwest::Url::parse` and reads the parsed URL's `host_str`,
/// `path`, `path_segments` and `query_pairs`. How a URL is parsed is the url
/// crate's and is only named here.
#[verifier::external_body]
fn parse_url(text: &str) -> (r: Option<UrlParts>)
    ensures
        match r {
            Some(parts) => parsed_url(text@) == Some(parts@),
            None => parsed_url(text@) is None,
        },
{
    match reqwest::Url::parse(text) {
        Ok(url) => Some(UrlParts {
            host: url.host_str().map(String::from),
            path: url.path().to_string(),
            segments: url.path_segments().map(|parts| parts.map(String::from).collect()),
            query: url.query_pairs().map(|(k, v)| (k.into_owned(), v.into_owned())).collect(),
        }),
        Err(_) => None,
    }
}

/// The segments that are not empty, in order.
pub open spec fn nonempty_segments(segments: Seq<Seq<char>>) -> Seq<Seq<char>>
    decreases segments.len(),
{
    if segments.len() == 0 {
        segments
    } else {
        let prev = nonempty_segments(segments.drop_last());
        if segments.last().len() > 0 { prev.push(segments.last()) } else { prev }
    }
}

/// The value of the first query pair named `key`.
pub open spec fn query_value(pairs: Seq<(Seq<char>, Seq<char>)>, key: Seq<char>) -> Option<Seq<char>> {
    let j = crate::text::first_match(pairs, |q: (Seq<char>, Seq<char>)| q.0 == key);
    if j < 0 { None } else { Some(pairs[j].1) }
}

/// Where a YouTube URL names its video: `youtu.be/<id>`, `watch?v=<id>`, or
/// `/shorts/`, `/embed/` or `/live/` followed by it.
pub open spec fn youtube_candidate(
    url: (Option<Seq<char>>, Seq<char>, Option<Seq<Seq<char>>>, Seq<(Seq<char>, Seq<char>)>),
) -> Option<Seq<char>> {
    match url.0 {
        None => None,
        Some(h) => {
            let host = crate::text::lower(h);
            if host == "youtu.be"@ || host == "www.youtu.be"@ {
                match url.2 {
                    Some(segments) => {
                        let parts = nonempty_segments(segments);
                        if parts.len() > 0 { Some(parts[0]) } else { None }
                    },
                    None => None,
                }
            } else if host == "youtube.com"@ || crate::text::ends_with(host, ".youtube.com"@) {
                if crate::text::strip_all_suffix(url.1, "/"@) == "/watch"@ {
                    query_value(url.3, "v"@)
                } else {
                    match url.2 {
                        Some(segments) => {
                            let parts = nonempty_segments(segments);
                            if parts.len() >= 2 && (parts[0] == "shorts"@ || parts[0] == "embed"@
                                || parts[0] == "live"@) {
                                Some(parts[1])
                            } else {
                                None
                            }
                        },
                        None => None,
                    }
                }
            } else {
                None
            }
        },
    }
}

/// A video id is eleven ASCII letters, digits, `-` or `_`.
pub open spec fn valid_video_id(id: Seq<char>) -> bool {
    id.len() == 11 && forall|i: int| 0 <= i < id.len() ==> (crate::text::is_ascii_alnum(#[trigger] id[i])
        || id[i] == '-' || id[i] == '_')
}

pub open spec fn youtube_id(
    url: (Option<Seq<char>>, Seq<char>, Option<Seq<Seq<char>>>, Seq<(Seq<char>, Seq<char>)>),
) -> Option<Seq<char>> {
    match youtube_candidate(url) {
        Some(id) => if valid_video_id(id) { Some(id) } else { None },
        None => None,
    }
}

/// The YouTube video id of the URL `text` (none for other URLs and for text
/// that is no URL).
pub open spec fn youtube_id_of_text(text: Seq<char>) -> Option<Seq<char>> {
    match parsed_url(text) {
        Some(url) => youtube_id(url),
        None => None,
    }
}

fn nonempty_segment_list(segments: &Vec<String>) -> (r: Vec<Vec<char>>)
    ensures
        crate::text::views(r@) == nonempty_segments(crate::text::string_views(segments@)),
{
    let ghost s = crate::text::string_views(segments@);
    let mut r: Vec<Vec<char>> = Vec::new();
    let mut i: usize = 0;
    assert(s.take(0) =~= Seq::<Seq<char>>::empty());
    while i < segments.len()
        invariant
            i <= segments@.len(),
            s == crate::text::string_views(segments@),
            crate::text::views(r@) == nonempty_segments(s.take(i as int)),
        decreases segments@.len() - i,
    {
        let part = chars_of(segments[i].as_str());
        proof {
            assert(s.take(i + 1).drop_last() =~= s.take(i as int));
            assert(s.take(i + 1).last() == part@);
        }
        if part.len() > 0 {
            let ghost before = r@;
            r.push(part);
            assert(crate::text::views(r@) =~= crate::text::views(before).push(r@.last()@));
        }
        i += 1;
    }
    assert(s.take(i as int) =~= s);
    r
}

fn query_value_of(pairs: &Vec<(String, String)>, key: &str) -> (r: Option<String>)
    ensures
        opt_view(r) == query_value(pairs@.map_values(|q: (String, String)| (q.0@, q.1@)), key@),
{
    let ghost s = pairs@.map_values(|q: (String, String)| (q.0@, q.1@));
    let ghost p = |q: (Seq<char>, Seq<char>)| q.0 == key@;
    let mut i: usize = 0;
    while i < pairs.len()
        invariant
            i <= pairs@.len(),
            s == pairs@.map_values(|q: (String, String)| (q.0@, q.1@)),
            p == (|q: (Seq<char>, Seq<char>)| q.0 == key@),
            forall|j: int| 0 <= j < i ==> !p(#[trigger] s[j]),
        decreases pairs@.len() - i,
    {
        if str_eq(pairs[i].0.as_str(), key) {
            proof {
                crate::text::lemma_first_match(s, p, i as int);
            }
            return Some(copy_string(&pairs[i].1));
        }
        i += 1;
    }
    proof {
        crate::text::lemma_first_match(s, p, s.len() as int);
    }
    None
}

fn valid_video_id_exec(id: &Vec<char>) -> (r: bool)
    ensures
        r == valid_video_id(id@),
{
    if id.len() != 11 {
        return false;
    }
    let mut i: usize = 0;
    while i < id.len()
        invariant
            i <= id@.len(),
            forall|j: int| 0 <= j < i ==> (crate::text::is_ascii_alnum(#[trigger] id@[j]) || id@[j] == '-'
                || id@[j] == '_'),
        decreases id@.len() - i,
    {
        let c = id[i];
        if !(crate::text::is_alnum_char(c) || c == '-' || c == '_') {
            return false;
        }
        i += 1;
    }
    true
}

/// The YouTube video id that a parsed URL names.
pub fn youtube_video_id(url: &UrlParts) -> (r: Option<String>)
    ensures
        opt_view(r) == youtube_id(url@),
{
    let host = match &url.host {
        Some(h) => crate::text::lower_chars(&chars_of(h.as_str())),
        None => {
            return None;
        },
    };
    proof {
        reveal_strlit("youtu.be");
        reveal_strlit("www.youtu.be");
        reveal_strlit("youtube.com");
        reveal_strlit(".youtube.com");
        reveal_strlit("/");
        reveal_strlit("/watch");
        reveal_strlit("v");
        reveal_strlit("shorts");
        reveal_strlit("embed");
        reveal_strlit("live");
    }
    let candidate: Option<Vec<char>> = if crate::text::seq_eq(&host, &chars_of("youtu.be"))
        || crate::text::seq_eq(&host, &chars_of("www.youtu.be")) {
        match &url.segments {
            Some(segments) => {
                let parts = nonempty_segment_list(segments);
                if parts.len() > 0 {
                    Some(chars_of(string_of(&parts[0]).as_str()))
                } else {
                    None
                }
            },
            None => None,
        }
    } else if crate::text::seq_eq(&host, &chars_of("youtube.com")) || (host.len() >= 12
        && crate::text::occurs_at_exec(&host, &chars_of(".youtube.com"), host.len() - 12)) {
        let trimmed = crate::text::strip_all_suffix_chars(&chars_of(url.path.as_str()), &chars_of("/"));
        if crate::text::seq_eq(&trimmed, &chars_of("/watch")) {
            match query_value_of(&url.query, "v") {
                Some(v) => Some(chars_of(v.as_str())),
                None => None,
            }
        } else {
            match &url.segments {
                Some(segments) => {
                    let parts = nonempty_segment_list(segments);
                    if parts.len() >= 2 && (crate::text::seq_eq(&parts[0], &chars_of("shorts"))
                        || crate::text::seq_eq(&parts[0], &chars_of("embed")) || crate::text::seq_eq(
                        &parts[0],
                        &chars_of("live"),
                    )) {
                        Some(chars_of(string_of(&parts[1]).as_str()))
                    } else {
                        None
                    }
                },
                None => None,
            }
        }
    } else {
        None
    };
    proof {
        assert(crate::text::ends_with(host@, ".youtube.com"@) == (host@.len() >= 12 && crate::text::occurs_at(
            host@,
            ".youtube.com"@,
            host@.len() - 12,
        )));
    }
    match candidate {
        Some(id) => {
            if valid_video_id_exec(&id) {
                Some(string_of(&id))
            } else {
                None
            }
        },
        None => None,
    }
}

/// The YouTube video id that the URL `text` names.
pub fn extract_youtube_video_id(text: &str) -> (r: Option<String>)
    ensures
        opt_view(r) == youtube_id_of_text(text@),
{
    match parse_url(text) {
        Some(url) => youtube_video_id(&url),
        None => None,
    }
}

/// A YouTube thumbnail of a video.
pub open spec fn thumbnail(id: Seq<char>, variant: Seq<char>) -> Seq<char> {
    "https://i.ytimg.com/vi/"@ + id + "/"@ + variant + ".jpg"@
}

/// Artwork URLs to try, best first: a YouTube video's thumbnails from the
/// largest, then the player's own artwork unless it is empty or already
/// listed.
pub open spec fn candidate_urls(video_id: Option<Seq<char>>, art_url: Option<Seq<char>>) -> Seq<Seq<char>> {
    let thumbnails = match video_id {
        Some(id) => seq![
            thumbnail(id, "maxresdefault"@),
            thumbnail(id, "hqdefault"@),
            thumbnail(id, "mqdefault"@),
        ],
        None => Seq::empty(),
    };
    match art_url {
        Some(a) => if a.len() > 0 && !thumbnails.contains(a) { thumbnails.push(a) } else { thumbnails },
        None => thumbnails,
    }
}

fn thumbnail_url(id: &str, variant: &str) -> (r: String)
    ensures
        r@ == thumbnail(id@, variant@),
{
    let mut v = chars_of("https://i.ytimg.com/vi/");
    append_str(&mut v, id);
    append_str(&mut v, "/");
    append_str(&mut v, variant);
    append_str(&mut v, ".jpg");
    string_of(&v)
}

/// The artwork URLs to try for a video id and a player's own artwork URL.
pub fn thumbnail_candidates(video_id: Option<&str>, art_url: Option<&str>) -> (r: Vec<String>)
    ensures
        crate::text::string_views(r@) == candidate_urls(
            match video_id {
                Some(id) => Some(id@),
                None => None,
            },
            match art_url {
                Some(a) => Some(a@),
                None => None,
            },
        ),
{
    let mut candidates: Vec<String> = Vec::new();
    match video_id {
        Some(id) => {
            candidates.push(thumbnail_url(id, "maxresdefault"));
            candidates.push(thumbnail_url(id, "hqdefault"));
            candidates.push(thumbnail_url(id, "mqdefault"));
        },
        None => {},
    }
    let ghost thumbnails = crate::text::string_views(candidates@);
    assert(thumbnails =~= candidate_urls(
        match video_id {
            Some(id) => Some(id@),
            None => None,
        },
        None,
    ));
    match art_url {
        Some(a) => {
            let mut listed = false;
            let mut i: usize = 0;
            while i < candidates.len()
                invariant
                    i <= candidates@.len(),
                    thumbnails == crate::text::string_views(candidates@),
                    listed == exists|j: int| 0 <= j < i && #[trigger] thumbnails[j] == a@,
                decreases candidates@.len() - i,
            {
                assert(thumbnails[i as int] == candidates@[i as int]@);
                if str_eq(candidates[i].as_str(), a) {
                    listed = true;
                }
                i += 1;
            }
            assert(listed == thumbnails.contains(a@));
            if a.unicode_len() > 0 && !listed {
                candidates.push(crate::text::owned(a));
                assert(crate::text::string_views(candidates@) =~= thumbnails.push(a@));
            }
        },
        None => {},
    }
    candidates
}

/// Artwork URLs to try for a player's track, best first.
pub fn artwork_candidate_urls(info: &MediaInfo) -> (r: Vec<String>)
    ensures
        crate::text::string_views(r@) == candidate_urls(
            match info.media_url {
                Some(u) => youtube_id_of_text(u@),
                None => None,
            },
            opt_view(info.art_url),
        ),
{
    let video_id = match &info.media_url {
        Some(u) => extract_youtube_video_id(u.as_str()),
        None => None,
    };
    let art: Option<&str> = match &info.art_url {
        Some(a) => Some(a.as_str()),
        None => None,
    };
    match &video_id {
        Some(id) => thumbnail_candidates(Some(id.as_str()), art),
        None => thumbnail_candidates(None, art),
    }
}


// ---------------------------------------------------------------------------
// Incomplete timelines and the playerctld proxy
// ---------------------------------------------------------------------------

/// Milliseconds between two timeline refreshes of a track.
pub const TIMELINE_REFRESH_RETRY_MS: u64 = 2000;
/// How often a track's timeline is refreshed at most.
pub const MAX_TIMELINE_REFRESH_ATTEMPTS: u8 = 3;

/// The last explicit timeline refresh of a player.
pub struct TimelineRefresh {
    pub track: TrackSignature,
    /// When it was attempted, in milliseconds.
    pub attempted_at: u64,
    pub attempts: u8,
    /// Whether it gave a duration.
    pub complete: bool,
}

/// Firefox reports a playing track at position 0 without a duration until
/// its timeline is asked for.
pub open spec fn incomplete_firefox_timeline(bus_name: Seq<char>, info: MediaInfo) -> bool {
    mpris_app_is(bus_name, "firefox"@) && info.status == PlaybackStatus::Playing && info.position == 0
        && info.duration == 0
}

/// Whether a refresh is due after `previous`: always for a new track;
/// for the same track only while it is incomplete, a few times, and not
/// sooner than the retry interval.
pub open spec fn refresh_due(previous: Option<TimelineRefresh>, track: TrackSignature, now: u64) -> bool {
    match previous {
        None => true,
        Some(r) => !same_track(r.track, track) || (!r.complete && r.attempts < MAX_TIMELINE_REFRESH_ATTEMPTS
            && now - r.attempted_at >= TIMELINE_REFRESH_RETRY_MS),
    }
}

pub open spec fn stored<V>(store: Map<Seq<char>, V>, key: Seq<char>) -> Option<V> {
    if store.contains_key(key) {
        Some(store[key])
    } else {
        None
    }
}

/// Whether the timeline of an MPRIS player's sample is to be asked for.
pub fn timeline_refresh_due(
    refreshes: &KeyedStore<TimelineRefresh>,
    player_id: &PlayerId,
    bus_name: &str,
    info: &MediaInfo,
    now: u64,
) -> (r: bool)
    ensures
        r == (incomplete_firefox_timeline(bus_name@, *info) && refresh_due(
            stored(refreshes@, player_key(*player_id)),
            track_of(*info),
            now,
        )),
{
    let incomplete = is_firefox_mpris_player(bus_name) && info.status == PlaybackStatus::Playing
        && info.position == 0 && info.duration == 0;
    if !incomplete {
        return false;
    }
    let key = player_id.key();
    let track = TrackSignature::of(info);
    match refreshes.get(key.as_str()) {
        None => true,
        Some(r) => !r.track.same(&track) || (!r.complete && r.attempts < MAX_TIMELINE_REFRESH_ATTEMPTS
            && now >= r.attempted_at && now - r.attempted_at >= TIMELINE_REFRESH_RETRY_MS),
    }
}

/// The attempts made so far for `track`.
pub open spec fn attempts_for(previous: Option<TimelineRefresh>, track: TrackSignature) -> int {
    match previous {
        Some(r) => if same_track(r.track, track) { r.attempts as int } else { 0 },
        None => 0,
    }
}

/// Remembers a timeline refresh of the track `sampled` at `now`, and what it
/// gave: the refreshed sample, or nothing.
pub fn record_timeline_refresh(
    refreshes: &mut KeyedStore<TimelineRefresh>,
    player_id: &PlayerId,
    sampled: TrackSignature,
    refreshed: Option<&MediaInfo>,
    now: u64,
)
    requires
        attempts_for(stored(old(refreshes)@, player_key(*player_id)), sampled) < 255,
    ensures
        ({
            let key = player_key(*player_id);
            let attempts = attempts_for(stored(old(refreshes)@, key), sampled) + 1;
            &&& final(refreshes)@.dom() == old(refreshes)@.dom().insert(key)
            &&& forall|k: Seq<char>| k != key && #[trigger] old(refreshes)@.contains_key(k)
                ==> final(refreshes)@[k] == old(refreshes)@[k]
            &&& final(refreshes)@[key].attempted_at == now
            &&& final(refreshes)@[key].attempts == attempts
            &&& match refreshed {
                Some(info) => final(refreshes)@[key].track == track_of(*info)
                    && final(refreshes)@[key].complete == (info.duration > 0),
                None => final(refreshes)@[key].track == sampled && !final(refreshes)@[key].complete,
            }
        }),
{
    let key = player_id.key();
    let previous: u8 = match refreshes.get(key.as_str()) {
        Some(r) => if r.track.same(&sampled) { r.attempts } else { 0 },
        None => 0,
    };
    let entry = match refreshed {
        Some(info) => TimelineRefresh {
            track: TrackSignature::of(info),
            attempted_at: now,
            attempts: previous + 1,
            complete: info.duration > 0,
        },
        None => TimelineRefresh { track: sampled, attempted_at: now, attempts: previous + 1, complete: false },
    };
    refreshes.insert(key, entry);
}

/// Whether `entry` is the real player that a proxy mirrors: an MPRIS player
/// other than the proxy, last sampled with the proxy's track.
pub open spec fn mirrored_by(raw_tracks: Map<Seq<char>, TrackSignature>, proxy_track: TrackSignature) -> spec_fn(
    (PlayerId, MediaInfo),
) -> bool {
    |entry: (PlayerId, MediaInfo)|
        entry.0 matches PlayerId::Mpris(bus) && !(mpris_identity(bus@) matches Some(id) && eq_ignore_case(
            id,
            "playerctld"@,
        )) && raw_tracks.contains_key(player_key(entry.0)) && same_track(
            raw_tracks[player_key(entry.0)],
            proxy_track,
        )
}

/// The proxy's timeline as the mirrored player's.
pub open spec fn proxy_merged(primary: MediaInfo, proxy: MediaInfo) -> MediaInfo {
    MediaInfo {
        position: if proxy.duration > 0 {
            if proxy.position > proxy.duration { proxy.duration } else { proxy.position }
        } else {
            primary.position
        },
        duration: if proxy.duration > 0 { proxy.duration } else { primary.duration },
        can_seek: primary.can_seek || proxy.can_seek,
        ..primary
    }
}

/// Lends a proxy's timeline to the first player it mirrors; returns whether
/// there was one (the proxy is then not shown itself).
pub fn merge_mpris_proxy_player(
    players: &mut Vec<(PlayerId, MediaInfo)>,
    raw_tracks: &KeyedStore<TrackSignature>,
    proxy: &MediaInfo,
    proxy_track: &TrackSignature,
) -> (merged: bool)
    ensures
        ({
            let j = crate::text::first_match(old(players)@, mirrored_by(raw_tracks@, *proxy_track));
            &&& merged == (j >= 0)
            &&& j >= 0 ==> final(players)@ == old(players)@.update(
                j,
                (old(players)@[j].0, proxy_merged(old(players)@[j].1, *proxy)),
            )
            &&& j < 0 ==> final(players)@ == old(players)@
        }),
{
    let ghost p = mirrored_by(raw_tracks@, *proxy_track);
    let mut i: usize = 0;
    while i < players.len()
        invariant
            i <= players@.len(),
            players@ == old(players)@,
            p == mirrored_by(raw_tracks@, *proxy_track),
            forall|j: int| 0 <= j < i ==> !p(#[trigger] players@[j]),
        decreases players@.len() - i,
    {
        let is_real = match &players[i].0 {
            PlayerId::Mpris(bus) => !is_playerctld_mpris_player(bus.as_str()),
            _ => false,
        };
        let same = is_real && match raw_tracks.get(players[i].0.key().as_str()) {
            Some(t) => t.same(proxy_track),
            None => false,
        };
        if same {
            proof {
                crate::text::lemma_first_match(players@, p, i as int);
            }
            let (id, mut info) = players.remove(i);
            merge_mpris_proxy_timeline(&mut info, proxy);
            players.insert(i, (id, info));
            assert(players@ =~= old(players)@.update(i as int, (old(players)@[i as int].0, proxy_merged(old(players)@[i as int].1, *proxy))));
            return true;
        }
        i += 1;
    }
    proof {
        crate::text::lemma_first_match(players@, p, players@.len() as int);
    }
    false
}


// ---------------------------------------------------------------------------
// Choosing artwork
// ---------------------------------------------------------------------------

/// How long a failed Bandcamp page waits before it is requested again, in
/// milliseconds.
pub const BANDCAMP_ARTWORK_RETRY_DELAY_MS: u64 = 30000;
/// The smallest YouTube thumbnail that ends the search for a video's artwork.
pub const MIN_YOUTUBE_THUMBNAIL_WIDTH: u32 = 320;
pub const MIN_YOUTUBE_THUMBNAIL_HEIGHT: u32 = 180;

/// A request for artwork of a player's track.
pub struct ArtworkRequest {
    pub player_id: PlayerId,
    pub track: TrackSignature,
    pub source: ArtworkSource,
}

/// How a selection changes when a shared Bandcamp page failed: a track that
/// had requested it may request it again after the retry delay.
pub open spec fn recovers<A>(before: TrackArtwork<A>, after: TrackArtwork<A>, key: Seq<char>, now: u64) -> bool {
    &&& after.track == before.track
    &&& after.best == before.best
    &&& after.best_priority == before.best_priority
    &&& if before.attempted_sources@.contains_key(key) {
        &&& after.attempted_sources@ == before.attempted_sources@.remove(key)
        &&& after.retry_after@ == before.retry_after@.insert(key, (now + BANDCAMP_ARTWORK_RETRY_DELAY_MS) as u64)
    } else {
        &&& after.attempted_sources@ == before.attempted_sources@
        &&& after.retry_after@ == before.retry_after@
    }
}

/// After a Bandcamp page failed to load, every track waiting on it may try
/// again later (requests for one album are shared across tracks and players).
pub fn retry_failed_bandcamp_artwork<A>(
    source: &ArtworkSource,
    selections: &mut KeyedStore<TrackArtwork<A>>,
    now: u64,
)
    requires
        now + BANDCAMP_ARTWORK_RETRY_DELAY_MS <= u64::MAX,
    ensures
        !(*source is BandcampPage) ==> final(selections)@ == old(selections)@,
        *source is BandcampPage ==> {
            &&& final(selections)@.dom() == old(selections)@.dom()
            &&& forall|k: Seq<char>| #[trigger] old(selections)@.contains_key(k) ==> recovers(
                old(selections)@[k],
                final(selections)@[k],
                source_key(*source),
                now,
            )
        },
{
    let bandcamp = match source {
        ArtworkSource::BandcampPage(_) => true,
        ArtworkSource::Image(_) => false,
    };
    if !bandcamp {
        return;
    }
    let key = source.key();
    let keys = selections.keys();
    let ghost start = selections@;
    let ghost order = crate::text::string_views(keys@);
    let mut i: usize = 0;
    while i < keys.len()
        invariant
            i <= keys@.len(),
            order == crate::text::string_views(keys@),
            order.no_duplicates(),
            forall|k: Seq<char>| #[trigger] start.contains_key(k) <==> order.contains(k),
            key@ == source_key(*source),
            now + BANDCAMP_ARTWORK_RETRY_DELAY_MS <= u64::MAX,
            selections@.dom() == start.dom(),
            forall|k: Seq<char>| #[trigger] start.contains_key(k) && order.take(i as int).contains(k) ==> recovers(
                start[k],
                selections@[k],
                key@,
                now,
            ),
            forall|k: Seq<char>| #[trigger] start.contains_key(k) && !order.take(i as int).contains(k)
                ==> selections@[k] == start[k],
        decreases keys@.len() - i,
    {
        let name = &keys[i];
        let ghost k = name@;
        assert(order[i as int] == k);
        assert(order.contains(k));
        assert(!order.take(i as int).contains(k)) by {
            if order.take(i as int).contains(k) {
                let j = choose|j: int| 0 <= j < i && #[trigger] order.take(i as int)[j] == k;
                assert(order[j] == order[i as int]);
            }
        }
        let ghost before = selections@;
        match selections.remove(name.as_str()) {
            Some(mut selection) => {
                if selection.attempted_sources.contains_key(key.as_str()) {
                    selection.attempted_sources.remove(key.as_str());
                    selection.retry_after.insert(crate::text::copy_string(&key), now + BANDCAMP_ARTWORK_RETRY_DELAY_MS);
                }
                selections.insert(crate::text::copy_string(name), selection);
            },
            None => {},
        }
        proof {
            assert(selections@.dom() =~= start.dom());
            assert forall|m: Seq<char>| #[trigger] start.contains_key(m) && order.take(i + 1).contains(m) implies recovers(
                start[m],
                selections@[m],
                key@,
                now,
            ) by {
                if m != k {
                    assert(order.take(i as int).contains(m)) by {
                        let j = choose|j: int| 0 <= j < i + 1 && #[trigger] order.take(i + 1)[j] == m;
                        assert(j != i);
                        assert(order.take(i as int)[j] == m);
                    }
                }
            }
            assert forall|m: Seq<char>| #[trigger] start.contains_key(m) && !order.take(i + 1).contains(m) implies selections@[m] == start[m] by {
                assert(!order.take(i as int).contains(m)) by {
                    if order.take(i as int).contains(m) {
                        let j = choose|j: int| 0 <= j < i && #[trigger] order.take(i as int)[j] == m;
                        assert(order.take(i + 1)[j] == m);
                    }
                }
                assert(m != k) by {
                    assert(order.take(i + 1)[i as int] == k);
                }
            }
        }
        i += 1;
    }
    proof {
        assert(order.take(i as int) =~= order);
    }
}

/// What a finished request does: the artwork is cached under the source's
/// URL, and offered to its player's selection if that still shows the
/// requested track.
pub fn accept_completed_artwork<A: Clone>(
    request: ArtworkRequest,
    artwork: A,
    encoded_bytes: usize,
    width: u32,
    height: u32,
    cache: &mut ArtworkCache<A>,
    selections: &mut KeyedStore<TrackArtwork<A>>,
)
    ensures
        final(cache).limits() == old(cache).limits(),
        exists|copy: A| #[trigger] cloned(artwork, copy) && final(cache).contents() == cache_after_insert(
            old(cache).contents(),
            old(cache).limits(),
            match request.source {
                ArtworkSource::Image(u) => u,
                ArtworkSource::BandcampPage(u) => u,
            },
            copy,
            encoded_bytes,
            width * height,
        ),
        ({
            let k = player_key(request.player_id);
            if old(selections)@.contains_key(k) && same_track(old(selections)@[k].track, request.track) {
                &&& final(selections)@.dom() == old(selections)@.dom()
                &&& forall|m: Seq<char>| m != k && #[trigger] old(selections)@.contains_key(m)
                    ==> final(selections)@[m] == old(selections)@[m]
                &&& final(selections)@[k].track == old(selections)@[k].track
                &&& final(selections)@[k].attempted_sources == old(selections)@[k].attempted_sources
                &&& final(selections)@[k].retry_after == old(selections)@[k].retry_after
                &&& (final(selections)@[k].best, final(selections)@[k].best_priority) == accept_result(
                    old(selections)@[k].best,
                    old(selections)@[k].best_priority,
                    request.source,
                    artwork,
                    (width * height) as u64,
                )
            } else {
                final(selections)@ == old(selections)@
            }
        }),
{
    let ArtworkRequest { player_id, track, source } = request;
    let url = match &source {
        ArtworkSource::Image(u) => crate::text::copy_string(u),
        ArtworkSource::BandcampPage(u) => crate::text::copy_string(u),
    };
    let copy = artwork.clone();
    let ghost stored = copy;
    cache.insert(url, copy, encoded_bytes, width, height);
    assert(cloned(artwork, stored));
    let key = player_id.key();
    let ghost before = selections@;
    let matching = match selections.get(key.as_str()) {
        Some(selection) => selection.track.same(&track),
        None => false,
    };
    if matching {
        match selections.remove(key.as_str()) {
            Some(mut selection) => {
                selection.accept(&source, artwork, pixel_count(width, height));
                selections.insert(key, selection);
                assert(selections@.dom() =~= before.dom());
            },
            None => {},
        }
    }
}

/// What the search for a track's artwork does with one candidate source.
#[derive(Debug, Clone, Copy, PartialEq, Eq, Structural)]
pub enum SourceStep {
    /// Adequate artwork was found; later sources are not needed.
    Stop,
    /// Nothing to request from this source now.
    Skip,
    /// Request the source (and call `request_sent` if the loader took it).
    Request,
}

/// Whether a source may be requested: not yet requested for this track,
/// and not waiting for its retry time.
pub open spec fn may_request(attempted: Map<Seq<char>, ()>, retry_after: Map<Seq<char>, u64>, key: Seq<char>, now: u64) -> bool {
    !attempted.contains_key(key) && !(retry_after.contains_key(key) && now < retry_after[key])
}

/// Offers one candidate source to a track's selection. `needs_metadata`:
/// it is a Bandcamp page whose track list is not cached; `pending`: a
/// request for it is under way; `cached`: the cached artwork of its URL,
/// with its pixel count, width and height.
pub fn consider_source<A: Clone>(
    selection: &mut TrackArtwork<A>,
    source: &ArtworkSource,
    needs_metadata: bool,
    pending: bool,
    cached: Option<(&A, u64, u32, u32)>,
    is_youtube: bool,
    now: u64,
) -> (step: SourceStep)
    ensures
        final(selection).track == old(selection).track,
        final(selection).retry_after == old(selection).retry_after,
        ({
            let k = source_key(*source);
            let attempted = if needs_metadata && !pending {
                old(selection).attempted_sources@.remove(k)
            } else {
                old(selection).attempted_sources@
            };
            let free = may_request(attempted, old(selection).retry_after@, k, now);
            match cached {
                Some((candidate, pixels, width, height)) => {
                    &&& exists|copy: A| #[trigger] cloned(*candidate, copy) && (final(selection).best, final(selection).best_priority)
                        == accept_result(old(selection).best, old(selection).best_priority, *source, copy, pixels)
                    &&& if is_youtube && width >= MIN_YOUTUBE_THUMBNAIL_WIDTH && height >= MIN_YOUTUBE_THUMBNAIL_HEIGHT {
                        step == SourceStep::Stop && final(selection).attempted_sources@ == attempted
                    } else if !needs_metadata {
                        step == SourceStep::Skip && final(selection).attempted_sources@ == attempted.insert(k, ())
                    } else {
                        step == (if free { SourceStep::Request } else { SourceStep::Skip })
                            && final(selection).attempted_sources@ == attempted
                    }
                },
                None => {
                    &&& final(selection).best == old(selection).best
                    &&& final(selection).best_priority == old(selection).best_priority
                    &&& final(selection).attempted_sources@ == attempted
                    &&& step == if free { SourceStep::Request } else { SourceStep::Skip }
                },
            }
        }),
{
    let key = source.key();
    if needs_metadata && !pending {
        selection.attempted_sources.remove(key.as_str());
    }
    match cached {
        Some((candidate, pixels, width, height)) => {
            let adequate = width >= MIN_YOUTUBE_THUMBNAIL_WIDTH && height >= MIN_YOUTUBE_THUMBNAIL_HEIGHT;
            let copy = candidate.clone();
            let ghost offered = copy;
            selection.accept(source, copy, pixels);
            assert(cloned(*candidate, offered));
            if is_youtube && adequate {
                return SourceStep::Stop;
            }
            if !needs_metadata {
                selection.attempted_sources.insert(crate::text::copy_string(&key), ());
                return SourceStep::Skip;
            }
        },
        None => {},
    }
    let waiting = match selection.retry_after.get(key.as_str()) {
        Some(t) => now < *t,
        None => false,
    };
    if selection.attempted_sources.contains_key(key.as_str()) || waiting {
        SourceStep::Skip
    } else {
        SourceStep::Request
    }
}

/// A request that the loader took: the source counts as requested for the
/// track and waits for no retry time.
pub fn request_sent<A>(selection: &mut TrackArtwork<A>, source: &ArtworkSource)
    ensures
        final(selection).track == old(selection).track,
        final(selection).best == old(selection).best,
        final(selection).best_priority == old(selection).best_priority,
        final(selection).retry_after@ == old(selection).retry_after@.remove(source_key(*source)),
        final(selection).attempted_sources@ == old(selection).attempted_sources@.insert(source_key(*source), ()),
{
    let key = source.key();
    selection.retry_after.remove(key.as_str());
    selection.attempted_sources.insert(key, ());
}

/// The selection for a player's track: the one it has when it is for this
/// track, else a new one.
pub fn selection_for_track<A>(selections: &mut KeyedStore<TrackArtwork<A>>, player_id: &PlayerId, track: &TrackSignature)
    ensures
        ({
            let k = player_key(*player_id);
            &&& final(selections)@.dom() == old(selections)@.dom().insert(k)
            &&& forall|m: Seq<char>| m != k && #[trigger] old(selections)@.contains_key(m)
                ==> final(selections)@[m] == old(selections)@[m]
            &&& if old(selections)@.contains_key(k) && same_track(old(selections)@[k].track, *track) {
                final(selections)@[k] == old(selections)@[k]
            } else {
                &&& final(selections)@[k].track == *track
                &&& final(selections)@[k].best is None
                &&& final(selections)@[k].best_priority == 0
                &&& final(selections)@[k].attempted_sources@ == Map::<Seq<char>, ()>::empty()
                &&& final(selections)@[k].retry_after@ == Map::<Seq<char>, u64>::empty()
            }
        }),
{
    let key = player_id.key();
    let current = match selections.get(key.as_str()) {
        Some(selection) => selection.track.same(track),
        None => false,
    };
    if !current {
        let track_copy = TrackSignature {
            title: crate::text::copy_string(&track.title),
            artist: crate::text::copy_string(&track.artist),
            media_url: copy_opt_string(&track.media_url),
        };
        selections.insert(key, TrackArtwork::new(track_copy));
    } else {
        assert(selections@.insert(key@, selections@[key@]) =~= selections@);
    }
}

} // verus!
