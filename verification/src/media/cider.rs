//! Cider's playback API: what a now-playing reply says is playing.

use vstd::prelude::*;
use super::{MediaInfo, PlaybackStatus};
use crate::text::{chars_of, str_eq, string_of};

verus! {

broadcast use vstd::seq_lib::group_seq_properties;

/// A track that Cider reports, as plain values.
pub struct CiderTrack {
    pub name: String,
    pub artist_name: String,
    pub album_name: String,
    /// The artwork URL template, with `{w}` and `{h}` for the size.
    pub artwork_url: Option<String>,
    pub duration_in_millis: u64,
    /// The playback position in milliseconds (Cider reports seconds; a
    /// negative time counts as zero).
    pub position_millis: u64,
}

/// `s` with every occurrence of `from` replaced by `to`, left to right
/// (`str::replace`, for a pattern that is not empty).
pub open spec fn replace_all(s: Seq<char>, from: Seq<char>, to: Seq<char>) -> Seq<char>
    decreases s.len(),
{
    if from.len() == 0 || s.len() < from.len() {
        s
    } else if s.take(from.len() as int) == from {
        to + replace_all(s.skip(from.len() as int), from, to)
    } else {
        seq![s[0]] + replace_all(s.skip(1), from, to)
    }
}

fn replace_chars(s: &Vec<char>, from: &Vec<char>, to: &Vec<char>) -> (r: Vec<char>)
    ensures
        r@ == replace_all(s@, from@, to@),
{
    let n = s.len();
    let m = from.len();
    let mut out: Vec<char> = Vec::new();
    let mut i: usize = 0;
    assert(s@.skip(0) =~= s@);
    while i < n
        invariant
            n == s@.len(),
            m == from@.len(),
            i <= n,
            out@ + replace_all(s@.skip(i as int), from@, to@) == replace_all(s@, from@, to@),
        decreases n - i,
    {
        let ghost rest = s@.skip(i as int);
        if m == 0 || n - i < m {
            proof {
                assert(replace_all(rest, from@, to@) == rest);
            }
            let mut k = i;
            while k < n
                invariant
                    i <= k <= n,
                    n == s@.len(),
                    out@ + s@.skip(k as int) == replace_all(s@, from@, to@),
                decreases n - k,
            {
                let ghost before = out@;
                out.push(s[k]);
                assert(s@.skip(k as int) =~= seq![s@[k as int]] + s@.skip(k + 1));
                assert(out@ + s@.skip(k + 1) =~= before + s@.skip(k as int));
                k += 1;
            }
            assert(s@.skip(n as int) =~= Seq::<char>::empty());
            assert(out@ =~= replace_all(s@, from@, to@));
            return out;
        }
        let mut same = true;
        let mut j: usize = 0;
        while j < m
            invariant
                j <= m,
                m == from@.len(),
                i + m <= n,
                n == s@.len(),
                same == forall|t: int| 0 <= t < j ==> s@[i + t] == from@[t],
            decreases m - j,
        {
            if s[i + j] != from[j] {
                same = false;
            }
            j += 1;
        }
        let ghost before = out@;
        if same {
            assert(rest.take(m as int) =~= from@);
            let mut k: usize = 0;
            while k < to.len()
                invariant
                    k <= to@.len(),
                    out@ == before + to@.take(k as int),
                decreases to@.len() - k,
            {
                out.push(to[k]);
                k += 1;
                assert(out@ =~= before + to@.take(k as int));
            }
            assert(to@.take(k as int) =~= to@);
            assert(rest.skip(m as int) =~= s@.skip(i + m));
            assert(out@ + replace_all(s@.skip(i + m), from@, to@) =~= before + replace_all(rest, from@, to@));
            i += m;
        } else {
            assert(rest.take(m as int) != from@) by {
                let t = choose|t: int| 0 <= t < j && s@[i + t] != from@[t];
                assert(rest.take(m as int)[t] == s@[i + t]);
            }
            out.push(s[i]);
            assert(rest.skip(1) =~= s@.skip(i + 1));
            assert(out@ + replace_all(s@.skip(i + 1), from@, to@) =~= before + replace_all(rest, from@, to@));
            i += 1;
        }
    }
    assert(s@.skip(i as int) =~= Seq::<char>::empty());
    assert(out@ =~= replace_all(s@, from@, to@));
    out
}

/// The artwork URL of a track, for a 300 by 300 image.
pub open spec fn cider_artwork(template: Seq<char>) -> Seq<char> {
    replace_all(replace_all(template, "{w}"@, "300"@), "{h}"@, "300"@)
}

/// The player state that a Cider track gives.
pub open spec fn cider_info(info: MediaInfo, track: CiderTrack, is_playing: bool) -> bool {
    &&& info.player_name@ == "Cider"@
    &&& info.title == track.name
    &&& info.artist == track.artist_name
    &&& info.album == track.album_name
    &&& crate::text::opt_view(info.art_url) == match track.artwork_url {
        Some(u) => Some(cider_artwork(u@)),
        None => None,
    }
    &&& info.media_url is None
    &&& info.status == if is_playing { PlaybackStatus::Playing } else { PlaybackStatus::Paused }
    &&& info.position == track.position_millis
    &&& info.duration == track.duration_in_millis
    &&& info.can_play && info.can_pause && info.can_go_next && info.can_go_previous && info.can_seek
}

/// What a Cider track is, as a player's state; none without a name.
pub fn cider_media_info(track: CiderTrack, is_playing: bool) -> (r: Option<MediaInfo>)
    ensures
        r is Some <==> track.name@.len() > 0,
        r matches Some(info) ==> cider_info(info, track, is_playing),
{
    if track.name.as_str().unicode_len() == 0 {
        return None;
    }
    let art_url = match &track.artwork_url {
        Some(u) => {
            let w = replace_chars(&chars_of(u.as_str()), &chars_of("{w}"), &chars_of("300"));
            let h = replace_chars(&w, &chars_of("{h}"), &chars_of("300"));
            Some(string_of(&h))
        },
        None => None,
    };
    let CiderTrack { name, artist_name, album_name, artwork_url: _, duration_in_millis, position_millis } = track;
    Some(
        MediaInfo {
            player_name: crate::text::owned("Cider"),
            title: name,
            artist: artist_name,
            album: album_name,
            art_url,
            media_url: None,
            status: if is_playing {
                PlaybackStatus::Playing
            } else {
                PlaybackStatus::Paused
            },
            position: position_millis,
            duration: duration_in_millis,
            can_play: true,
            can_pause: true,
            can_go_next: true,
            can_go_previous: true,
            can_seek: true,
        },
    )
}

/// What a now-playing reply says: nothing unless its status is `ok` and it
/// has a track; a player whose playing state is unknown counts as playing.
pub fn cider_now_playing(status: &str, track: Option<CiderTrack>, is_playing: Option<bool>) -> (r: Option<
    MediaInfo,
>)
    ensures
        (status@ != "ok"@ || track is None) ==> r is None,
        (status@ == "ok"@ && track is Some) ==> ({
            let t = track->0;
            &&& r is Some <==> t.name@.len() > 0
            &&& r matches Some(info) ==> cider_info(info, t, is_playing != Some(false))
        }),
{
    if !str_eq(status, "ok") {
        return None;
    }
    match track {
        Some(t) => cider_media_info(
            t,
            match is_playing {
                Some(p) => p,
                None => true,
            },
        ),
        None => None,
    }
}

/// What an is-playing reply says: its answer where its status is `ok`.
pub fn cider_playing_state(status: &str, is_playing: bool) -> (r: Option<bool>)
    ensures
        r == if status@ == "ok"@ { Some(is_playing) } else { None },
{
    if str_eq(status, "ok") {
        Some(is_playing)
    } else {
        None
    }
}

} // verus!
