//! Emby Theater: the saved login, the session to follow, and what it plays.

use vstd::prelude::*;
use super::{MediaInfo, PlaybackStatus, PlayerId};
use crate::text::{
    append_chars, append_str, chars_of, copy_string, decimal, ends_with, first_match, lower, opt_view,
    str_eq, string_of, strip_all_suffix, strip_leading,
};

verus! {

broadcast use vstd::seq_lib::group_seq_properties;

// ---------------------------------------------------------------------------
// Saved logins
// ---------------------------------------------------------------------------

/// The bytes of `{"Servers":[`, where the desktop app's storage starts a
/// list of saved servers.
pub open spec fn servers_marker() -> Seq<u8> {
    seq![123u8, 34u8, 83u8, 101u8, 114u8, 118u8, 101u8, 114u8, 115u8, 34u8, 58u8, 91u8]
}

/// Where saved server lists start in `s`: each occurrence of the marker,
/// searched again after the end of the previous one.
pub open spec fn marker_offsets(s: Seq<u8>) -> Seq<int>
    decreases s.len(),
{
    if s.len() < 12 {
        Seq::empty()
    } else if s.take(12) == servers_marker() {
        seq![0int] + marker_offsets(s.skip(12)).map_values(|k: int| k + 12)
    } else {
        marker_offsets(s.skip(1)).map_values(|k: int| k + 1)
    }
}

pub open spec fn shifted(s: Seq<int>, by: int) -> Seq<int> {
    s.map_values(|k: int| k + by)
}

fn marker_at(bytes: &[u8], i: usize) -> (r: bool)
    requires
        i + 12 <= bytes@.len(),
    ensures
        r == (bytes@.skip(i as int).take(12) == servers_marker()),
{
    let n = bytes.len();
    let marker: [u8; 12] = [123, 34, 83, 101, 114, 118, 101, 114, 115, 34, 58, 91];
    assert(marker@ =~= servers_marker());
    let mut k: usize = 0;
    while k < 12
        invariant
            n == bytes@.len(),
            i + 12 <= bytes@.len(),
            k <= 12,
            marker@ == servers_marker(),
            forall|j: int| 0 <= j < k ==> bytes@[i + j] == marker@[j],
        decreases 12 - k,
    {
        if bytes[i + k] != marker[k] {
            assert(bytes@.skip(i as int).take(12)[k as int] != servers_marker()[k as int]);
            return false;
        }
        k += 1;
    }
    assert(bytes@.skip(i as int).take(12) =~= servers_marker());
    true
}

/// The offsets at which saved server lists start in a storage file.
pub fn saved_server_offsets(bytes: &[u8]) -> (r: Vec<usize>)
    ensures
        r@.map_values(|k: usize| k as int) == marker_offsets(bytes@),
{
    let n = bytes.len();
    let mut found: Vec<usize> = Vec::new();
    let mut i: usize = 0;
    assert(bytes@.skip(0) =~= bytes@);
    assert(shifted(marker_offsets(bytes@), 0) =~= marker_offsets(bytes@));
    while n >= 12 && i <= n - 12
        invariant
            n == bytes@.len(),
            i <= n,
            found@.map_values(|k: usize| k as int) + shifted(marker_offsets(bytes@.skip(i as int)), i as int)
                == marker_offsets(bytes@),
        decreases n - i,
    {
        let ghost rest = bytes@.skip(i as int);
        let ghost before = found@.map_values(|k: usize| k as int);
        if marker_at(bytes, i) {
            proof {
                assert(rest.skip(12) =~= bytes@.skip(i + 12));
                let tail = marker_offsets(bytes@.skip(i + 12));
                assert(marker_offsets(rest) == seq![0int] + tail.map_values(|k: int| k + 12));
                assert(shifted(marker_offsets(rest), i as int) =~= seq![i as int] + shifted(tail, i + 12));
            }
            found.push(i);
            proof {
                assert(found@.map_values(|k: usize| k as int) =~= before.push(i as int));
            }
            i += 12;
        } else {
            proof {
                assert(rest.skip(1) =~= bytes@.skip(i + 1));
                let tail = marker_offsets(bytes@.skip(i + 1));
                assert(marker_offsets(rest) == tail.map_values(|k: int| k + 1));
                assert(shifted(marker_offsets(rest), i as int) =~= shifted(tail, i + 1));
            }
            i += 1;
        }
    }
    proof {
        assert(bytes@.skip(i as int).len() < 12);
        assert(marker_offsets(bytes@.skip(i as int)) =~= Seq::<int>::empty());
        assert(found@.map_values(|k: usize| k as int) =~= marker_offsets(bytes@));
    }
    found
}

/// A user saved with a server.
pub struct EmbyUser {
    pub user_id: String,
    pub access_token: String,
}

/// A server saved by the desktop app.
pub struct EmbyServer {
    pub local_address: Option<String>,
    pub manual_address: Option<String>,
    pub remote_address: Option<String>,
    pub user_id: Option<String>,
    pub users: Vec<EmbyUser>,
    pub date_last_accessed: u64,
}

/// A login that can be used: the server's addresses, best first, and the
/// user's token.
pub struct EmbyCredentials {
    pub server_urls: Vec<String>,
    pub user_id: String,
    pub access_token: String,
    pub last_accessed: u64,
}

/// The user that a server's login is for: the configured one where it is
/// saved, or else the first.
pub open spec fn chosen_user(server: EmbyServer) -> Option<int> {
    let ids = server.users@.map_values(|u: EmbyUser| u.user_id@);
    let by_id = match server.user_id {
        Some(id) => first_match(ids, |x: Seq<char>| x == id@),
        None => -1,
    };
    if by_id >= 0 {
        Some(by_id)
    } else if server.users@.len() > 0 {
        Some(0)
    } else {
        None
    }
}

/// The server's addresses in order (local, manual, remote), without
/// trailing slashes.
pub open spec fn server_addresses(server: EmbyServer) -> Seq<Seq<char>> {
    address_of(server.local_address) + address_of(server.manual_address) + address_of(server.remote_address)
}

/// An optional address, without trailing slashes.
pub open spec fn address_of(a: Option<String>) -> Seq<Seq<char>> {
    match a {
        Some(x) => seq![strip_all_suffix(x@, "/"@)],
        None => Seq::<Seq<char>>::empty(),
    }
}

/// The addresses that are not empty, each once, in order.
pub open spec fn distinct_addresses(s: Seq<Seq<char>>) -> Seq<Seq<char>>
    decreases s.len(),
{
    if s.len() == 0 {
        s
    } else {
        let prev = distinct_addresses(s.drop_last());
        if s.last().len() > 0 && !prev.contains(s.last()) { prev.push(s.last()) } else { prev }
    }
}

/// The login a saved server gives: its user has a token and the server has
/// an address.
pub open spec fn server_login(server: EmbyServer) -> Option<(Seq<Seq<char>>, Seq<char>, Seq<char>, u64)> {
    match chosen_user(server) {
        None => None,
        Some(u) => {
            let user = server.users@[u];
            let urls = distinct_addresses(server_addresses(server));
            if user.access_token@.len() == 0 || urls.len() == 0 {
                None
            } else {
                Some((urls, user.user_id@, user.access_token@, server.date_last_accessed))
            }
        },
    }
}

pub open spec fn credentials_view(c: EmbyCredentials) -> (Seq<Seq<char>>, Seq<char>, Seq<char>, u64) {
    (crate::text::string_views(c.server_urls@), c.user_id@, c.access_token@, c.last_accessed)
}

fn strip_trailing_slashes(s: &str) -> (r: String)
    ensures
        r@ == strip_all_suffix(s@, "/"@),
{
    let v = crate::text::strip_all_suffix_chars(&chars_of(s), &chars_of("/"));
    string_of(&v)
}

fn add_address(urls: &mut Vec<String>, address: &Option<String>)
    ensures
        crate::text::string_views(final(urls)@) == match address {
            Some(x) => {
                let a = strip_all_suffix(x@, "/"@);
                let prev = crate::text::string_views(old(urls)@);
                if a.len() > 0 && !prev.contains(a) { prev.push(a) } else { prev }
            },
            None => crate::text::string_views(old(urls)@),
        },
{
    match address {
        Some(x) => {
            let a = strip_trailing_slashes(x.as_str());
            let ghost prev = crate::text::string_views(urls@);
            let mut listed = false;
            let mut i: usize = 0;
            while i < urls.len()
                invariant
                    i <= urls@.len(),
                    prev == crate::text::string_views(urls@),
                    listed == exists|j: int| 0 <= j < i && #[trigger] prev[j] == a@,
                decreases urls@.len() - i,
            {
                assert(prev[i as int] == urls@[i as int]@);
                if str_eq(urls[i].as_str(), a.as_str()) {
                    listed = true;
                }
                i += 1;
            }
            if a.unicode_len() > 0 && !listed {
                urls.push(a);
                assert(crate::text::string_views(urls@) =~= prev.push(a@));
            }
        },
        None => {},
    }
}

fn find_user(users: &Vec<EmbyUser>, id: &str) -> (r: Option<usize>)
    ensures
        ({
            let ids = users@.map_values(|u: EmbyUser| u.user_id@);
            let j = first_match(ids, |x: Seq<char>| x == id@);
            match r {
                Some(k) => j == k,
                None => j < 0,
            }
        }),
{
    let ghost ids = users@.map_values(|u: EmbyUser| u.user_id@);
    let ghost p = |x: Seq<char>| x == id@;
    let mut i: usize = 0;
    while i < users.len()
        invariant
            i <= users@.len(),
            ids == users@.map_values(|u: EmbyUser| u.user_id@),
            p == (|x: Seq<char>| x == id@),
            forall|j: int| 0 <= j < i ==> !p(#[trigger] ids[j]),
        decreases users@.len() - i,
    {
        if str_eq(users[i].user_id.as_str(), id) {
            proof {
                crate::text::lemma_first_match(ids, p, i as int);
            }
            return Some(i);
        }
        i += 1;
    }
    proof {
        crate::text::lemma_first_match(ids, p, ids.len() as int);
    }
    None
}

/// The login that a saved server gives, if any.
pub fn credentials_from_server(server: &EmbyServer) -> (r: Option<EmbyCredentials>)
    ensures
        match r {
            Some(c) => server_login(*server) == Some(credentials_view(c)),
            None => server_login(*server) is None,
        },
{
    let by_id = match &server.user_id {
        Some(id) => find_user(&server.users, id.as_str()),
        None => None,
    };
    let chosen = match by_id {
        Some(k) => Some(k),
        None => if server.users.len() > 0 { Some(0) } else { None },
    };
    proof {
        crate::text::lemma_first_match_bounds(
            server.users@.map_values(|u: EmbyUser| u.user_id@),
            |x: Seq<char>| x == server.user_id->0@,
        );
    }
    assert(match chosen {
        Some(k) => chosen_user(*server) == Some(k as int),
        None => chosen_user(*server) is None,
    });
    match chosen {
        None => None,
        Some(k) => {
            let user = &server.users[k];
            let mut urls: Vec<String> = Vec::new();
            add_address(&mut urls, &server.local_address);
            add_address(&mut urls, &server.manual_address);
            add_address(&mut urls, &server.remote_address);
            proof {
                let a = address_of(server.local_address);
                let b = address_of(server.manual_address);
                let c = address_of(server.remote_address);
                lemma_distinct_steps(server_addresses(*server), a, b, c);
            }
            if user.access_token.unicode_len() == 0 || urls.len() == 0 {
                None
            } else {
                Some(
                    EmbyCredentials {
                        server_urls: urls,
                        user_id: copy_string(&user.user_id),
                        access_token: copy_string(&user.access_token),
                        last_accessed: server.date_last_accessed,
                    },
                )
            }
        },
    }
}

proof fn lemma_distinct_steps(all: Seq<Seq<char>>, a: Seq<Seq<char>>, b: Seq<Seq<char>>, c: Seq<Seq<char>>)
    requires
        all == a + b + c,
        a.len() <= 1,
        b.len() <= 1,
        c.len() <= 1,
    ensures
        distinct_addresses(all) == step(step(step(Seq::empty(), a), b), c),
{
    assert(distinct_addresses(Seq::<Seq<char>>::empty()) =~= Seq::<Seq<char>>::empty());
    lemma_distinct_append(Seq::empty(), a);
    assert(Seq::<Seq<char>>::empty() + a =~= a);
    lemma_distinct_append(a, b);
    lemma_distinct_append(a + b, c);
    assert(step(Seq::empty(), a) == distinct_addresses(a));
}

/// One optional address added to a list of distinct addresses.
pub open spec fn step(prev: Seq<Seq<char>>, one: Seq<Seq<char>>) -> Seq<Seq<char>> {
    if one.len() == 1 && one[0].len() > 0 && !prev.contains(one[0]) { prev.push(one[0]) } else { prev }
}

proof fn lemma_distinct_append(s: Seq<Seq<char>>, one: Seq<Seq<char>>)
    requires
        one.len() <= 1,
    ensures
        distinct_addresses(s + one) == step(distinct_addresses(s), one),
{
    if one.len() == 1 {
        assert((s + one).drop_last() =~= s);
        assert((s + one).last() == one[0]);
    } else {
        assert(s + one =~= s);
    }
}

/// The most recently used of several logins (the last one on a tie).
pub open spec fn most_recent<T>(s: Seq<T>, stamp: spec_fn(T) -> u64) -> Option<int>
    decreases s.len(),
{
    if s.len() == 0 {
        None
    } else {
        match most_recent(s.drop_last(), stamp) {
            Some(k) => if stamp(s.last()) >= stamp(s[k]) { Some(s.len() - 1) } else { Some(k) },
            None => Some(s.len() - 1),
        }
    }
}

pub open spec fn login_time(c: EmbyCredentials) -> u64 {
    c.last_accessed
}

proof fn lemma_most_recent_bounds<T>(s: Seq<T>, stamp: spec_fn(T) -> u64)
    ensures
        match most_recent(s, stamp) {
            Some(k) => 0 <= k < s.len(),
            None => s.len() == 0,
        },
    decreases s.len(),
{
    if s.len() > 0 {
        lemma_most_recent_bounds(s.drop_last(), stamp);
    }
}

/// The most recently used login among `candidates`.
pub fn most_recent_credentials(candidates: Vec<EmbyCredentials>) -> (r: Option<EmbyCredentials>)
    ensures
        match most_recent(candidates@, |c: EmbyCredentials| login_time(c)) {
            Some(k) => r == Some(candidates@[k]),
            None => r is None,
        },
{
    let ghost s = candidates@;
    let ghost f = |c: EmbyCredentials| login_time(c);
    let n = candidates.len();
    let mut rest = candidates;
    let mut best: Option<EmbyCredentials> = None;
    let mut i: usize = 0;
    assert(s.take(0) =~= Seq::<EmbyCredentials>::empty());
    while rest.len() > 0
        invariant
            i + rest@.len() == s.len(),
            n == s.len(),
            rest@ == s.skip(i as int),
            f == (|c: EmbyCredentials| login_time(c)),
            match most_recent(s.take(i as int), f) {
                Some(k) => best == Some(s[k]) && 0 <= k < i,
                None => best is None,
            },
        decreases rest@.len(),
    {
        let c = rest.remove(0);
        proof {
            assert(c == s[i as int]);
            assert(s.take(i + 1).drop_last() =~= s.take(i as int));
            assert(s.take(i + 1).last() == c);
            lemma_most_recent_bounds(s.take(i as int), f);
            if let Some(k) = most_recent(s.take(i as int), f) {
                assert(s.take(i + 1)[k] == s[k]);
            }
        }
        let replace = match &best {
            Some(b) => c.last_accessed >= b.last_accessed,
            None => true,
        };
        if replace {
            best = Some(c);
        }
        i += 1;
        proof {
            assert(rest@ =~= s.skip(i as int));
        }
    }
    assert(s.take(i as int) =~= s);
    best
}

/// The login that a storage file's saved servers give: the most recently
/// used among those with a token and an address.
pub open spec fn logins_of(servers: Seq<EmbyServer>) -> Seq<(Seq<Seq<char>>, Seq<char>, Seq<char>, u64)>
    decreases servers.len(),
{
    if servers.len() == 0 {
        Seq::empty()
    } else {
        let prev = logins_of(servers.drop_last());
        match server_login(servers.last()) {
            Some(l) => prev.push(l),
            None => prev,
        }
    }
}

/// The most recently used login of the saved servers.
pub fn emby_credentials(servers: &Vec<EmbyServer>) -> (r: Option<EmbyCredentials>)
    ensures
        ({
            let logins = logins_of(servers@);
            match most_recent(logins, |l: (Seq<Seq<char>>, Seq<char>, Seq<char>, u64)| l.3) {
                Some(k) => r matches Some(c) && credentials_view(c) == logins[k],
                None => r is None,
            }
        }),
{
    let mut candidates: Vec<EmbyCredentials> = Vec::new();
    let mut i: usize = 0;
    assert(servers@.take(0) =~= Seq::<EmbyServer>::empty());
    while i < servers.len()
        invariant
            i <= servers@.len(),
            candidates@.map_values(|c: EmbyCredentials| credentials_view(c)) == logins_of(servers@.take(i as int)),
        decreases servers@.len() - i,
    {
        assert(servers@.take(i + 1).drop_last() =~= servers@.take(i as int));
        assert(servers@.take(i + 1).last() == servers@[i as int]);
        match credentials_from_server(&servers[i]) {
            Some(c) => {
                let ghost before = candidates@;
                candidates.push(c);
                assert(candidates@.map_values(|c: EmbyCredentials| credentials_view(c)) =~= before.map_values(
                    |c: EmbyCredentials| credentials_view(c),
                ).push(credentials_view(c)));
            },
            None => {},
        }
        i += 1;
    }
    assert(servers@.take(i as int) =~= servers@);
    let ghost views = candidates@.map_values(|c: EmbyCredentials| credentials_view(c));
    proof {
        lemma_most_recent_same(candidates@, |c: EmbyCredentials| login_time(c), views, |l: (Seq<Seq<char>>, Seq<char>, Seq<char>, u64)| l.3);
        lemma_most_recent_bounds(candidates@, |c: EmbyCredentials| login_time(c));
    }
    most_recent_credentials(candidates)
}

proof fn lemma_most_recent_same<T, V>(s: Seq<T>, f: spec_fn(T) -> u64, t: Seq<V>, g: spec_fn(V) -> u64)
    requires
        s.len() == t.len(),
        forall|i: int| 0 <= i < s.len() ==> f(s[i]) == g(#[trigger] t[i]),
    ensures
        most_recent(s, f) == most_recent(t, g),
    decreases s.len(),
{
    if s.len() > 0 {
        lemma_most_recent_same(s.drop_last(), f, t.drop_last(), g);
        lemma_most_recent_bounds(s.drop_last(), f);
    }
}


// ---------------------------------------------------------------------------
// Sessions
// ---------------------------------------------------------------------------

/// What an Emby session plays.
pub struct EmbyItem {
    pub id: String,
    pub name: String,
    pub series_name: Option<String>,
    pub series_id: Option<String>,
    pub artists: Option<Vec<String>>,
    pub album: Option<String>,
    pub index_number: Option<u32>,
    pub parent_index_number: Option<u32>,
    pub production_year: Option<u32>,
    pub run_time_ticks: Option<u64>,
    /// The tag of the item's own primary image.
    pub primary_image_tag: Option<String>,
    /// Whether the primary image is wide: an aspect ratio of at least 1.25
    /// (1.0 where none is given).
    pub wide_primary_image: bool,
    pub parent_thumb_item_id: Option<String>,
    pub parent_thumb_image_tag: Option<String>,
    pub series_primary_image_tag: Option<String>,
}

pub struct EmbyPlayState {
    pub position_ticks: Option<u64>,
    pub is_paused: Option<bool>,
    pub can_seek: Option<bool>,
}

/// A session that an Emby server reports.
pub struct EmbySession {
    pub id: String,
    pub client: String,
    pub device_name: String,
    pub device_id: String,
    pub supports_remote_control: bool,
    pub now_playing_item: Option<EmbyItem>,
    pub play_state: Option<EmbyPlayState>,
    pub playlist_index: Option<i64>,
    pub playlist_length: Option<i64>,
}

/// An Emby Theater session that plays something.
pub open spec fn theater_playing(s: EmbySession) -> bool {
    crate::text::eq_ignore_case(s.client@, "Emby Theater"@) && s.now_playing_item is Some
}

/// A playing Emby Theater session on this machine.
pub open spec fn theater_here(host_name: Seq<char>) -> spec_fn(EmbySession) -> bool {
    |s: EmbySession| theater_playing(s) && host_name.len() > 0 && (crate::text::eq_ignore_case(
        s.device_name@,
        host_name,
    ) || crate::text::eq_ignore_case(s.device_id@, host_name))
}

pub open spec fn theater_count(s: Seq<EmbySession>) -> nat
    decreases s.len(),
{
    if s.len() == 0 {
        0
    } else {
        theater_count(s.drop_last()) + if theater_playing(s.last()) { 1nat } else { 0nat }
    }
}

/// The session to follow: a playing Emby Theater session on this machine,
/// or else the only playing Emby Theater session.
pub open spec fn chosen_session(sessions: Seq<EmbySession>, host_name: Seq<char>) -> Option<int> {
    let here = first_match(sessions, theater_here(host_name));
    if here >= 0 {
        Some(here)
    } else if theater_count(sessions) == 1 {
        Some(first_match(sessions, |s: EmbySession| theater_playing(s)))
    } else {
        None
    }
}

fn theater_playing_exec(s: &EmbySession) -> (r: bool)
    ensures
        r == theater_playing(*s),
{
    crate::text::eq_ignore_case_str(s.client.as_str(), "Emby Theater") && s.now_playing_item.is_some()
}

/// Picks the session to follow among those a server reports.
pub fn choose_emby_session(sessions: &Vec<EmbySession>, host_name: &str) -> (r: Option<usize>)
    ensures
        match r {
            Some(k) => chosen_session(sessions@, host_name@) == Some(k as int),
            None => chosen_session(sessions@, host_name@) is None,
        },
{
    let ghost s = sessions@;
    let ghost here = theater_here(host_name@);
    let ghost playing = |x: EmbySession| theater_playing(x);
    let mut count: usize = 0;
    let mut first_playing: Option<usize> = None;
    let mut i: usize = 0;
    assert(s.take(0) =~= Seq::<EmbySession>::empty());
    while i < sessions.len()
        invariant
            i <= s.len(),
            s == sessions@,
            here == theater_here(host_name@),
            playing == (|x: EmbySession| theater_playing(x)),
            forall|j: int| 0 <= j < i ==> !here(#[trigger] s[j]),
            count == theater_count(s.take(i as int)),
            count <= i,
            match first_playing {
                Some(k) => k < i && playing(s[k as int]) && forall|j: int| 0 <= j < k ==> !playing(#[trigger] s[j]),
                None => forall|j: int| 0 <= j < i ==> !playing(#[trigger] s[j]),
            },
        decreases s.len() - i,
    {
        let t = &sessions[i];
        let is_playing = theater_playing_exec(t);
        let at_host = is_playing && host_name.unicode_len() > 0 && (crate::text::eq_ignore_case_str(
            t.device_name.as_str(),
            host_name,
        ) || crate::text::eq_ignore_case_str(t.device_id.as_str(), host_name));
        if at_host {
            proof {
                crate::text::lemma_first_match(s, here, i as int);
            }
            return Some(i);
        }
        proof {
            assert(s.take(i + 1).drop_last() =~= s.take(i as int));
            assert(s.take(i + 1).last() == s[i as int]);
        }
        if is_playing {
            count = count + 1;
            if first_playing.is_none() {
                first_playing = Some(i);
            }
        }
        i += 1;
    }
    proof {
        crate::text::lemma_first_match(s, here, s.len() as int);
        assert(s.take(i as int) =~= s);
    }
    if count == 1 {
        match first_playing {
            Some(k) => {
                proof {
                    crate::text::lemma_first_match(s, playing, k as int);
                }
                Some(k)
            },
            None => {
                proof {
                    lemma_no_theater(s);
                }
                None
            },
        }
    } else {
        None
    }
}

proof fn lemma_no_theater(s: Seq<EmbySession>)
    requires
        forall|j: int| 0 <= j < s.len() ==> !theater_playing(#[trigger] s[j]),
    ensures
        theater_count(s) == 0,
    decreases s.len(),
{
    if s.len() > 0 {
        assert forall|j: int| 0 <= j < s.drop_last().len() implies !theater_playing(#[trigger] s.drop_last()[j]) by {
            assert(s.drop_last()[j] == s[j]);
        }
        lemma_no_theater(s.drop_last());
        assert(!theater_playing(s[s.len() - 1]));
    }
}

/// An Emby API URL on a server: under `/emby`, which the server address may
/// already end in.
pub open spec fn emby_api_url_of(server_url: Seq<char>, path: Seq<char>) -> Seq<char> {
    let base = strip_all_suffix(server_url, "/"@);
    if ends_with(base, "/emby"@) {
        base + "/"@ + strip_leading(path, '/')
    } else {
        base + "/emby/"@ + strip_leading(path, '/')
    }
}

pub fn emby_api_url(server_url: &str, path: &str) -> (r: String)
    ensures
        r@ == emby_api_url_of(server_url@, path@),
{
    let mut base = crate::text::strip_all_suffix_chars(&chars_of(server_url), &chars_of("/"));
    let tail = crate::text::strip_leading_chars(&chars_of(path), '/');
    proof {
        reveal_strlit("/emby");
    }
    let under_emby = base.len() >= 5 && crate::text::occurs_at_exec(&base, &chars_of("/emby"), base.len() - 5);
    assert(under_emby == ends_with(base@, "/emby"@));
    if under_emby {
        append_str(&mut base, "/");
    } else {
        append_str(&mut base, "/emby/");
    }
    append_chars(&mut base, &tail);
    string_of(&base)
}

// ---------------------------------------------------------------------------
// Percent-encoding
// ---------------------------------------------------------------------------

/// A byte that percent-encoding leaves: an ASCII letter or digit, `-`, `.`,
/// `_` or `~`.
pub open spec fn unreserved(b: u8) -> bool {
    (48 <= b <= 57) || (65 <= b <= 90) || (97 <= b <= 122) || b == 45 || b == 46 || b == 95 || b == 126
}

pub open spec fn upper_hex_digit(d: u8) -> char {
    if d < 10 {
        (48 + d) as char
    } else {
        (55 + d) as char
    }
}

pub open spec fn percent_byte(b: u8) -> Seq<char> {
    if unreserved(b) {
        seq![b as char]
    } else {
        seq!['%', upper_hex_digit(b / 16), upper_hex_digit(b % 16)]
    }
}

pub open spec fn percent_bytes(bytes: Seq<u8>) -> Seq<char>
    decreases bytes.len(),
{
    if bytes.len() == 0 {
        Seq::empty()
    } else {
        percent_bytes(bytes.drop_last()) + percent_byte(bytes.last())
    }
}

/// `s` percent-encoded: each byte of its UTF-8 encoding that is not
/// unreserved becomes `%` and two uppercase hexadecimal digits.
pub open spec fn percent_encoded(s: Seq<char>) -> Seq<char> {
    percent_bytes(vstd::utf8::encode_utf8(s))
}

/// Calls `urlencoding::encode`, which keeps ASCII letters, digits, `-`, `.`,
/// `_` and `~` and writes every other UTF-8 byte as `%` and two uppercase
/// hexadecimal digits.
#[verifier::external_body]
fn url_encode(s: &str) -> (r: String)
    ensures
        r@ == percent_encoded(s@),
{
    urlencoding::encode(s).into_owned()
}

// ---------------------------------------------------------------------------
// What a session plays
// ---------------------------------------------------------------------------

/// The image that shows an item: its own primary image, its parent's thumb,
/// or its series' primary image; each as item id, image type and tag.
pub open spec fn artwork_image(item: EmbyItem) -> Option<(Seq<char>, Seq<char>, Seq<char>)> {
    match item.primary_image_tag {
        Some(tag) => Some((item.id@, "Primary"@, tag@)),
        None => match (item.parent_thumb_item_id, item.parent_thumb_image_tag) {
            (Some(parent), Some(tag)) => Some((parent@, "Thumb"@, tag@)),
            _ => match (item.series_id, item.series_primary_image_tag) {
                (Some(series), Some(tag)) => Some((series@, "Primary"@, tag@)),
                _ => None,
            },
        },
    }
}

pub open spec fn emby_artwork_url_of(server_url: Seq<char>, item: EmbyItem) -> Option<Seq<char>> {
    match artwork_image(item) {
        None => None,
        Some(image) => Some(
            emby_api_url_of(server_url, "Items/"@ + image.0 + "/Images/"@ + image.1) + "?maxWidth="@ + (if item.wide_primary_image {
                "640"@
            } else {
                "400"@
            }) + "&quality=90&tag="@ + percent_encoded(image.2),
        ),
    }
}

/// The artwork URL of an item on a server.
pub fn emby_artwork_url(server_url: &str, item: &EmbyItem) -> (r: Option<String>)
    ensures
        opt_view(r) == emby_artwork_url_of(server_url@, *item),
{
    let (image_id, image_type, tag): (&String, &str, &String) = match &item.primary_image_tag {
        Some(tag) => (&item.id, "Primary", tag),
        None => match (&item.parent_thumb_item_id, &item.parent_thumb_image_tag) {
            (Some(parent), Some(tag)) => (parent, "Thumb", tag),
            _ => match (&item.series_id, &item.series_primary_image_tag) {
                (Some(series), Some(tag)) => (series, "Primary", tag),
                _ => {
                    return None;
                },
            },
        },
    };
    let mut path = chars_of("Items/");
    append_str(&mut path, image_id.as_str());
    append_str(&mut path, "/Images/");
    append_str(&mut path, image_type);
    let mut url = chars_of(emby_api_url(server_url, string_of(&path).as_str()).as_str());
    append_str(&mut url, "?maxWidth=");
    if item.wide_primary_image {
        append_str(&mut url, "640");
    } else {
        append_str(&mut url, "400");
    }
    append_str(&mut url, "&quality=90&tag=");
    append_str(&mut url, url_encode(tag.as_str()).as_str());
    Some(string_of(&url))
}

/// The artist line: the series, or else the artists.
pub open spec fn emby_artist(item: EmbyItem) -> Seq<char> {
    match item.series_name {
        Some(series) => series@,
        None => match item.artists {
            Some(artists) => crate::text::join(crate::text::string_views(artists@), ", "@),
            None => Seq::empty(),
        },
    }
}

/// The album line: season and episode, or else the album, or else the year.
pub open spec fn emby_album(item: EmbyItem) -> Seq<char> {
    match (item.parent_index_number, item.index_number) {
        (Some(season), Some(episode)) => "Season "@ + decimal(season as nat) + ", Episode "@ + decimal(
            episode as nat,
        ),
        _ => match item.album {
            Some(album) => if album@.len() > 0 {
                album@
            } else {
                match item.production_year {
                    Some(year) => decimal(year as nat),
                    None => Seq::empty(),
                }
            },
            None => match item.production_year {
                Some(year) => decimal(year as nat),
                None => Seq::empty(),
            },
        },
    }
}

fn emby_artist_exec(item: &EmbyItem) -> (r: String)
    ensures
        r@ == emby_artist(*item),
{
    match &item.series_name {
        Some(series) => copy_string(series),
        None => match &item.artists {
            Some(artists) => {
                let mut pieces: Vec<Vec<char>> = Vec::new();
                let mut i: usize = 0;
                while i < artists.len()
                    invariant
                        i <= artists@.len(),
                        crate::text::views(pieces@) == crate::text::string_views(artists@).take(i as int),
                    decreases artists@.len() - i,
                {
                    let ghost before = pieces@;
                    pieces.push(chars_of(artists[i].as_str()));
                    assert(crate::text::views(pieces@) =~= crate::text::views(before).push(artists@[i as int]@));
                    i += 1;
                    assert(crate::text::views(pieces@) =~= crate::text::string_views(artists@).take(i as int));
                }
                assert(crate::text::string_views(artists@).take(i as int) =~= crate::text::string_views(artists@));
                string_of(&crate::text::join_exec(&pieces, &chars_of(", ")))
            },
            None => String::new(),
        },
    }
}

fn emby_album_exec(item: &EmbyItem) -> (r: String)
    ensures
        r@ == emby_album(*item),
{
    match (item.parent_index_number, item.index_number) {
        (Some(season), Some(episode)) => {
            let mut v = chars_of("Season ");
            append_chars(&mut v, &crate::text::decimal_chars(season as u64));
            append_str(&mut v, ", Episode ");
            append_chars(&mut v, &crate::text::decimal_chars(episode as u64));
            string_of(&v)
        },
        _ => {
            let has_album = match &item.album {
                Some(album) => album.unicode_len() > 0,
                None => false,
            };
            if has_album {
                match &item.album {
                    Some(album) => copy_string(album),
                    None => String::new(),
                }
            } else {
                match item.production_year {
                    Some(year) => string_of(&crate::text::decimal_chars(year as u64)),
                    None => String::new(),
                }
            }
        },
    }
}

/// What an Emby session plays, as a player; none without an item and a
/// play state.
pub fn media_info_from_emby_session(server_url: &str, session: &EmbySession) -> (r: Option<(PlayerId, MediaInfo)>)
    requires
        session.playlist_index != Some(i64::MAX),
    ensures
        r is Some <==> (session.now_playing_item is Some && session.play_state is Some),
        r matches Some((id, info)) ==> ({
            let item = session.now_playing_item->0;
            let play = session.play_state->0;
            &&& id == PlayerId::Emby(session.id)
            &&& info.player_name@ == "Emby"@
            &&& info.title == item.name
            &&& info.artist@ == emby_artist(item)
            &&& info.album@ == emby_album(item)
            &&& opt_view(info.art_url) == emby_artwork_url_of(server_url@, item)
            &&& opt_view(info.media_url) == Some("emby://item/"@ + item.id@)
            &&& info.status == if play.is_paused == Some(true) {
                PlaybackStatus::Paused
            } else {
                PlaybackStatus::Playing
            }
            &&& info.position == (match play.position_ticks {
                Some(t) => t,
                None => 0,
            }) / 10000
            &&& info.duration == (match item.run_time_ticks {
                Some(t) => t,
                None => 0,
            }) / 10000
            &&& info.can_play == session.supports_remote_control
            &&& info.can_pause == session.supports_remote_control
            &&& info.can_go_previous == (session.playlist_index matches Some(i) && i > 0)
            &&& info.can_go_next == (match (session.playlist_index, session.playlist_length) {
                (Some(i), Some(n)) => i + 1 < n,
                _ => false,
            })
            &&& info.can_seek == (session.supports_remote_control && play.can_seek == Some(true))
        }),
{
    let item = match &session.now_playing_item {
        Some(item) => item,
        None => {
            return None;
        },
    };
    let play = match &session.play_state {
        Some(play) => play,
        None => {
            return None;
        },
    };
    let status = match play.is_paused {
        Some(true) => PlaybackStatus::Paused,
        _ => PlaybackStatus::Playing,
    };
    let can_go_previous = match session.playlist_index {
        Some(index) => index > 0,
        None => false,
    };
    let can_go_next = match (session.playlist_index, session.playlist_length) {
        (Some(index), Some(length)) => index + 1 < length,
        _ => false,
    };
    let mut media_url = chars_of("emby://item/");
    append_str(&mut media_url, item.id.as_str());
    let position = match play.position_ticks {
        Some(t) => t,
        None => 0,
    } / 10000;
    let duration = match item.run_time_ticks {
        Some(t) => t,
        None => 0,
    } / 10000;
    let can_seek = session.supports_remote_control && match play.can_seek {
        Some(v) => v,
        None => false,
    };
    Some(
        (
            PlayerId::Emby(copy_string(&session.id)),
            MediaInfo {
                player_name: crate::text::owned("Emby"),
                title: copy_string(&item.name),
                artist: emby_artist_exec(item),
                album: emby_album_exec(item),
                art_url: emby_artwork_url(server_url, item),
                media_url: Some(string_of(&media_url)),
                status,
                position,
                duration,
                can_play: session.supports_remote_control,
                can_pause: session.supports_remote_control,
                can_go_next,
                can_go_previous,
                can_seek,
            },
        ),
    )
}

} // verus!
