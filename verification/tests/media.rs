use cosmic_widget::battery::store::KeyedStore;
use cosmic_widget::media::{
    artwork_candidate_urls, extract_youtube_video_id, thumbnail_candidates, is_bandcamp_page_caption, is_cider_mpris_player, is_firefox_mpris_player,
    is_playerctld_mpris_player, merge_mpris_proxy_timeline, pixel_count, preferred_player_id,
    publish_players, sort_players, update_tracked_position, ArtworkCache, ArtworkSource,
    apply_bandcamp_metadata, bandcamp_track_for, BandcampPage, BandcampTrack,
    BandcampPageCache, MediaInfo, MultiPlayerState, PlaybackStatus, PlayerId, PositionTracker,
    TrackArtwork, TrackSignature, MAX_CACHED_ARTWORKS,
};

fn media(status: PlaybackStatus, position: u64, title: &str) -> MediaInfo {
    MediaInfo {
        player_name: "Firefox".to_string(),
        title: title.to_string(),
        artist: "YouTube".to_string(),
        album: String::new(),
        art_url: None,
        media_url: None,
        status,
        position,
        duration: 600_000,
        can_play: false,
        can_pause: false,
        can_go_next: false,
        can_go_previous: false,
        can_seek: false,
    }
}

fn firefox() -> PlayerId {
    PlayerId::Mpris("org.mpris.MediaPlayer2.firefox".to_string())
}

#[test]
fn recognizes_playerctld_as_an_mpris_proxy() {
    assert!(is_playerctld_mpris_player("org.mpris.MediaPlayer2.playerctld"));
    assert!(!is_playerctld_mpris_player(
        "org.mpris.MediaPlayer2.firefox.instance_1_560"
    ));
}

#[test]
fn proxy_timeline_augments_the_real_player() {
    let mut firefox = media(PlaybackStatus::Playing, 15_000, "Video");
    firefox.player_name = "Firefox".to_string();
    firefox.duration = 617_000;
    firefox.can_seek = false;
    let mut proxy = media(PlaybackStatus::Playing, 356_000, "Video");
    proxy.player_name = "Playerctld".to_string();
    proxy.duration = 617_000;
    proxy.can_seek = true;

    merge_mpris_proxy_timeline(&mut firefox, &proxy);

    assert_eq!(firefox.player_name, "Firefox");
    assert_eq!(firefox.position, 356_000);
    assert_eq!(firefox.duration, 617_000);
    assert!(firefox.can_seek);
}

#[test]
fn artwork_cache_evicts_the_least_recently_used_entry() {
    let mut cache: ArtworkCache<u32> = ArtworkCache::with_limits(2, 100, 10_000);
    cache.insert("first".to_string(), 1, 4, 10, 10);
    cache.insert("second".to_string(), 2, 4, 10, 10);
    assert!(cache.get("first").is_some());

    cache.insert("third".to_string(), 3, 4, 10, 10);

    assert!(cache.get("first").is_some());
    assert!(cache.get("second").is_none());
    assert!(cache.get("third").is_some());
}

#[test]
fn artwork_cache_enforces_encoded_byte_and_pixel_budgets() {
    let mut cache: ArtworkCache<u32> = ArtworkCache::with_limits(4, 7, 150);
    cache.insert("first".to_string(), 1, 4, 10, 10);
    cache.insert("second".to_string(), 2, 4, 10, 10);

    assert!(cache.get("first").is_none());
    assert!(cache.get("second").is_some());
    assert_eq!(cache.encoded_bytes(), 4);
    assert_eq!(cache.source_pixels(), 100);

    cache.insert("oversized".to_string(), 3, 4, 20, 20);
    assert!(cache.get("oversized").is_none());
    assert!(cache.get("second").is_some());
}

#[test]
fn artwork_cache_replaces_an_entry_under_the_same_url() {
    let mut cache: ArtworkCache<u32> = ArtworkCache::with_limits(4, 100, 10_000);
    cache.insert("art".to_string(), 1, 4, 10, 10);
    cache.insert("art".to_string(), 2, 6, 20, 10);
    assert_eq!(cache.get("art"), Some(&2));
    assert_eq!(cache.encoded_bytes(), 6);
    assert_eq!(cache.source_pixels(), 200);
}

#[test]
fn seeds_and_advances_a_playing_position_from_the_initial_mpris_sample() {
    let player = firefox();
    let mut trackers: KeyedStore<PositionTracker> = KeyedStore::new();
    let started: u64 = 1_000_000;
    let mut info = media(PlaybackStatus::Playing, 120_000, "Video");

    assert!(update_tracked_position(&mut trackers, &player, &mut info, started));
    assert_eq!(info.position, 120_000);

    let mut unchanged = media(PlaybackStatus::Playing, 120_000, "Video");
    assert!(!update_tracked_position(
        &mut trackers,
        &player,
        &mut unchanged,
        started + 2_000,
    ));
    assert_eq!(unchanged.position, 122_000);

    let mut refreshed = media(PlaybackStatus::Playing, 125_000, "Video");
    update_tracked_position(&mut trackers, &player, &mut refreshed, started + 3_000);
    assert_eq!(refreshed.position, 125_000);
}

#[test]
fn freezes_on_pause_and_accepts_a_real_paused_seek() {
    let player = firefox();
    let mut trackers: KeyedStore<PositionTracker> = KeyedStore::new();
    let started: u64 = 1_000_000;
    let mut playing = media(PlaybackStatus::Playing, 120_000, "Video");
    update_tracked_position(&mut trackers, &player, &mut playing, started);

    let mut paused = media(PlaybackStatus::Paused, 120_000, "Video");
    update_tracked_position(&mut trackers, &player, &mut paused, started + 1_000);
    assert_eq!(paused.position, 121_000);

    let mut drifting = media(PlaybackStatus::Paused, 121_000, "Video");
    update_tracked_position(&mut trackers, &player, &mut drifting, started + 2_000);
    assert_eq!(drifting.position, 121_000);

    let mut seeked = media(PlaybackStatus::Paused, 90_000, "Video");
    update_tracked_position(&mut trackers, &player, &mut seeked, started + 3_000);
    assert_eq!(seeked.position, 90_000);
}

#[test]
fn resumes_from_the_frozen_position_and_resets_for_a_new_track() {
    let player = firefox();
    let mut trackers: KeyedStore<PositionTracker> = KeyedStore::new();
    let started: u64 = 1_000_000;
    let mut paused = media(PlaybackStatus::Paused, 90_000, "First video");
    update_tracked_position(&mut trackers, &player, &mut paused, started);

    let mut resumed = media(PlaybackStatus::Playing, 90_000, "First video");
    update_tracked_position(&mut trackers, &player, &mut resumed, started + 1_000);
    assert_eq!(resumed.position, 90_000);

    let mut progressing = media(PlaybackStatus::Playing, 90_000, "First video");
    update_tracked_position(&mut trackers, &player, &mut progressing, started + 2_000);
    assert_eq!(progressing.position, 91_000);

    let mut next = media(PlaybackStatus::Playing, 5_000, "Second video");
    assert!(update_tracked_position(
        &mut trackers,
        &player,
        &mut next,
        started + 3_000,
    ));
    assert_eq!(next.position, 5_000);
}

#[test]
fn preserves_valid_timeline_across_incomplete_firefox_samples() {
    let player = firefox();
    let mut trackers: KeyedStore<PositionTracker> = KeyedStore::new();
    let started: u64 = 1_000_000;
    let mut valid = media(PlaybackStatus::Playing, 368_000, "Video");
    update_tracked_position(&mut trackers, &player, &mut valid, started);

    let mut incomplete = media(PlaybackStatus::Playing, 0, "Video");
    incomplete.duration = 0;
    update_tracked_position(&mut trackers, &player, &mut incomplete, started + 1_000);

    assert_eq!(incomplete.position, 369_000);
    assert_eq!(incomplete.duration, 600_000);
}

#[test]
fn tracked_position_is_capped_at_the_duration() {
    let player = firefox();
    let mut trackers: KeyedStore<PositionTracker> = KeyedStore::new();
    let mut info = media(PlaybackStatus::Playing, 599_000, "Video");
    update_tracked_position(&mut trackers, &player, &mut info, 0);
    let mut later = media(PlaybackStatus::Playing, 599_000, "Video");
    update_tracked_position(&mut trackers, &player, &mut later, 5_000);
    assert_eq!(later.position, 600_000);
}

#[test]
fn identifies_only_cider_mpris_sources_as_api_duplicates() {
    assert!(is_cider_mpris_player("org.mpris.MediaPlayer2.cider"));
    assert!(is_cider_mpris_player("org.mpris.MediaPlayer2.Cider.instance_1"));
    assert!(!is_cider_mpris_player(
        "org.mpris.MediaPlayer2.firefox.instance_1"
    ));
}

#[test]
fn identifies_firefox_mpris_sources() {
    assert!(is_firefox_mpris_player("org.mpris.MediaPlayer2.firefox.instance_1_560"));
    assert!(!is_firefox_mpris_player("org.mpris.MediaPlayer2.cider"));
}

#[test]
fn bandcamp_page_cache_is_bounded_and_retains_recently_used_metadata() {
    let mut cache: BandcampPageCache<String> = BandcampPageCache::new();
    let original_url = "https://artist.bandcamp.com/album/example";
    cache.insert(original_url.to_string(), "First".to_string());
    let metadata = cache.get(original_url).unwrap().clone();
    for index in 1..MAX_CACHED_ARTWORKS {
        cache.insert(
            format!("https://artist.bandcamp.com/album/{index}"),
            metadata.clone(),
        );
    }
    cache.get(original_url).unwrap();
    cache.insert("https://artist.bandcamp.com/album/new".into(), metadata);
    assert_eq!(cache.len(), MAX_CACHED_ARTWORKS);
    assert!(cache.get(original_url).is_some());
    assert!(cache.get("https://artist.bandcamp.com/album/1").is_none());
}

#[test]
fn artwork_selection_never_downgrades_the_current_track() {
    let track = TrackSignature {
        title: "Video".to_string(),
        artist: "Channel".to_string(),
        media_url: Some("https://youtube.com/watch?v=testVideo_1".to_string()),
    };
    let mut selection: TrackArtwork<(u32, u32)> = TrackArtwork::new(track);
    let source = ArtworkSource::Image("https://example.test/artwork.jpg".to_string());
    selection.accept(&source, (1280, 720), pixel_count(1280, 720));
    selection.accept(&source, (60, 60), pixel_count(60, 60));

    let (selected, _) = selection.best.expect("artwork should be selected");
    assert_eq!(selected, (1280, 720));
}

#[test]
fn bandcamp_album_cover_takes_precedence_over_browser_placeholder() {
    let info = media(PlaybackStatus::Playing, 0, "Album");
    let mut selection: TrackArtwork<(u32, u32)> = TrackArtwork::new(TrackSignature::of(&info));
    let placeholder = ArtworkSource::Image("file:///tmp/browser-placeholder.png".into());
    let cover = ArtworkSource::BandcampPage("https://artist.bandcamp.com/album/example".into());
    selection.accept(&placeholder, (512, 512), pixel_count(512, 512));
    selection.accept(&cover, (350, 350), pixel_count(350, 350));
    selection.accept(&placeholder, (1024, 1024), pixel_count(1024, 1024));
    let (best, _) = selection.best.unwrap();
    assert_eq!(best, (350, 350));
}

#[test]
fn pixel_count_multiplies_the_sides() {
    assert_eq!(pixel_count(640, 360), 230_400);
    assert_eq!(pixel_count(u32::MAX, 2), 2 * u32::MAX as u64);
}

fn state(players: Vec<(PlayerId, MediaInfo)>, current_index: usize) -> MultiPlayerState {
    MultiPlayerState {
        players,
        current_index,
    }
}

#[test]
fn newly_playing_source_becomes_preferred() {
    let firefox = firefox();
    let previous = state(
        vec![
            (PlayerId::Cider, media(PlaybackStatus::Playing, 20_000, "Music")),
            (firefox.clone(), media(PlaybackStatus::Paused, 40_000, "Video")),
        ],
        0,
    );
    let players = vec![
        (PlayerId::Cider, media(PlaybackStatus::Playing, 21_000, "Music")),
        (firefox.clone(), media(PlaybackStatus::Playing, 40_000, "Video")),
    ];

    assert_eq!(
        preferred_player_id(&previous, &players, Some(&PlayerId::Cider)),
        Some(firefox)
    );
}

#[test]
fn stopping_selected_source_falls_back_to_playing_source() {
    let firefox = firefox();
    let previous = state(
        vec![
            (PlayerId::Cider, media(PlaybackStatus::Playing, 20_000, "Music")),
            (firefox.clone(), media(PlaybackStatus::Playing, 40_000, "Video")),
        ],
        0,
    );
    let players = vec![
        (firefox.clone(), media(PlaybackStatus::Playing, 41_000, "Video")),
        (PlayerId::Cider, media(PlaybackStatus::Paused, 21_000, "Music")),
    ];

    assert_eq!(
        preferred_player_id(&previous, &players, Some(&PlayerId::Cider)),
        Some(firefox)
    );
}

#[test]
fn manual_source_selection_persists_without_playback_transition() {
    let firefox = firefox();
    let previous = state(
        vec![
            (PlayerId::Cider, media(PlaybackStatus::Playing, 20_000, "Music")),
            (firefox.clone(), media(PlaybackStatus::Paused, 40_000, "Video")),
        ],
        1,
    );
    let players = previous.players.clone();

    assert_eq!(
        preferred_player_id(&previous, &players, Some(&firefox)),
        Some(firefox)
    );
}

#[test]
fn publishing_players_shows_the_preferred_player() {
    let firefox = firefox();
    let mut shown = MultiPlayerState::new();
    let mut selected: Option<PlayerId> = None;
    publish_players(
        &mut shown,
        &mut selected,
        vec![
            (PlayerId::Cider, media(PlaybackStatus::Paused, 0, "Music")),
            (firefox.clone(), media(PlaybackStatus::Playing, 0, "Video")),
        ],
    );
    assert_eq!(selected, Some(firefox));
    assert_eq!(shown.current_index, 1);
    assert_eq!(shown.player_count(), 2);
}

#[test]
fn next_then_previous_player_returns_to_the_same_player() {
    let mut shown = state(
        vec![
            (PlayerId::Cider, media(PlaybackStatus::Paused, 0, "Music")),
            (firefox(), media(PlaybackStatus::Playing, 0, "Video")),
            (
                PlayerId::Emby("session".to_string()),
                media(PlaybackStatus::Paused, 0, "Film"),
            ),
        ],
        2,
    );
    shown.next_player();
    assert_eq!(shown.current_index, 0);
    shown.prev_player();
    assert_eq!(shown.current_index, 2);
    shown.select_player(7);
    assert_eq!(shown.current_index, 2);
    shown.select_player(1);
    assert_eq!(shown.current_index, 1);
}

#[test]
fn sorts_playing_players_first_then_by_name() {
    let mut a = media(PlaybackStatus::Paused, 0, "A");
    a.player_name = "Alpha".to_string();
    let mut b = media(PlaybackStatus::Playing, 0, "B");
    b.player_name = "Zulu".to_string();
    let mut c = media(PlaybackStatus::Paused, 0, "C");
    c.player_name = "Alpha".to_string();
    let mut d = media(PlaybackStatus::Playing, 0, "D");
    d.player_name = "Mike".to_string();
    let sorted = sort_players(vec![
        (PlayerId::Cider, a),
        (PlayerId::Emby("b".to_string()), b),
        (PlayerId::Emby("c".to_string()), c),
        (PlayerId::Emby("d".to_string()), d),
    ]);
    let titles: Vec<&str> = sorted.iter().map(|(_, info)| info.title.as_str()).collect();
    assert_eq!(titles, vec!["D", "B", "A", "C"]);
}

#[test]
fn recognizes_bandcamp_page_captions() {
    assert!(is_bandcamp_page_caption("▶ Album", "Album", "Artist"));
    assert!(is_bandcamp_page_caption("  Album | Artist  ", "Album", "Artist"));
    assert!(!is_bandcamp_page_caption("Track", "Album", "Artist"));
    assert!(!is_bandcamp_page_caption("Album | Artist", "Album", ""));
    assert!(!is_bandcamp_page_caption("", "", "Artist"));
}

#[test]
fn player_display_names() {
    assert_eq!(
        PlayerId::Mpris("org.mpris.MediaPlayer2.firefox.instance_1".to_string()).display_name(),
        "Firefox"
    );
    assert_eq!(PlayerId::Cider.display_name(), "Cider");
}

#[test]
fn parses_youtube_urls_and_orders_thumbnail_candidates() {
    let urls = [
        "https://www.youtube.com/watch?v=testVideo_1&list=WL",
        "https://youtu.be/testVideo_1?t=30",
        "https://music.youtube.com/watch?v=testVideo_1",
        "https://www.youtube.com/shorts/testVideo_1",
        "https://www.youtube.com/live/testVideo_1",
        "https://www.youtube.com/embed/testVideo_1",
    ];
    for url in urls {
        assert_eq!(
            extract_youtube_video_id(url).as_deref(),
            Some("testVideo_1")
        );
    }

    let mut info = media(PlaybackStatus::Playing, 0, "Video");
    info.media_url = Some(urls[0].to_string());
    info.art_url = Some("file:///tmp/firefox-art.jpg".to_string());
    assert_eq!(
        artwork_candidate_urls(&info),
        vec![
            "https://i.ytimg.com/vi/testVideo_1/maxresdefault.jpg",
            "https://i.ytimg.com/vi/testVideo_1/hqdefault.jpg",
            "https://i.ytimg.com/vi/testVideo_1/mqdefault.jpg",
            "file:///tmp/firefox-art.jpg",
        ]
    );
}

#[test]
fn rejects_urls_that_name_no_video() {
    assert_eq!(extract_youtube_video_id("https://www.youtube.com/watch?v=short"), None);
    assert_eq!(extract_youtube_video_id("https://example.com/watch?v=testVideo_1"), None);
    assert_eq!(extract_youtube_video_id("https://www.youtube.com/channel/testVideo_1"), None);
    assert_eq!(extract_youtube_video_id("not a url"), None);
    assert_eq!(extract_youtube_video_id("https://WWW.YOUTU.BE//testVideo_1"), Some("testVideo_1".to_string()));
}

#[test]
fn player_artwork_is_listed_once_and_only_when_present() {
    assert_eq!(thumbnail_candidates(None, Some("")), Vec::<String>::new());
    assert_eq!(thumbnail_candidates(None, None), Vec::<String>::new());
    let with_duplicate = thumbnail_candidates(
        Some("abc"),
        Some("https://i.ytimg.com/vi/abc/hqdefault.jpg"),
    );
    assert_eq!(with_duplicate.len(), 3);
}

use cosmic_widget::media::emby::{
    choose_emby_session, emby_api_url, emby_credentials, media_info_from_emby_session,
    saved_server_offsets, EmbyItem, EmbyPlayState, EmbyServer, EmbySession, EmbyUser,
};

fn server(
    local: Option<&str>,
    remote: Option<&str>,
    manual: Option<&str>,
    user: &str,
    token: &str,
    accessed: u64,
) -> EmbyServer {
    EmbyServer {
        local_address: local.map(String::from),
        manual_address: manual.map(String::from),
        remote_address: remote.map(String::from),
        user_id: Some(user.to_string()),
        users: vec![EmbyUser {
            user_id: user.to_string(),
            access_token: token.to_string(),
        }],
        date_last_accessed: accessed,
    }
}

#[test]
fn selects_the_newest_saved_emby_credentials() {
    let mut leveldb_bytes = vec![0, 0xff, b'n', b'o', b'i', b's', b'e', 0];
    let first = leveldb_bytes.len();
    leveldb_bytes.extend_from_slice(
        br#"{"Servers":[{"LocalAddress":"http://old:8096/","RemoteAddress":null,"ManualAddress":null,"UserId":"user-1","Users":[{"UserId":"user-1","AccessToken":"old-token"}],"DateLastAccessed":10}]}"#,
    );
    leveldb_bytes.extend_from_slice(&[0, 0x80]);
    let second = leveldb_bytes.len() + "prefix:".len();
    leveldb_bytes.extend_from_slice(
        br#"prefix:{"Servers":[{"LocalAddress":"http://nas:8096","RemoteAddress":"https://remote.example","ManualAddress":"http://nas:8096","UserId":"user-2","Users":[{"UserId":"user-2","AccessToken":"new-token"}],"DateLastAccessed":20}]}:suffix"#,
    );
    leveldb_bytes.push(0xff);
    assert_eq!(saved_server_offsets(&leveldb_bytes), vec![first, second]);

    let servers = vec![
        server(Some("http://old:8096/"), None, None, "user-1", "old-token", 10),
        server(
            Some("http://nas:8096"),
            Some("https://remote.example"),
            Some("http://nas:8096"),
            "user-2",
            "new-token",
            20,
        ),
    ];
    let credentials = emby_credentials(&servers).expect("credentials should be parsed");
    assert_eq!(credentials.user_id, "user-2");
    assert_eq!(credentials.access_token, "new-token");
    assert_eq!(
        credentials.server_urls,
        vec!["http://nas:8096", "https://remote.example"]
    );
}

#[test]
fn skips_incomplete_emby_records_while_scanning_leveldb_bytes() {
    let mut leveldb_bytes = br#"{"Servers":[{"LocalAddress":"partial"}"#.to_vec();
    leveldb_bytes.extend_from_slice(&[0, 0xff, 0]);
    let complete = leveldb_bytes.len();
    leveldb_bytes.extend_from_slice(
        br#"{"Servers":[{"LocalAddress":"http://nas:8096","RemoteAddress":null,"ManualAddress":null,"UserId":"user-1","Users":[{"UserId":"user-1","AccessToken":"token"}],"DateLastAccessed":30}]}"#,
    );
    assert_eq!(saved_server_offsets(&leveldb_bytes), vec![0, complete]);

    let servers = vec![server(Some("http://nas:8096"), None, None, "user-1", "token", 30)];
    let credentials =
        emby_credentials(&servers).expect("complete credentials after a partial record should be parsed");
    assert_eq!(credentials.user_id, "user-1");
    assert_eq!(credentials.server_urls, vec!["http://nas:8096"]);
}

#[test]
fn emby_logins_need_a_token_and_an_address_and_prefer_the_configured_user() {
    let mut no_token = server(Some("http://a"), None, None, "u", "", 50);
    assert!(emby_credentials(&vec![no_token]).is_none());
    no_token = server(Some("///"), None, None, "u", "t", 50);
    assert!(emby_credentials(&vec![no_token]).is_none());
    let mut two_users = server(Some("http://a"), None, None, "second", "t2", 5);
    two_users.users.insert(
        0,
        EmbyUser {
            user_id: "first".to_string(),
            access_token: "t1".to_string(),
        },
    );
    assert_eq!(emby_credentials(&vec![two_users]).unwrap().access_token, "t2");
    let mut unknown = server(Some("http://a"), None, None, "first", "t1", 5);
    unknown.user_id = Some("missing".to_string());
    assert_eq!(emby_credentials(&vec![unknown]).unwrap().user_id, "first");
    let tie = vec![
        server(Some("http://a"), None, None, "a", "ta", 7),
        server(Some("http://b"), None, None, "b", "tb", 7),
    ];
    assert_eq!(emby_credentials(&tie).unwrap().user_id, "b");
}

fn episode_session() -> EmbySession {
    EmbySession {
        id: "session-1".to_string(),
        client: "Emby Theater".to_string(),
        device_name: "test-desktop".to_string(),
        device_id: String::new(),
        supports_remote_control: true,
        now_playing_item: Some(EmbyItem {
            id: "30705".to_string(),
            name: "Henry Deaver".to_string(),
            series_name: Some("Castle Rock".to_string()),
            series_id: Some("30696".to_string()),
            artists: None,
            album: None,
            index_number: Some(9),
            parent_index_number: Some(1),
            production_year: None,
            run_time_ticks: Some(26_986_000_000),
            primary_image_tag: Some("image-tag".to_string()),
            wide_primary_image: true,
            parent_thumb_item_id: None,
            parent_thumb_image_tag: None,
            series_primary_image_tag: None,
        }),
        play_state: Some(EmbyPlayState {
            position_ticks: Some(8_668_548_674),
            is_paused: Some(false),
            can_seek: Some(true),
        }),
        playlist_index: Some(8),
        playlist_length: Some(20),
    }
}

#[test]
fn maps_an_emby_episode_to_media_state() {
    let session = episode_session();
    let (player_id, info) = media_info_from_emby_session("http://nas:8096", &session)
        .expect("active session should map to media");
    assert_eq!(player_id, PlayerId::Emby("session-1".to_string()));
    assert_eq!(info.player_name, "Emby");
    assert_eq!(info.title, "Henry Deaver");
    assert_eq!(info.artist, "Castle Rock");
    assert_eq!(info.album, "Season 1, Episode 9");
    assert_eq!(info.position, 866_854);
    assert_eq!(info.duration, 2_698_600);
    assert_eq!(
        info.art_url.as_deref(),
        Some(
            "http://nas:8096/emby/Items/30705/Images/Primary?maxWidth=640&quality=90&tag=image-tag"
        )
    );
    assert_eq!(info.status, PlaybackStatus::Playing);
    assert!(info.can_play && info.can_pause && info.can_seek);
    assert!(info.can_go_previous && info.can_go_next);
}

#[test]
fn emby_sessions_without_an_item_are_not_players() {
    let mut session = episode_session();
    session.now_playing_item = None;
    session.playlist_index = Some(-1);
    session.playlist_length = Some(0);
    assert!(media_info_from_emby_session("http://nas:8096", &session).is_none());
}

#[test]
fn emby_artwork_falls_back_and_encodes_the_tag() {
    let mut session = episode_session();
    if let Some(item) = session.now_playing_item.as_mut() {
        item.primary_image_tag = None;
        item.series_primary_image_tag = Some("a b/ü".to_string());
        item.wide_primary_image = false;
        item.series_name = None;
        item.artists = Some(vec!["One".to_string(), "Two".to_string()]);
        item.parent_index_number = None;
        item.production_year = Some(2019);
    }
    let (_, info) = media_info_from_emby_session("http://nas:8096/emby/", &session).unwrap();
    assert_eq!(
        info.art_url.as_deref(),
        Some("http://nas:8096/emby/Items/30696/Images/Primary?maxWidth=400&quality=90&tag=a%20b%2F%C3%BC")
    );
    assert_eq!(info.artist, "One, Two");
    assert_eq!(info.album, "2019");
    assert_eq!(info.media_url.as_deref(), Some("emby://item/30705"));
}

#[test]
fn builds_emby_api_urls() {
    assert_eq!(emby_api_url("http://nas:8096/", "/Sessions"), "http://nas:8096/emby/Sessions");
    assert_eq!(emby_api_url("http://nas:8096/emby//", "Sessions"), "http://nas:8096/emby/Sessions");
}

#[test]
fn follows_the_theater_session_on_this_machine() {
    let mut other = episode_session();
    other.device_name = "laptop".to_string();
    let mut web = episode_session();
    web.client = "Emby Web".to_string();
    let here = episode_session();
    let sessions = vec![web, other, here];
    assert_eq!(choose_emby_session(&sessions, "TEST-DESKTOP"), Some(2));
    assert_eq!(choose_emby_session(&sessions, "elsewhere"), None);
    let single = vec![episode_session()];
    assert_eq!(choose_emby_session(&single, ""), Some(0));
}

use cosmic_widget::media::cider::{cider_media_info, cider_now_playing, cider_playing_state, CiderTrack};
use cosmic_widget::media::mpris::{media_info_from_properties, MprisMetadata, MprisProperties};

fn no_properties() -> MprisProperties {
    MprisProperties {
        metadata: None,
        playback_status: None,
        position: None,
        can_control: None,
        can_play: None,
        can_pause: None,
        can_go_next: None,
        can_go_previous: None,
        can_seek: None,
    }
}

#[test]
fn parses_structured_player_properties_and_capabilities() {
    let mut properties = no_properties();
    properties.metadata = Some(MprisMetadata {
        title: Some("Intel: \"Ya, we're cooked\"".to_string()),
        artists: Some(vec!["TechLinked".to_string()]),
        album: None,
        art_url: None,
        url: None,
        length: Some(559_000_000),
    });
    properties.playback_status = Some("Playing".to_string());
    properties.position = Some(125_000_000);
    properties.can_control = Some(true);
    properties.can_seek = Some(true);

    let info =
        media_info_from_properties("org.mpris.MediaPlayer2.firefox.instance_1", &properties).unwrap();
    assert_eq!(info.player_name, "Firefox");
    assert_eq!(info.title, "Intel: \"Ya, we're cooked\"");
    assert_eq!(info.artist, "TechLinked");
    assert_eq!(info.position, 125_000);
    assert_eq!(info.duration, 559_000);
    assert_eq!(info.status, PlaybackStatus::Playing);
    assert!(info.can_seek);
}

#[test]
fn rejects_players_without_track_metadata() {
    let properties = no_properties();
    assert!(media_info_from_properties("org.mpris.MediaPlayer2.empty", &properties).is_none());
}

#[test]
fn uncontrollable_players_offer_no_controls() {
    let mut properties = no_properties();
    properties.metadata = Some(MprisMetadata {
        title: Some("Song".to_string()),
        artists: Some(Vec::new()),
        album: Some("Album".to_string()),
        art_url: None,
        url: None,
        length: Some(-5),
    });
    properties.playback_status = Some("Buffering".to_string());
    properties.can_control = Some(false);
    let info = media_info_from_properties("org.mpris.MediaPlayer2.vlc", &properties).unwrap();
    assert_eq!(info.player_name, "Vlc");
    assert_eq!(info.artist, "");
    assert_eq!(info.duration, 0);
    assert_eq!(info.status, PlaybackStatus::Stopped);
    assert!(!info.can_play && !info.can_pause && !info.can_seek);
}

fn cider_track() -> CiderTrack {
    CiderTrack {
        name: "A \"quoted\" title".to_string(),
        artist_name: "Artist".to_string(),
        album_name: "Album".to_string(),
        artwork_url: Some("https://example.test/{w}x{h}.png".to_string()),
        duration_in_millis: 357_187,
        position_millis: 141_020,
    }
}

#[test]
fn parses_cider_track_json_without_string_scanning() {
    let info = cider_media_info(cider_track(), true).unwrap();
    assert_eq!(info.title, "A \"quoted\" title");
    assert_eq!(info.artist, "Artist");
    assert_eq!(info.album, "Album");
    assert_eq!(info.position, 141_020);
    assert_eq!(info.duration, 357_187);
    assert_eq!(
        info.art_url.as_deref(),
        Some("https://example.test/300x300.png")
    );
    assert_eq!(info.status, PlaybackStatus::Playing);
}

#[test]
fn parses_cider_playback_state() {
    assert_eq!(cider_playing_state("ok", false), Some(false));
    assert_eq!(cider_playing_state("error", true), None);
}

#[test]
fn cider_replies_need_an_ok_status_and_a_named_track() {
    assert!(cider_now_playing("error", Some(cider_track()), Some(true)).is_none());
    assert!(cider_now_playing("ok", None, Some(true)).is_none());
    let mut unnamed = cider_track();
    unnamed.name = String::new();
    assert!(cider_now_playing("ok", Some(unnamed), None).is_none());
    let paused = cider_now_playing("ok", Some(cider_track()), Some(false)).unwrap();
    assert_eq!(paused.status, PlaybackStatus::Paused);
    let unknown = cider_now_playing("ok", Some(cider_track()), None).unwrap();
    assert_eq!(unknown.status, PlaybackStatus::Playing);
}

use cosmic_widget::media::{
    merge_mpris_proxy_player, record_timeline_refresh, timeline_refresh_due, TimelineRefresh,
};

#[test]
fn incomplete_firefox_timelines_are_refreshed_a_few_times() {
    let bus = "org.mpris.MediaPlayer2.firefox.instance_1";
    let player = PlayerId::Mpris(bus.to_string());
    let mut refreshes: KeyedStore<TimelineRefresh> = KeyedStore::new();
    let mut sample = media(PlaybackStatus::Playing, 0, "Video");
    sample.duration = 0;
    assert!(timeline_refresh_due(&refreshes, &player, bus, &sample, 0));
    record_timeline_refresh(&mut refreshes, &player, TrackSignature::of(&sample), None, 0);
    assert!(!timeline_refresh_due(&refreshes, &player, bus, &sample, 1_999));
    assert!(timeline_refresh_due(&refreshes, &player, bus, &sample, 2_000));
    record_timeline_refresh(&mut refreshes, &player, TrackSignature::of(&sample), None, 2_000);
    record_timeline_refresh(&mut refreshes, &player, TrackSignature::of(&sample), None, 4_000);
    assert!(!timeline_refresh_due(&refreshes, &player, bus, &sample, 10_000));

    let other = media(PlaybackStatus::Playing, 0, "Other video");
    let mut other_sample = other.clone();
    other_sample.duration = 0;
    assert!(timeline_refresh_due(&refreshes, &player, bus, &other_sample, 10_000));
    let refreshed = media(PlaybackStatus::Playing, 5_000, "Other video");
    record_timeline_refresh(
        &mut refreshes,
        &player,
        TrackSignature::of(&other_sample),
        Some(&refreshed),
        10_000,
    );
    assert!(!timeline_refresh_due(&refreshes, &player, bus, &other_sample, 20_000));
    assert!(!timeline_refresh_due(
        &refreshes,
        &player,
        "org.mpris.MediaPlayer2.vlc",
        &sample,
        20_000
    ));
}

#[test]
fn proxy_merges_into_the_player_it_mirrors() {
    let firefox = PlayerId::Mpris("org.mpris.MediaPlayer2.firefox".to_string());
    let mut firefox_info = media(PlaybackStatus::Playing, 15_000, "Video");
    firefox_info.duration = 617_000;
    let mut players = vec![
        (PlayerId::Cider, media(PlaybackStatus::Playing, 1_000, "Music")),
        (firefox.clone(), firefox_info.clone()),
    ];
    let mut raw_tracks: KeyedStore<TrackSignature> = KeyedStore::new();
    raw_tracks.insert(firefox.key(), TrackSignature::of(&firefox_info));
    let mut proxy = media(PlaybackStatus::Playing, 356_000, "Video");
    proxy.duration = 617_000;
    proxy.can_seek = true;
    let proxy_track = TrackSignature::of(&proxy);
    assert!(merge_mpris_proxy_player(&mut players, &raw_tracks, &proxy, &proxy_track));
    assert_eq!(players[1].1.position, 356_000);
    assert!(players[1].1.can_seek);

    let unrelated = media(PlaybackStatus::Playing, 1, "Elsewhere");
    assert!(!merge_mpris_proxy_player(
        &mut players,
        &raw_tracks,
        &unrelated,
        &TrackSignature::of(&unrelated)
    ));
}

use cosmic_widget::media::{
    accept_completed_artwork, consider_source, request_sent, retry_failed_bandcamp_artwork,
    selection_for_track, ArtworkRequest, SourceStep,
};

#[test]
fn completed_artwork_is_cached_but_only_applied_to_its_original_track() {
    let player_id = PlayerId::Mpris("org.mpris.MediaPlayer2.firefox".to_string());
    let old_track = TrackSignature::of(&media(PlaybackStatus::Playing, 0, "Previous video"));
    let current_track = TrackSignature::of(&media(PlaybackStatus::Playing, 0, "Current video"));
    let mut selections: KeyedStore<TrackArtwork<(u32, u32)>> = KeyedStore::new();
    selections.insert(player_id.key(), TrackArtwork::new(current_track.clone()));
    let mut cache: ArtworkCache<(u32, u32)> =
        ArtworkCache::with_limits(4, 32 * 1024 * 1024, 32 * 1024 * 1024);

    accept_completed_artwork(
        ArtworkRequest {
            player_id: player_id.clone(),
            track: old_track,
            source: ArtworkSource::Image("https://example.test/old.jpg".to_string()),
        },
        (1280, 720),
        4,
        1280,
        720,
        &mut cache,
        &mut selections,
    );

    assert!(cache.get("https://example.test/old.jpg").is_some());
    assert!(selections.get(&player_id.key()).unwrap().best.is_none());

    accept_completed_artwork(
        ArtworkRequest {
            player_id: player_id.clone(),
            track: current_track,
            source: ArtworkSource::Image("https://example.test/current.jpg".to_string()),
        },
        (640, 360),
        4,
        640,
        360,
        &mut cache,
        &mut selections,
    );

    assert_eq!(
        selections
            .get(&player_id.key())
            .unwrap()
            .best
            .as_ref()
            .map(|(_, pixels)| *pixels),
        Some(640 * 360),
    );
}

#[test]
fn failed_album_lookup_can_retry_for_every_track_waiting_on_the_shared_page() {
    let source = ArtworkSource::BandcampPage("https://artist.bandcamp.com/album/example".into());
    let mut selections: KeyedStore<TrackArtwork<(u32, u32)>> = KeyedStore::new();
    for index in 0..2 {
        let info = media(PlaybackStatus::Playing, 0, &format!("Track {index}"));
        let mut selection = TrackArtwork::new(TrackSignature::of(&info));
        request_sent(&mut selection, &source);
        selections.insert(
            PlayerId::Mpris(format!("org.mpris.MediaPlayer2.firefox.{index}")).key(),
            selection,
        );
    }
    let now: u64 = 50_000;
    retry_failed_bandcamp_artwork(&source, &mut selections, now);
    for selection in selections.values() {
        assert!(!selection.attempted_sources.contains_key(&source.key()));
        assert_eq!(
            selection.retry_after.get(&source.key()),
            Some(&(now + 30_000))
        );
    }
}

#[test]
fn sources_are_requested_once_and_adequate_thumbnails_end_the_search() {
    let info = media(PlaybackStatus::Playing, 0, "Video");
    let mut selections: KeyedStore<TrackArtwork<(u32, u32)>> = KeyedStore::new();
    let player = firefox();
    selection_for_track(&mut selections, &player, &TrackSignature::of(&info));
    let mut selection = selections.remove(&player.key()).unwrap();
    let thumbnail = ArtworkSource::Image("https://i.ytimg.com/vi/x/maxresdefault.jpg".into());
    assert_eq!(
        consider_source(&mut selection, &thumbnail, false, false, None, true, 0),
        SourceStep::Request
    );
    request_sent(&mut selection, &thumbnail);
    assert_eq!(
        consider_source(&mut selection, &thumbnail, false, false, None, true, 0),
        SourceStep::Skip
    );
    let small = (120, 90);
    assert_eq!(
        consider_source(
            &mut selection,
            &thumbnail,
            false,
            false,
            Some((&small, 10_800, 120, 90)),
            true,
            0
        ),
        SourceStep::Skip
    );
    let large = (1280, 720);
    assert_eq!(
        consider_source(
            &mut selection,
            &thumbnail,
            false,
            false,
            Some((&large, 921_600, 1280, 720)),
            true,
            0
        ),
        SourceStep::Stop
    );
    assert_eq!(selection.best.as_ref().map(|(art, _)| *art), Some((1280, 720)));
}

const ALBUM_PAGE: &str = "https://artist.bandcamp.com/album/example";

fn bandcamp_track_fixture(tracks: &[(&str, u64)]) -> (MediaInfo, BandcampPageCache<BandcampPage>) {
    let mut info = media(PlaybackStatus::Playing, 20_000, "\u{25b6}\u{fe0e} Example | Artist");
    info.player_name = "Zen".to_string();
    info.artist = String::new();
    info.media_url = Some(ALBUM_PAGE.to_string());
    info.duration = 239_000;
    let mut cache = BandcampPageCache::new();
    cache.insert(
        ALBUM_PAGE.to_string(),
        BandcampPage {
            album: "Example".to_string(),
            artist: "Artist".to_string(),
            tracks_complete: true,
            tracks: tracks
                .iter()
                .enumerate()
                .map(|(index, (title, duration_ms))| BandcampTrack {
                    title: title.to_string(),
                    duration_ms: *duration_ms,
                    url: format!("https://artist.bandcamp.com/track/song-{index}"),
                })
                .collect(),
        },
    );
    (info, cache)
}

/// Applies the cached page of the playing URL, as the media monitor does.
fn apply_page(bus_name: &str, info: &mut MediaInfo, cache: &mut BandcampPageCache<BandcampPage>) {
    let Some(page) = info.media_url.clone() else {
        return;
    };
    let Some(metadata) = cache.get(&page).cloned() else {
        return;
    };
    apply_bandcamp_metadata(bus_name, info, &page, page.contains("/album/"), &metadata);
}

#[test]
fn bandcamp_track_title_uses_unique_firefox_whole_second_duration() {
    let (mut info, mut cache) =
        bandcamp_track_fixture(&[("First Song", 239_920), ("Second Song", 168_990), ("Third Song", 169_000)]);
    apply_page("org.mpris.MediaPlayer2.firefox.instance", &mut info, &mut cache);
    assert_eq!(
        (info.title.as_str(), info.artist.as_str(), info.album.as_str()),
        ("First Song", "Artist", "Example")
    );
    assert_eq!(info.media_url.as_deref(), Some(ALBUM_PAGE));
    assert_eq!((info.position, info.duration), (20_000, 239_000));
}

#[test]
fn bandcamp_keeps_caption_when_duration_is_ambiguous_unknown_or_not_firefox() {
    for (tracks, duration, browser) in [
        (vec![("First", 239_100), ("Second", 239_990)], 239_000, "firefox"),
        (vec![("First", 239_920)], 0, "firefox"),
        (vec![("First", 239_920)], 240_000, "firefox"),
        (vec![("First", 239_920)], 239_920, "firefox"),
        (vec![("First", 239_920)], 239_000, "chromium"),
    ] {
        let (mut info, mut cache) = bandcamp_track_fixture(&tracks);
        info.duration = duration;
        let original = info.title.clone();
        apply_page(&format!("org.mpris.MediaPlayer2.{browser}"), &mut info, &mut cache);
        assert_eq!(info.title, original);
        assert!(info.artist.is_empty());
    }
    let (mut info, mut cache) = bandcamp_track_fixture(&[("First", 239_920)]);
    let mut metadata = cache.get(ALBUM_PAGE).unwrap().clone();
    metadata.tracks_complete = false;
    cache.insert(ALBUM_PAGE.to_string(), metadata);
    apply_page("org.mpris.MediaPlayer2.firefox", &mut info, &mut cache);
    assert_eq!(info.title, "\u{25b6}\u{fe0e} Example | Artist");
}

#[test]
fn bandcamp_preserves_supplied_titles_and_only_uses_the_current_page() {
    let (mut info, mut cache) = bandcamp_track_fixture(&[("First", 239_920)]);
    info.title = "Actual browser title".into();
    apply_page("org.mpris.MediaPlayer2.firefox", &mut info, &mut cache);
    assert_eq!(info.title, "Actual browser title");
    info.title = "\u{25b6}\u{fe0e} Example | Artist".into();
    info.media_url = Some("https://artist.bandcamp.com/album/different".into());
    apply_page("org.mpris.MediaPlayer2.firefox", &mut info, &mut cache);
    assert_eq!(info.title, "\u{25b6}\u{fe0e} Example | Artist");
}

#[test]
fn bandcamp_direct_track_url_does_not_require_duration_inference() {
    let (mut info, mut cache) = bandcamp_track_fixture(&[("First", 239_100), ("Second", 239_920)]);
    let track_page = "https://artist.bandcamp.com/track/song-1";
    let metadata = cache.get(ALBUM_PAGE).unwrap().clone();
    assert_eq!(bandcamp_track_for("org.mpris.MediaPlayer2.chromium", &info, track_page, &metadata), None);
    cache.insert(track_page.into(), metadata);
    info.media_url = Some(track_page.into());
    info.title = "Second | Artist".into();
    info.duration = 0;
    apply_page("org.mpris.MediaPlayer2.chromium", &mut info, &mut cache);
    assert_eq!(info.title, "Second");
    assert_eq!(info.artist, "Artist");
    assert!(info.album.is_empty());
}
