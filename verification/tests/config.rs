use dmlive::config::{
    config_text, Args, Config, ConfigManager, Platform, RecordMode, RunMode, StreamType,
};
use dmlive::room::{identify_room, resolve_room, BVideoType, RoomError, Site, SiteType};
use dmlive::save::WriteStage;
use dmlive::string_map::StringMap;

fn args(url: &str) -> Args {
    Args {
        url: url.to_string(),
        record: false,
        download_dm: false,
        wait_interval: None,
        log_level: 3,
        http_address: None,
        quiet: false,
        tcp: false,
        plive: false,
    }
}

fn empty_config() -> Config {
    Config {
        bcookie: None,
        cookies_from_browser: None,
        danmaku_speed: None,
        font_alpha_bits: None,
        font_scale_bits: None,
    }
}

fn manager(url: &str) -> ConfigManager {
    match ConfigManager::try_new(empty_config(), &args(url)) {
        Ok(manager) => manager,
        Err(e) => panic!("{e:?}"),
    }
}

#[test]
fn defaults_hold_where_nothing_is_set() {
    let m = ConfigManager::new(empty_config(), &args("https://live.bilibili.com/6"));
    assert_eq!(m.plat, Platform::Linux);
    assert_eq!(m.bcookie, "");
    assert_eq!(m.cookies_from_browser, "");
    assert_eq!(m.wait_interval, 0);
    assert_eq!(f64::from_bits(m.font_scale_bits), 1.0);
    assert_eq!(m.font_alpha_bits, 0.0f64.to_bits());
    assert_eq!(m.danmaku_speed, 8000);
    assert_eq!(m.display_fps, (60, 0));
    assert_eq!(m.room_url, "https://live.bilibili.com/6");
    assert_eq!(m.http_address, None);
    assert_eq!(m.run_mode, RunMode::Play);
    assert_eq!(m.record_mode, RecordMode::All);
    assert_eq!(m.site, Site::BiliLive);
    assert_eq!(m.site_type, SiteType::Live);
    assert_eq!(m.stream_type, StreamType::FLV);
    assert_eq!(m.bvideo_info.base_url, "");
    assert_eq!(m.bvideo_info.video_type, BVideoType::Video);
    assert_eq!(m.bvideo_info.current_page, 0);
    assert!(m.bvideo_info.plist.is_empty());
    assert_eq!(m.title, "");
    assert!(!m.plive && !m.quiet && !m.on_writing.held());
}

#[test]
fn settings_are_taken_over() {
    let config = Config {
        bcookie: Some("c".to_string()),
        cookies_from_browser: Some("firefox".to_string()),
        danmaku_speed: Some(1),
        font_alpha_bits: Some(0.5f64.to_bits()),
        font_scale_bits: Some(2.5f64.to_bits()),
    };
    let line = Args {
        record: true,
        wait_interval: Some(9),
        http_address: Some("0.0.0.0:1".to_string()),
        quiet: true,
        tcp: true,
        plive: true,
        ..args("dmlive://www.huya.com/1?u=dmlive://x")
    };
    let m = ConfigManager::new(config, &line);
    assert_eq!(m.plat, Platform::LinuxTcp);
    assert_eq!(m.bcookie, "c");
    assert_eq!(m.cookies_from_browser, "firefox");
    assert_eq!(m.danmaku_speed, 1);
    assert_eq!(f64::from_bits(m.font_alpha_bits), 0.5);
    assert_eq!(f64::from_bits(m.font_scale_bits), 2.5);
    assert_eq!(m.wait_interval, 9);
    assert_eq!(m.http_address, Some("0.0.0.0:1".to_string()));
    assert_eq!(m.run_mode, RunMode::Record);
    assert_eq!(m.record_mode, RecordMode::All);
    assert!(m.quiet && m.plive);
    assert_eq!(m.site, Site::HuyaLive);
    assert_eq!(m.room_url, "https://www.huya.com/1?u=https://x");
}

#[test]
fn three_options_ask_for_recording() {
    let base = || args("https://www.douyu.com/1");
    let modes = |line: Args| {
        let m = ConfigManager::new(empty_config(), &line);
        (m.run_mode, m.record_mode)
    };
    assert_eq!(modes(base()), (RunMode::Play, RecordMode::All));
    assert_eq!(
        modes(Args { record: true, ..base() }),
        (RunMode::Record, RecordMode::All)
    );
    assert_eq!(
        modes(Args { http_address: Some(String::new()), ..base() }),
        (RunMode::Record, RecordMode::All)
    );
    assert_eq!(
        modes(Args { download_dm: true, ..base() }),
        (RunMode::Record, RecordMode::Danmaku)
    );
}

#[test]
fn sites_are_known_by_their_address() {
    for (url, site, site_type) in [
        ("https://live.bilibili.com/6", Site::BiliLive, SiteType::Live),
        ("live.bilibili.com/6?p=x", Site::BiliLive, SiteType::Live),
        ("https://www.bilibili.com/video/BV1", Site::BiliVideo, SiteType::Video),
        ("https://ani.gamer.com.tw/animeVideo.php?sn=1", Site::BahaVideo, SiteType::Video),
        ("https://www.douyu.com/1", Site::DouyuLive, SiteType::Live),
        ("huya.com/", Site::HuyaLive, SiteType::Live),
        ("https://www.twitch.tv/x", Site::TwitchLive, SiteType::Live),
        ("https://www.youtube.com/watch", Site::YoutubeLive, SiteType::Live),
        ("https://www.youtube.com/bilibili.com/x", Site::BiliVideo, SiteType::Video),
    ] {
        match resolve_room(url) {
            Ok(room) => assert_eq!((room.site, room.site_type), (site, site_type), "{url}"),
            Err(e) => panic!("{url} {e:?}"),
        }
    }
}

#[test]
fn videos_have_an_address_and_a_page() {
    let video = |url: &str| match resolve_room(url) {
        Ok(room) => (
            room.video.base_url,
            room.video.video_type,
            room.video.current_page,
        ),
        Err(e) => panic!("{e:?}"),
    };
    assert_eq!(
        video("https://www.bilibili.com/video/BV1x/?p=3&spm=1"),
        (
            "https://www.bilibili.com/video/BV1x".to_string(),
            BVideoType::Video,
            3
        )
    );
    assert_eq!(
        video("dmlive://www.bilibili.com/video/av170001//"),
        (
            "https://www.bilibili.com/video/av170001".to_string(),
            BVideoType::Video,
            0
        )
    );
    assert_eq!(
        video("https://www.bilibili.com/bangumi/play/ep1?p=2&p=%34"),
        (
            "https://www.bilibili.com/bangumi/play/ep1".to_string(),
            BVideoType::Bangumi,
            4
        )
    );
    assert_eq!(
        video("https://ani.gamer.com.tw/animeVideo.php?sn=1&p=7"),
        (String::new(), BVideoType::Video, 7)
    );
}

#[test]
fn room_urls_that_stand_for_nothing() {
    for (url, error) in [
        ("", RoomError::UnknownUrl),
        ("https://example.com/", RoomError::UnknownUrl),
        ("https://www.bilibili.com", RoomError::UnknownUrl),
        ("www.bilibili.com/video/BV1", RoomError::MalformedUrl),
        ("ani.gamer.com.tw/x", RoomError::MalformedUrl),
        ("https://www.bilibili.com/video/BV1?p=x", RoomError::MalformedPage),
        ("https://www.bilibili.com/video/BV1?p=x&p=1", RoomError::MalformedPage),
        ("https://ani.gamer.com.tw/?p=", RoomError::MalformedPage),
        ("data:bilibili.com/", RoomError::NoPath),
        ("https://www.bilibili.com//", RoomError::NoVideo),
    ] {
        assert!(
            matches!(resolve_room(url), Err(e) if e == error),
            "{url}"
        );
        assert!(
            matches!(ConfigManager::try_new(empty_config(), &args(url)), Err(e) if e == error),
            "{url}"
        );
    }
}

#[test]
fn parts_of_a_url_decide() {
    let pair = |name: &str, value: &str| (name.to_string(), value.to_string());
    let room = identify_room(
        "x bilibili.com/ y",
        Some(vec![pair("q", "no"), pair("p", "+12")]),
        Some(Some(vec!["a".to_string(), "avx".to_string(), String::new()])),
    );
    match room {
        Ok(room) => {
            assert_eq!(room.video.current_page, 12);
            assert_eq!(room.video.base_url, "https://www.bilibili.com/video/avx");
        }
        Err(e) => panic!("{e:?}"),
    }
    assert!(matches!(
        identify_room("bilibili.com/", Some(vec![]), None),
        Err(RoomError::MalformedUrl)
    ));
}

#[test]
fn configuration_text_is_repaired() {
    assert_eq!(config_text(b"a = \xff\n"), "a = \u{fffd}\n");
    assert_eq!(config_text("é".as_bytes()), "é");
}

#[test]
fn refresh_is_for_bilibili_with_a_browser_off_android() {
    let with_browser = |url: &str| {
        let mut m = manager(url);
        m.cookies_from_browser = "firefox".to_string();
        m
    };
    assert!(with_browser("https://live.bilibili.com/6").init(false));
    assert!(with_browser("https://www.bilibili.com/video/BV1").init(false));
    assert!(!with_browser("https://www.huya.com/1").init(false));
    assert!(!manager("https://live.bilibili.com/6").init(false));
    let mut android = with_browser("https://live.bilibili.com/6");
    assert!(!android.init(true));
    assert_eq!(android.plat, Platform::Android);
    let mut tcp = with_browser("https://live.bilibili.com/6");
    tcp.plat = Platform::LinuxTcp;
    assert!(tcp.init(false));
    assert_eq!(tcp.plat, Platform::LinuxTcp);
}

#[test]
fn stream_type_follows_the_address() {
    let stream_type = |room: &str, url: &str| {
        let mut m = manager(room);
        let mut info = StringMap::new();
        info.insert("url".to_string(), url.to_string());
        m.set_stream_type(&info);
        m.stream_type
    };
    let bili = "https://live.bilibili.com/6";
    let huya = "https://www.huya.com/1";
    assert_eq!(stream_type(bili, "https://x/a.m3u8?.flv"), StreamType::HLS(1));
    assert_eq!(stream_type(huya, "https://x/a.m3u8"), StreamType::HLS(0));
    assert_eq!(stream_type(huya, "https://x/a.flv?q"), StreamType::FLV);
    assert_eq!(stream_type(bili, "https://x/a"), StreamType::DASH);
    assert_eq!(
        stream_type("https://www.bilibili.com/video/BV1", "https://x/a.flv"),
        StreamType::DASH
    );
}

#[test]
fn only_one_write_at_a_time() {
    let mut m = manager("https://live.bilibili.com/6");
    assert!(m.write_config().is_some());
    assert!(m.write_config().is_none());
    let mut stage = WriteStage::CreateDirectory;
    let mut targets = Vec::new();
    while stage != WriteStage::Written {
        assert!(m.on_writing.held());
        targets.push(stage.target());
        stage = m.continue_write(stage, true, true);
    }
    assert!(!m.on_writing.held());
    assert_eq!(
        targets,
        [
            None,
            Some("config.toml.tmp"),
            Some("config.toml.tmp"),
            Some("config.toml")
        ]
    );
    assert!(m.write_config().is_some());
}

#[test]
fn failed_write_leaves_the_file_and_allows_the_next() {
    for (stages, unix) in [(4usize, true), (3, false)] {
        for failing in 0..stages {
            let mut m = manager("https://live.bilibili.com/6");
            m.write_config();
            let mut stage = WriteStage::CreateDirectory;
            for n in 0..=failing {
                stage = m.continue_write(stage, n < failing, unix);
            }
            assert_eq!(stage, WriteStage::Failed);
            assert!(m.write_config().is_some());
        }
    }
    assert_eq!(WriteStage::Written.target(), None);
    assert_eq!(WriteStage::Failed.target(), None);
}

#[test]
fn written_settings_read_back() {
    let mut m = manager("https://live.bilibili.com/6");
    m.bcookie = "SESSDATA=x".to_string();
    m.cookies_from_browser = "firefox".to_string();
    m.danmaku_speed = 5;
    m.font_scale_bits = 1.25f64.to_bits();
    m.font_alpha_bits = 0.75f64.to_bits();
    let config = m.write_config().unwrap();
    let next = ConfigManager::new(config, &args("https://www.huya.com/1"));
    assert_eq!(next.bcookie, m.bcookie);
    assert_eq!(next.cookies_from_browser, m.cookies_from_browser);
    assert_eq!(next.danmaku_speed, 5);
    assert_eq!(f64::from_bits(next.font_scale_bits), 1.25);
    assert_eq!(f64::from_bits(next.font_alpha_bits), 0.75);
}
