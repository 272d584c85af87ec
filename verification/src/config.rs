//! The configuration of a run: what the command line, the configuration file and the room
//! URL say.

use crate::outside;
use crate::room;
use crate::room::{BVideoInfo, RoomError, RoomTarget, Site, SiteType};
use crate::string_map::StringMap;
use crate::text;
use vstd::prelude::*;

verus! {

/// The command line.
pub struct Args {
    pub url: String,
    pub record: bool,
    pub download_dm: bool,
    pub wait_interval: Option<u64>,
    pub log_level: u8,
    pub http_address: Option<String>,
    pub quiet: bool,
    pub tcp: bool,
    pub plive: bool,
}

/// The configuration file. The two font settings are the bit patterns of `f64` values.
pub struct Config {
    pub bcookie: Option<String>,
    pub cookies_from_browser: Option<String>,
    pub danmaku_speed: Option<u64>,
    pub font_alpha_bits: Option<u64>,
    pub font_scale_bits: Option<u64>,
}

/// The platform that the player runs on.
#[derive(Clone, Copy, Debug, PartialEq, Eq, Structural)]
pub enum Platform {
    Linux,
    LinuxTcp,
    Android,
}

/// Whether a stream is played or recorded.
#[derive(Clone, Copy, Debug, PartialEq, Eq, Structural)]
pub enum RunMode {
    Play,
    Record,
}

/// What is recorded.
#[derive(Clone, Copy, Debug, PartialEq, Eq, Structural)]
pub enum RecordMode {
    All,
    Danmaku,
}

/// The container format of a stream. `HLS` holds 1 for fragmented MP4 and 0 for MPEG-TS.
#[derive(Clone, Copy, Debug, PartialEq, Eq, Structural)]
pub enum StreamType {
    FLV,
    HLS(usize),
    DASH,
}

/// The bit pattern of the font scale `1.0`.
pub const DEFAULT_FONT_SCALE_BITS: u64 = 0x3ff0_0000_0000_0000;

/// The bit pattern of the font alpha `0.0`.
pub const DEFAULT_FONT_ALPHA_BITS: u64 = 0;

/// The speed of comments in milliseconds, unless configured.
pub const DEFAULT_DANMAKU_SPEED: u64 = 8000;

/// Whether the configuration file is being written. Only this library changes it.
pub struct WriteGuard {
    held: bool,
}

impl WriteGuard {
    /// Whether the file is being written.
    pub closed spec fn is_held(self) -> bool {
        self.held
    }

    /// The guard of a file that is not being written.
    pub(crate) fn released() -> (res: WriteGuard)
        ensures
            !res.is_held(),
    {
        WriteGuard { held: false }
    }

    /// Whether the file is being written.
    pub fn held(&self) -> (res: bool)
        ensures
            res == self.is_held(),
    {
        self.held
    }

    /// Says whether the file is being written.
    pub(crate) fn set(&mut self, held: bool)
        ensures
            final(self).is_held() == held,
    {
        self.held = held;
    }
}

/// The configuration of a run.
pub struct ConfigManager {
    pub plat: Platform,
    pub bcookie: String,
    pub cookies_from_browser: String,
    pub plive: bool,
    pub quiet: bool,
    pub wait_interval: u64,
    /// The bit pattern of an `f64`.
    pub font_scale_bits: u64,
    /// The bit pattern of an `f64`.
    pub font_alpha_bits: u64,
    pub danmaku_speed: u64,
    pub display_fps: (u64, u64),
    pub room_url: String,
    pub http_address: Option<String>,
    pub run_mode: RunMode,
    pub record_mode: RecordMode,
    pub site: Site,
    pub site_type: SiteType,
    pub stream_type: StreamType,
    pub bvideo_info: BVideoInfo,
    pub title: String,
    /// Whether the configuration file is being written.
    pub on_writing: WriteGuard,
}

/// A setting, or what holds where it is not set.
pub open spec fn set_or<T>(setting: Option<T>, default: T) -> T {
    match setting {
        Some(value) => value,
        None => default,
    }
}

/// A setting as text; empty where it is not set.
pub open spec fn text_of(setting: Option<String>) -> Seq<char> {
    match setting {
        Some(value) => value@,
        None => Seq::empty(),
    }
}

/// An optional text.
pub open spec fn optional_text(setting: Option<String>) -> Option<Seq<char>> {
    match setting {
        Some(value) => Some(value@),
        None => None,
    }
}

/// The stream type of a stream with this address on this site.
pub open spec fn stream_type_of(url: Seq<char>, site: Site) -> StreamType {
    if site == Site::BiliVideo {
        StreamType::DASH
    } else if text::occurs_in(url, ".m3u8"@) {
        StreamType::HLS(
            if site == Site::BiliLive {
                1
            } else {
                0
            },
        )
    } else if text::occurs_in(url, ".flv"@) {
        StreamType::FLV
    } else {
        StreamType::DASH
    }
}

/// The text of a configuration file.
pub fn config_text(contents: &[u8]) -> (res: String)
    ensures
        res@ == outside::text_of_bytes(contents@),
{
    outside::from_utf8_lossy(contents)
}

fn copied(setting: &Option<String>) -> (res: Option<String>)
    ensures
        optional_text(res) == optional_text(*setting),
{
    match setting {
        Some(value) => Some(value.clone()),
        None => None,
    }
}

fn text_or_empty(setting: Option<String>) -> (res: String)
    ensures
        res@ == text_of(setting),
{
    match setting {
        Some(value) => value,
        None => String::new(),
    }
}

impl ConfigManager {
    /// Whether this is the configuration that a configuration file, a command line and the
    /// room that its URL stands for give.
    pub open spec fn is_made_of(self, config: Config, args: Args, target: room::Room) -> bool {
        &&& self.plat == (if args.tcp {
            Platform::LinuxTcp
        } else {
            Platform::Linux
        })
        &&& self.bcookie@ == text_of(config.bcookie)
        &&& self.cookies_from_browser@ == text_of(config.cookies_from_browser)
        &&& self.plive == args.plive
        &&& self.quiet == args.quiet
        &&& self.wait_interval == set_or(args.wait_interval, 0)
        &&& self.font_scale_bits == set_or(config.font_scale_bits, DEFAULT_FONT_SCALE_BITS)
        &&& self.font_alpha_bits == set_or(config.font_alpha_bits, DEFAULT_FONT_ALPHA_BITS)
        &&& self.danmaku_speed == set_or(config.danmaku_speed, DEFAULT_DANMAKU_SPEED)
        &&& self.display_fps == (60u64, 0u64)
        &&& self.room_url@ == text::replaced(args.url@, "dmlive://"@, "https://"@)
        &&& optional_text(self.http_address) == optional_text(args.http_address)
        &&& self.run_mode == (if args.record || args.http_address is Some || args.download_dm {
            RunMode::Record
        } else {
            RunMode::Play
        })
        &&& self.record_mode == (if args.download_dm {
            RecordMode::Danmaku
        } else {
            RecordMode::All
        })
        &&& self.site == target.site
        &&& self.site_type == target.site_type
        &&& self.stream_type == StreamType::FLV
        &&& self.bvideo_info.base_url@ == target.base_url
        &&& self.bvideo_info.video_type == target.video_type
        &&& self.bvideo_info.current_page == target.current_page
        &&& self.bvideo_info.plist@ == target.plist
        &&& self.title@ == Seq::<char>::empty()
        &&& !self.on_writing.is_held()
    }

    /// The configuration for a room that is known.
    pub fn for_room(config: Config, args: &Args, target: RoomTarget) -> (res: ConfigManager)
        ensures
            res.is_made_of(config, *args, target@),
    {
        let plat = if args.tcp {
            Platform::LinuxTcp
        } else {
            Platform::Linux
        };
        let run_mode = if args.record || args.http_address.is_some() || args.download_dm {
            RunMode::Record
        } else {
            RunMode::Play
        };
        let record_mode = if args.download_dm {
            RecordMode::Danmaku
        } else {
            RecordMode::All
        };
        proof {
            reveal_strlit("dmlive://");
        }
        ConfigManager {
            plat,
            bcookie: text_or_empty(config.bcookie),
            cookies_from_browser: text_or_empty(config.cookies_from_browser),
            plive: args.plive,
            quiet: args.quiet,
            wait_interval: args.wait_interval.unwrap_or(0),
            font_scale_bits: config.font_scale_bits.unwrap_or(DEFAULT_FONT_SCALE_BITS),
            font_alpha_bits: config.font_alpha_bits.unwrap_or(DEFAULT_FONT_ALPHA_BITS),
            danmaku_speed: config.danmaku_speed.unwrap_or(DEFAULT_DANMAKU_SPEED),
            display_fps: (60, 0),
            room_url: text::replace(args.url.as_str(), "dmlive://", "https://"),
            http_address: copied(&args.http_address),
            run_mode,
            record_mode,
            site: target.site,
            site_type: target.site_type,
            stream_type: StreamType::FLV,
            bvideo_info: target.video,
            title: String::new(),
            on_writing: WriteGuard::released(),
        }
    }

    /// The configuration of a run, for a room URL that stands for something.
    pub fn new(config: Config, args: &Args) -> (res: ConfigManager)
        requires
            room::room_of(args.url@) is Ok,
        ensures
            res.is_made_of(config, *args, room::room_of(args.url@)->Ok_0),
    {
        let target = room::resolve_room(args.url.as_str()).unwrap();
        ConfigManager::for_room(config, args, target)
    }

    /// The configuration of a run, or why its room URL stands for nothing.
    pub fn try_new(config: Config, args: &Args) -> (res: Result<ConfigManager, RoomError>)
        ensures
            match res {
                Ok(manager) => room::room_of(args.url@) matches Ok(target) && manager.is_made_of(
                    config,
                    *args,
                    target,
                ),
                Err(e) => room::room_of(args.url@) == Err::<room::Room, RoomError>(e),
            },
    {
        match room::resolve_room(args.url.as_str()) {
            Ok(_) => Ok(ConfigManager::new(config, args)),
            Err(e) => Err(e),
        }
    }

    /// Whether the cookie of this configuration is to be refreshed from a browser: not on
    /// Android, only for the Bilibili sites, and only if a browser is configured.
    pub open spec fn wants_refresh(self) -> bool {
        &&& self.plat != Platform::Android
        &&& self.site == Site::BiliLive || self.site == Site::BiliVideo
        &&& self.cookies_from_browser@.len() > 0
    }

    /// Takes note of whether the run is on Android. The result says whether the cookie is
    /// to be refreshed from a browser.
    pub fn init(&mut self, android: bool) -> (refresh: bool)
        ensures
            *final(self) == (ConfigManager {
                plat: if android {
                    Platform::Android
                } else {
                    old(self).plat
                },
                ..*old(self)
            }),
            refresh == final(self).wants_refresh(),
    {
        if android {
            self.plat = Platform::Android;
        }
        self.plat != Platform::Android && (self.site == Site::BiliLive || self.site
            == Site::BiliVideo) && !self.cookies_from_browser.as_str().is_empty()
    }

    /// Sets the stream type for the stream that `stream_info` describes.
    pub fn set_stream_type(&mut self, stream_info: &StringMap)
        requires
            stream_info@.contains_key("url"@),
        ensures
            *final(self) == (ConfigManager {
                stream_type: stream_type_of(stream_info@["url"@], old(self).site),
                ..*old(self)
            }),
    {
        let url = stream_info.get("url").unwrap();
        if text::contains(url, ".m3u8") {
            if self.site == Site::BiliLive {
                self.stream_type = StreamType::HLS(1);
            } else {
                self.stream_type = StreamType::HLS(0);
            }
        } else if text::contains(url, ".flv") {
            self.stream_type = StreamType::FLV;
        } else {
            self.stream_type = StreamType::DASH;
        }
        if self.site == Site::BiliVideo {
            self.stream_type = StreamType::DASH;
        }
    }
}

/// A room URL of the scheme `dmlive` is opened over HTTPS, and any other is opened as it is.
pub proof fn law_scheme_is_replaced(rest: Seq<char>)
    requires
        !text::occurs_in(rest, "dmlive://"@),
    ensures
        text::replaced("dmlive://"@ + rest, "dmlive://"@, "https://"@) == "https://"@ + rest,
        text::replaced(rest, "dmlive://"@, "https://"@) == rest,
{
    reveal_strlit("dmlive://");
    let pattern = "dmlive://"@;
    let url = pattern + rest;
    text::lemma_nothing_replaced(rest, pattern, "https://"@);
    assert(url.subrange(0, pattern.len() as int) == pattern);
    assert(url.skip(pattern.len() as int) == rest);
}

/// On every site but the Bilibili video site the address alone decides the stream type: one
/// with `.m3u8` in it is HLS, of fragments on the Bilibili live site and of transport
/// streams on all others; any other with `.flv` in it is FLV; and what is left is DASH.
pub proof fn law_address_decides_the_stream_type(
    a: Seq<char>,
    b: Seq<char>,
    url: Seq<char>,
    site: Site,
)
    requires
        site != Site::BiliVideo,
    ensures
        stream_type_of(a + ".m3u8"@ + b, site) == StreamType::HLS(
            if site == Site::BiliLive {
                1
            } else {
                0
            },
        ),
        !text::occurs_in(a + ".flv"@ + b, ".m3u8"@) ==> stream_type_of(a + ".flv"@ + b, site)
            == StreamType::FLV,
        !text::occurs_in(url, ".m3u8"@) && !text::occurs_in(url, ".flv"@) ==> stream_type_of(
            url,
            site,
        ) == StreamType::DASH,
{
    text::law_pattern_stands_in_between(url, a, ".m3u8"@, b);
    text::law_pattern_stands_in_between(url, a, ".flv"@, b);
}

/// Two sites other than the Bilibili ones have the same stream type for the same address,
/// and the Bilibili live site differs from them at most in what its HLS holds.
pub proof fn law_sites_agree_on_the_stream_type(url: Seq<char>, a: Site, b: Site)
    requires
        a != Site::BiliVideo,
        b != Site::BiliVideo,
    ensures
        a != Site::BiliLive && b != Site::BiliLive ==> stream_type_of(url, a) == stream_type_of(
            url,
            b,
        ),
        stream_type_of(url, a) is HLS <==> stream_type_of(url, b) is HLS,
        stream_type_of(url, a) is FLV <==> stream_type_of(url, b) is FLV,
{
}

/// The Bilibili video site is always DASH, whatever the address.
pub proof fn law_bilibili_videos_are_dash(url: Seq<char>)
    ensures
        stream_type_of(url, Site::BiliVideo) == StreamType::DASH,
{
}

/// Every setting of the configuration file is taken over whole where it is set, and has its
/// default where it is not.
pub proof fn law_configured_settings_are_taken_over(
    manager: ConfigManager,
    config: Config,
    args: Args,
    target: room::Room,
)
    requires
        manager.is_made_of(config, args, target),
    ensures
        config.bcookie matches Some(cookie) ==> manager.bcookie@ == cookie@,
        config.bcookie is None ==> manager.bcookie@.len() == 0,
        config.cookies_from_browser matches Some(browser) ==> manager.cookies_from_browser@
            == browser@,
        config.cookies_from_browser is None ==> manager.cookies_from_browser@.len() == 0,
        config.danmaku_speed matches Some(speed) ==> manager.danmaku_speed == speed,
        config.danmaku_speed is None ==> manager.danmaku_speed == 8000,
        config.font_scale_bits matches Some(bits) ==> manager.font_scale_bits == bits,
        config.font_scale_bits is None ==> manager.font_scale_bits == 0x3ff0_0000_0000_0000,
        config.font_alpha_bits matches Some(bits) ==> manager.font_alpha_bits == bits,
        config.font_alpha_bits is None ==> manager.font_alpha_bits == 0,
{
}

/// What the command line says is taken over: a run records exactly if one of the three
/// options that ask for it is given, comments alone exactly if only they are asked for, and
/// the other options stand for themselves.
pub proof fn law_command_line_is_taken_over(
    manager: ConfigManager,
    config: Config,
    args: Args,
    target: room::Room,
)
    requires
        manager.is_made_of(config, args, target),
    ensures
        manager.run_mode == RunMode::Record <==> args.record || args.download_dm
            || args.http_address is Some,
        manager.record_mode == RecordMode::Danmaku <==> args.download_dm,
        manager.plat == Platform::LinuxTcp <==> args.tcp,
        manager.plat == Platform::Linux <==> !args.tcp,
        manager.plive <==> args.plive,
        manager.quiet <==> args.quiet,
        args.wait_interval matches Some(interval) ==> manager.wait_interval == interval,
        args.wait_interval is None ==> manager.wait_interval == 0,
        args.http_address matches Some(address) ==> (manager.http_address matches Some(found)
            && found@ == address@),
        args.http_address is None ==> manager.http_address is None,
        !text::occurs_in(args.url@, "dmlive://"@) ==> manager.room_url@ == args.url@,
        manager.room_url@ == text::replaced(args.url@, "dmlive://"@, "https://"@),
{
    if !text::occurs_in(args.url@, "dmlive://"@) {
        text::lemma_nothing_replaced(args.url@, "dmlive://"@, "https://"@);
    }
}

/// The room is taken over field by field, and everything that a run finds out later starts
/// empty.
pub proof fn law_room_is_taken_over(
    manager: ConfigManager,
    config: Config,
    args: Args,
    target: room::Room,
)
    requires
        manager.is_made_of(config, args, target),
    ensures
        manager.site == target.site,
        manager.site_type == target.site_type,
        manager.bvideo_info.base_url@ == target.base_url,
        manager.bvideo_info.video_type == target.video_type,
        manager.bvideo_info.current_page == target.current_page,
        manager.bvideo_info.plist@ == target.plist,
        manager.stream_type == StreamType::FLV,
        manager.display_fps == (60u64, 0u64),
        manager.title@.len() == 0,
        !manager.on_writing.is_held(),
{
}

/// The cookie is refreshed exactly off Android, on one of the two Bilibili sites and with a
/// browser named; nothing else of a configuration makes a difference.
pub proof fn law_refresh_is_for_bilibili_with_a_browser(
    manager: ConfigManager,
    other: ConfigManager,
)
    ensures
        manager.plat == Platform::Android ==> !manager.wants_refresh(),
        manager.cookies_from_browser@.len() == 0 ==> !manager.wants_refresh(),
        manager.site != Site::BiliLive && manager.site != Site::BiliVideo
            ==> !manager.wants_refresh(),
        (manager.plat == Platform::Linux || manager.plat == Platform::LinuxTcp) && (manager.site
            == Site::BiliLive || manager.site == Site::BiliVideo)
            && manager.cookies_from_browser@.len() > 0 ==> manager.wants_refresh(),
        manager.plat == other.plat && manager.site == other.site && manager.cookies_from_browser@
            == other.cookies_from_browser@ ==> manager.wants_refresh() == other.wants_refresh(),
{
}

/// The scheme `dmlive` is replaced wherever it stands, and nothing else of an address.
pub proof fn law_every_scheme_is_replaced(a: Seq<char>, b: Seq<char>)
    requires
        forall|k: int|
            0 <= k < a.len() ==> !text::occurs_at(a + "dmlive://"@ + b, "dmlive://"@, k),
    ensures
        text::replaced(a + "dmlive://"@ + b, "dmlive://"@, "https://"@) == a + "https://"@
            + text::replaced(b, "dmlive://"@, "https://"@),
{
    reveal_strlit("dmlive://");
    text::law_first_occurrence_is_replaced(a, "dmlive://"@, b, "https://"@);
}

} // verus!
