//! Which site, and which video on it, a room URL stands for.

use crate::outside;
use crate::text;
use vstd::prelude::*;

verus! {

/// A site that can be played.
#[derive(Clone, Copy, Debug, PartialEq, Eq, Structural)]
pub enum Site {
    BiliLive,
    BiliVideo,
    BahaVideo,
    DouyuLive,
    HuyaLive,
    TwitchLive,
    YoutubeLive,
}

/// Whether a site shows live streams or videos.
#[derive(Clone, Copy, Debug, PartialEq, Eq, Structural)]
pub enum SiteType {
    Live,
    Video,
}

/// The kinds of video.
#[derive(Clone, Copy, Debug, PartialEq, Eq, Structural)]
pub enum BVideoType {
    Video,
    Bangumi,
}

/// The video that is to be played.
pub struct BVideoInfo {
    pub base_url: String,
    pub video_type: BVideoType,
    pub current_page: usize,
    pub plist: Vec<String>,
}

/// What a room URL stands for.
pub struct RoomTarget {
    pub site: Site,
    pub site_type: SiteType,
    pub video: BVideoInfo,
}

/// Why a room URL stands for nothing.
#[derive(Clone, Copy, Debug, PartialEq, Eq, Structural)]
pub enum RoomError {
    /// It is of no known site.
    UnknownUrl,
    /// It is no absolute URL.
    MalformedUrl,
    /// Its page is no number.
    MalformedPage,
    /// Its path has no segments.
    NoPath,
    /// Its path names no video.
    NoVideo,
}

/// What a room URL stands for, in terms of text.
pub struct Room {
    pub site: Site,
    pub site_type: SiteType,
    pub base_url: Seq<char>,
    pub video_type: BVideoType,
    pub current_page: usize,
    pub plist: Seq<String>,
}

impl View for RoomTarget {
    type V = Room;

    open spec fn view(&self) -> Room {
        Room {
            site: self.site,
            site_type: self.site_type,
            base_url: self.video.base_url@,
            video_type: self.video.video_type,
            current_page: self.video.current_page,
            plist: self.video.plist@,
        }
    }
}

/// The name and value pairs of a query.
pub type Query = Seq<(Seq<char>, Seq<char>)>;

/// The page that a query asks for: the last value of `p`, or zero. There is none if a value
/// of `p` is no number.
pub open spec fn query_page(query: Query) -> Option<usize>
    decreases query.len(),
{
    if query.len() == 0 {
        Some(0)
    } else {
        match query_page(query.drop_last()) {
            Some(page) => if query.last().0 == "p"@ {
                text::decimal_number(query.last().1)
            } else {
                Some(page)
            },
            None => None,
        }
    }
}

/// The last segment that is not empty.
pub open spec fn last_named(segments: Seq<Seq<char>>) -> Option<Seq<char>>
    decreases segments.len(),
{
    if segments.len() == 0 {
        None
    } else if segments.last().len() > 0 {
        Some(segments.last())
    } else {
        last_named(segments.drop_last())
    }
}

/// Whether a video identifier is that of a single video; otherwise it is that of a series.
pub open spec fn is_single_video(vid: Seq<char>) -> bool {
    text::begins_with(vid, "BV"@) || text::begins_with(vid, "av"@)
}

/// A site of live streams.
pub open spec fn live_room(site: Site) -> Room {
    Room {
        site,
        site_type: SiteType::Live,
        base_url: Seq::empty(),
        video_type: BVideoType::Video,
        current_page: 0,
        plist: Seq::empty(),
    }
}

/// The video `vid` of the Bilibili video site.
pub open spec fn bili_video(vid: Seq<char>, page: usize) -> Room {
    Room {
        site: Site::BiliVideo,
        site_type: SiteType::Video,
        base_url: if is_single_video(vid) {
            "https://www.bilibili.com/video/"@ + vid
        } else {
            "https://www.bilibili.com/bangumi/play/"@ + vid
        },
        video_type: if is_single_video(vid) {
            BVideoType::Video
        } else {
            BVideoType::Bangumi
        },
        current_page: page,
        plist: Seq::empty(),
    }
}

/// A video of the Bahamut site.
pub open spec fn baha_video(page: usize) -> Room {
    Room {
        site: Site::BahaVideo,
        site_type: SiteType::Video,
        base_url: Seq::empty(),
        video_type: BVideoType::Video,
        current_page: page,
        plist: Seq::empty(),
    }
}

/// What `url` stands for, where `query` and `segments` are its query and its path segments:
/// `None` for a URL that is not absolute, and no segments for one that has no path.
pub open spec fn room_from_parts(
    url: Seq<char>,
    query: Option<Query>,
    segments: Option<Option<Seq<Seq<char>>>>,
) -> Result<Room, RoomError> {
    if text::occurs_in(url, "live.bilibili.com/"@) {
        Ok(live_room(Site::BiliLive))
    } else if text::occurs_in(url, "bilibili.com/"@) {
        match (query, segments) {
            (Some(query), Some(segments)) => match (query_page(query), segments) {
                (None, _) => Err(RoomError::MalformedPage),
                (_, None) => Err(RoomError::NoPath),
                (Some(page), Some(segments)) => match last_named(segments) {
                    Some(vid) => Ok(bili_video(vid, page)),
                    None => Err(RoomError::NoVideo),
                },
            },
            _ => Err(RoomError::MalformedUrl),
        }
    } else if text::occurs_in(url, "ani.gamer.com.tw/"@) {
        match query {
            Some(query) => match query_page(query) {
                Some(page) => Ok(baha_video(page)),
                None => Err(RoomError::MalformedPage),
            },
            None => Err(RoomError::MalformedUrl),
        }
    } else if text::occurs_in(url, "douyu.com/"@) {
        Ok(live_room(Site::DouyuLive))
    } else if text::occurs_in(url, "huya.com/"@) {
        Ok(live_room(Site::HuyaLive))
    } else if text::occurs_in(url, "twitch.tv/"@) {
        Ok(live_room(Site::TwitchLive))
    } else if text::occurs_in(url, "youtube.com/"@) {
        Ok(live_room(Site::YoutubeLive))
    } else {
        Err(RoomError::UnknownUrl)
    }
}

/// What `url` stands for.
pub open spec fn room_of(url: Seq<char>) -> Result<Room, RoomError> {
    room_from_parts(url, outside::url_query(url), outside::url_segments(url))
}

/// Whether a result is this room or this error.
pub open spec fn is_room(res: Result<RoomTarget, RoomError>, wanted: Result<Room, RoomError>) -> bool {
    match (res, wanted) {
        (Ok(target), Ok(room)) => target@ == room,
        (Err(found), Err(error)) => found == error,
        _ => false,
    }
}

/// The query that a list of pairs is.
pub open spec fn query_of(pairs: Option<Vec<(String, String)>>) -> Option<Query> {
    match pairs {
        Some(pairs) => Some(outside::pair_texts(pairs@)),
        None => None,
    }
}

/// The path segments that a list of strings is.
pub open spec fn segments_of(segments: Option<Option<Vec<String>>>) -> Option<
    Option<Seq<Seq<char>>>,
> {
    match segments {
        Some(Some(segments)) => Some(Some(outside::string_texts(segments@))),
        Some(None) => Some(None),
        None => None,
    }
}

fn read_page(pairs: &Vec<(String, String)>) -> (res: Option<usize>)
    ensures
        res == query_page(outside::pair_texts(pairs@)),
{
    let ghost query = outside::pair_texts(pairs@);
    let mut page: usize = 0;
    let mut i: usize = 0;
    while i < pairs.len()
        invariant
            query == outside::pair_texts(pairs@),
            i <= pairs.len(),
            query_page(query.take(i as int)) == Some(page),
        decreases pairs.len() - i,
    {
        let ghost done = query.take(i + 1);
        assert(done.drop_last() == query.take(i as int));
        assert(done.last() == (pairs@[i as int].0@, pairs@[i as int].1@));
        if text::same_text(pairs[i].0.as_str(), "p") {
            match text::parse_usize(pairs[i].1.as_str()) {
                Some(number) => {
                    page = number;
                },
                None => {
                    proof {
                        lemma_no_page(query, i + 1);
                    }
                    return None;
                },
            }
        }
        i = i + 1;
    }
    assert(query.take(i as int) == query);
    Some(page)
}

/// Once a value of `p` is no number, what follows it makes no difference.
proof fn lemma_no_page(query: Query, n: int)
    requires
        0 <= n <= query.len(),
        query_page(query.take(n)) is None,
    ensures
        query_page(query) is None,
    decreases query.len() - n,
{
    if n < query.len() {
        assert(query.take(n + 1).drop_last() == query.take(n));
        lemma_no_page(query, n + 1);
    } else {
        assert(query.take(n) == query);
    }
}

fn find_last_named(segments: &Vec<String>) -> (res: Option<&str>)
    ensures
        match res {
            Some(segment) => last_named(outside::string_texts(segments@)) == Some(segment@),
            None => last_named(outside::string_texts(segments@)) is None,
        },
{
    let ghost all = outside::string_texts(segments@);
    let mut n: usize = segments.len();
    assert(all.take(n as int) == all);
    while n > 0
        invariant
            all == outside::string_texts(segments@),
            n <= segments.len(),
            last_named(all) == last_named(all.take(n as int)),
        decreases n,
    {
        assert(all.take(n as int).drop_last() == all.take(n - 1));
        assert(all.take(n as int).last() == segments@[n - 1]@);
        if !segments[n - 1].as_str().is_empty() {
            return Some(segments[n - 1].as_str());
        }
        n = n - 1;
    }
    None
}

fn blank_video() -> (res: BVideoInfo)
    ensures
        res.base_url@ == Seq::<char>::empty(),
        res.video_type == BVideoType::Video,
        res.current_page == 0,
        res.plist@ == Seq::<String>::empty(),
{
    BVideoInfo {
        base_url: String::new(),
        video_type: BVideoType::Video,
        current_page: 0,
        plist: Vec::new(),
    }
}

fn live_target(site: Site) -> (res: RoomTarget)
    ensures
        res@ == live_room(site),
{
    RoomTarget { site, site_type: SiteType::Live, video: blank_video() }
}

fn bili_target(vid: &str, page: usize) -> (res: RoomTarget)
    ensures
        res@ == bili_video(vid@, page),
{
    let mut video = blank_video();
    video.current_page = page;
    if text::starts_with(vid, "BV") || text::starts_with(vid, "av") {
        video.video_type = BVideoType::Video;
        video.base_url = "https://www.bilibili.com/video/".to_owned();
    } else {
        video.video_type = BVideoType::Bangumi;
        video.base_url = "https://www.bilibili.com/bangumi/play/".to_owned();
    }
    video.base_url.append(vid);
    RoomTarget { site: Site::BiliVideo, site_type: SiteType::Video, video }
}

/// What `url` stands for, given its query and its path segments.
pub fn identify_room(
    url: &str,
    query: Option<Vec<(String, String)>>,
    segments: Option<Option<Vec<String>>>,
) -> (res: Result<RoomTarget, RoomError>)
    ensures
        is_room(res, room_from_parts(url@, query_of(query), segments_of(segments))),
{
    if text::contains(url, "live.bilibili.com/") {
        Ok(live_target(Site::BiliLive))
    } else if text::contains(url, "bilibili.com/") {
        match (query, segments) {
            (Some(pairs), Some(segments)) => {
                let page: usize = match read_page(&pairs) {
                    Some(page) => page,
                    None => {
                        return Err(RoomError::MalformedPage);
                    },
                };
                match segments {
                    Some(segments) => match find_last_named(&segments) {
                        Some(vid) => Ok(bili_target(vid, page)),
                        None => Err(RoomError::NoVideo),
                    },
                    None => Err(RoomError::NoPath),
                }
            },
            _ => Err(RoomError::MalformedUrl),
        }
    } else if text::contains(url, "ani.gamer.com.tw/") {
        match query {
            Some(pairs) => match read_page(&pairs) {
                Some(page) => {
                    let mut video = blank_video();
                    video.current_page = page;
                    Ok(RoomTarget { site: Site::BahaVideo, site_type: SiteType::Video, video })
                },
                None => Err(RoomError::MalformedPage),
            },
            None => Err(RoomError::MalformedUrl),
        }
    } else if text::contains(url, "douyu.com/") {
        Ok(live_target(Site::DouyuLive))
    } else if text::contains(url, "huya.com/") {
        Ok(live_target(Site::HuyaLive))
    } else if text::contains(url, "twitch.tv/") {
        Ok(live_target(Site::TwitchLive))
    } else if text::contains(url, "youtube.com/") {
        Ok(live_target(Site::YoutubeLive))
    } else {
        Err(RoomError::UnknownUrl)
    }
}

/// What `url` stands for.
pub fn resolve_room(url: &str) -> (res: Result<RoomTarget, RoomError>)
    ensures
        is_room(res, room_of(url@)),
{
    let query = outside::url_query_pairs(url);
    let segments = outside::url_path_segments(url);
    identify_room(url, query, segments)
}

/// A room is one of videos exactly if its site shows videos, and it has the address of a
/// video exactly if it is a Bilibili video.
pub proof fn law_site_type_fits_site(
    url: Seq<char>,
    query: Option<Query>,
    segments: Option<Option<Seq<Seq<char>>>>,
)
    ensures
        room_from_parts(url, query, segments) matches Ok(room) ==> {
            &&& room.site_type == SiteType::Video <==> room.site == Site::BiliVideo || room.site
                == Site::BahaVideo
            &&& room.base_url.len() > 0 <==> room.site == Site::BiliVideo
        },
{
    reveal_strlit("https://www.bilibili.com/video/");
    reveal_strlit("https://www.bilibili.com/bangumi/play/");
}

/// Only the video sites need the query and the path of a URL: of any other URL they make no
/// difference.
pub proof fn law_only_videos_need_parts(
    url: Seq<char>,
    query: Option<Query>,
    segments: Option<Option<Seq<Seq<char>>>>,
    other_query: Option<Query>,
    other_segments: Option<Option<Seq<Seq<char>>>>,
)
    requires
        text::occurs_in(url, "live.bilibili.com/"@) || !(text::occurs_in(url, "bilibili.com/"@)
            || text::occurs_in(url, "ani.gamer.com.tw/"@)),
    ensures
        room_from_parts(url, query, segments) == room_from_parts(
            url,
            other_query,
            other_segments,
        ),
{
}

/// Pairs whose name is not exactly `p` make no difference to the page, nor to anything else
/// of a room, wherever they stand in the query.
pub proof fn law_other_pairs_make_no_difference(
    front: Query,
    pair: (Seq<char>, Seq<char>),
    back: Query,
    url: Seq<char>,
    segments: Option<Option<Seq<Seq<char>>>>,
)
    requires
        pair.0 != "p"@,
    ensures
        query_page(front.push(pair) + back) == query_page(front + back),
        room_from_parts(url, Some(front.push(pair) + back), segments) == room_from_parts(
            url,
            Some(front + back),
            segments,
        ),
    decreases back.len(),
{
    if back.len() == 0 {
        assert(front.push(pair) + back == front.push(pair));
        assert(front + back == front);
        assert(front.push(pair).drop_last() == front);
    } else {
        let rest = back.drop_last();
        law_other_pairs_make_no_difference(front, pair, rest, url, segments);
        assert((front.push(pair) + back).drop_last() == front.push(pair) + rest);
        assert((front + back).drop_last() == front + rest);
    }
}

proof fn lemma_pages_are_numbers(query: Query)
    ensures
        query_page(query) is Some <==> forall|i: int|
            0 <= i < query.len() && (#[trigger] query[i]).0 == "p"@ ==> text::decimal_number(
                query[i].1,
            ) is Some,
    decreases query.len(),
{
    if query.len() > 0 {
        let front = query.drop_last();
        let last = query.len() - 1;
        lemma_pages_are_numbers(front);
        assert(query[last] == query.last());
        assert(forall|i: int| 0 <= i < front.len() ==> front[i] == query[i]);
        if query_page(query) is Some {
            assert forall|i: int|
                0 <= i < query.len() && (#[trigger] query[i]).0
                    == "p"@ implies text::decimal_number(query[i].1) is Some by {
                if i < front.len() {
                    assert(front[i] == query[i]);
                }
            }
        }
        if forall|i: int|
            0 <= i < query.len() && (#[trigger] query[i]).0 == "p"@ ==> text::decimal_number(
                query[i].1,
            ) is Some {
            assert forall|i: int|
                0 <= i < front.len() && (#[trigger] front[i]).0
                    == "p"@ implies text::decimal_number(front[i].1) is Some by {
                assert(front[i] == query[i]);
            }
        }
    }
}

proof fn lemma_page_stays(front: Query, back: Query)
    requires
        forall|i: int| 0 <= i < back.len() ==> (#[trigger] back[i]).0 != "p"@,
    ensures
        query_page(front + back) == query_page(front),
    decreases back.len(),
{
    if back.len() == 0 {
        assert(front + back == front);
    } else {
        let rest = back.drop_last();
        assert forall|i: int| 0 <= i < rest.len() implies (#[trigger] rest[i]).0 != "p"@ by {
            assert(rest[i] == back[i]);
        }
        lemma_page_stays(front, rest);
        assert((front + back).drop_last() == front + rest);
        assert(back[back.len() - 1].0 != "p"@);
    }
}

/// The page is the number that the last pair named `p` gives, and zero where there is no
/// such pair; there is none exactly if some pair named `p` gives no number.
pub proof fn law_last_p_is_the_page(front: Query, value: Seq<char>, back: Query, page: usize)
    requires
        forall|i: int| 0 <= i < back.len() ==> (#[trigger] back[i]).0 != "p"@,
        forall|i: int|
            0 <= i < front.len() && (#[trigger] front[i]).0 == "p"@ ==> text::decimal_number(
                front[i].1,
            ) is Some,
    ensures
        text::decimal_number(value) == Some(page) ==> query_page(
            front.push(("p"@, value)) + back,
        ) == Some(page),
        query_page(back) == Some(0usize),
{
    let pair = ("p"@, value);
    lemma_pages_are_numbers(front);
    lemma_page_stays(front.push(pair), back);
    assert(front.push(pair).drop_last() == front);
    lemma_page_stays(Seq::empty(), back);
    assert(Seq::<(Seq<char>, Seq<char>)>::empty() + back == back);
}

/// A pair named `p` whose value is no number leaves no page, whatever else the query holds.
pub proof fn law_every_p_must_be_a_number(query: Query, k: int)
    requires
        0 <= k < query.len(),
        query[k].0 == "p"@,
        text::decimal_number(query[k].1) is None,
    ensures
        query_page(query) is None,
{
    lemma_pages_are_numbers(query);
}

/// The last segment that is not empty is found, whatever stands before it and however many
/// empty ones follow; empty segments alone name nothing.
pub proof fn law_last_segment_with_a_name_counts(
    front: Seq<Seq<char>>,
    vid: Seq<char>,
    blanks: Seq<Seq<char>>,
)
    requires
        vid.len() > 0,
        forall|i: int| 0 <= i < blanks.len() ==> (#[trigger] blanks[i]).len() == 0,
    ensures
        last_named(front.push(vid) + blanks) == Some(vid),
        last_named(blanks) is None,
    decreases blanks.len(),
{
    if blanks.len() == 0 {
        assert(front.push(vid) + blanks == front.push(vid));
    } else {
        let rest = blanks.drop_last();
        assert forall|i: int| 0 <= i < rest.len() implies (#[trigger] rest[i]).len() == 0 by {
            assert(rest[i] == blanks[i]);
        }
        law_last_segment_with_a_name_counts(front, vid, rest);
        assert((front.push(vid) + blanks).drop_last() == front.push(vid) + rest);
        assert(blanks[blanks.len() - 1].len() == 0);
    }
}

/// A Bilibili address that is not one of a live room stands for the video that its path
/// names last, on the page that its query asks for: a single video where the name starts
/// with `BV` or `av`, and a series otherwise.
pub proof fn law_bilibili_address_names_a_video(
    url: Seq<char>,
    query: Query,
    page: usize,
    front: Seq<Seq<char>>,
    vid: Seq<char>,
    blanks: Seq<Seq<char>>,
)
    requires
        text::occurs_in(url, "bilibili.com/"@),
        !text::occurs_in(url, "live.bilibili.com/"@),
        query_page(query) == Some(page),
        vid.len() > 0,
        forall|i: int| 0 <= i < blanks.len() ==> (#[trigger] blanks[i]).len() == 0,
    ensures
        room_from_parts(url, Some(query), Some(Some(front.push(vid) + blanks))) matches Ok(room)
            && {
            let single = text::begins_with(vid, "BV"@) || text::begins_with(vid, "av"@);
            &&& room.site == Site::BiliVideo
            &&& room.site_type == SiteType::Video
            &&& room.current_page == page
            &&& room.plist.len() == 0
            &&& single ==> room.video_type == BVideoType::Video && room.base_url
                == "https://www.bilibili.com/video/"@ + vid
            &&& !single ==> room.video_type == BVideoType::Bangumi && room.base_url
                == "https://www.bilibili.com/bangumi/play/"@ + vid
        },
{
    law_last_segment_with_a_name_counts(front, vid, blanks);
}

/// Why a Bilibili address that is not one of a live room stands for nothing: it is no
/// absolute URL, its page is no number, its path has no segments, or they name no video.
pub proof fn law_bilibili_address_without_a_video(
    url: Seq<char>,
    query: Query,
    segments: Option<Option<Seq<Seq<char>>>>,
    blanks: Seq<Seq<char>>,
)
    requires
        text::occurs_in(url, "bilibili.com/"@),
        !text::occurs_in(url, "live.bilibili.com/"@),
        forall|i: int| 0 <= i < blanks.len() ==> (#[trigger] blanks[i]).len() == 0,
    ensures
        room_from_parts(url, None, segments) == Err::<Room, RoomError>(RoomError::MalformedUrl),
        room_from_parts(url, Some(query), None) == Err::<Room, RoomError>(
            RoomError::MalformedUrl,
        ),
        segments is Some && query_page(query) is None ==> room_from_parts(
            url,
            Some(query),
            segments,
        ) == Err::<Room, RoomError>(RoomError::MalformedPage),
        query_page(query) is Some ==> room_from_parts(url, Some(query), Some(None)) == Err::<
            Room,
            RoomError,
        >(RoomError::NoPath),
        query_page(query) is Some ==> room_from_parts(url, Some(query), Some(Some(blanks)))
            == Err::<Room, RoomError>(RoomError::NoVideo),
{
    law_last_segment_with_a_name_counts(Seq::empty(), seq!['x'], blanks);
}

/// A Bahamut address stands for a video on the page that its query asks for; its path makes
/// no difference.
pub proof fn law_bahamut_address_is_a_video(
    url: Seq<char>,
    query: Query,
    segments: Option<Option<Seq<Seq<char>>>>,
)
    requires
        text::occurs_in(url, "ani.gamer.com.tw/"@),
        !text::occurs_in(url, "bilibili.com/"@),
    ensures
        query_page(query) matches Some(page) ==> room_from_parts(url, Some(query), segments)
            == Ok::<Room, RoomError>(
            Room {
                site: Site::BahaVideo,
                site_type: SiteType::Video,
                base_url: Seq::empty(),
                video_type: BVideoType::Video,
                current_page: page,
                plist: Seq::empty(),
            },
        ),
        query_page(query) is None ==> room_from_parts(url, Some(query), segments) == Err::<
            Room,
            RoomError,
        >(RoomError::MalformedPage),
        room_from_parts(url, None, segments) == Err::<Room, RoomError>(RoomError::MalformedUrl),
{
    lemma_live_host_is_bilibili(url);
}

/// The address of a Bilibili live room is one of Bilibili.
proof fn lemma_live_host_is_bilibili(url: Seq<char>)
    ensures
        text::occurs_in(url, "live.bilibili.com/"@) ==> text::occurs_in(url, "bilibili.com/"@),
{
    reveal_strlit("live.bilibili.com/");
    reveal_strlit("bilibili.com/");
    let long = "live.bilibili.com/"@;
    let short = "bilibili.com/"@;
    assert(long == seq!['l', 'i', 'v', 'e', '.'] + short);
    if text::occurs_in(url, long) {
        let at = choose|at: int| text::occurs_at(url, long, at);
        assert(url.subrange(at + 5, at + 5 + short.len()) == url.subrange(
            at,
            at + long.len(),
        ).skip(5));
        assert(long.skip(5) == short);
        assert(text::occurs_at(url, short, at + 5));
    }
}

/// Which address stands for which live site, whatever its query and its path are: the first
/// that occurs in it, in this order, decides, and an address without any is unknown.
pub proof fn law_address_decides_the_live_site(
    url: Seq<char>,
    query: Option<Query>,
    segments: Option<Option<Seq<Seq<char>>>>,
)
    ensures
        ({
            let room = room_from_parts(url, query, segments);
            let bili = text::occurs_in(url, "bilibili.com/"@);
            let baha = text::occurs_in(url, "ani.gamer.com.tw/"@);
            let douyu = text::occurs_in(url, "douyu.com/"@);
            let huya = text::occurs_in(url, "huya.com/"@);
            let twitch = text::occurs_in(url, "twitch.tv/"@);
            let youtube = text::occurs_in(url, "youtube.com/"@);
            &&& room matches Ok(found) ==> {
                &&& found.site == Site::BiliLive <==> text::occurs_in(url, "live.bilibili.com/"@)
                &&& found.site == Site::BiliVideo <==> bili && !text::occurs_in(
                    url,
                    "live.bilibili.com/"@,
                )
                &&& found.site == Site::BahaVideo <==> baha && !bili
                &&& found.site == Site::DouyuLive <==> douyu && !baha && !bili
                &&& found.site == Site::HuyaLive <==> huya && !douyu && !baha && !bili
                &&& found.site == Site::TwitchLive <==> twitch && !huya && !douyu && !baha && !bili
                &&& found.site == Site::YoutubeLive <==> youtube && !twitch && !huya && !douyu
                    && !baha && !bili
            }
            &&& text::occurs_in(url, "live.bilibili.com/"@) || (!bili && !baha && (douyu || huya
                || twitch || youtube)) ==> (room matches Ok(found) && found.site_type
                == SiteType::Live && found.base_url.len() == 0 && found.video_type
                == BVideoType::Video && found.current_page == 0 && found.plist.len() == 0)
            &&& room == Err::<Room, RoomError>(RoomError::UnknownUrl) <==> !bili && !baha && !douyu
                && !huya && !twitch && !youtube
        }),
{
    lemma_live_host_is_bilibili(url);
}

/// A target is the room that its fields say, field by field, and a result is a room or an
/// error exactly as it says.
pub proof fn law_target_says_its_room(
    target: RoomTarget,
    room: Room,
    found: RoomError,
    e: RoomError,
)
    ensures
        target@.site == target.site,
        target@.site_type == target.site_type,
        target@.base_url == target.video.base_url@,
        target@.video_type == target.video.video_type,
        target@.current_page == target.video.current_page,
        target@.plist == target.video.plist@,
        is_room(Ok(target), Ok(room)) <==> target@ == room,
        is_room(Err(found), Err(e)) <==> found == e,
        !is_room(Ok(target), Err(e)),
        !is_room(Err(found), Ok(room)),
{
}

/// A query is its pairs, whole and in order, and the path is its segments, whole and in
/// order.
pub proof fn law_parts_are_taken_whole(
    pairs: Vec<(String, String)>,
    segments: Vec<String>,
    i: int,
)
    ensures
        query_of(Some(pairs)) matches Some(query) && query.len() == pairs@.len() && (0 <= i
            < query.len() ==> query[i] == (pairs@[i].0@, pairs@[i].1@)),
        query_of(None) is None,
        segments_of(Some(Some(segments))) matches Some(Some(found)) && found.len()
            == segments@.len() && (0 <= i < segments@.len() ==> found[i] == segments@[i]@),
        segments_of(Some(None)) == Some(None::<Seq<Seq<char>>>),
        segments_of(None) is None,
{
}

/// A URL stands for what its own query and its own path segments make of it.
pub proof fn law_url_stands_for_its_own_parts(
    url: Seq<char>,
    query: Option<Query>,
    segments: Option<Option<Seq<Seq<char>>>>,
)
    requires
        outside::url_query(url) == query,
        outside::url_segments(url) == segments,
    ensures
        room_of(url) == room_from_parts(url, query, segments),
{
}

} // verus!
