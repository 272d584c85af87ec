//! Recovering an expired session from the cookies of a browser.

use crate::config::ConfigManager;
use crate::cookies;
use crate::error::CookieError;
use crate::text;
use vstd::prelude::*;

verus! {

/// What is to be done next to refresh the configured cookie.
pub enum RefreshStage<T> {
    /// Ask the site whether the configured cookie, reduced to this one, is logged in.
    ValidateConfigured(T),
    /// Read the cookies of the configured browser.
    ReadBrowser,
    /// Ask the site whether this cookie of the browser is logged in.
    ValidateCandidate(T),
    /// Save the configuration with the reduced configured cookie.
    SaveConfigured,
    /// Save the configuration with the cookie of the browser.
    SaveCandidate,
    /// Nothing.
    Done,
}

/// What came of a stage. Each failure comes with its text.
pub enum RefreshEvent<T> {
    /// The site was asked; this says whether the cookie is logged in.
    Validated(Result<bool, T>),
    /// The cookies of the browser were read as this header.
    BrowserCookies(Result<T, T>),
    /// The configuration was saved.
    Saved(Result<(), T>),
}

/// What is worth a warning.
pub enum RefreshWarning<T> {
    ConfiguredNotSaved(T),
    ConfiguredLoggedOut,
    ConfiguredUnchecked(T),
    BrowserUnreadable(T),
    BrowserWithoutLogin,
    CandidateNotSaved(T),
    CandidateLoggedOut,
    CandidateUnchecked(T),
}

/// A stage, in terms of text.
pub type Stage = RefreshStage<Seq<char>>;

/// An event, in terms of text.
pub type Event = RefreshEvent<Seq<char>>;

/// A warning, in terms of text.
pub type Warning = RefreshWarning<Seq<char>>;

impl View for RefreshStage<String> {
    type V = Stage;

    open spec fn view(&self) -> Stage {
        match *self {
            RefreshStage::ValidateConfigured(cookie) => RefreshStage::ValidateConfigured(cookie@),
            RefreshStage::ReadBrowser => RefreshStage::ReadBrowser,
            RefreshStage::ValidateCandidate(cookie) => RefreshStage::ValidateCandidate(cookie@),
            RefreshStage::SaveConfigured => RefreshStage::SaveConfigured,
            RefreshStage::SaveCandidate => RefreshStage::SaveCandidate,
            RefreshStage::Done => RefreshStage::Done,
        }
    }
}

impl View for RefreshEvent<String> {
    type V = Event;

    open spec fn view(&self) -> Event {
        match *self {
            RefreshEvent::Validated(Ok(logged_in)) => RefreshEvent::Validated(Ok(logged_in)),
            RefreshEvent::Validated(Err(e)) => RefreshEvent::Validated(Err(e@)),
            RefreshEvent::BrowserCookies(Ok(header)) => RefreshEvent::BrowserCookies(Ok(header@)),
            RefreshEvent::BrowserCookies(Err(e)) => RefreshEvent::BrowserCookies(Err(e@)),
            RefreshEvent::Saved(Ok(())) => RefreshEvent::Saved(Ok(())),
            RefreshEvent::Saved(Err(e)) => RefreshEvent::Saved(Err(e@)),
        }
    }
}

impl View for RefreshWarning<String> {
    type V = Warning;

    open spec fn view(&self) -> Warning {
        match *self {
            RefreshWarning::ConfiguredNotSaved(e) => RefreshWarning::ConfiguredNotSaved(e@),
            RefreshWarning::ConfiguredLoggedOut => RefreshWarning::ConfiguredLoggedOut,
            RefreshWarning::ConfiguredUnchecked(e) => RefreshWarning::ConfiguredUnchecked(e@),
            RefreshWarning::BrowserUnreadable(e) => RefreshWarning::BrowserUnreadable(e@),
            RefreshWarning::BrowserWithoutLogin => RefreshWarning::BrowserWithoutLogin,
            RefreshWarning::CandidateNotSaved(e) => RefreshWarning::CandidateNotSaved(e@),
            RefreshWarning::CandidateLoggedOut => RefreshWarning::CandidateLoggedOut,
            RefreshWarning::CandidateUnchecked(e) => RefreshWarning::CandidateUnchecked(e@),
        }
    }
}

/// The warning of an optional warning, in terms of text.
pub open spec fn warning_of(warning: Option<RefreshWarning<String>>) -> Option<Warning> {
    match warning {
        Some(warning) => Some(warning@),
        None => None,
    }
}

/// Whether an event is an outcome of a stage.
pub open spec fn answers(stage: Stage, event: Event) -> bool {
    match stage {
        RefreshStage::ValidateConfigured(_) => event is Validated,
        RefreshStage::ReadBrowser => event is BrowserCookies,
        RefreshStage::ValidateCandidate(_) => event is Validated,
        RefreshStage::SaveConfigured => event is Saved,
        RefreshStage::SaveCandidate => event is Saved,
        RefreshStage::Done => false,
    }
}

/// Where a refresh stands: what is to be done next, and the configured cookie.
pub struct RefreshState {
    pub stage: Stage,
    pub bcookie: Seq<char>,
}

/// How a refresh starts: a configured cookie that holds a session is checked first.
pub open spec fn refresh_start(bcookie: Seq<char>) -> RefreshState {
    RefreshState {
        stage: match cookies::minimal_cookie(bcookie) {
            Some(cookie) => RefreshStage::ValidateConfigured(cookie),
            None => RefreshStage::ReadBrowser,
        },
        bcookie,
    }
}

/// Where a refresh stands after an event, and what is worth a warning.
pub open spec fn refresh_next(state: RefreshState, event: Event) -> (RefreshState, Option<
    Warning,
>) {
    let kept = state.bcookie;
    match (state.stage, event) {
        (RefreshStage::ValidateConfigured(cookie), RefreshEvent::Validated(Ok(true))) => (
            RefreshState {
                stage: if cookie == kept {
                    RefreshStage::Done
                } else {
                    RefreshStage::SaveConfigured
                },
                bcookie: cookie,
            },
            None,
        ),
        (RefreshStage::ValidateConfigured(_), RefreshEvent::Validated(Ok(false))) => (
            RefreshState { stage: RefreshStage::ReadBrowser, bcookie: kept },
            Some(RefreshWarning::ConfiguredLoggedOut),
        ),
        (RefreshStage::ValidateConfigured(_), RefreshEvent::Validated(Err(e))) => (
            RefreshState { stage: RefreshStage::ReadBrowser, bcookie: kept },
            Some(RefreshWarning::ConfiguredUnchecked(e)),
        ),
        (RefreshStage::ReadBrowser, RefreshEvent::BrowserCookies(Ok(header))) => match cookies::minimal_cookie(
            header,
        ) {
            Some(cookie) => (
                RefreshState { stage: RefreshStage::ValidateCandidate(cookie), bcookie: kept },
                None,
            ),
            None => (
                RefreshState { stage: RefreshStage::Done, bcookie: kept },
                Some(RefreshWarning::BrowserWithoutLogin),
            ),
        },
        (RefreshStage::ReadBrowser, RefreshEvent::BrowserCookies(Err(e))) => (
            RefreshState { stage: RefreshStage::Done, bcookie: kept },
            Some(RefreshWarning::BrowserUnreadable(e)),
        ),
        (RefreshStage::ValidateCandidate(cookie), RefreshEvent::Validated(Ok(true))) => (
            RefreshState { stage: RefreshStage::SaveCandidate, bcookie: cookie },
            None,
        ),
        (RefreshStage::ValidateCandidate(_), RefreshEvent::Validated(Ok(false))) => (
            RefreshState { stage: RefreshStage::Done, bcookie: kept },
            Some(RefreshWarning::CandidateLoggedOut),
        ),
        (RefreshStage::ValidateCandidate(_), RefreshEvent::Validated(Err(e))) => (
            RefreshState { stage: RefreshStage::Done, bcookie: kept },
            Some(RefreshWarning::CandidateUnchecked(e)),
        ),
        (RefreshStage::SaveConfigured, RefreshEvent::Saved(Err(e))) => (
            RefreshState { stage: RefreshStage::Done, bcookie: kept },
            Some(RefreshWarning::ConfiguredNotSaved(e)),
        ),
        (RefreshStage::SaveCandidate, RefreshEvent::Saved(Err(e))) => (
            RefreshState { stage: RefreshStage::Done, bcookie: kept },
            Some(RefreshWarning::CandidateNotSaved(e)),
        ),
        _ => (RefreshState { stage: RefreshStage::Done, bcookie: kept }, None),
    }
}

/// The site whose cookies are read from the browser.
pub fn cookie_host() -> (res: &'static str)
    ensures
        res@ == ".bilibili.com"@,
{
    ".bilibili.com"
}

/// The text of a warning, where `browser` is the configured browser.
pub open spec fn warning_text(warning: Warning, browser: Seq<char>) -> Seq<char> {
    match warning {
        RefreshWarning::ConfiguredNotSaved(e) =>
            "the minimal configured cookie is valid but could not be saved: "@ + e,
        RefreshWarning::ConfiguredLoggedOut =>
            "configured video-site cookie is no longer logged in; trying the browser profile"@,
        RefreshWarning::ConfiguredUnchecked(e) =>
            "could not validate the configured video-site cookie; trying the browser profile: "@
                + e,
        RefreshWarning::BrowserUnreadable(e) => "could not read cookies from "@ + browser + ": "@
            + e,
        RefreshWarning::BrowserWithoutLogin => "cookies from "@ + browser
            + " do not contain the required login fields: "@
            + CookieError::MissingSession.text(),
        RefreshWarning::CandidateNotSaved(e) =>
            "browser cookies are valid but could not be saved to config: "@ + e,
        RefreshWarning::CandidateLoggedOut => "cookies from "@ + browser + " are not logged in"@,
        RefreshWarning::CandidateUnchecked(e) => "could not validate cookies from "@ + browser
            + ": "@ + e,
    }
}

/// Four texts, one after the other.
fn concat(a: &str, b: &str, c: &str, d: &str) -> (res: String)
    ensures
        res@ == a@ + b@ + c@ + d@,
{
    let mut out: String = a.to_owned();
    out.append(b);
    out.append(c);
    out.append(d);
    out
}

impl RefreshWarning<String> {
    /// The text of this warning, where `browser` is the configured browser.
    pub fn message(&self, browser: &str) -> (res: String)
        ensures
            res@ == warning_text(self@, browser@),
    {
        proof {
            reveal_strlit("");
            assert(""@ == Seq::<char>::empty());
        }
        let out = match self {
            RefreshWarning::ConfiguredNotSaved(e) => concat(
                "the minimal configured cookie is valid but could not be saved: ",
                e.as_str(),
                "",
                "",
            ),
            RefreshWarning::ConfiguredLoggedOut => concat(
                "configured video-site cookie is no longer logged in; trying the browser profile",
                "",
                "",
                "",
            ),
            RefreshWarning::ConfiguredUnchecked(e) => concat(
                "could not validate the configured video-site cookie; trying the browser profile: ",
                e.as_str(),
                "",
                "",
            ),
            RefreshWarning::BrowserUnreadable(e) => concat(
                "could not read cookies from ",
                browser,
                ": ",
                e.as_str(),
            ),
            RefreshWarning::BrowserWithoutLogin => concat(
                "cookies from ",
                browser,
                " do not contain the required login fields: ",
                CookieError::MissingSession.message(),
            ),
            RefreshWarning::CandidateNotSaved(e) => concat(
                "browser cookies are valid but could not be saved to config: ",
                e.as_str(),
                "",
                "",
            ),
            RefreshWarning::CandidateLoggedOut => concat(
                "cookies from ",
                browser,
                " are not logged in",
                "",
            ),
            RefreshWarning::CandidateUnchecked(e) => concat(
                "could not validate cookies from ",
                browser,
                ": ",
                e.as_str(),
            ),
        };
        assert(out@ == warning_text(self@, browser@));
        out
    }
}

impl ConfigManager {
    /// Where the refresh of this configuration stands at this stage.
    pub open spec fn refresh_state(self, stage: Stage) -> RefreshState {
        RefreshState { stage, bcookie: self.bcookie@ }
    }

    /// Starts to refresh the configured cookie.
    pub fn refresh_bili_cookie_from_browser(&self) -> (res: RefreshStage<String>)
        ensures
            self.refresh_state(res@) == refresh_start(self.bcookie@),
    {
        match cookies::minimal_bili_cookie(self.bcookie.as_str()) {
            Ok(cookie) => RefreshStage::ValidateConfigured(cookie),
            Err(_) => RefreshStage::ReadBrowser,
        }
    }

    /// Goes on after a stage of the refresh had this outcome.
    pub fn continue_refresh(
        &mut self,
        stage: RefreshStage<String>,
        event: RefreshEvent<String>,
    ) -> (res: (RefreshStage<String>, Option<RefreshWarning<String>>))
        requires
            answers(stage@, event@),
        ensures
            (final(self).refresh_state(res.0@), warning_of(res.1)) == refresh_next(
                old(self).refresh_state(stage@),
                event@,
            ),
            *final(self) == (ConfigManager { bcookie: final(self).bcookie, ..*old(self) }),
    {
        match (stage, event) {
            (RefreshStage::ValidateConfigured(cookie), RefreshEvent::Validated(Ok(logged_in))) => {
                if logged_in {
                    if text::same_text(cookie.as_str(), self.bcookie.as_str()) {
                        (RefreshStage::Done, None)
                    } else {
                        self.bcookie = cookie;
                        (RefreshStage::SaveConfigured, None)
                    }
                } else {
                    (RefreshStage::ReadBrowser, Some(RefreshWarning::ConfiguredLoggedOut))
                }
            },
            (RefreshStage::ValidateConfigured(_), RefreshEvent::Validated(Err(e))) => (
                RefreshStage::ReadBrowser,
                Some(RefreshWarning::ConfiguredUnchecked(e)),
            ),
            (RefreshStage::ReadBrowser, RefreshEvent::BrowserCookies(Ok(header))) => {
                match cookies::minimal_bili_cookie(header.as_str()) {
                    Ok(cookie) => (RefreshStage::ValidateCandidate(cookie), None),
                    Err(_) => (RefreshStage::Done, Some(RefreshWarning::BrowserWithoutLogin)),
                }
            },
            (RefreshStage::ReadBrowser, RefreshEvent::BrowserCookies(Err(e))) => (
                RefreshStage::Done,
                Some(RefreshWarning::BrowserUnreadable(e)),
            ),
            (RefreshStage::ValidateCandidate(cookie), RefreshEvent::Validated(Ok(logged_in))) => {
                if logged_in {
                    self.bcookie = cookie;
                    (RefreshStage::SaveCandidate, None)
                } else {
                    (RefreshStage::Done, Some(RefreshWarning::CandidateLoggedOut))
                }
            },
            (RefreshStage::ValidateCandidate(_), RefreshEvent::Validated(Err(e))) => (
                RefreshStage::Done,
                Some(RefreshWarning::CandidateUnchecked(e)),
            ),
            (RefreshStage::SaveConfigured, RefreshEvent::Saved(Err(e))) => (
                RefreshStage::Done,
                Some(RefreshWarning::ConfiguredNotSaved(e)),
            ),
            (RefreshStage::SaveCandidate, RefreshEvent::Saved(Err(e))) => (
                RefreshStage::Done,
                Some(RefreshWarning::CandidateNotSaved(e)),
            ),
            _ => (RefreshStage::Done, None),
        }
    }
}

/// Where a refresh that started with the configured cookie `bcookie` stands after `events`.
pub open spec fn refresh_after(bcookie: Seq<char>, events: Seq<Event>) -> RefreshState
    decreases events.len(),
{
    if events.len() == 0 {
        refresh_start(bcookie)
    } else {
        refresh_next(refresh_after(bcookie, events.drop_last()), events.last()).0
    }
}

/// Whether each event is an outcome of the stage that it follows.
pub open spec fn is_run(bcookie: Seq<char>, events: Seq<Event>) -> bool {
    forall|i: int|
        0 <= i < events.len() ==> answers(
            refresh_after(bcookie, events.take(i)).stage,
            #[trigger] events[i],
        )
}

/// The cookie that is being checked at a stage.
pub open spec fn checked_cookie(stage: Stage) -> Option<Seq<char>> {
    match stage {
        RefreshStage::ValidateConfigured(cookie) => Some(cookie),
        RefreshStage::ValidateCandidate(cookie) => Some(cookie),
        _ => None,
    }
}

/// Whether the event with index `i` says that `cookie` was checked and is logged in.
pub open spec fn is_confirmed(
    bcookie: Seq<char>,
    events: Seq<Event>,
    i: int,
    cookie: Seq<char>,
) -> bool {
    &&& 0 <= i < events.len()
    &&& checked_cookie(refresh_after(bcookie, events.take(i)).stage) == Some(cookie)
    &&& events[i] == RefreshEvent::<Seq<char>>::Validated(Ok(true))
}

proof fn lemma_run_prefix(bcookie: Seq<char>, events: Seq<Event>)
    requires
        is_run(bcookie, events),
        events.len() > 0,
    ensures
        is_run(bcookie, events.drop_last()),
        answers(refresh_after(bcookie, events.drop_last()).stage, events.last()),
{
    let before = events.drop_last();
    assert forall|i: int| 0 <= i < before.len() implies answers(
        refresh_after(bcookie, before.take(i)).stage,
        #[trigger] before[i],
    ) by {
        assert(before.take(i) == events.take(i));
        assert(before[i] == events[i]);
    }
    assert(events.take(events.len() - 1) == before);
    assert(events[events.len() - 1] == events.last());
}

/// The configured cookie changes only to one that the site has confirmed to be logged in,
/// and every cookie that is checked is in reduced form. As long as nothing is confirmed, the
/// configured cookie stays.
pub proof fn law_only_confirmed_cookies_are_kept(bcookie: Seq<char>, events: Seq<Event>)
    requires
        is_run(bcookie, events),
    ensures
        ({
            let state = refresh_after(bcookie, events);
            &&& state.bcookie != bcookie ==> exists|i: int|
                #[trigger] is_confirmed(bcookie, events, i, state.bcookie)
            &&& state.bcookie != bcookie ==> cookies::minimal_cookie(state.bcookie) == Some(
                state.bcookie,
            )
            &&& checked_cookie(state.stage) matches Some(cookie) ==> cookies::minimal_cookie(
                cookie,
            ) == Some(cookie)
        }),
    decreases events.len(),
{
    cookies::law_reduction_is_stable(bcookie);
    if events.len() > 0 {
        let before = events.drop_last();
        let last = events.len() - 1;
        lemma_run_prefix(bcookie, events);
        law_only_confirmed_cookies_are_kept(bcookie, before);
        let earlier = refresh_after(bcookie, before);
        let state = refresh_after(bcookie, events);
        assert(events.take(last) == before);
        if let RefreshEvent::BrowserCookies(Ok(header)) = events.last() {
            cookies::law_reduction_is_stable(header);
        }
        if state.bcookie != bcookie {
            if state.bcookie == earlier.bcookie {
                let i = choose|i: int| #[trigger]
                    is_confirmed(bcookie, before, i, state.bcookie);
                assert(before.take(i) == events.take(i));
                assert(is_confirmed(bcookie, events, i, state.bcookie));
            } else {
                assert(is_confirmed(bcookie, events, last, state.bcookie));
            }
        }
    }
}

/// A configured cookie that is still logged in is kept, in reduced form, and the browser is
/// not read.
pub proof fn law_valid_configured_cookie_is_kept(
    bcookie: Seq<char>,
    cookie: Seq<char>,
    events: Seq<Event>,
)
    requires
        cookies::minimal_cookie(bcookie) == Some(cookie),
        is_run(bcookie, events),
        events.len() > 0,
        events[0] == RefreshEvent::<Seq<char>>::Validated(Ok(true)),
    ensures
        refresh_after(bcookie, events).bcookie == cookie,
        refresh_after(bcookie, events).stage is SaveConfigured || refresh_after(
            bcookie,
            events,
        ).stage is Done,
    decreases events.len(),
{
    lemma_run_prefix(bcookie, events);
    if events.len() > 1 {
        assert(events.drop_last()[0] == events[0]);
        law_valid_configured_cookie_is_kept(bcookie, cookie, events.drop_last());
    } else {
        assert(events.drop_last() == Seq::<Event>::empty());
    }
}

/// A cookie of the browser that is logged in is used from then on, whether or not it can be
/// saved.
pub proof fn law_confirmed_browser_cookie_is_used(
    state: RefreshState,
    cookie: Seq<char>,
    saved: Result<(), Seq<char>>,
)
    requires
        state.stage == RefreshStage::ValidateCandidate(cookie),
    ensures
        ({
            let confirmed = refresh_next(state, RefreshEvent::Validated(Ok(true))).0;
            let ended = refresh_next(confirmed, RefreshEvent::Saved(saved)).0;
            &&& confirmed == RefreshState { stage: RefreshStage::SaveCandidate, bcookie: cookie }
            &&& ended == RefreshState { stage: RefreshStage::Done, bcookie: cookie }
        }),
{
}

/// How many events a refresh can still take.
pub open spec fn events_left(stage: Stage) -> nat {
    match stage {
        RefreshStage::ValidateConfigured(_) => 4,
        RefreshStage::ReadBrowser => 3,
        RefreshStage::ValidateCandidate(_) => 2,
        RefreshStage::SaveConfigured => 1,
        RefreshStage::SaveCandidate => 1,
        RefreshStage::Done => 0,
    }
}

/// A refresh ends: each event brings it closer to its end.
pub proof fn law_refresh_ends(state: RefreshState, event: Event)
    requires
        answers(state.stage, event),
    ensures
        events_left(refresh_next(state, event).0.stage) < events_left(state.stage),
{
}

/// Whether two stages differ at most in the cookies that they hold.
pub open spec fn same_but_cookies(a: Stage, b: Stage) -> bool {
    match (a, b) {
        (RefreshStage::ValidateConfigured(_), RefreshStage::ValidateConfigured(_)) => true,
        (RefreshStage::ValidateCandidate(_), RefreshStage::ValidateCandidate(_)) => true,
        _ => a == b,
    }
}

/// Whether two events differ at most in the cookies that they hold, where both or neither
/// hold a session.
pub open spec fn same_event_but_cookies(a: Event, b: Event) -> bool {
    match (a, b) {
        (
            RefreshEvent::BrowserCookies(Ok(left)),
            RefreshEvent::BrowserCookies(Ok(right)),
        ) => cookies::minimal_cookie(left) is Some == cookies::minimal_cookie(right) is Some,
        _ => a == b,
    }
}

/// No warning tells a cookie: refreshes that differ in cookies alone give the same warnings.
pub proof fn law_warnings_tell_no_cookie(
    a: RefreshState,
    b: RefreshState,
    first: Event,
    second: Event,
)
    requires
        same_but_cookies(a.stage, b.stage),
        same_event_but_cookies(first, second),
        answers(a.stage, first),
        answers(b.stage, second),
    ensures
        refresh_next(a, first).1 == refresh_next(b, second).1,
{
}

/// A cookie that a refresh has kept is in reduced form: the next start checks it as it is
/// and, if it is still logged in, saves nothing.
pub proof fn law_kept_cookie_is_not_saved_again(header: Seq<char>, cookie: Seq<char>)
    requires
        cookies::minimal_cookie(header) == Some(cookie),
    ensures
        refresh_start(cookie).stage == RefreshStage::ValidateConfigured(cookie),
        refresh_next(refresh_start(cookie), RefreshEvent::Validated(Ok(true))) == (
            RefreshState { stage: RefreshStage::Done, bcookie: cookie },
            None::<Warning>,
        ),
{
    cookies::law_reduction_is_stable(header);
}

/// The warnings that a refresh has given after `events`.
pub open spec fn warnings_after(bcookie: Seq<char>, events: Seq<Event>) -> Seq<Warning>
    decreases events.len(),
{
    if events.len() == 0 {
        Seq::empty()
    } else {
        let before = events.drop_last();
        let given = warnings_after(bcookie, before);
        match refresh_next(refresh_after(bcookie, before), events.last()).1 {
            Some(warning) => given.push(warning),
            None => given,
        }
    }
}

/// Whether a stage comes after the configured cookie was confirmed.
spec fn is_confirmed_end(stage: Stage) -> bool {
    stage is SaveConfigured || stage is Done
}

proof fn lemma_refreshes_stay_alike(
    bcookie: Seq<char>,
    other: Seq<char>,
    events: Seq<Event>,
    others: Seq<Event>,
)
    requires
        cookies::minimal_cookie(bcookie) is Some == cookies::minimal_cookie(other) is Some,
        events.len() == others.len(),
        forall|i: int|
            0 <= i < events.len() ==> same_event_but_cookies(#[trigger] events[i], others[i]),
        is_run(bcookie, events),
        is_run(other, others),
    ensures
        warnings_after(bcookie, events) == warnings_after(other, others),
        ({
            let left = refresh_after(bcookie, events).stage;
            let right = refresh_after(other, others).stage;
            same_but_cookies(left, right) || (is_confirmed_end(left) && is_confirmed_end(right))
        }),
    decreases events.len(),
{
    if events.len() > 0 {
        let before = events.drop_last();
        let others_before = others.drop_last();
        lemma_run_prefix(bcookie, events);
        lemma_run_prefix(other, others);
        assert forall|i: int| 0 <= i < before.len() implies same_event_but_cookies(
            #[trigger] before[i],
            others_before[i],
        ) by {
            assert(before[i] == events[i] && others_before[i] == others[i]);
        }
        lemma_refreshes_stay_alike(bcookie, other, before, others_before);
        let left = refresh_after(bcookie, before);
        let right = refresh_after(other, others_before);
        assert(same_event_but_cookies(events[events.len() - 1], others[others.len() - 1]));
        assert(same_but_cookies(left.stage, right.stage));
        law_warnings_tell_no_cookie(left, right, events.last(), others.last());
    }
}

/// No whole refresh tells a cookie: two refreshes whose outcomes differ in cookies alone give
/// the same warnings in the same order.
pub proof fn law_whole_refresh_tells_no_cookie(
    bcookie: Seq<char>,
    other: Seq<char>,
    events: Seq<Event>,
    others: Seq<Event>,
)
    requires
        cookies::minimal_cookie(bcookie) is Some == cookies::minimal_cookie(other) is Some,
        events.len() == others.len(),
        forall|i: int|
            0 <= i < events.len() ==> same_event_but_cookies(#[trigger] events[i], others[i]),
        is_run(bcookie, events),
        is_run(other, others),
    ensures
        warnings_after(bcookie, events) == warnings_after(other, others),
{
    lemma_refreshes_stay_alike(bcookie, other, events, others);
}

/// The warnings of a refresh that had one more warning or none.
pub open spec fn with_warning(warnings: Seq<Warning>, more: Option<Warning>) -> Seq<Warning> {
    match more {
        Some(warning) => warnings.push(warning),
        None => warnings,
    }
}

/// A configured session that is not confirmed, because it is logged out or cannot be
/// checked, is replaced by the session of the browser once that is confirmed, and that is
/// saved. Each thing that went wrong is warned about, once and in order, and a failure to
/// save does not take the session back.
pub proof fn law_browser_replaces_unconfirmed_session(
    bcookie: Seq<char>,
    configured: Seq<char>,
    verdict: Result<bool, Seq<char>>,
    header: Seq<char>,
    cookie: Seq<char>,
    saved: Result<(), Seq<char>>,
)
    requires
        cookies::minimal_cookie(bcookie) == Some(configured),
        verdict != Ok::<bool, Seq<char>>(true),
        cookies::minimal_cookie(header) == Some(cookie),
    ensures
        ({
            let first = seq![RefreshEvent::<Seq<char>>::Validated(verdict)];
            let second = first.push(RefreshEvent::BrowserCookies(Ok(header)));
            let third = second.push(RefreshEvent::Validated(Ok(true)));
            let fourth = third.push(RefreshEvent::Saved(saved));
            let warned = seq![
                match verdict {
                    Ok(_) => RefreshWarning::<Seq<char>>::ConfiguredLoggedOut,
                    Err(e) => RefreshWarning::ConfiguredUnchecked(e),
                },
            ];
            &&& refresh_after(bcookie, Seq::empty()).stage == RefreshStage::ValidateConfigured(
                configured,
            )
            &&& refresh_after(bcookie, first) == (RefreshState {
                stage: RefreshStage::ReadBrowser,
                bcookie,
            })
            &&& refresh_after(bcookie, second) == (RefreshState {
                stage: RefreshStage::ValidateCandidate(cookie),
                bcookie,
            })
            &&& refresh_after(bcookie, third) == (RefreshState {
                stage: RefreshStage::SaveCandidate,
                bcookie: cookie,
            })
            &&& refresh_after(bcookie, fourth) == (RefreshState {
                stage: RefreshStage::Done,
                bcookie: cookie,
            })
            &&& warnings_after(bcookie, third) == warned
            &&& warnings_after(bcookie, fourth) == with_warning(
                warned,
                match saved {
                    Ok(_) => None,
                    Err(e) => Some(RefreshWarning::CandidateNotSaved(e)),
                },
            )
        }),
{
    reveal_with_fuel(refresh_after, 5);
    reveal_with_fuel(warnings_after, 5);
    let none = Seq::<Event>::empty();
    let first = seq![RefreshEvent::<Seq<char>>::Validated(verdict)];
    let second = first.push(RefreshEvent::BrowserCookies(Ok(header)));
    let third = second.push(RefreshEvent::Validated(Ok(true)));
    let fourth = third.push(RefreshEvent::Saved(saved));
    assert(first.drop_last() == none);
    assert(second.drop_last() == first);
    assert(third.drop_last() == second);
    assert(fourth.drop_last() == third);
    let warning = match verdict {
        Ok(_) => RefreshWarning::<Seq<char>>::ConfiguredLoggedOut,
        Err(e) => RefreshWarning::ConfiguredUnchecked(e),
    };
    assert(warnings_after(bcookie, none) == Seq::<Warning>::empty());
    assert(warnings_after(bcookie, first) == Seq::<Warning>::empty().push(warning));
    assert(Seq::<Warning>::empty().push(warning) == seq![warning]);
}

/// Without a configured session nothing is checked first: the browser is read, and its
/// session is used once it is confirmed.
pub proof fn law_browser_is_read_without_a_session(
    bcookie: Seq<char>,
    header: Seq<char>,
    cookie: Seq<char>,
    saved: Result<(), Seq<char>>,
)
    requires
        cookies::minimal_cookie(bcookie) is None,
        cookies::minimal_cookie(header) == Some(cookie),
    ensures
        ({
            let first = seq![RefreshEvent::<Seq<char>>::BrowserCookies(Ok(header))];
            let second = first.push(RefreshEvent::Validated(Ok(true)));
            let third = second.push(RefreshEvent::Saved(saved));
            &&& refresh_after(bcookie, Seq::empty()) == (RefreshState {
                stage: RefreshStage::ReadBrowser,
                bcookie,
            })
            &&& refresh_after(bcookie, first) == (RefreshState {
                stage: RefreshStage::ValidateCandidate(cookie),
                bcookie,
            })
            &&& refresh_after(bcookie, second) == (RefreshState {
                stage: RefreshStage::SaveCandidate,
                bcookie: cookie,
            })
            &&& refresh_after(bcookie, third) == (RefreshState {
                stage: RefreshStage::Done,
                bcookie: cookie,
            })
            &&& warnings_after(bcookie, second) == Seq::<Warning>::empty()
        }),
{
    reveal_with_fuel(refresh_after, 4);
    reveal_with_fuel(warnings_after, 4);
    let none = Seq::<Event>::empty();
    let first = seq![RefreshEvent::<Seq<char>>::BrowserCookies(Ok(header))];
    let second = first.push(RefreshEvent::Validated(Ok(true)));
    let third = second.push(RefreshEvent::Saved(saved));
    assert(first.drop_last() == none);
    assert(second.drop_last() == first);
    assert(third.drop_last() == second);
}

/// A configured session that is confirmed is saved exactly if it was not in reduced form;
/// the refresh then ends, and only a failure to save is warned about.
pub proof fn law_confirmed_session_is_saved_in_reduced_form(
    bcookie: Seq<char>,
    cookie: Seq<char>,
    saved: Result<(), Seq<char>>,
)
    requires
        cookies::minimal_cookie(bcookie) == Some(cookie),
    ensures
        ({
            let first = seq![RefreshEvent::<Seq<char>>::Validated(Ok(true))];
            let second = first.push(RefreshEvent::Saved(saved));
            &&& refresh_after(bcookie, first) == (RefreshState {
                stage: if cookie == bcookie {
                    RefreshStage::Done
                } else {
                    RefreshStage::SaveConfigured
                },
                bcookie: cookie,
            })
            &&& warnings_after(bcookie, first) == Seq::<Warning>::empty()
            &&& cookie != bcookie ==> refresh_after(bcookie, second) == (RefreshState {
                stage: RefreshStage::Done,
                bcookie: cookie,
            }) && warnings_after(bcookie, second) == (match saved {
                Ok(_) => Seq::<Warning>::empty(),
                Err(e) => seq![RefreshWarning::ConfiguredNotSaved(e)],
            })
        }),
{
    reveal_with_fuel(refresh_after, 3);
    reveal_with_fuel(warnings_after, 3);
    let first = seq![RefreshEvent::<Seq<char>>::Validated(Ok(true))];
    let second = first.push(RefreshEvent::Saved(saved));
    assert(first.drop_last() == Seq::<Event>::empty());
    assert(second.drop_last() == first);
    if let Err(e) = saved {
        assert(Seq::<Warning>::empty().push(RefreshWarning::ConfiguredNotSaved(e)) == seq![
            RefreshWarning::ConfiguredNotSaved(e),
        ]);
    }
}

/// What the browser cannot provide ends the refresh with a warning of its own, and the
/// configured cookie stays as it is: cookies that cannot be read, cookies without a session,
/// a session that is logged out, and one that cannot be checked.
pub proof fn law_unusable_browser_cookies_change_nothing(
    bcookie: Seq<char>,
    header: Seq<char>,
    cookie: Seq<char>,
    e: Seq<char>,
)
    ensures
        ({
            let ended = RefreshState { stage: RefreshStage::Done, bcookie };
            let reading = RefreshState { stage: RefreshStage::ReadBrowser, bcookie };
            let checking = RefreshState { stage: RefreshStage::ValidateCandidate(cookie), bcookie };
            &&& refresh_next(reading, RefreshEvent::BrowserCookies(Err(e))) == (
                ended,
                Some(RefreshWarning::<Seq<char>>::BrowserUnreadable(e)),
            )
            &&& cookies::minimal_cookie(header) is None ==> refresh_next(
                reading,
                RefreshEvent::BrowserCookies(Ok(header)),
            ) == (ended, Some(RefreshWarning::<Seq<char>>::BrowserWithoutLogin))
            &&& refresh_next(checking, RefreshEvent::Validated(Ok(false))) == (
                ended,
                Some(RefreshWarning::<Seq<char>>::CandidateLoggedOut),
            )
            &&& refresh_next(checking, RefreshEvent::Validated(Err(e))) == (
                ended,
                Some(RefreshWarning::<Seq<char>>::CandidateUnchecked(e)),
            )
        }),
{
}

/// Each warning names its cause, whole, and those about the browser name the browser, whole.
pub proof fn law_warnings_name_browser_and_cause(browser: Seq<char>, e: Seq<char>)
    ensures
        warning_text(RefreshWarning::ConfiguredNotSaved(e), browser)
            == "the minimal configured cookie is valid but could not be saved: "@ + e,
        warning_text(RefreshWarning::ConfiguredLoggedOut, browser)
            == "configured video-site cookie is no longer logged in; trying the browser profile"@,
        warning_text(RefreshWarning::ConfiguredUnchecked(e), browser)
            == "could not validate the configured video-site cookie; trying the browser profile: "@
            + e,
        warning_text(RefreshWarning::BrowserUnreadable(e), browser)
            == "could not read cookies from "@ + browser + ": "@ + e,
        warning_text(RefreshWarning::BrowserWithoutLogin, browser) == "cookies from "@ + browser
            + " do not contain the required login fields: "@
            + "the required SESSDATA cookie was not found"@,
        warning_text(RefreshWarning::CandidateNotSaved(e), browser)
            == "browser cookies are valid but could not be saved to config: "@ + e,
        warning_text(RefreshWarning::CandidateLoggedOut, browser) == "cookies from "@ + browser
            + " are not logged in"@,
        warning_text(RefreshWarning::CandidateUnchecked(e), browser)
            == "could not validate cookies from "@ + browser + ": "@ + e,
{
}

/// A stage, an event and a warning say what they hold, whole, and nothing else.
pub proof fn law_refresh_texts_are_taken_whole(text: String, logged_in: bool)
    ensures
        RefreshStage::ValidateConfigured(text)@ == RefreshStage::ValidateConfigured(text@),
        RefreshStage::ValidateCandidate(text)@ == RefreshStage::ValidateCandidate(text@),
        RefreshStage::<String>::ReadBrowser@ == RefreshStage::<Seq<char>>::ReadBrowser,
        RefreshStage::<String>::SaveConfigured@ == RefreshStage::<Seq<char>>::SaveConfigured,
        RefreshStage::<String>::SaveCandidate@ == RefreshStage::<Seq<char>>::SaveCandidate,
        RefreshStage::<String>::Done@ == RefreshStage::<Seq<char>>::Done,
        RefreshEvent::<String>::Validated(Ok(logged_in))@ == RefreshEvent::<Seq<char>>::Validated(
            Ok(logged_in),
        ),
        RefreshEvent::Validated(Err(text))@ == RefreshEvent::Validated(Err(text@)),
        RefreshEvent::BrowserCookies(Ok(text))@ == RefreshEvent::BrowserCookies(Ok(text@)),
        RefreshEvent::BrowserCookies(Err(text))@ == RefreshEvent::BrowserCookies(Err(text@)),
        RefreshEvent::<String>::Saved(Ok(()))@ == RefreshEvent::<Seq<char>>::Saved(Ok(())),
        RefreshEvent::Saved(Err(text))@ == RefreshEvent::Saved(Err(text@)),
        RefreshWarning::ConfiguredNotSaved(text)@ == RefreshWarning::ConfiguredNotSaved(text@),
        RefreshWarning::ConfiguredUnchecked(text)@ == RefreshWarning::ConfiguredUnchecked(text@),
        RefreshWarning::BrowserUnreadable(text)@ == RefreshWarning::BrowserUnreadable(text@),
        RefreshWarning::CandidateNotSaved(text)@ == RefreshWarning::CandidateNotSaved(text@),
        RefreshWarning::CandidateUnchecked(text)@ == RefreshWarning::CandidateUnchecked(text@),
        RefreshWarning::<String>::ConfiguredLoggedOut@ == RefreshWarning::<
            Seq<char>,
        >::ConfiguredLoggedOut,
        RefreshWarning::<String>::BrowserWithoutLogin@ == RefreshWarning::<
            Seq<char>,
        >::BrowserWithoutLogin,
        RefreshWarning::<String>::CandidateLoggedOut@ == RefreshWarning::<
            Seq<char>,
        >::CandidateLoggedOut,
{
}

/// Every outcome of what a stage asks for is taken, a failure with any text too: checking
/// gives a verdict, reading gives cookies, saving gives whether it was saved.
pub proof fn law_every_outcome_is_taken(
    cookie: Seq<char>,
    verdict: Result<bool, Seq<char>>,
    header: Result<Seq<char>, Seq<char>>,
    saved: Result<(), Seq<char>>,
)
    ensures
        answers(RefreshStage::ValidateConfigured(cookie), RefreshEvent::Validated(verdict)),
        answers(RefreshStage::ValidateCandidate(cookie), RefreshEvent::Validated(verdict)),
        answers(RefreshStage::ReadBrowser, RefreshEvent::BrowserCookies(header)),
        answers(RefreshStage::SaveConfigured, RefreshEvent::Saved(saved)),
        answers(RefreshStage::SaveCandidate, RefreshEvent::Saved(saved)),
{
}

/// A refresh stands at the stage that is given, with the cookie that the configuration
/// holds, and a warning is passed on exactly if there is one.
pub proof fn law_refresh_state_is_that_of_the_configuration(
    manager: ConfigManager,
    stage: Stage,
    warning: RefreshWarning<String>,
)
    ensures
        manager.refresh_state(stage).stage == stage,
        manager.refresh_state(stage).bcookie == manager.bcookie@,
        warning_of(Some(warning)) == Some(warning@),
        warning_of(None) is None,
{
}

} // verus!
