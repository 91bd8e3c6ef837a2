//! Calls to the gateway, step by step.

use vstd::prelude::*;

use crate::api;
use crate::api::{GwRequest, GwStep, TokenStep};
use crate::json;
use crate::json::Json;
use crate::models::AlbumInfo;
use crate::text;

verus! {

/// What a call is at.
#[derive(Debug)]
pub enum CallStage {
    /// Looking for a token.
    Looking,
    /// Refreshing a token that is missing.
    Refreshing,
    /// Looking for the token that the refresh brought.
    LookingAgain,
    /// Sending the request with this token.
    Sending(String),
    /// Refreshing a token that is no longer good.
    Renewing,
    /// The call succeeded.
    Answered,
    /// The call failed.
    Failed(String),
}

/// What happened.
#[derive(Debug, PartialEq)]
pub enum CallEvent {
    /// The token that is known, if there is one.
    Token(Option<String>),
    /// The token was refreshed.
    Refreshed,
    /// The gateway answered with this error, as a value and written out.
    Answer(Json, String),
}

/// What to do next.
#[derive(Debug, PartialEq)]
pub enum CallStep {
    /// Look for a token.
    Look,
    /// Refresh the token.
    Refresh,
    /// Send the request with this token.
    Send(String),
    /// Nothing; the results of the answer count.
    Done,
    /// Nothing; the call failed.
    Fail(String),
}

/// A stage without its representation.
pub enum CallStageModel {
    Looking,
    Refreshing,
    LookingAgain,
    Sending(Seq<char>),
    Renewing,
    Answered,
    Failed(Seq<char>),
}

impl CallStage {
    /// The stage without its representation.
    pub open spec fn model(self) -> CallStageModel {
        match self {
            CallStage::Looking => CallStageModel::Looking,
            CallStage::Refreshing => CallStageModel::Refreshing,
            CallStage::LookingAgain => CallStageModel::LookingAgain,
            CallStage::Sending(token) => CallStageModel::Sending(token@),
            CallStage::Renewing => CallStageModel::Renewing,
            CallStage::Answered => CallStageModel::Answered,
            CallStage::Failed(e) => CallStageModel::Failed(e@),
        }
    }
}

/// A call: its method, how many answers came, whether it was made again, and
/// the stage.
pub struct CallModel {
    pub method: Seq<char>,
    pub answers: nat,
    pub retried: bool,
    pub stage: CallStageModel,
}

impl CallModel {
    /// The same call at another stage.
    pub open spec fn at(self, stage: CallStageModel) -> CallModel {
        CallModel { stage, ..self }
    }

    /// The call after an event. One that does not belong there changes nothing.
    pub open spec fn after(self, event: CallEvent) -> CallModel {
        match (self.stage, event) {
            (CallStageModel::Looking, CallEvent::Token(token)) => if self.method
                == "deezer.getUserData"@ {
                self.at(CallStageModel::Sending("null"@))
            } else {
                match token {
                    Some(known) => self.at(CallStageModel::Sending(known@)),
                    None => self.at(CallStageModel::Refreshing),
                }
            },
            (CallStageModel::Refreshing, CallEvent::Refreshed) => self.at(
                CallStageModel::LookingAgain,
            ),
            (CallStageModel::LookingAgain, CallEvent::Token(token)) => match token {
                Some(known) => self.at(CallStageModel::Sending(known@)),
                None => self.at(CallStageModel::Sending("null"@)),
            },
            (CallStageModel::Sending(_), CallEvent::Answer(error, error_text)) => {
                let next = CallModel { answers: self.answers + 1, ..self };
                match api::verdict(self.method, error.model(), error_text@, self.retried) {
                    api::VerdictModel::Retry => CallModel {
                        retried: true,
                        stage: CallStageModel::Renewing,
                        ..next
                    },
                    api::VerdictModel::Fail(e) => next.at(CallStageModel::Failed(e)),
                    api::VerdictModel::Done => next.at(CallStageModel::Answered),
                }
            },
            (CallStageModel::Renewing, CallEvent::Refreshed) => self.at(CallStageModel::Looking),
            _ => self,
        }
    }

    /// Whether there are no more answers than a call makes requests.
    pub open spec fn wf(self) -> bool {
        match self.stage {
            CallStageModel::Answered => self.answers <= 2,
            CallStageModel::Failed(_) => self.answers <= 2,
            CallStageModel::Renewing => self.retried && self.answers == 1,
            _ => self.answers == (if self.retried {
                1nat
            } else {
                0nat
            }),
        }
    }
}

/// A call to the gateway.
#[derive(Debug)]
pub struct GwCall {
    method: String,
    answers: u64,
    retried: bool,
    stage: CallStage,
}

impl GwCall {
    /// The call as it stands.
    pub closed spec fn view(self) -> CallModel {
        CallModel {
            method: self.method@,
            answers: self.answers as nat,
            retried: self.retried,
            stage: self.stage.model(),
        }
    }

    /// A call that has not begun.
    pub fn new(method: &str) -> (r: GwCall)
        ensures
            r.view().wf(),
            r.view() == (CallModel {
                method: method@,
                answers: 0,
                retried: false,
                stage: CallStageModel::Looking,
            }),
    {
        GwCall { method: method.to_owned(), answers: 0, retried: false, stage: CallStage::Looking }
    }

    /// What to do next.
    pub fn step(&self) -> (r: CallStep)
        ensures
            match self.view().stage {
                CallStageModel::Looking => r is Look,
                CallStageModel::LookingAgain => r is Look,
                CallStageModel::Refreshing => r is Refresh,
                CallStageModel::Renewing => r is Refresh,
                CallStageModel::Sending(token) => r matches CallStep::Send(t) && t@ == token,
                CallStageModel::Answered => r is Done,
                CallStageModel::Failed(e) => r matches CallStep::Fail(message) && message@ == e,
            },
    {
        match &self.stage {
            CallStage::Looking => CallStep::Look,
            CallStage::LookingAgain => CallStep::Look,
            CallStage::Refreshing => CallStep::Refresh,
            CallStage::Renewing => CallStep::Refresh,
            CallStage::Sending(token) => CallStep::Send(token.clone()),
            CallStage::Answered => CallStep::Done,
            CallStage::Failed(e) => CallStep::Fail(e.clone()),
        }
    }

    /// Takes in what happened.
    pub fn on_event(&mut self, event: CallEvent)
        requires
            old(self).view().wf(),
        ensures
            final(self).view().wf(),
            final(self).view() == old(self).view().after(event),
    {
        match (&self.stage, event) {
            (CallStage::Looking, CallEvent::Token(token)) => {
                self.stage = match api::request_token(self.method.as_str(), &token) {
                    TokenStep::Use(token) => CallStage::Sending(token),
                    TokenStep::Refresh => CallStage::Refreshing,
                };
            },
            (CallStage::Refreshing, CallEvent::Refreshed) => {
                self.stage = CallStage::LookingAgain;
            },
            (CallStage::LookingAgain, CallEvent::Token(token)) => {
                self.stage = match token {
                    Some(known) => CallStage::Sending(known),
                    None => CallStage::Sending("null".to_owned()),
                };
            },
            (CallStage::Sending(_), CallEvent::Answer(error, error_text)) => {
                let method = self.method.as_str();
                let step = api::judge_gw_response(
                    method,
                    &error,
                    error_text.as_str(),
                    self.retried,
                );
                self.answers = self.answers + 1;
                match step {
                    GwStep::Retry => {
                        self.retried = true;
                        self.stage = CallStage::Renewing;
                    },
                    GwStep::Fail(message) => {
                        self.stage = CallStage::Failed(message);
                    },
                    GwStep::Done => {
                        self.stage = CallStage::Answered;
                    },
                }
            },
            (CallStage::Renewing, CallEvent::Refreshed) => {
                self.stage = CallStage::Looking;
            },
            _ => {},
        }
    }
}

/// A call is made at most twice, whatever the gateway answers: no event leads
/// from a call in order to one with more answers.
pub proof fn calls_are_retried_once(call: CallModel, event: CallEvent)
    requires
        call.wf(),
    ensures
        call.after(event).wf(),
        call.after(event).answers <= 2,
{
}

/// The reading of a discography page by page.
#[derive(Debug)]
pub struct Discography {
    art_id: String,
    start: u64,
    albums: Vec<AlbumInfo>,
    complete: bool,
}

/// The reading of a discography: from where on albums are still to be asked
/// for, those that came, and whether that is all of them.
pub struct DiscographyModel {
    pub art_id: Seq<char>,
    pub start: nat,
    pub albums: Seq<AlbumInfo>,
    pub complete: bool,
}

impl DiscographyModel {
    /// The reading after one more page, with the number of albums that the
    /// gateway announced. A page without albums is the last.
    pub open spec fn with_page(self, page: Seq<AlbumInfo>, total: nat) -> DiscographyModel {
        let more = api::page_follows(self.start, total, page.len());
        DiscographyModel {
            albums: self.albums + page,
            start: if more {
                self.start + 100
            } else {
                self.start
            },
            complete: !more,
            ..self
        }
    }
}

impl Discography {
    /// The reading as it stands.
    pub closed spec fn view(self) -> DiscographyModel {
        DiscographyModel {
            art_id: self.art_id@,
            start: self.start as nat,
            albums: self.albums@,
            complete: self.complete,
        }
    }

    /// A reading that has not begun.
    pub fn new(art_id: &str) -> (r: Discography)
        ensures
            r.view() == (DiscographyModel {
                art_id: art_id@,
                start: 0,
                albums: seq![],
                complete: false,
            }),
    {
        Discography { art_id: art_id.to_owned(), start: 0, albums: Vec::new(), complete: false }
    }

    /// The request for the next page; none once all pages came.
    pub fn request(&self) -> (r: Option<GwRequest>)
        ensures
            if self.view().complete {
                r is None
            } else {
                r matches Some(GwRequest::Discography(id, start)) && id@ == self.view().art_id
                    && start == self.view().start
            },
    {
        if self.complete {
            None
        } else {
            Some(GwRequest::Discography(self.art_id.clone(), self.start))
        }
    }

    /// Takes in a page, with the number of albums that the gateway announced.
    pub fn on_page(&mut self, page: Vec<AlbumInfo>, total: u64)
        ensures
            final(self).view() == old(self).view().with_page(page@, total as nat),
    {
        let count: u64 = page.len() as u64;
        let mut page = page;
        self.albums.append(&mut page);
        match api::next_page(self.start, total, count) {
            Some(next) => {
                self.start = next;
                self.complete = false;
            },
            None => {
                self.complete = true;
            },
        }
    }

    /// The albums that came, in order.
    pub fn into_albums(self) -> (r: Vec<AlbumInfo>)
        ensures
            r@ == self.view().albums,
    {
        self.albums
    }
}

/// A call carries the token that is known; without one it asks for one first,
/// and goes on with what came. The call that brings tokens needs none.
pub proof fn calls_carry_the_token(call: CallModel, token: String)
    requires
        call.stage is Looking,
    ensures
        call.method == "deezer.getUserData"@ ==> call.after(CallEvent::Token(Some(token))).stage
            == CallStageModel::Sending("null"@) && call.after(CallEvent::Token(None)).stage
            == CallStageModel::Sending("null"@),
        call.method != "deezer.getUserData"@ ==> ({
            let refreshing = call.after(CallEvent::Token(None));
            let again = refreshing.after(CallEvent::Refreshed);
            &&& call.after(CallEvent::Token(Some(token))).stage == CallStageModel::Sending(token@)
            &&& refreshing.stage is Refreshing
            &&& again.after(CallEvent::Token(Some(token))).stage == CallStageModel::Sending(token@)
            &&& again.after(CallEvent::Token(None)).stage == CallStageModel::Sending("null"@)
        }),
{
}

/// A call that is refused for its token is made once more, with a token that was
/// fetched in between; refused again, it fails. An answer without an error ends
/// it.
pub proof fn stale_tokens_are_renewed_once(
    call: CallModel,
    error: Json,
    error_text: String,
)
    requires
        call.stage is Sending,
        text::holds(error_text@, "invalid api token"@) || text::holds(
            error_text@,
            "Invalid CSRF token"@,
        ),
        error.model() matches json::JsonModel::Object(members) && members.len() > 0,
    ensures
        ({
            let after = call.after(CallEvent::Answer(error, error_text));
            &&& !call.retried ==> after.stage is Renewing && after.retried && after.after(
                CallEvent::Refreshed,
            ).stage is Looking
            &&& call.retried ==> after.stage == CallStageModel::Failed(
                "GW API error for "@ + call.method + ": "@ + error_text@,
            )
            &&& after.answers == call.answers + 1
            &&& after.method == call.method
        }),
{
}

/// A discography is read until the announced number of albums is reached or a
/// page is empty: each page holds up to 100, its albums follow those of the pages
/// before, and the next page starts 100 further on.
pub proof fn discographies_are_read_to_the_end(
    d: DiscographyModel,
    page: Seq<AlbumInfo>,
    total: nat,
)
    ensures
        ({
            let after = d.with_page(page, total);
            &&& after.albums == d.albums + page
            &&& after.art_id == d.art_id
            &&& after.complete <==> page.len() == 0 || d.start + 100 >= total
            &&& !after.complete ==> after.start == d.start + 100
        }),
{
}

} // verus!
