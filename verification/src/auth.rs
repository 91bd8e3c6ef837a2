//! Logging in: where the cookie comes from and what becomes of it.

use vstd::prelude::*;

use crate::report;
use crate::report::Line;
use crate::text;

verus! {

/// Where a cookie comes from.
#[derive(Debug, Clone, Copy, PartialEq, Eq, Structural)]
pub enum ArlSource {
    /// The command line; it is saved once it proved good.
    Flag,
    /// The environment; it is never saved.
    Env,
    /// The file that an earlier login left.
    Stored,
    /// The user, asked for it; it is saved once it proved good.
    Prompt,
}

/// Whether a cookie from this source is saved once it proved good.
pub open spec fn is_kept(source: ArlSource) -> bool {
    source == ArlSource::Flag || source == ArlSource::Prompt
}

/// What a login is at.
#[derive(Debug)]
pub enum LoginStage {
    /// Trying a cookie.
    Trying(ArlSource, String),
    /// Removing the stored cookie, which is no good.
    Removing,
    /// Asking the user for a cookie.
    Asking,
    /// Saving the cookie that proved good.
    Saving(String),
    /// Over; whether the user is logged in.
    Over(bool),
    /// The login itself failed.
    Failed(String),
}

/// What happened.
#[derive(Debug, PartialEq)]
pub enum LoginEvent {
    /// The cookie was tried: it is good, or it is not, or that could not be
    /// told.
    Tried(Result<bool, String>),
    /// The stored cookie was removed, as far as it could be.
    Removed,
    /// The user typed a cookie, or could not be asked.
    Typed(Result<String, String>),
    /// The cookie was saved, or could not be.
    Saved(Result<(), String>),
}

/// What to do next.
#[derive(Debug, PartialEq)]
pub enum LoginStep {
    /// Try this cookie.
    Try(String),
    /// Remove the stored cookie.
    Remove,
    /// Ask the user for a cookie.
    Ask,
    /// Save this cookie.
    Save(String),
    /// Nothing; whether the user is logged in.
    Done(bool),
    /// Nothing; the login failed.
    Fail(String),
}

/// A stage without its representation.
pub enum LoginModel {
    Trying(ArlSource, Seq<char>),
    Removing,
    Asking,
    Saving(Seq<char>),
    Over(bool),
    Failed(Seq<char>),
}

impl LoginStage {
    /// The stage without its representation.
    pub open spec fn model(self) -> LoginModel {
        match self {
            LoginStage::Trying(source, arl) => LoginModel::Trying(source, arl@),
            LoginStage::Removing => LoginModel::Removing,
            LoginStage::Asking => LoginModel::Asking,
            LoginStage::Saving(arl) => LoginModel::Saving(arl@),
            LoginStage::Over(good) => LoginModel::Over(good),
            LoginStage::Failed(e) => LoginModel::Failed(e@),
        }
    }
}

/// How a login begins: with the cookie of the command line, else that of the
/// environment, else the stored one where it is not empty, else by asking.
pub open spec fn first_stage(
    flag: Option<String>,
    env: Option<String>,
    stored: Option<String>,
) -> LoginModel {
    match (flag, env, stored) {
        (Some(arl), _, _) => LoginModel::Trying(ArlSource::Flag, arl@),
        (None, Some(arl), _) => LoginModel::Trying(ArlSource::Env, arl@),
        (None, None, Some(arl)) => if arl@.len() > 0 {
            LoginModel::Trying(ArlSource::Stored, arl@)
        } else {
            LoginModel::Asking
        },
        (None, None, None) => LoginModel::Asking,
    }
}

impl LoginModel {
    /// The stage after an event. One that does not belong there changes
    /// nothing. A stored cookie that did not prove good, for whatever reason,
    /// is removed; any other failure ends the login.
    pub open spec fn after(self, event: LoginEvent) -> LoginModel {
        match (self, event) {
            (LoginModel::Trying(source, arl), LoginEvent::Tried(result)) => match result {
                Ok(true) => if is_kept(source) {
                    LoginModel::Saving(text::trimmed(arl))
                } else {
                    LoginModel::Over(true)
                },
                _ => if source == ArlSource::Stored {
                    LoginModel::Removing
                } else {
                    match result {
                        Ok(_) => LoginModel::Over(false),
                        Err(e) => LoginModel::Failed(e@),
                    }
                },
            },
            (LoginModel::Removing, LoginEvent::Removed) => LoginModel::Asking,
            (LoginModel::Asking, LoginEvent::Typed(typed)) => match typed {
                Ok(arl) => LoginModel::Trying(ArlSource::Prompt, arl@),
                Err(e) => LoginModel::Failed(e@),
            },
            (LoginModel::Saving(_), LoginEvent::Saved(saved)) => match saved {
                Ok(_) => LoginModel::Over(true),
                Err(e) => LoginModel::Failed(e@),
            },
            _ => self,
        }
    }

    /// What is said about an event.
    pub open spec fn says(self, event: LoginEvent) -> Option<report::LineModel> {
        match (self, event) {
            (LoginModel::Trying(source, _), LoginEvent::Tried(result)) => match result {
                Ok(true) => None,
                _ => if source == ArlSource::Stored {
                    Some(report::LineModel::Problem("Stored ARL is invalid, removing..."@))
                } else if result is Ok {
                    Some(report::LineModel::Problem("Login failed. Invalid ARL."@))
                } else {
                    None
                },
            },
            _ => None,
        }
    }

    /// Whether the login has ended.
    pub open spec fn ended(self) -> bool {
        self is Over || self is Failed
    }

    /// How many steps a login takes at most from here on.
    pub open spec fn steps_left(self) -> nat {
        match self {
            LoginModel::Trying(source, _) => if source == ArlSource::Stored {
                5
            } else {
                2
            },
            LoginModel::Removing => 4,
            LoginModel::Asking => 3,
            LoginModel::Saving(_) => 1,
            _ => 0,
        }
    }

    /// Whether an event is what this stage waits for.
    pub open spec fn awaits(self, event: LoginEvent) -> bool {
        match self {
            LoginModel::Trying(_, _) => event is Tried,
            LoginModel::Removing => event is Removed,
            LoginModel::Asking => event is Typed,
            LoginModel::Saving(_) => event is Saved,
            _ => false,
        }
    }
}

/// A line, where there is one, without its representation.
pub open spec fn line_model(line: Option<Line>) -> Option<report::LineModel> {
    match line {
        Some(line) => Some(line.model()),
        None => None,
    }
}

/// A login.
#[derive(Debug)]
pub struct Login {
    stage: LoginStage,
}

impl Login {
    /// What the login is at.
    pub closed spec fn view(self) -> LoginModel {
        self.stage.model()
    }

    /// A login with the cookies that there are.
    pub fn new(flag: Option<String>, env: Option<String>, stored: Option<String>) -> (r: Login)
        ensures
            r.view() == first_stage(flag, env, stored),
    {
        let stage = match flag {
            Some(arl) => LoginStage::Trying(ArlSource::Flag, arl),
            None => match env {
                Some(arl) => LoginStage::Trying(ArlSource::Env, arl),
                None => match stored {
                    Some(arl) => {
                        if text::chars_of(arl.as_str()).len() > 0 {
                            LoginStage::Trying(ArlSource::Stored, arl)
                        } else {
                            LoginStage::Asking
                        }
                    },
                    None => LoginStage::Asking,
                },
            },
        };
        Login { stage }
    }

    /// What to do next.
    pub fn step(&self) -> (r: LoginStep)
        ensures
            match self.view() {
                LoginModel::Trying(_, arl) => r matches LoginStep::Try(a) && a@ == arl,
                LoginModel::Removing => r is Remove,
                LoginModel::Asking => r is Ask,
                LoginModel::Saving(arl) => r matches LoginStep::Save(a) && a@ == arl,
                LoginModel::Over(good) => r == LoginStep::Done(good),
                LoginModel::Failed(e) => r matches LoginStep::Fail(message) && message@ == e,
            },
    {
        match &self.stage {
            LoginStage::Trying(_, arl) => LoginStep::Try(arl.clone()),
            LoginStage::Removing => LoginStep::Remove,
            LoginStage::Asking => LoginStep::Ask,
            LoginStage::Saving(arl) => LoginStep::Save(arl.clone()),
            LoginStage::Over(good) => LoginStep::Done(*good),
            LoginStage::Failed(e) => LoginStep::Fail(e.clone()),
        }
    }

    /// Takes in what happened, and tells what to say about it.
    pub fn on_event(&mut self, event: LoginEvent) -> (r: Option<Line>)
        ensures
            final(self).view() == old(self).view().after(event),
            line_model(r) == old(self).view().says(event),
    {
        match (&self.stage, event) {
            (LoginStage::Trying(source, arl), LoginEvent::Tried(result)) => {
                let source: ArlSource = *source;
                if let Ok(true) = result {
                    self.stage = if source == ArlSource::Flag || source == ArlSource::Prompt {
                        LoginStage::Saving(text::trim(arl.as_str()))
                    } else {
                        LoginStage::Over(true)
                    };
                    return None;
                }
                if source == ArlSource::Stored {
                    self.stage = LoginStage::Removing;
                    return Some(Line::Problem("Stored ARL is invalid, removing...".to_owned()));
                }
                match result {
                    Ok(_) => {
                        self.stage = LoginStage::Over(false);
                        Some(Line::Problem("Login failed. Invalid ARL.".to_owned()))
                    },
                    Err(e) => {
                        self.stage = LoginStage::Failed(e);
                        None
                    },
                }
            },
            (LoginStage::Removing, LoginEvent::Removed) => {
                self.stage = LoginStage::Asking;
                None
            },
            (LoginStage::Asking, LoginEvent::Typed(typed)) => {
                self.stage = match typed {
                    Ok(arl) => LoginStage::Trying(ArlSource::Prompt, arl),
                    Err(e) => LoginStage::Failed(e),
                };
                None
            },
            (LoginStage::Saving(_), LoginEvent::Saved(saved)) => {
                self.stage = match saved {
                    Ok(_) => LoginStage::Over(true),
                    Err(e) => LoginStage::Failed(e),
                };
                None
            },
            _ => None,
        }
    }
}

/// A stored cookie that is refused, or that could not be tried, is removed;
/// then the user is asked for another, which is tried in its place.
pub proof fn refused_stored_cookies_are_replaced(
    arl: Seq<char>,
    result: Result<bool, String>,
    typed: String,
)
    requires
        result != Ok::<bool, String>(true),
    ensures
        ({
            let removing = LoginModel::Trying(ArlSource::Stored, arl).after(
                LoginEvent::Tried(result),
            );
            let asking = removing.after(LoginEvent::Removed);
            let trying = asking.after(LoginEvent::Typed(Ok(typed)));
            &&& removing is Removing
            &&& asking is Asking
            &&& trying == LoginModel::Trying(ArlSource::Prompt, typed@)
        }),
{
}

/// A cookie is saved only once it proved good, only where the user gave it, and
/// without surrounding space; and the stored one is removed only where it was
/// tried and did not prove good.
pub proof fn only_good_cookies_are_saved(stage: LoginModel, event: LoginEvent)
    ensures
        stage.after(event) is Saving && !(stage is Saving) ==> event == LoginEvent::Tried(Ok(true))
            && (stage matches LoginModel::Trying(source, arl) && is_kept(source) && stage.after(
            event,
        ) == LoginModel::Saving(text::trimmed(arl))),
        stage.after(event) is Removing && !(stage is Removing) ==> event is Tried && event
            != LoginEvent::Tried(Ok(true)) && (stage matches LoginModel::Trying(source, _) && source
            == ArlSource::Stored),
{
}

/// A login comes to an end: whatever happens, a stage that has not ended waits
/// for some event, and every such event leaves fewer steps.
pub proof fn logins_come_to_an_end(stage: LoginModel, event: LoginEvent)
    ensures
        stage.ended() == (stage.steps_left() == 0),
        stage.ended() ==> stage.after(event) == stage,
        stage.awaits(event) ==> stage.after(event).steps_left() < stage.steps_left(),
{
}

/// The cookie in the contents of the file.
pub fn stored_arl(contents: &str) -> (r: String)
    ensures
        r@ == text::trimmed(contents@),
{
    text::trim(contents)
}

/// What is written to the file for a cookie.
pub fn arl_to_store(arl: &str) -> (r: String)
    ensures
        r@ == text::trimmed(arl@),
{
    text::trim(arl)
}

/// Reading the file back gives the cookie that was saved, without the white
/// space around it.
pub proof fn saved_cookies_read_back(arl: Seq<char>)
    ensures
        text::trimmed(text::trimmed(arl)) == text::trimmed(arl),
{
    text::trimming_is_idempotent(arl);
}

/// A cookie with its middle hidden.
pub open spec fn masked(arl: Seq<char>) -> Seq<char> {
    if arl.len() > 8 {
        arl.take(4) + "****"@ + arl.skip(arl.len() - 4)
    } else {
        "****"@
    }
}

/// A cookie with its middle hidden: the first four and the last four characters
/// show, and nothing of a cookie that has no more than those.
pub fn mask_arl(arl: &str) -> (r: String)
    ensures
        r@ == masked(arl@),
{
    let chars = text::chars_of(arl);
    let len: usize = chars.len();
    if len <= 8 {
        return "****".to_owned();
    }
    let mut s = text::text_between(&chars, 0, 4);
    let tail = text::text_between(&chars, len - 4, len);
    s.append("****");
    s.append(tail.as_str());
    proof {
        assert(s@ =~= masked(arl@));
    }
    s
}

/// A masked cookie never shows more than eight of its characters.
pub proof fn masks_hide_the_middle(arl: Seq<char>)
    ensures
        arl.len() > 8 ==> masked(arl).len() == 8 + "****"@.len(),
        arl.len() <= 8 ==> masked(arl) == "****"@,
{
}

/// The cookie of the command line comes before that of the environment, and
/// that before the stored one. The user is asked only where there is none.
pub proof fn nearer_cookies_come_first(
    flag: Option<String>,
    env: Option<String>,
    stored: Option<String>,
)
    ensures
        flag is Some ==> first_stage(flag, env, stored) == LoginModel::Trying(
            ArlSource::Flag,
            flag->0@,
        ),
        flag is None && env is Some ==> first_stage(flag, env, stored) == LoginModel::Trying(
            ArlSource::Env,
            env->0@,
        ),
        flag is None && env is None && stored is Some && stored->0@.len() > 0 ==> first_stage(
            flag,
            env,
            stored,
        ) == LoginModel::Trying(ArlSource::Stored, stored->0@),
        first_stage(flag, env, stored) is Asking <==> flag is None && env is None && (
        stored is None || stored->0@.len() == 0),
{
}

/// A good cookie logs the user in. One that the user gave, on the command line
/// or when asked, is saved first, without the white space around it; one of the
/// environment, or one that is stored already, is not.
pub proof fn good_cookies_log_in(source: ArlSource, arl: Seq<char>)
    ensures
        ({
            let good = LoginModel::Trying(source, arl).after(LoginEvent::Tried(Ok(true)));
            &&& source == ArlSource::Env || source == ArlSource::Stored ==> good
                == LoginModel::Over(true)
            &&& source == ArlSource::Flag || source == ArlSource::Prompt ==> good
                == LoginModel::Saving(text::trimmed(arl)) && good.after(LoginEvent::Saved(Ok(())))
                == LoginModel::Over(true)
        }),
{
}

/// A cookie that is no good ends the login without the user being logged in,
/// unless it was the stored one. What could not be tried, typed or saved fails
/// with its own message.
pub proof fn bad_cookies_do_not_log_in(source: ArlSource, arl: Seq<char>, e: String)
    ensures
        source != ArlSource::Stored ==> LoginModel::Trying(source, arl).after(
            LoginEvent::Tried(Ok(false)),
        ) == LoginModel::Over(false),
        source != ArlSource::Stored ==> LoginModel::Trying(source, arl).after(
            LoginEvent::Tried(Err(e)),
        ) == LoginModel::Failed(e@),
        LoginModel::Asking.after(LoginEvent::Typed(Err(e))) == LoginModel::Failed(e@),
        LoginModel::Saving(arl).after(LoginEvent::Saved(Err(e))) == LoginModel::Failed(e@),
{
}

/// A mask shows the first four and the last four characters of a cookie that has
/// more than eight, with four stars between them, whatever the cookie has there.
pub proof fn masks_show_both_ends(head: Seq<char>, middle: Seq<char>, tail: Seq<char>)
    requires
        head.len() == 4,
        tail.len() == 4,
        middle.len() > 0,
    ensures
        masked(head + middle + tail) == head + seq!['*', '*', '*', '*'] + tail,
{
    reveal_strlit("****");
    let arl = head + middle + tail;
    assert("****"@ =~= seq!['*', '*', '*', '*']);
    assert(arl.take(4) =~= head);
    assert(arl.skip(arl.len() - 4) =~= tail);
}

/// A login speaks only where a cookie did not prove good: a stored one is
/// removed, and any other that was refused is invalid. One that could not be
/// tried fails without a word of its own.
pub proof fn logins_speak_of_bad_cookies_alone(stage: LoginModel, event: LoginEvent)
    ensures
        stage.says(event) is Some ==> stage is Trying && event is Tried && event
            != LoginEvent::Tried(Ok(true)),
        stage matches LoginModel::Trying(source, _) && source == ArlSource::Stored && event
            == LoginEvent::Tried(Ok(false)) ==> stage.says(event) == Some(
            report::LineModel::Problem("Stored ARL is invalid, removing..."@),
        ),
        stage matches LoginModel::Trying(source, _) && source != ArlSource::Stored && event
            == LoginEvent::Tried(Ok(false)) ==> stage.says(event) == Some(
            report::LineModel::Problem("Login failed. Invalid ARL."@),
        ),
{
}

} // verus!
