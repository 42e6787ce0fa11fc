//! What alerts say, and to whom they go.
use vstd::prelude::*;

use crate::text::join3;
use crate::text::join5;
use crate::utc::to_rfc3339;

verus! {

/// How grave an alert is.
#[derive(Debug, PartialEq, Eq, Structural, Clone, Copy)]
pub enum AlertLevel {
    INFO,
    WARN,
    CRITICAL,
}

impl AlertLevel {
    /// The name of the level.
    pub open spec fn name(self) -> Seq<char> {
        match self {
            AlertLevel::INFO => "INFO"@,
            AlertLevel::WARN => "WARN"@,
            AlertLevel::CRITICAL => "CRITICAL"@,
        }
    }

    /// The name of the level.
    pub fn as_str(&self) -> (r: &'static str)
        ensures
            r@ == self.name(),
    {
        match self {
            AlertLevel::INFO => "INFO",
            AlertLevel::WARN => "WARN",
            AlertLevel::CRITICAL => "CRITICAL",
        }
    }
}

/// What the channels of an engine are set to.
pub struct Channels {
    pub tg_token: Option<Seq<char>>,
    pub tg_chat_id: Option<Seq<char>>,
    pub slack_webhook_url: Option<Seq<char>>,
}

/// Knows the channels that alerts go to. A channel that is not set is disabled.
pub struct AlertEngine {
    tg_token: Option<String>,
    tg_chat_id: Option<String>,
    slack_webhook_url: Option<String>,
}

/// A message for a Telegram chat.
pub struct TelegramMessage {
    pub url: String,
    pub chat_id: String,
    pub text: String,
}

/// A message for a Slack webhook.
pub struct SlackMessage {
    pub url: String,
    pub text: String,
}

/// The messages of one alert.
pub struct Dispatch {
    pub telegram: Option<TelegramMessage>,
    pub slack: Option<SlackMessage>,
}

/// The text of an alert, after its title line.
pub open spec fn alert_body(part: Seq<char>, time: Seq<char>, msg: Seq<char>) -> Seq<char> {
    "Level: "@ + part + "\nTime: "@ + time + ("\nContent: "@ + msg)
}

pub open spec fn telegram_text(
    level: AlertLevel,
    part: Seq<char>,
    time: Seq<char>,
    msg: Seq<char>,
) -> Seq<char> {
    "["@ + level.name() + "] HFT Engine Alert\n"@ + alert_body(part, time, msg)
}

pub open spec fn slack_text(
    level: AlertLevel,
    part: Seq<char>,
    time: Seq<char>,
    msg: Seq<char>,
) -> Seq<char> {
    "*["@ + level.name() + "] HFT Engine Alert*\n"@ + alert_body(part, time, msg)
}

impl Dispatch {
    /// Whether these are the messages of an alert: one for Telegram exactly where both the token
    /// and the chat are set, one for Slack exactly where its address is set.
    pub open spec fn announces(
        &self,
        channels: Channels,
        level: AlertLevel,
        part: Seq<char>,
        time: Seq<char>,
        msg: Seq<char>,
    ) -> bool {
        &&& match (channels.tg_token, channels.tg_chat_id) {
            (Some(token), Some(chat)) => self.telegram matches Some(message) && {
                &&& message.url@ == "https://api.telegram.org/bot"@ + token + "/sendMessage"@
                &&& message.chat_id@ == chat
                &&& message.text@ == telegram_text(level, part, time, msg)
            },
            _ => self.telegram is None,
        }
        &&& match channels.slack_webhook_url {
            Some(url) => self.slack matches Some(message) && {
                &&& message.url@ == url
                &&& message.text@ == slack_text(level, part, time, msg)
            },
            None => self.slack is None,
        }
    }
}

pub open spec fn text_of(setting: Option<&str>) -> Option<Seq<char>> {
    match setting {
        Some(text) => Some(text@),
        None => None,
    }
}

spec fn string_text(setting: Option<String>) -> Option<Seq<char>> {
    match setting {
        Some(text) => Some(text@),
        None => None,
    }
}

fn owned(setting: Option<&str>) -> (r: Option<String>)
    ensures
        string_text(r) == text_of(setting),
{
    match setting {
        Some(text) => Some(text.to_string()),
        None => None,
    }
}

fn body(part: &str, time: &str, msg: &str) -> (r: String)
    ensures
        r@ == alert_body(part@, time@, msg@),
{
    let content = join3("\nContent: ", msg, "");
    proof {
        reveal_strlit("");
        assert("\nContent: "@ + msg@ + ""@ =~= "\nContent: "@ + msg@);
    }
    join5("Level: ", part, "\nTime: ", time, content.as_str())
}

impl View for AlertEngine {
    type V = Channels;

    closed spec fn view(&self) -> Channels {
        Channels {
            tg_token: string_text(self.tg_token),
            tg_chat_id: string_text(self.tg_chat_id),
            slack_webhook_url: string_text(self.slack_webhook_url),
        }
    }
}

impl AlertEngine {
    /// An engine with these channels.
    pub fn new(
        tg_token: Option<&str>,
        tg_chat_id: Option<&str>,
        slack_webhook_url: Option<&str>,
    ) -> (r: AlertEngine)
        ensures
            r@ == (Channels {
                tg_token: text_of(tg_token),
                tg_chat_id: text_of(tg_chat_id),
                slack_webhook_url: text_of(slack_webhook_url),
            }),
    {
        AlertEngine {
            tg_token: owned(tg_token),
            tg_chat_id: owned(tg_chat_id),
            slack_webhook_url: owned(slack_webhook_url),
        }
    }

    /// The messages of an alert at a moment, in seconds since the Unix epoch and nanoseconds.
    pub fn trigger(
        &self,
        level: AlertLevel,
        system_part: &str,
        msg: &str,
        secs: i64,
        nanos: u32,
    ) -> (r: Dispatch)
        requires
            crate::utc::is_moment(secs),
            crate::utc::is_nanosecond(secs, nanos),
        ensures
            r.announces(self@, level, system_part@, crate::utc::rfc3339(secs, nanos), msg@),
    {
        let timestamp = to_rfc3339(secs, nanos);
        self.compose(level, system_part, timestamp.as_str(), msg)
    }

    /// The messages of an alert with the given time.
    pub fn compose(
        &self,
        level: AlertLevel,
        system_part: &str,
        timestamp: &str,
        msg: &str,
    ) -> (r: Dispatch)
        ensures
            r.announces(self@, level, system_part@, timestamp@, msg@),
    {
        let body = body(system_part, timestamp, msg);
        let telegram = match &self.tg_token {
            Some(token) => match &self.tg_chat_id {
                Some(chat_id) => {
                    let title = join3("[", level.as_str(), "] HFT Engine Alert\n");
                    let text = join3(title.as_str(), body.as_str(), "");
                    proof {
                        reveal_strlit("");
                        assert(title@ + body@ + ""@ =~= title@ + body@);
                    }
                    Some(
                        TelegramMessage {
                            url: join3(
                                "https://api.telegram.org/bot",
                                token.as_str(),
                                "/sendMessage",
                            ),
                            chat_id: chat_id.clone(),
                            text,
                        },
                    )
                },
                None => None,
            },
            None => None,
        };
        let slack = match &self.slack_webhook_url {
            Some(url) => {
                let title = join3("*[", level.as_str(), "] HFT Engine Alert*\n");
                let text = join3(title.as_str(), body.as_str(), "");
                proof {
                    reveal_strlit("");
                    assert(title@ + body@ + ""@ =~= title@ + body@);
                }
                Some(SlackMessage { url: url.clone(), text })
            },
            None => None,
        };
        Dispatch { telegram, slack }
    }
}

} // verus!
