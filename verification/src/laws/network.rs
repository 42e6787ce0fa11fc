//! How often the exchange is tried, and what is announced.
use vstd::prelude::*;

use crate::alert::AlertLevel;
use crate::alert::Channels;
use crate::alert::Dispatch;
use crate::connection::SnapshotFetch;

verus! {

/// Each wait is twice the one before it, from one second on.
pub proof fn law_waits_double(n: nat)
    ensures
        crate::connection::doubled(0) == 1,
        crate::connection::doubled(n + 1) == crate::connection::doubled(n)
            + crate::connection::doubled(n),
{
}

/// A stream may fail nine times in a row and a snapshot is asked for five times; the next wait for
/// a snapshot has doubled with every refusal.
pub proof fn law_tries_are_limited(fetch: SnapshotFetch)
    ensures
        crate::connection::MAX_RECONNECTS == 9,
        crate::connection::MAX_FETCHES == 5,
        fetch.well_formed() <==> {
            ||| fetch.refusals == 0 && fetch.delay == 1
            ||| fetch.refusals == 1 && fetch.delay == 2
            ||| fetch.refusals == 2 && fetch.delay == 4
            ||| fetch.refusals == 3 && fetch.delay == 8
            ||| fetch.refusals == 4 && fetch.delay == 16
        },
{
    reveal_with_fuel(crate::connection::doubled, 5);
}

/// The name of each level is its own.
pub proof fn law_levels_have_their_names(level: AlertLevel)
    ensures
        level == AlertLevel::INFO ==> level.name() == "INFO"@,
        level == AlertLevel::WARN ==> level.name() == "WARN"@,
        level == AlertLevel::CRITICAL ==> level.name() == "CRITICAL"@,
{
}

/// A text put together from pieces, one after the other.
pub open spec fn pieced(pieces: Seq<Seq<char>>) -> Seq<char>
    decreases pieces.len(),
{
    if pieces.len() == 0 {
        Seq::empty()
    } else {
        pieced(pieces.drop_last()) + pieces.last()
    }
}

proof fn lemma_pieced_push(pieces: Seq<Seq<char>>, piece: Seq<char>)
    ensures
        pieced(pieces.push(piece)) == pieced(pieces) + piece,
{
    assert(pieces.push(piece).drop_last() =~= pieces);
}

/// Both texts of an alert hold all of the part, the time and the message, each once and in its
/// place.
pub proof fn law_alert_says_it_all(
    level: AlertLevel,
    part: Seq<char>,
    time: Seq<char>,
    msg: Seq<char>,
)
    ensures
        crate::alert::telegram_text(level, part, time, msg) == pieced(
            seq![
                "["@,
                level.name(),
                "] HFT Engine Alert\n"@,
                "Level: "@,
                part,
                "\nTime: "@,
                time,
                "\nContent: "@,
                msg,
            ],
        ),
        crate::alert::slack_text(level, part, time, msg) == pieced(
            seq![
                "*["@,
                level.name(),
                "] HFT Engine Alert*\n"@,
                "Level: "@,
                part,
                "\nTime: "@,
                time,
                "\nContent: "@,
                msg,
            ],
        ),
{
    lemma_alert_text("["@, level.name(), "] HFT Engine Alert\n"@, part, time, msg);
    lemma_alert_text("*["@, level.name(), "] HFT Engine Alert*\n"@, part, time, msg);
}

proof fn lemma_alert_text(
    open: Seq<char>,
    name: Seq<char>,
    close: Seq<char>,
    part: Seq<char>,
    time: Seq<char>,
    msg: Seq<char>,
)
    ensures
        open + name + close + crate::alert::alert_body(part, time, msg) == pieced(
            seq![
                open,
                name,
                close,
                "Level: "@,
                part,
                "\nTime: "@,
                time,
                "\nContent: "@,
                msg,
            ],
        ),
{
    let p0 = Seq::<Seq<char>>::empty();
    let p1 = p0.push(open);
    let p2 = p1.push(name);
    let p3 = p2.push(close);
    let p4 = p3.push("Level: "@);
    let p5 = p4.push(part);
    let p6 = p5.push("\nTime: "@);
    let p7 = p6.push(time);
    let p8 = p7.push("\nContent: "@);
    let p9 = p8.push(msg);
    lemma_pieced_push(p0, open);
    lemma_pieced_push(p1, name);
    lemma_pieced_push(p2, close);
    lemma_pieced_push(p3, "Level: "@);
    lemma_pieced_push(p4, part);
    lemma_pieced_push(p5, "\nTime: "@);
    lemma_pieced_push(p6, time);
    lemma_pieced_push(p7, "\nContent: "@);
    lemma_pieced_push(p8, msg);
    assert(pieced(p1) =~= open);
    assert(pieced(p9) =~= open + name + close + crate::alert::alert_body(part, time, msg));
    assert(p9 =~= seq![
        open,
        name,
        close,
        "Level: "@,
        part,
        "\nTime: "@,
        time,
        "\nContent: "@,
        msg,
    ]);
}

/// An alert goes to every channel that is set and to no other: to Telegram where both the token
/// and the chat are set, whatever Slack is set to, and to Slack where its address is, whatever
/// Telegram is set to.
pub proof fn law_alert_goes_to_every_channel_that_is_set(
    dispatch: Dispatch,
    channels: Channels,
    level: AlertLevel,
    part: Seq<char>,
    time: Seq<char>,
    msg: Seq<char>,
)
    requires
        dispatch.announces(channels, level, part, time, msg),
    ensures
        dispatch.telegram is Some <==> channels.tg_token is Some && channels.tg_chat_id is Some,
        dispatch.slack is Some <==> channels.slack_webhook_url is Some,
        dispatch.telegram is Some ==> {
            let message = dispatch.telegram->0;
            &&& message.url@ == "https://api.telegram.org/bot"@ + channels.tg_token->0
                + "/sendMessage"@
            &&& message.chat_id@ == channels.tg_chat_id->0
            &&& message.text@ == crate::alert::telegram_text(level, part, time, msg)
        },
        dispatch.slack is Some ==> {
            let message = dispatch.slack->0;
            &&& message.url@ == channels.slack_webhook_url->0
            &&& message.text@ == crate::alert::slack_text(level, part, time, msg)
        },
{
}

/// A channel is set to what was given for it.
pub proof fn law_channel_is_set_as_given(setting: Option<&str>)
    ensures
        crate::alert::text_of(setting) is Some <==> setting is Some,
        setting is Some ==> crate::alert::text_of(setting)->0 == setting->0@,
{
}

} // verus!
