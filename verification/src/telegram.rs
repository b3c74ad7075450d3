//! Notices to a Telegram chat, and commands from it.
//!
//! The notifier makes the requests and reads the responses; its owner carries
//! them to and from the service.
use vstd::prelude::*;

use crate::config::TelegramConfig;
use crate::text::{
    before, first_word, followed_by, law_before_mark, law_blank_has_no_word, law_first_word,
    parse_i64, same, text_before, white_space, word_at_start, written_i64, written_integer,
};

verus! {

/// A command to the bot.
#[derive(Clone, Copy, Debug, PartialEq, Eq, Structural)]
pub enum TelegramCommand {
    Start,
    Stop,
    Restart,
}

/// The access to a chat.
#[derive(Clone)]
struct TelegramInner {
    bot_token: String,
    chat_id: String,
}

/// Where an enabled notifier sends to.
pub struct Access {
    pub bot_token: Seq<char>,
    pub chat_id: Seq<char>,
}

/// Sends notices to a chat and takes commands from it, or does nothing where it
/// is not enabled.
#[derive(Clone)]
pub struct TelegramNotifier {
    inner: Option<TelegramInner>,
}

/// A notice.
#[derive(Debug)]
pub struct TelegramMessage {
    pub chat_id: String,
    pub text: String,
}

/// A question for new messages.
#[derive(Debug)]
pub struct TelegramGetUpdatesRequest {
    pub offset: Option<i64>,
    pub timeout: u64,
    pub allowed_updates: Vec<String>,
}

/// A chat that a message has come from.
#[derive(Debug)]
pub struct TelegramIncomingChat {
    pub id: i64,
}

/// A message that has come.
#[derive(Debug)]
pub struct TelegramIncomingMessage {
    pub text: Option<String>,
    pub chat: TelegramIncomingChat,
}

/// News of a chat.
#[derive(Debug)]
pub struct TelegramUpdate {
    pub update_id: i64,
    pub message: Option<TelegramIncomingMessage>,
}

/// The answer to a question for new messages.
#[derive(Debug)]
pub struct TelegramGetUpdatesResponse {
    pub ok: bool,
    pub result: Vec<TelegramUpdate>,
}

/// The command of a name.
pub open spec fn command_of_name(name: Seq<char>) -> Option<TelegramCommand> {
    if name == "/start"@ {
        Some(TelegramCommand::Start)
    } else if name == "/stop"@ {
        Some(TelegramCommand::Stop)
    } else if name == "/restart"@ {
        Some(TelegramCommand::Restart)
    } else {
        None
    }
}

/// The command of a word: what stands before an `@` names it.
pub open spec fn command_of_word(word: Seq<char>) -> Option<TelegramCommand> {
    command_of_name(before(word, '@'))
}

/// The command of a text: its first word gives it.
pub open spec fn command_of(text: Seq<char>) -> Option<TelegramCommand> {
    match first_word(text) {
        Some(word) => command_of_word(word),
        None => None,
    }
}

/// The command of an update: that of a text from the expected chat.
pub open spec fn command_in(update: TelegramUpdate, chat: i64) -> Option<TelegramCommand> {
    match update.message {
        Some(message) => if message.chat.id == chat {
            match message.text {
                Some(text) => command_of(text@),
                None => None,
            }
        } else {
            None
        },
        None => None,
    }
}

/// The commands of some updates, each with the number of its update, in their
/// order.
pub open spec fn commands_in(updates: Seq<TelegramUpdate>, chat: i64) -> Seq<
    (i64, TelegramCommand),
>
    decreases updates.len(),
{
    if updates.len() == 0 {
        Seq::empty()
    } else {
        let earlier = commands_in(updates.drop_last(), chat);
        match command_in(updates.last(), chat) {
            Some(command) => earlier.push((updates.last().update_id, command)),
            None => earlier,
        }
    }
}

/// The command of a word: what stands before an `@` names it.
pub fn parse_command_word(word: &str) -> (r: Option<TelegramCommand>)
    ensures
        r == command_of_word(word@),
{
    let name: String = text_before(word, '@');
    if same(name.as_str(), "/start") {
        Some(TelegramCommand::Start)
    } else if same(name.as_str(), "/stop") {
        Some(TelegramCommand::Stop)
    } else if same(name.as_str(), "/restart") {
        Some(TelegramCommand::Restart)
    } else {
        None
    }
}

/// The command of a text: its first word gives it.
pub fn parse_command(text: &str) -> (r: Option<TelegramCommand>)
    ensures
        r == command_of(text@),
{
    match word_at_start(text) {
        Some(word) => parse_command_word(word.as_str()),
        None => None,
    }
}

impl View for TelegramNotifier {
    type V = Option<Access>;

    closed spec fn view(&self) -> Option<Access> {
        match self.inner {
            Some(inner) => Some(
                Access { bot_token: inner.bot_token@, chat_id: inner.chat_id@ },
            ),
            None => None,
        }
    }
}

/// The address of a method of the service.
pub open spec fn method_address(bot_token: Seq<char>, method: Seq<char>) -> Seq<char> {
    "https://api.telegram.org/bot"@ + bot_token + method
}

fn method_url(bot_token: &str, method: &str) -> (r: String)
    ensures
        r@ == method_address(bot_token@, method@),
{
    let base: String = followed_by("https://api.telegram.org/bot", bot_token);
    followed_by(base.as_str(), method)
}

impl TelegramNotifier {
    /// The notifier of a configuration: enabled where that says so.
    pub fn from_config(config: Option<TelegramConfig>) -> (r: Self)
        ensures
            r@ == (match config {
                Some(cfg) => if cfg.enabled {
                    Some(Access { bot_token: cfg.bot_token@, chat_id: cfg.chat_id@ })
                } else {
                    None
                },
                None => None,
            }),
    {
        match config {
            Some(cfg) => if cfg.enabled {
                TelegramNotifier {
                    inner: Some(
                        TelegramInner { bot_token: cfg.bot_token, chat_id: cfg.chat_id },
                    ),
                }
            } else {
                TelegramNotifier { inner: None }
            },
            None => TelegramNotifier { inner: None },
        }
    }

    /// The request that sends a notice: its address and its body.
    pub fn send(&self, message: String) -> (r: Option<(String, TelegramMessage)>)
        ensures
            match self@ {
                Some(access) => r matches Some((url, body)) && url@ == method_address(
                    access.bot_token,
                    "/sendMessage"@,
                ) && url@ == "https://api.telegram.org/bot"@ + access.bot_token
                    + "/sendMessage"@ && body.chat_id@ == access.chat_id && body.text@ == message@,
                None => r is None,
            },
    {
        match &self.inner {
            Some(inner) => Some(
                (
                    method_url(inner.bot_token.as_str(), "/sendMessage"),
                    TelegramMessage { chat_id: inner.chat_id.clone(), text: message },
                ),
            ),
            None => None,
        }
    }

    /// The request that asks for new messages: its address and its body.
    pub fn updates_request(&self, offset: Option<i64>, timeout_seconds: u64) -> (r: Option<
        (String, TelegramGetUpdatesRequest),
    >)
        ensures
            match self@ {
                Some(access) => r matches Some((url, body)) && url@ == method_address(
                    access.bot_token,
                    "/getUpdates"@,
                ) && url@ == "https://api.telegram.org/bot"@ + access.bot_token
                    + "/getUpdates"@ && body.offset == offset && body.timeout == timeout_seconds
                    && body.allowed_updates@.len() == 1 && body.allowed_updates@[0]@ == "message"@,
                None => r is None,
            },
    {
        match &self.inner {
            Some(inner) => {
                let mut allowed_updates: Vec<String> = Vec::new();
                allowed_updates.push("message".to_owned());
                Some(
                    (
                        method_url(inner.bot_token.as_str(), "/getUpdates"),
                        TelegramGetUpdatesRequest {
                            offset,
                            timeout: timeout_seconds,
                            allowed_updates,
                        },
                    ),
                )
            },
            None => None,
        }
    }

    /// The commands in the answer to a question for new messages: those of the
    /// chat of the notifier. There are none where it is not enabled, the answer
    /// is a refusal, or its chat has no number.
    pub fn poll_commands(&self, body: &TelegramGetUpdatesResponse) -> (r: Vec<
        (i64, TelegramCommand),
    >)
        ensures
            r@ == commands_for(self@, body.ok, body.result@),
    {
        let chat: i64 = match &self.inner {
            Some(inner) => match parse_i64(inner.chat_id.as_str()) {
                Some(chat) => chat,
                None => {
                    return Vec::new();
                },
            },
            None => {
                return Vec::new();
            },
        };
        let mut commands: Vec<(i64, TelegramCommand)> = Vec::new();
        if !body.ok {
            return commands;
        }
        let mut i: usize = 0;
        while i < body.result.len()
            invariant
                i <= body.result@.len(),
                commands@ == commands_in(body.result@.take(i as int), chat),
            decreases body.result.len() - i,
        {
            let update = &body.result[i];
            proof {
                let now = body.result@.take(i + 1);
                assert(now.drop_last() =~= body.result@.take(i as int));
                assert(now.last() == *update);
            }
            if let Some(message) = &update.message {
                if message.chat.id == chat {
                    if let Some(text) = &message.text {
                        if let Some(command) = parse_command(text.as_str()) {
                            commands.push((update.update_id, command));
                        }
                    }
                }
            }
            i = i + 1;
        }
        assert(body.result@.take(i as int) =~= body.result@);
        commands
    }
}

impl Default for TelegramNotifier {
    fn default() -> (r: Self)
        ensures
            r@ is None,
    {
        TelegramNotifier { inner: None }
    }
}

/// The commands that a notifier takes from an answer.
pub open spec fn commands_for(
    access: Option<Access>,
    ok: bool,
    updates: Seq<TelegramUpdate>,
) -> Seq<(i64, TelegramCommand)> {
    match access {
        Some(access) => match written_i64(access.chat_id) {
            Some(chat) => if ok {
                commands_in(updates, chat)
            } else {
                Seq::empty()
            },
            None => Seq::empty(),
        },
        None => Seq::empty(),
    }
}

/// Every command comes from a text of the expected chat, in an update of its
/// number.
pub proof fn law_commands_come_from_the_chat(updates: Seq<TelegramUpdate>, chat: i64, i: int)
    requires
        0 <= i < commands_in(updates, chat).len(),
    ensures
        exists|j: int|
            0 <= j < updates.len() && commands_in(updates, chat)[i] == (
                (#[trigger] updates[j]).update_id,
                command_in(updates[j], chat)->0,
            ) && command_in(updates[j], chat) is Some,
    decreases updates.len(),
{
    let rest = updates.drop_last();
    let earlier = commands_in(rest, chat);
    if i < earlier.len() {
        law_commands_come_from_the_chat(rest, chat, i);
        let j = choose|j: int|
            0 <= j < rest.len() && earlier[i] == (
                (#[trigger] rest[j]).update_id,
                command_in(rest[j], chat)->0,
            ) && command_in(rest[j], chat) is Some;
        assert(updates[j] == rest[j]);
    } else {
        assert(updates[updates.len() - 1] == updates.last());
    }
}

/// Commands keep the order of their updates: the commands of two lists of
/// updates, one after the other, are those of the first and then those of the
/// second.
pub proof fn law_commands_keep_order(
    first: Seq<TelegramUpdate>,
    second: Seq<TelegramUpdate>,
    chat: i64,
)
    ensures
        commands_in(first + second, chat) == commands_in(first, chat) + commands_in(second, chat),
    decreases second.len(),
{
    if second.len() == 0 {
        assert(first + second =~= first);
        assert(commands_in(first, chat) + commands_in(second, chat) =~= commands_in(first, chat));
    } else {
        law_commands_keep_order(first, second.drop_last(), chat);
        assert((first + second).drop_last() =~= first + second.drop_last());
        assert((first + second).last() == second.last());
        assert(commands_in(first + second, chat) =~= commands_in(first, chat) + commands_in(
            second,
            chat,
        ));
    }
}

/// The name of the bot behind an `@` does not change the command of a word.
pub proof fn law_bot_name_is_ignored(name: Seq<char>, bot: Seq<char>)
    requires
        !name.contains('@'),
    ensures
        command_of_word(name + seq!['@'] + bot) == command_of_name(name),
        command_of_word(name) == command_of_name(name),
{
    law_before_mark(name, '@', bot);
}

/// An update whose message comes from the chat of an enabled notifier, whatever the
/// number of that chat is, gives the command of its text, with its own number, where
/// the text is a command. Every other update gives nothing: one without a message,
/// from another chat, or without a text.
pub proof fn law_command_of_the_chat_is_taken(access: Access, update: TelegramUpdate, chat: i64)
    requires
        written_integer(access.chat_id) == Some(chat as int),
    ensures
        update.message matches Some(message) && message.chat.id == chat && (
        message.text matches Some(text) && command_of(text@) is Some) ==> commands_for(
            Some(access),
            true,
            seq![update],
        ) == seq![(update.update_id, command_of(update.message->0.text->0@)->0)],
        !(update.message matches Some(message) && message.chat.id == chat && (
        message.text matches Some(text) && command_of(text@) is Some)) ==> commands_for(
            Some(access),
            true,
            seq![update],
        ) == Seq::<(i64, TelegramCommand)>::empty(),
{
    reveal_with_fuel(commands_in, 2);
    assert(seq![update].drop_last() =~= Seq::<TelegramUpdate>::empty());
    assert(seq![update].last() == update);
    if let Some(message) = update.message {
        if message.chat.id == chat {
            if let Some(text) = message.text {
                if let Some(command) = command_of(text@) {
                    assert(commands_for(Some(access), true, seq![update]) =~= seq![
                        (update.update_id, command),
                    ]);
                }
            }
        }
    }
}

/// What a notifier takes from two lists of updates, one after the other, is what it
/// takes from the first and then what it takes from the second.
pub proof fn law_answers_add_up(
    access: Option<Access>,
    ok: bool,
    first: Seq<TelegramUpdate>,
    second: Seq<TelegramUpdate>,
)
    ensures
        commands_for(access, ok, first + second) == commands_for(access, ok, first)
            + commands_for(access, ok, second),
        commands_for(access, ok, Seq::empty()) == Seq::<(i64, TelegramCommand)>::empty(),
{
    let none = Seq::<(i64, TelegramCommand)>::empty();
    assert(none + none =~= none);
    if let Some(access) = access {
        if let Some(chat) = written_i64(access.chat_id) {
            law_commands_keep_order(first, second, chat);
        }
    }
}

/// A refusal gives no commands, nor does any answer to a notifier that is not
/// enabled or whose chat has no number of 64 bits.
pub proof fn law_no_commands_without_access(
    access: Option<Access>,
    ok: bool,
    updates: Seq<TelegramUpdate>,
)
    requires
        !ok || access is None || (match written_integer(access->0.chat_id) {
            Some(n) => !(i64::MIN <= n <= i64::MAX),
            None => true,
        }),
    ensures
        commands_for(access, ok, updates) == Seq::<(i64, TelegramCommand)>::empty(),
{
}

/// A text is the command that its first word names, in full and with nothing else
/// but the name of a bot behind an `@`: white space may stand before the word, and
/// anything behind the white space that ends it. There are three names.
pub proof fn law_texts_of_commands(
    lead: Seq<char>,
    name: Seq<char>,
    bot: Seq<char>,
    tail: Seq<char>,
)
    requires
        forall|i: int| 0 <= i < lead.len() ==> white_space(#[trigger] lead[i]),
        name.len() > 0,
        !name.contains('@'),
        bot.len() > 0 ==> bot[0] == '@',
        forall|i: int| 0 <= i < name.len() ==> !white_space(#[trigger] name[i]),
        forall|i: int| 0 <= i < bot.len() ==> !white_space(#[trigger] bot[i]),
        tail.len() > 0 ==> white_space(tail[0]),
    ensures
        command_of(lead + (name + bot) + tail) == Some(TelegramCommand::Start) <==> name
            == "/start"@,
        command_of(lead + (name + bot) + tail) == Some(TelegramCommand::Stop) <==> name
            == "/stop"@,
        command_of(lead + (name + bot) + tail) == Some(TelegramCommand::Restart) <==> name
            == "/restart"@,
        command_of(lead) is None,
{
    reveal_strlit("/start");
    reveal_strlit("/stop");
    reveal_strlit("/restart");
    let word = name + bot;
    assert forall|i: int| 0 <= i < word.len() implies !white_space(#[trigger] word[i]) by {
        if i < name.len() {
            assert(word[i] == name[i]);
        } else {
            assert(word[i] == bot[i - name.len()]);
        }
    }
    law_first_word(lead, word, tail);
    law_blank_has_no_word(lead);
    if bot.len() > 0 {
        assert(word =~= name + seq!['@'] + bot.drop_first());
        law_before_mark(name, '@', bot.drop_first());
    } else {
        assert(word =~= name);
        law_before_mark(name, '@', bot);
    }
    assert("/start"@.len() == 6 && "/stop"@.len() == 5 && "/restart"@.len() == 8);
}

} // verus!
