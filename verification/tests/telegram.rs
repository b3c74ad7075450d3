use market_maker::config::TelegramConfig;
use market_maker::telegram::{
    parse_command, parse_command_word, TelegramCommand, TelegramGetUpdatesResponse,
    TelegramIncomingChat, TelegramIncomingMessage, TelegramNotifier, TelegramUpdate,
};

fn notifier(chat_id: &str, enabled: bool) -> TelegramNotifier {
    TelegramNotifier::from_config(Some(TelegramConfig {
        enabled,
        bot_token: "t".to_string(),
        chat_id: chat_id.to_string(),
    }))
}

fn update(update_id: i64, chat: i64, text: Option<&str>) -> TelegramUpdate {
    TelegramUpdate {
        update_id,
        message: Some(TelegramIncomingMessage {
            text: text.map(|t| t.to_string()),
            chat: TelegramIncomingChat { id: chat },
        }),
    }
}

fn answer(ok: bool) -> TelegramGetUpdatesResponse {
    TelegramGetUpdatesResponse {
        ok,
        result: vec![
            update(1, 42, Some("/start")),
            update(2, 7, Some("/stop")),
            update(3, 42, None),
            TelegramUpdate { update_id: 4, message: None },
            update(5, 42, Some("hello")),
            update(6, 42, Some("  /restart@maker_bot now")),
            update(7, 42, Some("/stop")),
        ],
    }
}

#[test]
fn commands_are_read_from_the_first_word() {
    assert_eq!(parse_command("/start"), Some(TelegramCommand::Start));
    assert_eq!(parse_command("/stop please"), Some(TelegramCommand::Stop));
    assert_eq!(parse_command(" \t/restart\n"), Some(TelegramCommand::Restart));
    assert_eq!(parse_command("\u{3000}/stop"), Some(TelegramCommand::Stop));
    assert_eq!(parse_command("please /stop"), None);
    assert_eq!(parse_command("/Start"), None);
    assert_eq!(parse_command("start"), None);
    assert_eq!(parse_command(""), None);
    assert_eq!(parse_command("   "), None);
}

#[test]
fn the_name_of_the_bot_is_ignored() {
    assert_eq!(parse_command("/start@bot"), Some(TelegramCommand::Start));
    assert_eq!(parse_command_word("/stop@a@b"), Some(TelegramCommand::Stop));
    assert_eq!(parse_command_word("/stop"), Some(TelegramCommand::Stop));
    assert_eq!(parse_command("@/start"), None);
}

#[test]
fn commands_of_the_chat_keep_their_order() {
    let commands = notifier("42", true).poll_commands(&answer(true));
    assert_eq!(
        commands,
        vec![
            (1, TelegramCommand::Start),
            (6, TelegramCommand::Restart),
            (7, TelegramCommand::Stop),
        ]
    );
    let others = notifier("+7", true).poll_commands(&answer(true));
    assert_eq!(others, vec![(2, TelegramCommand::Stop)]);
}

#[test]
fn no_commands_without_access() {
    assert!(notifier("42", true).poll_commands(&answer(false)).is_empty());
    assert!(notifier("42", false).poll_commands(&answer(true)).is_empty());
    assert!(notifier("@channel", true).poll_commands(&answer(true)).is_empty());
    assert!(notifier("9223372036854775808", true).poll_commands(&answer(true)).is_empty());
    assert!(TelegramNotifier::from_config(None).poll_commands(&answer(true)).is_empty());
    assert!(TelegramNotifier::default().poll_commands(&answer(true)).is_empty());
}

#[test]
fn requests_carry_token_and_chat() {
    let (url, body) = notifier("42", true).send("hi".to_string()).unwrap();
    assert_eq!(url, "https://api.telegram.org/bott/sendMessage");
    assert_eq!((body.chat_id.as_str(), body.text.as_str()), ("42", "hi"));
    let (url, body) = notifier("42", true).updates_request(Some(9), 30).unwrap();
    assert_eq!(url, "https://api.telegram.org/bott/getUpdates");
    assert_eq!((body.offset, body.timeout), (Some(9), 30));
    assert_eq!(body.allowed_updates, vec!["message".to_string()]);
    assert!(notifier("42", false).send("hi".to_string()).is_none());
    assert!(TelegramNotifier::default().updates_request(None, 1).is_none());
}
