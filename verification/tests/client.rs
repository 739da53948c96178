use chatlib::codec::Message;
use chatlib::config::{
    client_config_default_username, server_config_default_hostname, server_config_default_port,
    ClientConfig, ServerConfig,
};
use chatlib::session::{handle_incoming, Client, InboundAction, InputAction, OutboundItem, Session};
use chatlib::text::{split_words, trim, u64_to_decimal};

fn test_client() -> Client {
    Client::new(ClientConfig {
        server: ServerConfig {
            port: server_config_default_port(),
            hostname: server_config_default_hostname(),
        },
        username: "alice".to_owned(),
    })
}

#[test]
fn test_command_text() {
    let source = test_client().message_from_command_line("some text").unwrap();
    assert_eq!(
        source,
        vec![OutboundItem::Ready(Message::Text("some text".to_owned()))]
    );
}

#[test]
fn test_command_text_one_word() {
    let source = test_client().message_from_command_line("some").unwrap();
    assert_eq!(
        source,
        vec![OutboundItem::Ready(Message::Text("some".to_owned()))]
    );
}

#[test]
fn command_file_yields_one_item_per_path() {
    // ".file a.txt b.txt" yields exactly two file items, in input order; the
    // named files' bytes then become the messages, contents unchanged.
    let items = test_client()
        .message_from_command_line(".file a.txt b.txt")
        .unwrap();
    assert_eq!(
        items,
        vec![
            OutboundItem::ReadFile("a.txt".to_owned()),
            OutboundItem::ReadFile("b.txt".to_owned()),
        ]
    );

    let contents_a = b"alpha".to_vec();
    let contents_b = b"bravo".to_vec();
    let msg_a = Message::new_file_message("a.txt", contents_a.clone());
    let msg_b = Message::new_file_message("b.txt", contents_b.clone());
    assert_eq!(msg_a, Message::File("a.txt".to_owned(), contents_a));
    assert_eq!(msg_b, Message::File("b.txt".to_owned(), contents_b));
}

#[test]
fn command_image_yields_one_item_per_path() {
    let items = test_client()
        .message_from_command_line(".image x.png y.png")
        .unwrap();
    assert_eq!(
        items,
        vec![
            OutboundItem::ReadImage("x.png".to_owned()),
            OutboundItem::ReadImage("y.png".to_owned()),
        ]
    );
}

#[test]
fn command_empty_line_is_an_error() {
    assert!(test_client().message_from_command_line("").is_err());
    assert!(test_client().message_from_command_line("   ").is_err());
}

#[test]
fn quit_token_sends_nothing_and_quits() {
    let client = test_client();
    assert_eq!(client.plan_input_line(".quit"), InputAction::Quit);
    assert_eq!(client.plan_input_line("  .quit  "), InputAction::Quit);
}

#[test]
fn blank_lines_are_ignored() {
    let client = test_client();
    assert_eq!(client.plan_input_line(""), InputAction::Ignore);
    assert_eq!(client.plan_input_line("   \t "), InputAction::Ignore);
}

#[test]
fn plain_line_becomes_one_text_message() {
    let client = test_client();
    assert_eq!(
        client.plan_input_line("hello world"),
        InputAction::Send(vec![OutboundItem::Ready(Message::Text(
            "hello world".to_owned()
        ))])
    );
}

#[test]
fn reconnect_after_write_failure_dials_once() {
    // A write failure clears the live connection; the next outgoing message
    // makes exactly one new dial attempt before it is sent.
    let mut session = Session::new();
    assert_eq!(session.dials_needed(), 1);

    let spawn = session.note_dial(true);
    assert!(spawn);
    assert_eq!(session.dials_needed(), 0);

    session.note_write(true);
    assert_eq!(session.dials_needed(), 0);

    session.note_write(false);
    assert!(!session.has_live());
    assert_eq!(session.dials_needed(), 1);

    let spawn_again = session.note_dial(true);
    assert!(spawn_again);
    assert_eq!(session.dials_needed(), 0);
}

#[test]
fn failed_dial_leaves_no_connection() {
    let mut session = Session::new();
    let spawn = session.note_dial(false);
    assert!(!spawn);
    assert_eq!(session.dials_needed(), 1);
}

#[test]
fn incoming_text_is_shown() {
    let action = handle_incoming(Message::Text("hi".to_owned()), 7);
    assert_eq!(action, InboundAction::ShowText("hi".to_owned()));
}

#[test]
fn incoming_file_is_saved_under_stamped_name() {
    let action = handle_incoming(Message::File("notes.txt".to_owned(), vec![7, 8]), 123);
    assert_eq!(
        action,
        InboundAction::SaveFile {
            file_name: "123-notes.txt".to_owned(),
            data: vec![7, 8],
        }
    );
}

#[test]
fn incoming_image_is_saved_as_png() {
    let action = handle_incoming(
        Message::Image("cat".to_owned(), "jpg".to_owned(), vec![1, 2, 3]),
        5,
    );
    assert_eq!(
        action,
        InboundAction::SaveImage {
            file_name: "5-cat.png".to_owned(),
            ext: "jpg".to_owned(),
            data: vec![1, 2, 3],
        }
    );
}

#[test]
fn incoming_image_with_unknown_format_is_rejected() {
    let action = handle_incoming(
        Message::Image("calendar".to_owned(), "ics".to_owned(), vec![1]),
        5,
    );
    assert_eq!(
        action,
        InboundAction::RejectImage { ext: "ics".to_owned() }
    );
}

#[test]
fn greeting_names_the_user() {
    let client = test_client();
    assert_eq!(
        client.greeting(),
        Message::Text("Hello from alice".to_owned())
    );
}

#[test]
fn server_config_defaults() {
    assert_eq!(server_config_default_port(), 11111);
    assert_eq!(server_config_default_hostname(), "localhost".to_owned());
    let config = ServerConfig {
        port: server_config_default_port(),
        hostname: server_config_default_hostname(),
    };
    assert_eq!(config.address(), "localhost:11111".to_owned());
}

#[test]
fn default_username_shape() {
    let name = client_config_default_username();
    assert_eq!(name.chars().count(), 10);
    assert!(name.starts_with("user-"));
    assert!(name.chars().skip(5).all(|c| c.is_ascii_alphanumeric()));
}

#[test]
fn decimal_rendering_exact() {
    assert_eq!(u64_to_decimal(0), "0".to_owned());
    assert_eq!(u64_to_decimal(11111), "11111".to_owned());
    assert_eq!(
        u64_to_decimal(u64::MAX),
        "18446744073709551615".to_owned()
    );
}

#[test]
fn words_and_trim() {
    assert_eq!(
        split_words("  a \t bb  "),
        vec!["a".to_owned(), "bb".to_owned()]
    );
    assert_eq!(split_words(""), Vec::<String>::new());
    assert_eq!(trim("  x y\t"), "x y".to_owned());
    assert_eq!(trim("   "), "".to_owned());
}
