use podaemon::cmd::{parse_cmd, parse_cmd_arg, Cmd, UpdateArgs};
use podaemon::state::Playable;

fn update_record(t: u64, p: u64) -> Playable {
    Playable {
        source: None,
        title: None,
        album: None,
        updated: Some(t),
        progress: Some(p),
        length: None,
    }
}

#[test]
fn bare_names_parse() {
    assert_eq!(parse_cmd("play"), Some(Cmd::Play));
    assert_eq!(parse_cmd("pause"), Some(Cmd::Pause));
    assert_eq!(parse_cmd("play_pause"), Some(Cmd::PlayPause));
    assert_eq!(parse_cmd("next"), Some(Cmd::Next));
    assert_eq!(parse_cmd("prev"), Some(Cmd::Prev));
    assert_eq!(parse_cmd("shutdown"), Some(Cmd::Shutdown));
}

#[test]
fn trailing_whitespace_is_ignored_on_bare_names() {
    assert_eq!(parse_cmd("play \t\r\n"), Some(Cmd::Play));
    assert_eq!(parse_cmd(" play"), None);
    assert_eq!(parse_cmd("Play"), None);
}

#[test]
fn seek_with_malformed_number_is_rejected() {
    assert_eq!(parse_cmd("seek(abc)"), None);
    assert_eq!(parse_cmd("seek(42)"), Some(Cmd::Seek(42)));
}

#[test]
fn seek_numbers_follow_integer_parsing() {
    assert_eq!(parse_cmd("seek(+7)"), Some(Cmd::Seek(7)));
    assert_eq!(parse_cmd("seek()"), None);
    assert_eq!(parse_cmd("seek(-1)"), None);
    assert_eq!(parse_cmd("seek(18446744073709551615)"), Some(Cmd::Seek(u64::MAX)));
    assert_eq!(parse_cmd("seek(18446744073709551616)"), None);
    assert_eq!(parse_cmd("seek(4 2)"), None);
}

#[test]
fn seek_relative_takes_signed_numbers() {
    assert_eq!(parse_cmd("seek_relative(-10)"), Some(Cmd::SeekRelative(-10)));
    assert_eq!(parse_cmd("seek_relative(10)"), Some(Cmd::SeekRelative(10)));
    assert_eq!(
        parse_cmd("seek_relative(-9223372036854775808)"),
        Some(Cmd::SeekRelative(i64::MIN))
    );
    assert_eq!(parse_cmd("seek_relative(9223372036854775808)"), None);
    assert_eq!(parse_cmd("seek_relative(-)"), None);
}

#[test]
fn queue_and_subscribe_take_the_argument_verbatim() {
    assert_eq!(
        parse_cmd("queue(file:///music/a (live).mp3)"),
        Some(Cmd::Queue("file:///music/a (live).mp3".to_string()))
    );
    assert_eq!(
        parse_cmd("subscribe(https://example.org/feed.xml)"),
        Some(Cmd::Subscribe("https://example.org/feed.xml".to_string()))
    );
    assert_eq!(parse_cmd("queue()"), Some(Cmd::Queue(String::new())));
}

#[test]
fn call_forms_need_a_final_parenthesis_and_a_known_name() {
    assert_eq!(parse_cmd("queue(x"), None);
    assert_eq!(parse_cmd("queue(x) "), None);
    assert_eq!(parse_cmd("seek"), None);
    assert_eq!(parse_cmd("rewind(4)"), None);
    assert_eq!(parse_cmd(""), None);
    assert_eq!(parse_cmd_arg("play"), None);
    assert_eq!(parse_cmd_arg("seek(3)"), Some(Cmd::Seek(3)));
}

#[test]
fn update_carries_timestamp_and_position() {
    assert_eq!(
        parse_cmd("update(http://x/ep.mp3,1700000000,42)"),
        Some(Cmd::Update(UpdateArgs(
            "http://x/ep.mp3".to_string(),
            update_record(1700000000, 42)
        )))
    );
    assert_eq!(
        parse_cmd("update(u,1,2,3)"),
        Some(Cmd::Update(UpdateArgs("u".to_string(), update_record(1, 2))))
    );
    assert_eq!(parse_cmd("update(u,1)"), None);
    assert_eq!(parse_cmd("update(u,x,2)"), None);
    assert_eq!(parse_cmd("update(u,1,x)"), None);
}

#[test]
fn update_args_parse_directly() {
    assert_eq!(
        UpdateArgs::parse("a,5,6"),
        Some(UpdateArgs("a".to_string(), update_record(5, 6)))
    );
    assert_eq!(
        UpdateArgs::parse(",0,0"),
        Some(UpdateArgs(String::new(), update_record(0, 0)))
    );
    assert_eq!(UpdateArgs::parse("a"), None);
    assert_eq!(UpdateArgs::parse("a,5"), None);
}

#[test]
fn update_line_is_written_and_read_back() {
    let line = UpdateArgs("http://h/e.mp3".to_string(), update_record(1234567890, 305)).to_cmd_string();
    assert_eq!(line, "update(http://h/e.mp3,1234567890,305)");
    assert_eq!(
        parse_cmd(&line),
        Some(Cmd::Update(UpdateArgs(
            "http://h/e.mp3".to_string(),
            update_record(1234567890, 305)
        )))
    );
    let empty = Playable {
        source: None,
        title: None,
        album: None,
        updated: None,
        progress: None,
        length: None,
    };
    assert_eq!(UpdateArgs("u".to_string(), empty).to_cmd_string(), "update(u,0,0)");
    assert_eq!(
        UpdateArgs("u".to_string(), update_record(u64::MAX, 10)).to_cmd_string(),
        "update(u,18446744073709551615,10)"
    );
}
