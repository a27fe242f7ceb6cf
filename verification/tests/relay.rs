use multicliprelay::message::{Kind, Message};
use multicliprelay::relay::{
    conn_id_of, parse_command, rand_conn_id, Command, Connection, Member, Rooms,
};

fn args(a: &[&str]) -> Vec<String> {
    a.iter().map(|s| s.to_string()).collect()
}

#[test]
fn the_last_address_wins() {
    assert!(matches!(parse_command(None, &args(&[])), Command::Listen(a) if a == "127.0.0.1:8080"));
    assert!(matches!(
        parse_command(Some("0.0.0.0:1".to_string()), &args(&[])),
        Command::Listen(a) if a == "0.0.0.0:1"
    ));
    assert!(matches!(
        parse_command(None, &args(&["--bind", "a:1", "--addr", "b:2"])),
        Command::Listen(a) if a == "b:2"
    ));
}

#[test]
fn wrong_arguments_are_told() {
    assert!(matches!(parse_command(None, &args(&["--bind"])), Command::MissingValue(a) if a == "--bind"));
    assert!(matches!(parse_command(None, &args(&["-h", "--x"])), Command::Help));
    assert!(matches!(parse_command(None, &args(&["--x", "-h"])), Command::Unknown(a) if a == "--x"));
}

fn text(room: &str) -> Message {
    Message::text_at("id".to_string(), 1, "dev", room, "hi")
}

fn member(n: u64) -> Member {
    Member { conn: n, channel: n + 100 }
}

#[test]
fn messages_go_to_the_others_in_the_room() {
    let mut rooms = Rooms::new();
    let mut a = Connection::new(member(1));
    let mut b = Connection::new(member(2));
    let mut c = Connection::new(member(3));
    let join = Message::join_at("j".to_string(), 1, "d", "red");
    assert_eq!(a.on_message(&mut rooms, &join, &vec![]), vec![]);
    assert_eq!(b.on_message(&mut rooms, &join, &vec![]), vec![]);
    assert_eq!(c.on_message(&mut rooms, &text("blue"), &vec![]), vec![]);
    assert_eq!(rooms.members("red"), vec![member(1), member(2)]);
    assert_eq!(a.on_message(&mut rooms, &text("red"), &vec![]), vec![102]);
    assert_eq!(b.on_message(&mut rooms, &text("red"), &vec![]), vec![101]);
    // the room of the first message is the one that counts for joining
    assert_eq!(a.on_message(&mut rooms, &text("blue"), &vec![]), vec![103]);
    assert_eq!(rooms.members("blue"), vec![member(3)]);
    assert_eq!(a.room.as_deref(), Some("red"));
}

#[test]
fn closed_channels_are_dropped() {
    let mut rooms = Rooms::new();
    let mut a = Connection::new(member(1));
    let mut b = Connection::new(member(2));
    let mut c = Connection::new(member(3));
    for m in [&mut a, &mut b, &mut c] {
        m.on_message(&mut rooms, &text("r"), &vec![]);
    }
    assert_eq!(a.on_message(&mut rooms, &text("r"), &vec![102]), vec![103]);
    assert_eq!(rooms.members("r"), vec![member(1), member(3)]);
    c.on_end(&mut rooms, &vec![103]);
    assert_eq!(rooms.members("r"), vec![member(1)]);
    a.on_end(&mut rooms, &vec![101]);
    assert_eq!(rooms.members("r"), vec![]);
}

#[test]
fn a_join_is_not_passed_on() {
    let mut rooms = Rooms::new();
    let mut a = Connection::new(member(1));
    let mut b = Connection::new(member(2));
    a.on_message(&mut rooms, &text("r"), &vec![]);
    let join = Message::join_at("j".to_string(), 1, "d", "r");
    assert_eq!(join.kind, Kind::Join);
    assert_eq!(b.on_message(&mut rooms, &join, &vec![]), vec![]);
    assert_eq!(rooms.members("r").len(), 2);
}

#[test]
fn connection_ids_come_from_the_clock() {
    assert_eq!(conn_id_of(Some(5)), conn_id_of(Some(5)));
    assert_ne!(conn_id_of(Some(5)), conn_id_of(Some(6)));
    let _ = rand_conn_id();
}
