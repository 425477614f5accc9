use smelt::client::{acknowledge, client_channel_err, handle_client_resp};
use smelt::{
    ClientCommand, CommandOutput, Event, OtlErr, Polled, PyEventStream, Selection, TargetType,
};

fn finished() -> Event {
    Event::command_finished("a".to_string(), "t".to_string(), CommandOutput { exit_code: 0 })
}

fn line() -> Event {
    Event::command_stdout("a".to_string(), "t".to_string(), "x".to_string())
}

#[test]
fn requests_are_built_by_name() {
    assert_eq!(
        ClientCommand::send_graph("- name: a".to_string()),
        ClientCommand::SetGraph("- name: a".to_string())
    );
    assert_eq!(
        ClientCommand::execute_type("test".to_string()),
        ClientCommand::RunType("test".to_string())
    );
    assert_eq!(
        ClientCommand::execute_command("a".to_string()),
        ClientCommand::RunOne("a".to_string())
    );
    assert_eq!(
        ClientCommand::execute_many(vec!["a".to_string(), "b".to_string()]),
        ClientCommand::RunMany(vec!["a".to_string(), "b".to_string()])
    );
}

#[test]
fn a_request_selects_what_it_names() {
    assert_eq!(ClientCommand::send_graph("g".to_string()).selection().unwrap(), None);
    assert_eq!(
        ClientCommand::execute_type("Build".to_string()).selection().unwrap(),
        Some(Selection::Type(TargetType::Build))
    );
    assert_eq!(
        ClientCommand::execute_command("a".to_string()).selection().unwrap(),
        Some(Selection::One("a".to_string()))
    );
    assert_eq!(
        ClientCommand::execute_many(vec!["a".to_string(), "b".to_string()]).selection().unwrap(),
        Some(Selection::Many(vec!["a".to_string(), "b".to_string()]))
    );
    match ClientCommand::execute_type("nightly".to_string()).selection() {
        Err(OtlErr::BadTargetType(given)) => assert_eq!(given, "nightly"),
        other => panic!("unexpected: {:?}", other),
    }
}

#[test]
fn acknowledgements_carry_the_text_of_the_error() {
    assert_eq!(acknowledge(&Ok(())), Ok(()));
    assert_eq!(
        acknowledge(&Err(OtlErr::BadTargetType("x".to_string()))),
        Err("Invalid target type x".to_string())
    );
}

#[test]
fn answers_are_turned_into_results() {
    assert_eq!(handle_client_resp(Ok(Ok(()))), Ok(()));
    assert_eq!(
        handle_client_resp(Ok(Err("no such command".to_string()))),
        Err("Client command failed with error no such command".to_string())
    );
    assert_eq!(
        handle_client_resp(Err("channel closed".to_string())),
        Err("channel closed".to_string())
    );
    assert_eq!(client_channel_err(), "Channel error trying to send a command to the client");
}

#[test]
fn a_stream_is_done_after_a_finishing_event() {
    let mut stream = PyEventStream::create_subscriber();
    assert!(!stream.is_done());
    assert!(!stream.is_exhausted());
    assert_eq!(stream.pop_message_blocking(Some(line())), Ok(line()));
    assert!(!stream.is_done());
    assert_eq!(stream.pop_message_blocking(Some(finished())), Ok(finished()));
    assert!(stream.is_done());
    assert_eq!(stream.pop_message_blocking(Some(line())), Ok(line()));
    assert!(stream.is_done());
    assert!(!stream.is_exhausted());
    assert_eq!(stream.pop_message_blocking(None), Err("Event channel closed".to_string()));
    assert!(stream.is_done());
    assert!(stream.is_exhausted());
}

#[test]
fn polling_tells_empty_from_closed() {
    let mut stream = PyEventStream::create_subscriber();
    assert_eq!(stream.nonblocking_pop(Polled::Empty), Ok(None));
    assert!(!stream.is_done());
    assert!(!stream.is_exhausted());
    assert_eq!(stream.nonblocking_pop(Polled::Message(line())), Ok(Some(line())));
    assert!(!stream.is_done());
    assert_eq!(stream.nonblocking_pop(Polled::Message(finished())), Ok(Some(finished())));
    assert!(stream.is_done());
    assert_eq!(stream.nonblocking_pop(Polled::Empty), Ok(None));
    assert!(stream.is_done());
    assert_eq!(stream.nonblocking_pop(Polled::Closed), Err("Event channel closed".to_string()));
    assert!(stream.is_exhausted());
}

#[test]
fn set_done_only_ever_sets() {
    let mut stream = PyEventStream::create_subscriber();
    stream.set_done(&line());
    assert!(!stream.is_done());
    stream.set_done(&finished());
    assert!(stream.is_done());
    stream.set_done(&line());
    assert!(stream.is_done());
}
