use smelt::output::EXIT_CODE_UNAVAILABLE;
use smelt::CommandOutput;

#[test]
fn status_record_of_zero_passes_after_round_trip() {
    let written = CommandOutput { exit_code: 0 }.to_status_bytes();
    assert_eq!(written, b"{\"exit_code\":0}".to_vec());
    let read = CommandOutput::from_status_bytes(&written).unwrap();
    assert!(read.passed());
}

#[test]
fn status_record_of_one_fails_after_round_trip() {
    let written = CommandOutput { exit_code: 1 }.to_status_bytes();
    assert_eq!(written, b"{\"exit_code\":1}".to_vec());
    let read = CommandOutput::from_status_bytes(&written).unwrap();
    assert_eq!(read, CommandOutput { exit_code: 1 });
    assert!(!read.passed());
}

#[test]
fn status_record_round_trips_at_the_limits() {
    for code in [i32::MIN, -555, -1, 0, 7, 10, 99, 100, 2147483646, i32::MAX] {
        let output = CommandOutput { exit_code: code };
        let read = CommandOutput::from_status_bytes(&output.to_status_bytes());
        assert_eq!(read, Some(output));
    }
}

#[test]
fn status_record_is_written_in_decimal() {
    assert_eq!(
        CommandOutput { exit_code: -555 }.to_status_bytes(),
        b"{\"exit_code\":-555}".to_vec()
    );
    assert_eq!(
        CommandOutput { exit_code: i32::MIN }.to_status_bytes(),
        b"{\"exit_code\":-2147483648}".to_vec()
    );
    assert_eq!(
        CommandOutput { exit_code: 1203 }.to_status_bytes(),
        b"{\"exit_code\":1203}".to_vec()
    );
}

#[test]
fn status_record_may_hold_whitespace() {
    let read = CommandOutput::from_status_bytes(b" \t{\n \"exit_code\" :\r 42 } \n");
    assert_eq!(read, Some(CommandOutput { exit_code: 42 }));
}

#[test]
fn what_is_no_status_record_is_not_read() {
    let bad: [&[u8]; 16] = [
        b"",
        b"{}",
        b"{\"exit_code\":}",
        b"{\"exit_code\":01}",
        b"{\"exit_code\":-0}",
        b"{\"exit_code\":-}",
        b"{\"exit_code\":2147483648}",
        b"{\"exit_code\":-2147483649}",
        b"{\"exit_code\":99999999999999999999999999}",
        b"{\"exit_code\":1.0}",
        b"{\"exit_code\":1} x",
        b"{\"exit_code\":1",
        b"{\"status_code\":1}",
        b"\"exit_code\":1}",
        b"{\"exit_code\" 1}",
        b"{\"exit_code\":1 2}",
    ];
    for text in bad {
        assert_eq!(CommandOutput::from_status_bytes(text), None);
    }
}

#[test]
fn a_process_without_exit_code_gets_the_sentinel() {
    assert_eq!(EXIT_CODE_UNAVAILABLE, -555);
    assert_eq!(CommandOutput::from_exit_status(None).exit_code, -555);
    assert_eq!(CommandOutput::from_exit_status(Some(3)).exit_code, 3);
    assert!(!CommandOutput::from_exit_status(None).passed());
    assert!(CommandOutput::from_exit_status(Some(0)).passed());
}
