use rioterm::ansi::Log;

fn text(log: &Log) -> String {
    log.message.iter().collect()
}

#[test]
fn test_log_print_appends() {
    let mut log = Log::new();
    log.print('h');
    log.print('i');
    assert_eq!(text(&log), "hi");
}

#[test]
fn test_log_execute_backspace() {
    let mut log = Log::new();
    log.print('a');
    log.print('b');
    log.execute(0x08);
    assert_eq!(text(&log), "a");

    // backspace on an empty buffer does nothing
    let mut empty = Log::new();
    empty.execute(0x08);
    assert_eq!(text(&empty), "");
}

#[test]
fn test_log_execute_line_feed_and_others() {
    let mut log = Log::new();
    log.print('a');
    log.execute(0x0a);
    assert_eq!(text(&log), "a\n");

    // a tab or any other control byte leaves the buffer alone
    log.execute(0x09);
    log.execute(0x07);
    assert_eq!(text(&log), "a\n");
}

#[test]
fn test_log_csi_erase_display_clears() {
    let mut log = Log::new();
    log.print('a');
    log.print('b');

    // an erase sequence with a single parameter is ignored
    log.csi_dispatch(1, 'J');
    assert_eq!(text(&log), "ab");

    // another final byte is ignored even with many parameters
    log.csi_dispatch(3, 'K');
    assert_eq!(text(&log), "ab");

    // erase-in-display with more than one parameter clears everything
    log.csi_dispatch(2, 'J');
    assert_eq!(text(&log), "");
}
