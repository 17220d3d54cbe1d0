use polytect::dev_kmsg_reader::{DevKMsgReader, KMsgParsingError, KMsgReaderConfig};
use polytect::kmsg::{KMsg, LogFacility, LogLevel};
use timeout_iterator::synchronous::TimeoutIterator;

const REALISTIC_MESSAGE: &str = r"
5,0,0,-;Linux version 4.14.131-linuxkit (root@6d384074ad24) (gcc version 8.3.0 (Alpine 8.3.0)) #1 SMP Fri Jul 19 12:31:17 UTC 2019
6,1,0,-;Command, line: BOOT_IMAGE=/boot/kernel console=ttyS0 console=ttyS1 page_poison=1 vsyscall=emulate panic=1 root=/dev/sr0 text
6,2,0,-;x86/fpu: Supporting XSAVE feature 0x001: 'x87 floating point registers'
6,3,0,-,more,deets;x86/fpu: Supporting XSAVE; feature 0x002: 'SSE registers'";

fn reader_over(text: &str, from_sequence_number: u64) -> DevKMsgReader {
    let lines: Vec<String> = text.lines().map(|l| l.to_owned()).collect();
    let source = TimeoutIterator::with_iter(lines.into_iter()).unwrap();
    DevKMsgReader::with_lines_iterator(
        KMsgReaderConfig {
            from_sequence_number,
            flush_timeout_millis: 1000,
        },
        source,
        3,
        0,
    )
}

/// Steps the reader until it yields a record or the source ends.
fn next_record(reader: &mut DevKMsgReader) -> Option<KMsg> {
    loop {
        match reader.poll() {
            Ok(Some(k)) => return Some(k),
            Ok(None) => {}
            Err(KMsgParsingError::Completed) => return None,
            Err(_) => {}
        }
    }
}

fn record(facility: LogFacility, level: LogLevel, timestamp: i128, message: &str) -> KMsg {
    KMsg {
        facility,
        level,
        timestamp,
        message: String::from(message),
    }
}

#[test]
fn can_parse_kmsg_entries() {
    let mut iter = reader_over(REALISTIC_MESSAGE, 0);
    let start = iter.system_start_time() as i128;

    let maybe_entry = next_record(&mut iter);
    assert!(maybe_entry.is_some());
    assert_eq!(maybe_entry.unwrap(), record(LogFacility::Kern, LogLevel::Notice, start, "Linux version 4.14.131-linuxkit (root@6d384074ad24) (gcc version 8.3.0 (Alpine 8.3.0)) #1 SMP Fri Jul 19 12:31:17 UTC 2019"));

    let maybe_entry = next_record(&mut iter);
    assert!(maybe_entry.is_some());
    assert_eq!(maybe_entry.unwrap(), record(LogFacility::Kern, LogLevel::Info, start, "Command, line: BOOT_IMAGE=/boot/kernel console=ttyS0 console=ttyS1 page_poison=1 vsyscall=emulate panic=1 root=/dev/sr0 text"));

    let maybe_entry = next_record(&mut iter);
    assert!(maybe_entry.is_some());
    assert_eq!(
        maybe_entry.unwrap(),
        record(
            LogFacility::Kern,
            LogLevel::Info,
            start,
            "x86/fpu: Supporting XSAVE feature 0x001: 'x87 floating point registers'"
        )
    );

    let maybe_entry = next_record(&mut iter);
    assert!(maybe_entry.is_some());
    assert_eq!(
        maybe_entry.unwrap(),
        record(
            LogFacility::Kern,
            LogLevel::Info,
            start,
            "x86/fpu: Supporting XSAVE; feature 0x002: 'SSE registers'"
        )
    );
}

#[test]
fn can_parse_kmsg_entries_from_sequence_number() {
    let mut iter = reader_over(REALISTIC_MESSAGE, 3);
    let start = iter.system_start_time() as i128;

    let maybe_entry = next_record(&mut iter);
    assert!(maybe_entry.is_some());
    assert_eq!(
        maybe_entry.unwrap(),
        record(
            LogFacility::Kern,
            LogLevel::Info,
            start,
            "x86/fpu: Supporting XSAVE; feature 0x002: 'SSE registers'"
        )
    );
}

#[test]
fn can_parse_kmsg_entries_with_bad_line() {
    let text = r"
5,0,bad!!!n 4.14.131-linuxkit (root@6d384074ad24) (gcc version 8.3.0 (Alpine 8.3.0)) #1 SMP Fri Jul 19 12:31:17 UTC 2019
6,1,0,-;Command, line: BOOT_IMAGE=/boot/kernel console=ttyS0 console=ttyS1 page_poison=1 vsyscall=emulate panic=1 root=/dev/sr0 text
6,bad!!;x86/fpu: Supporting XSAVE feature 0x001: 'x87 floating point registers'
6,3,0,-,more,deets;x86/fpu: Supporting XSAVE; feature 0x002: 'SSE registers'";
    let mut iter = reader_over(text, 0);
    let start = iter.system_start_time() as i128;

    let maybe_entry = next_record(&mut iter);
    assert!(maybe_entry.is_some());
    assert_eq!(maybe_entry.unwrap(), record(LogFacility::Kern, LogLevel::Info, start, "Command, line: BOOT_IMAGE=/boot/kernel console=ttyS0 console=ttyS1 page_poison=1 vsyscall=emulate panic=1 root=/dev/sr0 text"));

    let maybe_entry = next_record(&mut iter);
    assert!(maybe_entry.is_some());
    assert_eq!(
        maybe_entry.unwrap(),
        record(
            LogFacility::Kern,
            LogLevel::Info,
            start,
            "x86/fpu: Supporting XSAVE; feature 0x002: 'SSE registers'"
        )
    );
}

#[test]
fn can_parse_kmsg_multi_line() {
    let text = r"
5,0,0,-;Linux version 4.14.131-linuxkit (root@6d384074ad24) (gcc version 8.3.0 (Alpine 8.3.0)) #1 SMP Fri Jul 19 12:31:17 UTC 2019
6,1,0,-;Command, line: BOOT_IMAGE=/boot/kernel console=ttyS0 console=ttyS1 page_poison=1 vsyscall=emulate panic=1 root=/dev/sr0 text
 LINE2=foobar
 LINE 3 = foobar ; with semicolon
6,2,0,-;x86/fpu: Supporting XSAVE feature 0x001: 'x87 floating point registers'
6,3,0,-,more,deets;x86/fpu: Supporting XSAVE; feature 0x002: 'SSE registers'";
    let mut iter = reader_over(text, 0);
    let start = iter.system_start_time() as i128;

    let maybe_entry = next_record(&mut iter);
    assert!(maybe_entry.is_some());
    assert_eq!(maybe_entry.unwrap(), record(LogFacility::Kern, LogLevel::Notice, start, "Linux version 4.14.131-linuxkit (root@6d384074ad24) (gcc version 8.3.0 (Alpine 8.3.0)) #1 SMP Fri Jul 19 12:31:17 UTC 2019"));

    let maybe_entry = next_record(&mut iter);
    assert!(maybe_entry.is_some());
    assert_eq!(
        maybe_entry.unwrap(),
        record(
            LogFacility::Kern,
            LogLevel::Info,
            start,
            r"Command, line: BOOT_IMAGE=/boot/kernel console=ttyS0 console=ttyS1 page_poison=1 vsyscall=emulate panic=1 root=/dev/sr0 text
 LINE2=foobar
 LINE 3 = foobar ; with semicolon"
        )
    );

    let maybe_entry = next_record(&mut iter);
    assert!(maybe_entry.is_some());
    assert_eq!(
        maybe_entry.unwrap(),
        record(
            LogFacility::Kern,
            LogLevel::Info,
            start,
            "x86/fpu: Supporting XSAVE feature 0x001: 'x87 floating point registers'"
        )
    );

    let maybe_entry = next_record(&mut iter);
    assert!(maybe_entry.is_some());
    assert_eq!(
        maybe_entry.unwrap(),
        record(
            LogFacility::Kern,
            LogLevel::Info,
            start,
            "x86/fpu: Supporting XSAVE; feature 0x002: 'SSE registers'"
        )
    );
}

fn require_send<T: Send>(_: &T) {}

#[test]
fn is_sendable() {
    let mut iter = reader_over(REALISTIC_MESSAGE, 0);
    require_send(&iter);
    let start = iter.system_start_time() as i128;
    let maybe_entry = next_record(&mut iter);
    assert!(maybe_entry.is_some());
    assert_eq!(maybe_entry.unwrap(), record(LogFacility::Kern, LogLevel::Notice, start, "Linux version 4.14.131-linuxkit (root@6d384074ad24) (gcc version 8.3.0 (Alpine 8.3.0)) #1 SMP Fri Jul 19 12:31:17 UTC 2019"));
}
