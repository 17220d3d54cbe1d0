use polytect::dev_kmsg_reader::{parse_kmsg, DevKMsgReader, KMsgParsingError, KMsgReaderConfig};
use polytect::kmsg::{KMsg, LogFacility, LogLevel};
use polytect::text::{parse_i64, parse_u32, parse_u64, trim_str};
use std::sync::mpsc::channel;
use timeout_iterator::synchronous::TimeoutIterator;

fn is_generic(r: &Result<KMsg, KMsgParsingError>) -> bool {
    matches!(r, Err(KMsgParsingError::Generic(_)))
}

#[test]
fn header_fields_decode_facility_level_and_time() {
    // 0x1e = facility 3 (daemon), level 6 (info)
    let k = parse_kmsg("30,7,1500,-;hello there", 0, 1_000_000).unwrap();
    assert_eq!(k.facility, LogFacility::Daemon);
    assert_eq!(k.level, LogLevel::Info);
    assert_eq!(k.timestamp, 1_001_500);
    assert_eq!(k.message, "hello there");
}

#[test]
fn highest_facility_and_level() {
    let k = parse_kmsg("191,1,0,-;x", 0, 0).unwrap();
    assert_eq!(k.facility, LogFacility::Local7);
    assert_eq!(k.level, LogLevel::Debug);
    assert!(is_generic(&parse_kmsg("192,1,0,-;x", 0, 0)));
}

#[test]
fn negative_and_signed_offsets() {
    assert_eq!(parse_kmsg("0,1,-250,-;x", 0, 1000).unwrap().timestamp, 750);
    assert_eq!(parse_kmsg("0,1,+250,-;x", 0, 1000).unwrap().timestamp, 1250);
    let k = parse_kmsg("0,1,-9223372036854775808,-;x", 0, i64::MIN).unwrap();
    assert_eq!(k.timestamp, 2 * (i64::MIN as i128));
}

#[test]
fn sequence_equal_to_resume_point_is_accepted() {
    let k = parse_kmsg("6,42,0,-;at the resume point", 42, 0).unwrap();
    assert_eq!(k.message, "at the resume point");
    assert!(matches!(
        parse_kmsg("6,41,0,-;just before it", 42, 0),
        Err(KMsgParsingError::SequenceNumTooOld)
    ));
}

#[test]
fn empty_body_gives_empty_message() {
    let k = parse_kmsg("6,1,0,-;", 0, 0).unwrap();
    assert_eq!(k.message, "");
    assert_eq!(k.level, LogLevel::Info);
}

#[test]
fn body_is_trimmed_and_keeps_later_semicolons() {
    let k = parse_kmsg(" 4 , 2 , 3 ,-;  a; b\t ", 0, 0).unwrap();
    assert_eq!(k.level, LogLevel::Warning);
    assert_eq!(k.timestamp, 3);
    assert_eq!(k.message, "a; b");
}

#[test]
fn malformed_records_are_generic_errors() {
    assert!(is_generic(&parse_kmsg("5,0,bad!!! garbage", 0, 0)));
    assert!(is_generic(&parse_kmsg("6,bad!!;x86/fpu: broken header", 0, 0)));
    assert!(is_generic(&parse_kmsg("6;no sequence", 0, 0)));
    assert!(is_generic(&parse_kmsg("6,1;no timestamp", 0, 0)));
    assert!(is_generic(&parse_kmsg("x,1,0,-;bad facility", 0, 0)));
    assert!(is_generic(&parse_kmsg("6,1,1.5,-;bad timestamp", 0, 0)));
    assert!(is_generic(&parse_kmsg("4294967296,1,0,-;too big", 0, 0)));
}

#[test]
fn blank_records_are_empty_lines() {
    assert!(matches!(parse_kmsg("", 0, 0), Err(KMsgParsingError::EmptyLine)));
    assert!(matches!(parse_kmsg(" \t\u{3000}", 0, 0), Err(KMsgParsingError::EmptyLine)));
}

#[test]
fn bad_timestamp_is_malformed_even_when_too_old() {
    assert!(is_generic(&parse_kmsg("6,1;x", 5, 0)));
    assert!(is_generic(&parse_kmsg("6,1,x;m", 5, 0)));
    assert!(matches!(parse_kmsg("6,1,0;m", 5, 0), Err(KMsgParsingError::SequenceNumTooOld)));
}

#[test]
fn only_completed_ends_the_stream() {
    assert!(KMsgParsingError::Completed.ends_stream());
    assert!(!KMsgParsingError::EmptyLine.ends_stream());
    assert!(!KMsgParsingError::SequenceNumTooOld.ends_stream());
    assert!(!KMsgParsingError::Generic(String::from("x")).ends_stream());
}

#[test]
fn integers_read_as_from_str_reads_them() {
    assert_eq!(parse_u32("+12"), Some(12));
    assert_eq!(parse_u32("4294967295"), Some(u32::MAX));
    assert_eq!(parse_u32("4294967296"), None);
    assert_eq!(parse_u32("-1"), None);
    assert_eq!(parse_u32("+"), None);
    assert_eq!(parse_u32(""), None);
    assert_eq!(parse_u64("18446744073709551615"), Some(u64::MAX));
    assert_eq!(parse_u64("18446744073709551616"), None);
    assert_eq!(parse_i64("-9223372036854775808"), Some(i64::MIN));
    assert_eq!(parse_i64("9223372036854775807"), Some(i64::MAX));
    assert_eq!(parse_i64("9223372036854775808"), None);
    assert_eq!(parse_i64("-"), None);
    assert_eq!(parse_i64("12a"), None);
}

#[test]
fn trim_removes_unicode_whitespace() {
    assert_eq!(trim_str("\u{a0} ab c\n\u{2003}"), "ab c");
    assert_eq!(trim_str("   "), "");
    assert_eq!(trim_str("x"), "x");
}

fn channel_reader(
    flush_timeout_millis: u64,
) -> (std::sync::mpsc::Sender<String>, DevKMsgReader) {
    let (tx, rx) = channel::<String>();
    let source = TimeoutIterator::with_iter(rx.into_iter()).unwrap();
    let reader = DevKMsgReader::with_lines_iterator(
        KMsgReaderConfig {
            from_sequence_number: 0,
            flush_timeout_millis,
        },
        source,
        0,
        0,
    );
    (tx, reader)
}

#[test]
fn late_continuation_does_not_join_the_finished_record() {
    let (tx, mut reader) = channel_reader(300);
    tx.send(String::from("6,1,0,-;first")).unwrap();
    assert!(matches!(reader.poll(), Ok(None)));
    // nothing arrives within the flush timeout: the record is finished
    let first = reader.poll().unwrap().unwrap();
    assert_eq!(first.message, "first");

    tx.send(String::from(" late part")).unwrap();
    tx.send(String::from("6,2,0,-;second")).unwrap();
    drop(tx);
    // the late line begins a record of its own, which has no header
    assert!(matches!(reader.poll(), Ok(None)));
    assert!(matches!(reader.poll(), Err(KMsgParsingError::Generic(_))));
    assert!(matches!(reader.poll(), Ok(None)));
    let second = reader.poll().unwrap().unwrap();
    assert_eq!(second.message, "second");
    assert!(matches!(reader.poll(), Err(KMsgParsingError::Completed)));
}

#[test]
fn trailing_continuations_stay_with_the_last_record() {
    let (tx, mut reader) = channel_reader(5000);
    tx.send(String::from("6,1,0,-;head")).unwrap();
    tx.send(String::from(" second")).unwrap();
    tx.send(String::from(" third")).unwrap();
    drop(tx);
    assert!(matches!(reader.poll(), Ok(None)));
    assert!(matches!(reader.poll(), Ok(None)));
    assert!(matches!(reader.poll(), Ok(None)));
    let k = reader.poll().unwrap().unwrap();
    assert_eq!(k.message, "head\n second\n third");
    assert!(matches!(reader.poll(), Err(KMsgParsingError::Completed)));
    assert!(matches!(reader.poll(), Err(KMsgParsingError::Completed)));
}

#[test]
fn malformed_records_do_not_stop_the_reader() {
    let (tx, mut reader) = channel_reader(5000);
    for l in ["", "garbage", "6,x,0,-;bad", "6,9,0,-;good"] {
        tx.send(String::from(l)).unwrap();
    }
    drop(tx);
    let mut records = Vec::new();
    loop {
        match reader.poll() {
            Ok(Some(k)) => records.push(k.message),
            Ok(None) => {}
            Err(KMsgParsingError::Completed) => break,
            Err(_) => {}
        }
    }
    assert_eq!(records, vec![String::from("good")]);
}
