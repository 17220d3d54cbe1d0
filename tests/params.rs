use polytect::dev_kmsg_reader::{KMsgParserError, KMsgParsingError};
use polytect::params::{
    bool_flag, console_config_for, params_from_matches, polycorder_config_for, Format,
    MonitorType,
};

#[test]
fn flags_given_once_are_set() {
    assert_eq!(bool_flag(0), None);
    assert_eq!(bool_flag(1), Some(true));
    assert_eq!(bool_flag(2), None);
}

#[test]
fn console_format_ignores_ascii_case() {
    assert_eq!(
        console_config_for(Some("TeXt")).map(|c| c.console_format),
        Some(Format::UserFriendlyText)
    );
    assert_eq!(
        console_config_for(Some("JSON")).map(|c| c.console_format),
        Some(Format::JSON)
    );
    assert_eq!(console_config_for(Some("xml")), None);
    assert_eq!(console_config_for(None), None);
}

#[test]
fn polycorder_config_defaults_node() {
    let c = polycorder_config_for(Some("key"), None).unwrap();
    assert_eq!(c.auth_key, "key");
    assert_eq!(c.node_id, "unidentified");
    assert_eq!(c.flush_event_count, 10);
    assert_eq!(c.flush_timeout_millis, 10_000);
    let c = polycorder_config_for(Some("key"), Some("n1")).unwrap();
    assert_eq!(c.node_id, "n1");
    assert!(polycorder_config_for(None, Some("n1")).is_none());
}

#[test]
fn params_from_counts_and_values() {
    let p = params_from_matches(1, 3, 2, Some("json"), Some("k"), Some("node"));
    assert_eq!(p.exception_trace, Some(true));
    assert_eq!(p.fatal_signals, None);
    assert_eq!(p.verbosity, 2);
    assert_eq!(p.console_config.map(|c| c.console_format), Some(Format::JSON));
    assert_eq!(p.polycorder_config.unwrap().node_id, "node");
    let MonitorType::DevKMsgReader(c) = p.monitor_type;
    assert_eq!(c.from_sequence_number, 0);
    assert_eq!(c.flush_timeout_millis, 1000);
}

#[test]
fn parser_error_describes_itself() {
    let e = KMsgParserError(String::from("cannot open"));
    assert_eq!(e.describe(), "KMsgParserError:: cannot open");
}

#[test]
fn parsing_error_describes_itself() {
    assert_eq!(
        KMsgParsingError::EmptyLine.describe(),
        "KMsgParsingError:: Empty line"
    );
    assert_eq!(
        KMsgParsingError::Generic(String::from("bad")).describe(),
        "KMsgParsingError:: bad"
    );
    assert_eq!(
        KMsgParsingError::Completed.describe(),
        "KMsgParsingError:: Completed Parsing"
    );
}
