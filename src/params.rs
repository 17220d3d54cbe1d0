use crate::dev_kmsg_reader::KMsgReaderConfig;
use crate::polycorder::PolycorderConfig;
use vstd::prelude::*;
use vstd::string::*;

verus! {

/// The node that reports are attributed to when none is named.
pub const UNIDENTIFIED_NODE: &'static str = "unidentified";

/// How events are printed on the console.
#[derive(Clone, Copy, Debug, PartialEq, Eq, Structural)]
pub enum Format {
    UserFriendlyText,
    JSON,
}

#[derive(Clone, Copy, Debug, PartialEq, Eq, Structural)]
pub struct ConsoleConfig {
    pub console_format: Format,
}

/// Where kernel records are read from.
#[derive(Clone, Copy)]
pub enum MonitorType {
    DevKMsgReader(KMsgReaderConfig),
}

/// Everything the command line decides.
#[derive(Clone)]
pub struct PolytectParams {
    pub exception_trace: Option<bool>,
    pub fatal_signals: Option<bool>,
    pub monitor_type: MonitorType,
    pub console_config: Option<ConsoleConfig>,
    pub polycorder_config: Option<PolycorderConfig>,
    pub verbosity: u8,
}

pub open spec fn ascii_lower_char(c: char) -> char {
    if 65 <= (c as u32) && (c as u32) <= 90 {
        ((c as u32) + 32) as char
    } else {
        c
    }
}

/// `s` with ASCII capitals made small, as `str::to_ascii_lowercase` does.
pub open spec fn ascii_lowercase(s: Seq<char>) -> Seq<char> {
    Seq::new(s.len(), |i: int| ascii_lower_char(s[i]))
}

/// Whether `s`, with ASCII capitals made small, is `word`.
pub fn is_word_ignoring_ascii_case(s: &str, word: &str) -> (r: bool)
    ensures
        r == (ascii_lowercase(s@) == word@),
{
    let n = s.unicode_len();
    if n != word.unicode_len() {
        assert(ascii_lowercase(s@).len() != word@.len());
        return false;
    }
    let mut i: usize = 0;
    while i < n
        invariant
            i <= n,
            n == s@.len(),
            n == word@.len(),
            forall|j: int| 0 <= j < i ==> ascii_lower_char(s@[j]) == word@[j],
        decreases n - i,
    {
        let c = s.get_char(i);
        let u = c as u32;
        let lower = if 65 <= u && u <= 90 {
            ((u + 32) as u8) as char
        } else {
            c
        };
        assert(lower == ascii_lower_char(c));
        if lower != word.get_char(i) {
            assert(ascii_lowercase(s@)[i as int] != word@[i as int]);
            return false;
        }
        i = i + 1;
    }
    assert(ascii_lowercase(s@) =~= word@);
    true
}

/// A flag given once is set; one not given is left alone; one given more
/// than once is ignored.
pub fn bool_flag(occurrences: u64) -> (r: Option<bool>)
    ensures
        r == (if occurrences == 1 {
            Some(true)
        } else {
            None::<bool>
        }),
{
    if occurrences == 1 {
        Some(true)
    } else {
        None
    }
}

/// The console output that a value of the console flag names: `text` or
/// `json` in any ASCII case.
pub open spec fn console_config_for_spec(value: Option<&str>) -> Option<ConsoleConfig> {
    match value {
        Some(v) => if ascii_lowercase(v@) == "text"@ {
            Some(ConsoleConfig { console_format: Format::UserFriendlyText })
        } else if ascii_lowercase(v@) == "json"@ {
            Some(ConsoleConfig { console_format: Format::JSON })
        } else {
            None
        },
        None => None,
    }
}

/// The console output that the value of the console flag asks for.
pub fn console_config_for(value: Option<&str>) -> (r: Option<ConsoleConfig>)
    ensures
        r == console_config_for_spec(value),
{
    match value {
        None => None,
        Some(v) => {
            if is_word_ignoring_ascii_case(v, "text") {
                Some(ConsoleConfig { console_format: Format::UserFriendlyText })
            } else if is_word_ignoring_ascii_case(v, "json") {
                Some(ConsoleConfig { console_format: Format::JSON })
            } else {
                None
            }
        },
    }
}

/// The emitter's configuration, when an auth key is given: reports go to
/// the named node, or to the unidentified one.
pub fn polycorder_config_for(auth_key: Option<&str>, node_id: Option<&str>) -> (r: Option<
    PolycorderConfig,
>)
    ensures
        auth_key is None <==> r is None,
        r matches Some(c) ==> {
            &&& c.auth_key@ == auth_key->0@
            &&& c.node_id@ == (match node_id {
                Some(n) => n@,
                None => UNIDENTIFIED_NODE@,
            })
            &&& c.flush_event_count == 10
            &&& c.flush_timeout_millis == 10_000
        },
{
    match auth_key {
        None => None,
        Some(k) => {
            let node = match node_id {
                Some(n) => String::from_str(n),
                None => String::from_str(UNIDENTIFIED_NODE),
            };
            Some(
                PolycorderConfig {
                    auth_key: String::from_str(k),
                    node_id: node,
                    flush_timeout_millis: 10_000,
                    flush_event_count: 10,
                },
            )
        },
    }
}

/// The parameters that the command line gives: how often each flag was
/// given, and the values of those that take one.
pub fn params_from_matches(
    exception_trace_occurrences: u64,
    fatal_signals_occurrences: u64,
    verbose_occurrences: u64,
    console: Option<&str>,
    polycorder: Option<&str>,
    node_id: Option<&str>,
) -> (r: PolytectParams)
    requires
        verbose_occurrences <= 255,
    ensures
        r.exception_trace == (if exception_trace_occurrences == 1 {
            Some(true)
        } else {
            None::<bool>
        }),
        r.fatal_signals == (if fatal_signals_occurrences == 1 {
            Some(true)
        } else {
            None::<bool>
        }),
        r.verbosity == verbose_occurrences,
        r.monitor_type matches MonitorType::DevKMsgReader(c) && c.from_sequence_number == 0
            && c.flush_timeout_millis == 1000,
        r.console_config == console_config_for_spec(console),
        polycorder is None <==> r.polycorder_config is None,
        r.polycorder_config matches Some(c) ==> {
            &&& c.auth_key@ == polycorder->0@
            &&& c.node_id@ == (match node_id {
                Some(n) => n@,
                None => UNIDENTIFIED_NODE@,
            })
            &&& c.flush_event_count == 10
            &&& c.flush_timeout_millis == 10_000
        },
{
    PolytectParams {
        exception_trace: bool_flag(exception_trace_occurrences),
        fatal_signals: bool_flag(fatal_signals_occurrences),
        monitor_type: MonitorType::DevKMsgReader(
            KMsgReaderConfig { from_sequence_number: 0, flush_timeout_millis: 1000 },
        ),
        console_config: console_config_for(console),
        polycorder_config: polycorder_config_for(polycorder, node_id),
        verbosity: verbose_occurrences as u8,
    }
}

} // verus!
