//! Structured event logging: each event becomes one formatted line and
//! one in-memory entry. Printing the line is left to the caller; the
//! store replaces process-global state with an explicit object.

use vstd::prelude::*;
use vstd::string::StringExecFns;

verus! {

use crate::text::{dec_of, dec_string, pad_to, padded};

/// One recorded log event.
#[derive(Debug)]
pub struct LogEntry {
    pub timestamp: String,
    pub event: String,
    pub message: String,
    pub elapsed_ms: Option<u128>,
}

/// The display form of an optional elapsed duration: `<n>ms`, or `-`
/// when absent.
pub open spec fn elapsed_display(e: Option<u128>) -> Seq<char> {
    match e {
        Option::Some(ms) => dec_of(ms as nat) + "ms"@,
        Option::None => "-"@,
    }
}

/// One formatted log line: timestamp, the event kind padded to 8, the
/// message padded to 40, then the elapsed time.
pub open spec fn log_line_spec(
    ts: Seq<char>,
    event: Seq<char>,
    message: Seq<char>,
    elapsed_ms: Option<u128>,
) -> Seq<char> {
    ts + "  "@ + pad_to(event, 8) + " "@ + pad_to(message, 40) + " "@ + elapsed_display(elapsed_ms)
}

/// Relies on chrono's `Local::now` and `DateTime::format`: the wall
/// clock's current local time rendered with `%Y/%m/%d %H:%M:%S`. The
/// result depends on the clock and the machine's time zone, so nothing
/// is promised of it.
#[verifier::external_body]
fn now_local_timestamp() -> (r: String) {
    chrono::Local::now().format("%Y/%m/%d %H:%M:%S").to_string()
}

/// The in-memory log of this process's events.
pub struct LogStore {
    pub entries: Vec<LogEntry>,
}

impl LogStore {
    /// An empty log.
    pub fn new() -> (s: LogStore)
        ensures
            s.entries@.len() == 0,
    {
        LogStore { entries: Vec::new() }
    }

    /// Records one event, stamped with the current local time, and
    /// returns the formatted line for the caller to print.
    pub fn log_event(&mut self, event: &str, message: &str, elapsed_ms: Option<u128>) -> (line:
        String)
        ensures
            final(self).entries@.len() == old(self).entries@.len() + 1,
            forall|i: int|
                0 <= i < old(self).entries@.len() ==> final(self).entries@[i] == old(
                    self,
                ).entries@[i],
            ({
                let e = final(self).entries@.last();
                &&& e.event@ == event@
                &&& e.message@ == message@
                &&& e.elapsed_ms == elapsed_ms
                &&& line@ == log_line_spec(e.timestamp@, event@, message@, elapsed_ms)
            }),
    {
        let timestamp = now_local_timestamp();
        let mut line = timestamp.clone();
        line.append("  ");
        line.append(padded(event, 8).as_str());
        line.append(" ");
        line.append(padded(message, 40).as_str());
        line.append(" ");
        let elapsed_text = match elapsed_ms {
            Option::Some(ms) => {
                let mut t = dec_string(ms);
                t.append("ms");
                t
            },
            Option::None => "-".to_owned(),
        };
        line.append(elapsed_text.as_str());
        let entry = LogEntry {
            timestamp,
            event: event.to_owned(),
            message: message.to_owned(),
            elapsed_ms,
        };
        self.entries.push(entry);
        proof {
            assert(line@ =~= log_line_spec(
                self.entries@.last().timestamp@,
                event@,
                message@,
                elapsed_ms,
            ));
        }
        line
    }
}

} // verus!
