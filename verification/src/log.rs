//! The log files and the lines that go into them. Writing them is the
//! caller's.
use crate::status::{decimal, decimal_string};
use crate::text::{chars_of, has_at, occurs_at};
use vstd::prelude::*;
use vstd::string::*;

verus! {

/// The kinds of log file.
#[derive(Clone, Copy, Debug, PartialEq, Eq, Structural)]
pub enum LogFileType {
    Server,
    Client,
}

/// Where the log files are kept.
pub const LOG_DIR: &'static str = "./src/log/log_files/";

impl LogFileType {
    /// The file that takes the lines of this kind.
    pub fn file_path(&self) -> (r: String)
        ensures
            r@ == LOG_DIR@ + (match self {
                LogFileType::Server => "server.log"@,
                LogFileType::Client => "client.log"@,
            }),
    {
        let mut path = String::from_str(LOG_DIR);
        match self {
            LogFileType::Server => path.append("server.log"),
            LogFileType::Client => path.append("client.log"),
        }
        path
    }
}

/// The length of `s` once every `.log` at its end is cut.
pub open spec fn stem_len(s: Seq<char>) -> int
    decreases s.len(),
{
    if s.len() >= 4 && has_at(s, ".log"@, s.len() - 4) {
        stem_len(s.subrange(0, s.len() - 4))
    } else {
        s.len() as int
    }
}

/// The name that a log file is moved to when a new one is begun: the name
/// without `.log` at its end, a hyphen, the time, `.log`.
pub open spec fn rotated(file_path: Seq<char>, timestamp: Seq<char>) -> Seq<char> {
    file_path.subrange(0, stem_len(file_path)) + "-"@ + timestamp + ".log"@
}

/// The name that a log file is moved to when a new one is begun.
pub fn rotated_name(file_path: &str, timestamp: &str) -> (r: String)
    ensures
        r@ == rotated(file_path@, timestamp@),
{
    let v = chars_of(file_path);
    let suffix = chars_of(".log");
    proof {
        reveal_strlit(".log");
    }
    let mut n: usize = v.len();
    assert(v@.subrange(0, n as int) =~= v@);
    while n >= 4 && occurs_at(&v, &suffix, n - 4)
        invariant
            n <= v.len(),
            suffix@ == ".log"@,
            suffix@.len() == 4,
            stem_len(v@) == stem_len(v@.subrange(0, n as int)),
        decreases n,
    {
        proof {
            let s = v@.subrange(0, n as int);
            assert(s.subrange(n - 4, n as int) =~= v@.subrange(n - 4, n as int));
            assert(s.subrange(0, n - 4) =~= v@.subrange(0, n - 4));
        }
        n -= 4;
    }
    proof {
        let s = v@.subrange(0, n as int);
        if n >= 4 {
            assert(s.subrange(n - 4, n as int) =~= v@.subrange(n - 4, n as int));
        }
    }
    let mut out = file_path.substring_char(0, n).to_owned();
    out.append("-");
    out.append(timestamp);
    out.append(".log");
    out
}

/// A line of a log file: the time, the place in the source that logs, and
/// the message. An empty message gives no line.
pub open spec fn log_line(
    timestamp: Seq<char>,
    file_source: Seq<char>,
    line_number: u32,
    log_message: Seq<char>,
) -> Option<Seq<char>> {
    if log_message.len() == 0 {
        None
    } else {
        Some(
            "["@ + timestamp + "]"@ + "["@ + file_source + ":"@ + decimal(line_number as nat)
                + "] "@ + log_message + "\n"@,
        )
    }
}

/// The line that `log_message` makes in a log file.
pub fn log_with_file_line(
    timestamp: &str,
    log_message: String,
    file_source: &str,
    line_number: u32,
) -> (r: Option<String>)
    ensures
        crate::message::opt_view(r) == log_line(
            timestamp@,
            file_source@,
            line_number,
            log_message@,
        ),
{
    if chars_of(log_message.as_str()).len() == 0 {
        return None;
    }
    let mut message = String::from_str("[");
    message.append(timestamp);
    message.append("]");
    message.append("[");
    message.append(file_source);
    message.append(":");
    message.append(decimal_string(line_number as u64).as_str());
    message.append("] ");
    message.append(log_message.as_str());
    message.append("\n");
    Some(message)
}

} // verus!
