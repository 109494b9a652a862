//! The log file's entries and the checks on its size.
use vstd::prelude::*;
use vstd::string::*;

verus! {

/// Size above which the log file is reported as too large: 5 MiB.
pub const LOG_SIZE_LIMIT: u64 = 5 * 1024 * 1024;

/// One entry of the log file: `[timestamp] LEVEL: message` and a line feed.
pub fn log_entry(timestamp: &str, level: &str, msg: &str) -> (r: String)
    ensures
        r@ == "["@ + timestamp@ + "] "@ + level@ + ": "@ + msg@ + "\n"@,
{
    String::from_str("[").concat(timestamp).concat("] ").concat(level).concat(": ").concat(msg).concat(
        "\n",
    )
}

/// Whether a log file of `size` bytes is to be reported as too large.
pub fn log_too_large(size: u64) -> (r: bool)
    ensures
        r == (size > LOG_SIZE_LIMIT),
{
    size > LOG_SIZE_LIMIT
}

/// Index of the first of the last `lines` lines of a file of `total` lines.
pub fn tail_start(total: usize, lines: usize) -> (r: usize)
    ensures
        r == if total > lines {
            total - lines
        } else {
            0
        },
{
    if total > lines {
        total - lines
    } else {
        0
    }
}

} // verus!
