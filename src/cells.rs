use vstd::prelude::*;
use vstd::string::{StrSliceExecFns, StringExecFns};

use crate::job::{Job, JobColumn, JobState};

verus! {

/// Display colour of a row, from the state of the job it shows.
#[derive(Debug, Clone, Copy, PartialEq, Eq, Structural)]
pub enum Tone {
    Yellow,
    Green,
    Blue,
    Red,
    Magenta,
    White,
}

/// The colour of a job state: pending yellow, running green, completed blue,
/// failures red, cancelled magenta, anything else white.
pub open spec fn tone_spec(s: JobState) -> Tone {
    match s {
        JobState::Pending => Tone::Yellow,
        JobState::Running => Tone::Green,
        JobState::Completed => Tone::Blue,
        JobState::Failed | JobState::Timeout | JobState::NodeFail | JobState::Boot => Tone::Red,
        JobState::Cancelled => Tone::Magenta,
        JobState::Other => Tone::White,
    }
}

/// The colour of a job state.
pub fn state_tone(s: JobState) -> (r: Tone)
    ensures
        r == tone_spec(s),
{
    match s {
        JobState::Pending => Tone::Yellow,
        JobState::Running => Tone::Green,
        JobState::Completed => Tone::Blue,
        JobState::Failed | JobState::Timeout | JobState::NodeFail | JobState::Boot => Tone::Red,
        JobState::Cancelled => Tone::Magenta,
        JobState::Other => Tone::White,
    }
}

/// The name of a job state as the scheduler writes it.
pub open spec fn state_text(s: JobState) -> Seq<char> {
    match s {
        JobState::Pending => "PENDING"@,
        JobState::Running => "RUNNING"@,
        JobState::Completed => "COMPLETED"@,
        JobState::Failed => "FAILED"@,
        JobState::Timeout => "TIMEOUT"@,
        JobState::NodeFail => "NODE_FAIL"@,
        JobState::Boot => "BOOT_FAIL"@,
        JobState::Cancelled => "CANCELLED"@,
        JobState::Other => "UNKNOWN"@,
    }
}

/// The name of a job state.
pub fn state_label(s: JobState) -> (r: &'static str)
    ensures
        r@ == state_text(s),
{
    match s {
        JobState::Pending => "PENDING",
        JobState::Running => "RUNNING",
        JobState::Completed => "COMPLETED",
        JobState::Failed => "FAILED",
        JobState::Timeout => "TIMEOUT",
        JobState::NodeFail => "NODE_FAIL",
        JobState::Boot => "BOOT_FAIL",
        JobState::Cancelled => "CANCELLED",
        JobState::Other => "UNKNOWN",
    }
}

/// The character of a decimal digit.
pub open spec fn digit_char(d: nat) -> char {
    if d == 0 { '0' }
    else if d == 1 { '1' }
    else if d == 2 { '2' }
    else if d == 3 { '3' }
    else if d == 4 { '4' }
    else if d == 5 { '5' }
    else if d == 6 { '6' }
    else if d == 7 { '7' }
    else if d == 8 { '8' }
    else { '9' }
}

/// The decimal digits of `n`, most significant first, without leading zeros.
pub open spec fn decimal(n: nat) -> Seq<char>
    decreases n,
{
    if n < 10 {
        seq![digit_char(n)]
    } else {
        decimal(n / 10) + seq![digit_char(n % 10)]
    }
}

fn digit_str(d: u64) -> (r: &'static str)
    requires
        d < 10,
    ensures
        r@ == seq![digit_char(d as nat)],
{
    proof {
        reveal_strlit("0");
        reveal_strlit("1");
        reveal_strlit("2");
        reveal_strlit("3");
        reveal_strlit("4");
        reveal_strlit("5");
        reveal_strlit("6");
        reveal_strlit("7");
        reveal_strlit("8");
        reveal_strlit("9");
    }
    let r = if d == 0 { "0" }
    else if d == 1 { "1" }
    else if d == 2 { "2" }
    else if d == 3 { "3" }
    else if d == 4 { "4" }
    else if d == 5 { "5" }
    else if d == 6 { "6" }
    else if d == 7 { "7" }
    else if d == 8 { "8" }
    else { "9" };
    assert(r@ =~= seq![digit_char(d as nat)]);
    r
}

/// `n` in decimal.
pub fn decimal_string(n: u64) -> (r: String)
    ensures
        r@ == decimal(n as nat),
    decreases n,
{
    if n < 10 {
        String::from_str(digit_str(n))
    } else {
        let mut s = decimal_string(n / 10);
        s.append(digit_str(n % 10));
        s
    }
}

/// An optional field as shown: its text, or `-` when absent.
pub open spec fn or_dash(o: Option<String>) -> Seq<char> {
    match o {
        Some(s) => s@,
        None => "-"@,
    }
}

/// An optional number as shown: its decimal digits, or `-` when absent.
pub open spec fn number_or_dash(o: Option<u32>) -> Seq<char> {
    match o {
        Some(n) => decimal(n as nat),
        None => "-"@,
    }
}

/// A job name as shown: its first 27 characters and `...` when it is longer
/// than 30 characters.
pub open spec fn truncated_name(name: Seq<char>) -> Seq<char> {
    if name.len() > 30 {
        name.subrange(0, 27) + "..."@
    } else {
        name
    }
}

/// The identifier cell of a group header: key, expansion marker and member count.
pub open spec fn group_summary(key: Seq<char>, expanded: bool, count: nat) -> Seq<char> {
    key + " "@ + (if expanded { "[-]"@ } else { "[+]"@ }) + " ("@ + decimal(count) + " tasks)"@
}

/// The text of column `col` for a job.
pub open spec fn job_cell(job: Job, col: JobColumn) -> Seq<char> {
    match col {
        JobColumn::Id => job.id@,
        JobColumn::Name => truncated_name(job.name@),
        JobColumn::User => job.user@,
        JobColumn::State => state_text(job.state),
        JobColumn::Partition => job.partition@,
        JobColumn::QoS => job.qos@,
        JobColumn::Nodes => decimal(job.nodes as nat),
        JobColumn::Node => or_dash(job.node),
        JobColumn::CPUs => decimal(job.cpus as nat),
        JobColumn::Time => job.time@,
        JobColumn::Memory => job.memory@,
        JobColumn::Account => or_dash(job.account),
        JobColumn::Priority => number_or_dash(job.priority),
        JobColumn::WorkDir => or_dash(job.work_dir),
        JobColumn::SubmitTime => or_dash(job.submit_time),
        JobColumn::StartTime => or_dash(job.start_time),
        JobColumn::EndTime => or_dash(job.end_time),
        JobColumn::PReason => or_dash(job.pending_reason),
    }
}

fn text_or_dash(o: &Option<String>) -> (r: String)
    ensures
        r@ == or_dash(*o),
{
    match o {
        Some(s) => s.clone(),
        None => String::from_str("-"),
    }
}

/// A job name cut to 27 characters and `...` when longer than 30.
pub fn truncate_name(name: &String) -> (r: String)
    ensures
        r@ == truncated_name(name@),
{
    let s = name.as_str();
    if s.unicode_len() > 30 {
        let mut r = s.substring_char(0, 27).to_owned();
        r.append("...");
        r
    } else {
        name.clone()
    }
}

/// The text of column `col` for a job.
pub fn job_cell_text(job: &Job, col: JobColumn) -> (r: String)
    ensures
        r@ == job_cell(*job, col),
{
    match col {
        JobColumn::Id => job.id.clone(),
        JobColumn::Name => truncate_name(&job.name),
        JobColumn::User => job.user.clone(),
        JobColumn::State => String::from_str(state_label(job.state)),
        JobColumn::Partition => job.partition.clone(),
        JobColumn::QoS => job.qos.clone(),
        JobColumn::Nodes => decimal_string(job.nodes as u64),
        JobColumn::Node => text_or_dash(&job.node),
        JobColumn::CPUs => decimal_string(job.cpus as u64),
        JobColumn::Time => job.time.clone(),
        JobColumn::Memory => job.memory.clone(),
        JobColumn::Account => text_or_dash(&job.account),
        JobColumn::Priority => match job.priority {
            Some(p) => decimal_string(p as u64),
            None => String::from_str("-"),
        },
        JobColumn::WorkDir => text_or_dash(&job.work_dir),
        JobColumn::SubmitTime => text_or_dash(&job.submit_time),
        JobColumn::StartTime => text_or_dash(&job.start_time),
        JobColumn::EndTime => text_or_dash(&job.end_time),
        JobColumn::PReason => text_or_dash(&job.pending_reason),
    }
}

/// The identifier cell of a group header.
pub fn group_summary_text(key: &String, expanded: bool, count: usize) -> (r: String)
    ensures
        r@ == group_summary(key@, expanded, count as nat),
{
    let mut r = key.clone();
    r.append(" ");
    r.append(if expanded { "[-]" } else { "[+]" });
    r.append(" (");
    let digits = decimal_string(count as u64);
    r.append(digits.as_str());
    r.append(" tasks)");
    r
}

} // verus!
