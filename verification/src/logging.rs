//! What is written to the log files.
use crate::store::{app_directory, join};
use crate::text::{concat, concat3, format_decimal};
use vstd::prelude::*;

verus! {

/// A line for a log file.
#[derive(Debug)]
pub struct LogEntry {
    pub file_name: String,
    pub line: String,
}

/// When and by whom a line is written: the time as text, and the number of the
/// process.
#[derive(Debug)]
pub struct LogStamp {
    pub time: String,
    pub process_id: u32,
}

/// A line of a log file.
pub open spec fn log_line(stamp: LogStamp, source: Seq<char>, message: Seq<char>) -> Seq<char> {
    "["@ + stamp.time@ + "] pid="@ + crate::text::decimal(stamp.process_id as nat) + " "@ + source
        + ": "@ + message + "\n"@
}

fn write_log(file_name: &str, source: &str, message: &str, stamp: &LogStamp) -> (r: LogEntry)
    ensures
        r.file_name@ == file_name@,
        r.line@ == log_line(*stamp, source@, message@),
{
    let mut line = concat3("[", &stamp.time, "] pid=");
    line = concat3(&line, &format_decimal(stamp.process_id as u64), " ");
    line = concat3(&line, source, ": ");
    line = concat3(&line, message, "\n");
    LogEntry { file_name: file_name.to_owned(), line }
}

/// The line for something that happened.
pub fn log_event(source: &str, message: &str, stamp: &LogStamp) -> (r: LogEntry)
    ensures
        r.file_name@ == "app.log"@,
        r.line@ == log_line(*stamp, source@, message@),
{
    write_log("app.log", source, message, stamp)
}

/// The line for something that went wrong.
pub fn log_error(source: &str, error: &str, stamp: &LogStamp) -> (r: LogEntry)
    ensures
        r.file_name@ == "error.log"@,
        r.line@ == log_line(*stamp, source@, error@),
{
    write_log("error.log", source, error, stamp)
}

/// The directory of the log files.
pub open spec fn log_directory_of(app_data: Seq<char>) -> Seq<char> {
    crate::store::joined(
        crate::store::joined(app_data, crate::store::APP_DIRECTORY_NAME@),
        "logs"@,
    )
}

/// The directory of the log files.
pub fn log_directory(app_data: &str) -> (r: String)
    ensures
        r@ == log_directory_of(app_data@),
{
    join(&app_directory(app_data), "logs")
}

/// The file to which a line is added.
pub fn log_path(app_data: &str, entry: &LogEntry) -> (r: String)
    ensures
        r@ == crate::store::joined(log_directory_of(app_data@), entry.file_name@),
{
    join(&log_directory(app_data), &entry.file_name)
}

/// What is known of the program when it starts.
#[derive(Debug)]
pub struct StartupFacts {
    pub version: String,
    pub commit: String,
    pub started_by_autostart: bool,
    pub executable: String,
    /// The arguments, with a space between them.
    pub arguments: String,
}

/// What is logged when the program starts.
pub open spec fn startup_message_of(f: StartupFacts) -> Seq<char> {
    "version="@ + f.version@ + " commit="@ + f.commit@ + " autostart="@ + (
    if f.started_by_autostart {
        "true"@
    } else {
        "false"@
    }) + " exe="@ + f.executable@ + " args="@ + f.arguments@
}

/// What is logged when the program starts.
pub fn startup_message(facts: &StartupFacts) -> (r: String)
    ensures
        r@ == startup_message_of(*facts),
{
    let autostart: &str = if facts.started_by_autostart {
        "true"
    } else {
        "false"
    };
    let mut message = concat3("version=", &facts.version, " commit=");
    message = concat3(&message, &facts.commit, " autostart=");
    message = concat3(&message, autostart, " exe=");
    message = concat3(&message, &facts.executable, " args=");
    concat(&message, &facts.arguments)
}

/// A line begins with its time, names the process and the source, and ends with
/// the message and a line feed.
pub proof fn lemma_log_line(stamp: LogStamp, source: Seq<char>, message: Seq<char>)
    ensures
        ({
            let line = log_line(stamp, source, message);
            let process = " pid="@ + crate::text::decimal(stamp.process_id as nat) + " "@;
            &&& crate::text::begins_with(line, seq!['['] + stamp.time@ + seq![']'])
            &&& crate::text::occurs_in(line, process + source + ": "@)
            &&& line.last() == '\n'
            &&& line.len() > message.len() && line.drop_last().skip(
                line.len() - 1 - message.len(),
            ) == message
        }),
{
    reveal_strlit("[");
    reveal_strlit("] pid=");
    reveal_strlit(" pid=");
    reveal_strlit(" ");
    reveal_strlit(": ");
    reveal_strlit("\n");
    let line = log_line(stamp, source, message);
    let number = crate::text::decimal(stamp.process_id as nat);
    let process = " pid="@ + number + " "@;
    let time = seq!['['] + stamp.time@ + seq![']'];
    let none = Seq::<char>::empty();
    let head = process + source + ": "@;
    assert(line =~= time + (head + message + seq!['\n']));
    crate::text::lemma_occurrence(none, time, head + message + seq!['\n'], none);
    assert(line =~= time + head + (message + seq!['\n']));
    crate::text::lemma_occurrence(time, head, message + seq!['\n'], none);
    assert(line.drop_last().skip(line.len() - 1 - message.len()) =~= message);
}

/// The log files lie in a directory of their own among the data of the program.
pub proof fn lemma_log_directory(app_data: Seq<char>)
    requires
        app_data.len() > 2,
        app_data.last() != '\\',
        app_data.last() != '/',
    ensures
        log_directory_of(app_data) == app_data + "\\AutoKey-Rust\\logs"@,
{
    reveal_strlit("AutoKey-Rust");
    reveal_strlit("logs");
    reveal_strlit("\\AutoKey-Rust\\logs");
    assert(crate::store::joined(app_data, crate::store::APP_DIRECTORY_NAME@).last() == 't');
    assert(log_directory_of(app_data) =~= app_data + "\\AutoKey-Rust\\logs"@);
}

/// What is logged at the start names each value with what it is.
pub proof fn lemma_startup_message(f: StartupFacts)
    ensures
        ({
            let message = startup_message_of(f);
            &&& crate::text::begins_with(message, "version="@ + f.version@)
            &&& crate::text::occurs_in(message, " commit="@ + f.commit@)
            &&& crate::text::occurs_in(message, " autostart="@ + if f.started_by_autostart {
                "true"@
            } else {
                "false"@
            })
            &&& crate::text::occurs_in(message, " exe="@ + f.executable@)
            &&& crate::text::occurs_in(message, " args="@ + f.arguments@)
        }),
{
    let none = Seq::<char>::empty();
    let message = startup_message_of(f);
    let version = "version="@ + f.version@;
    let commit = " commit="@ + f.commit@;
    let autostart = " autostart="@ + if f.started_by_autostart {
        "true"@
    } else {
        "false"@
    };
    let executable = " exe="@ + f.executable@;
    let arguments = " args="@ + f.arguments@;
    assert(message =~= version + (commit + autostart + executable + arguments));
    crate::text::lemma_occurrence(none, version, commit + autostart + executable + arguments, none);
    assert(message =~= version + commit + (autostart + executable + arguments));
    crate::text::lemma_occurrence(version, commit, autostart + executable + arguments, none);
    assert(message =~= (version + commit) + autostart + (executable + arguments));
    crate::text::lemma_occurrence(version + commit, autostart, executable + arguments, none);
    assert(message =~= (version + commit + autostart) + executable + arguments);
    crate::text::lemma_occurrence(version + commit + autostart, executable, arguments, none);
    assert(message =~= (version + commit + autostart + executable) + arguments + none);
    crate::text::lemma_occurrence(
        version + commit + autostart + executable,
        arguments,
        none,
        none,
    );
}

/// Events and errors go to files of their own in the directory of the logs, with
/// what was to be logged.
pub proof fn lemma_log_entries(
    source: &str,
    message: &str,
    stamp: &LogStamp,
    event: LogEntry,
    error: LogEntry,
    app_data: &str,
    path: String,
)
    requires
        call_ensures(log_event, (source, message, stamp), event),
        call_ensures(log_error, (source, message, stamp), error),
        call_ensures(log_path, (app_data, &event), path),
    ensures
        event.file_name@ == "app.log"@ && error.file_name@ == "error.log"@,
        event.line@ == error.line@ && event.line@ == log_line(*stamp, source@, message@),
        path@ == crate::store::joined(log_directory_of(app_data@), "app.log"@),
{
}

} // verus!
