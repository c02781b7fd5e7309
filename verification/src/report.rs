use vstd::prelude::*;

verus! {

/// The text of one line of a log file: the time in square brackets, a space,
/// the message, and a line feed.
pub open spec fn log_line_of(timestamp: Seq<char>, message: Seq<char>) -> Seq<char> {
    "["@ + timestamp + "] "@ + message + "\n"@
}

/// Builds one line of a log file.
pub fn log_line(timestamp: &str, message: &str) -> (line: String)
    ensures
        line@ == log_line_of(timestamp@, message@),
{
    let mut line = String::from_str("[");
    line.append(timestamp);
    line.append("] ");
    line.append(message);
    line.append("\n");
    line
}

/// What is logged once the HTTP client was built, or could not be built for
/// the reason given.
pub open spec fn client_report_of(failure: Option<Seq<char>>) -> Seq<char> {
    match failure {
        None => "Client was built."@,
        Some(reason) => "Failed to build client: "@ + reason,
    }
}

/// Builds the message that reports how building the HTTP client went.
pub fn client_report(failure: Option<&str>) -> (message: String)
    ensures
        message@ == client_report_of(
            match failure {
                Some(reason) => Some(reason@),
                None => None,
            },
        ),
{
    match failure {
        None => String::from_str("Client was built."),
        Some(reason) => {
            let mut message = String::from_str("Failed to build client: ");
            message.append(reason);
            message
        },
    }
}

/// The text that shows one variable of the environment: the name, a colon,
/// a space, and the value.
pub open spec fn variable_line_of(name: Seq<char>, value: Seq<char>) -> Seq<char> {
    name + ": "@ + value
}

/// Builds the text that shows one variable of the environment.
pub fn variable_line(name: &str, value: &str) -> (line: String)
    ensures
        line@ == variable_line_of(name@, value@),
{
    let mut line = String::from_str(name);
    line.append(": ");
    line.append(value);
    line
}

} // verus!
