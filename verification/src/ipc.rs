//! The conversation between the daemon and its clients, over a local socket:
//! one request and one response to a line.
use vstd::prelude::*;
use vstd::string::StringExecFns;

use crate::cli::Commands;

verus! {

/// The socket that the daemon listens on.
pub const SOCKET_PATH: &'static str = "/tmp/slimhub.sock";

/// The name that the daemon reports.
pub const SERVICE_NAME: &'static str = "slimhub";

/// What a client asks.
#[derive(Debug)]
pub struct IpcRequest {
    pub cmd: String,
}

/// What the daemon answers.
#[derive(Debug)]
pub struct IpcResponse<D> {
    pub ok: bool,
    pub data: Option<D>,
    pub error: Option<String>,
}

/// The status of the daemon.
#[derive(Debug)]
pub struct StatusReport {
    pub uptime_secs: u64,
    pub version: String,
    pub service: String,
}

/// What the daemon got from a client.
#[derive(Debug)]
pub enum IpcEvent {
    /// The client has gone.
    Closed,
    /// A line could not be read, and why.
    ReadFailed(String),
    /// A line is no request, and why.
    Malformed(String),
    /// A request.
    Request(IpcRequest),
}

/// What becomes of the connection once a response has been written.
#[derive(Debug, Clone, Copy, PartialEq, Eq, Structural)]
pub enum AfterReply {
    /// It ends.
    Close,
    /// The next line is read.
    ReadOn,
    /// The next line is read if the response could be written.
    ReadOnIfWritten,
}

/// What the daemon does about an event.
#[derive(Debug)]
pub enum IpcAction {
    /// End the connection.
    Hangup,
    /// Write a response.
    Reply { response: IpcResponse<StatusReport>, then: AfterReply },
    /// Reload the configuration, and reply with what came of it.
    Reload,
}

/// The text with a word in front of it.
pub open spec fn prefixed(prefix: Seq<char>, text: Seq<char>) -> Seq<char> {
    prefix + text
}

fn prepend(prefix: &str, text: &str) -> (r: String)
    ensures
        r@ == prefixed(prefix@, text@),
{
    let mut r: String = prefix.to_owned();
    r.append(text);
    r
}

/// A refusal with this message.
pub open spec fn refuses<D>(response: IpcResponse<D>, message: Seq<char>) -> bool {
    !response.ok && response.data is None && (response.error matches Some(error) && error@
        == message)
}

fn refusal(message: String) -> (response: IpcResponse<StatusReport>)
    ensures
        refuses(response, message@),
{
    IpcResponse { ok: false, data: None, error: Some(message) }
}

/// The action answers the command: `status` is answered with a report, `reload`
/// asks for a reload, any other is refused by its name. The connection goes on
/// if the response could be written.
pub open spec fn answers(
    action: IpcAction,
    cmd: Seq<char>,
    uptime_secs: u64,
    version: Seq<char>,
) -> bool {
    if cmd == "status"@ {
        &&& action matches IpcAction::Reply { response, then }
        &&& then == AfterReply::ReadOnIfWritten
        &&& response.ok
        &&& response.error is None
        &&& response.data matches Some(report)
        &&& report.uptime_secs == uptime_secs
        &&& report.version@ == version
        &&& report.service@ == SERVICE_NAME@
    } else if cmd == "reload"@ {
        action == IpcAction::Reload
    } else {
        &&& action matches IpcAction::Reply { response, then }
        &&& then == AfterReply::ReadOnIfWritten
        &&& refuses(response, prefixed("unknown cmd: "@, cmd))
    }
}

/// Answers a request.
pub fn respond(request: &IpcRequest, uptime_secs: u64, version: &str) -> (action: IpcAction)
    ensures
        answers(action, request.cmd@, uptime_secs, version@),
{
    if request.cmd == "status".to_owned() {
        let report = StatusReport {
            uptime_secs,
            version: version.to_owned(),
            service: SERVICE_NAME.to_owned(),
        };
        IpcAction::Reply {
            response: IpcResponse { ok: true, data: Some(report), error: None },
            then: AfterReply::ReadOnIfWritten,
        }
    } else if request.cmd == "reload".to_owned() {
        IpcAction::Reload
    } else {
        IpcAction::Reply {
            response: refusal(prepend("unknown cmd: ", request.cmd.as_str())),
            then: AfterReply::ReadOnIfWritten,
        }
    }
}

/// The reply to a reload: that it went well, or why not.
pub open spec fn reports_reload(action: IpcAction, outcome: Result<(), String>) -> bool {
    &&& action matches IpcAction::Reply { response, then }
    &&& then == AfterReply::ReadOnIfWritten
    &&& match outcome {
        Ok(()) => response.ok && response.data is None && response.error is None,
        Err(why) => refuses(response, prefixed("reload failed: "@, why@)),
    }
}

/// Replies to a reload, by what came of it.
pub fn reload_reply(outcome: Result<(), String>) -> (action: IpcAction)
    ensures
        reports_reload(action, outcome),
{
    let response = match outcome {
        Ok(()) => IpcResponse { ok: true, data: None, error: None },
        Err(why) => refusal(prepend("reload failed: ", why.as_str())),
    };
    IpcAction::Reply { response, then: AfterReply::ReadOnIfWritten }
}

/// What the daemon does about an event: a client that has gone is left alone;
/// a failed read is reported, and ends the connection; a line that is no
/// request is reported, and a request answered or carried out, and the
/// connection goes on.
pub fn serve_ipc(event: IpcEvent, uptime_secs: u64, version: &str) -> (action: IpcAction)
    ensures
        match event {
            IpcEvent::Closed => action == IpcAction::Hangup,
            IpcEvent::ReadFailed(why) => action matches IpcAction::Reply { response, then } && then
                == AfterReply::Close && refuses(response, prefixed("read error: "@, why@)),
            IpcEvent::Malformed(why) => action matches IpcAction::Reply { response, then } && then
                == AfterReply::ReadOn && refuses(response, prefixed("invalid JSON: "@, why@)),
            IpcEvent::Request(request) => answers(action, request.cmd@, uptime_secs, version@),
        },
{
    match event {
        IpcEvent::Closed => IpcAction::Hangup,
        IpcEvent::ReadFailed(why) => IpcAction::Reply {
            response: refusal(prepend("read error: ", why.as_str())),
            then: AfterReply::Close,
        },
        IpcEvent::Malformed(why) => IpcAction::Reply {
            response: refusal(prepend("invalid JSON: ", why.as_str())),
            then: AfterReply::ReadOn,
        },
        IpcEvent::Request(request) => respond(&request, uptime_secs, version),
    }
}

/// Whether the next line is read, after a response was written or was not.
pub fn reads_on(then: AfterReply, written: bool) -> (goes_on: bool)
    ensures
        goes_on == match then {
            AfterReply::Close => false,
            AfterReply::ReadOn => true,
            AfterReply::ReadOnIfWritten => written,
        },
{
    match then {
        AfterReply::Close => false,
        AfterReply::ReadOn => true,
        AfterReply::ReadOnIfWritten => written,
    }
}

/// The line that carries a message.
pub fn message_line(message: &str) -> (line: String)
    ensures
        line@ == message@ + "\n"@,
{
    let mut line: String = message.to_owned();
    line.append("\n");
    line
}

// ---------------------------------------------------------------------------
// The client
// ---------------------------------------------------------------------------
/// The request that a command makes.
pub fn request_for(command: Commands) -> (request: IpcRequest)
    ensures
        request.cmd@ == match command {
            Commands::Status => "status"@,
            Commands::Reload => "reload"@,
        },
{
    match command {
        Commands::Status => IpcRequest { cmd: "status".to_owned() },
        Commands::Reload => IpcRequest { cmd: "reload".to_owned() },
    }
}

/// Why a client did not reach the daemon.
#[derive(Debug)]
pub enum ConnectFailure {
    Refused(String),
    TimedOut,
}

/// What a client reports where it did not reach the daemon.
pub open spec fn connect_message(failure: ConnectFailure) -> Seq<char> {
    match failure {
        ConnectFailure::Refused(why) => "cannot connect to daemon ("@ + SOCKET_PATH@ + "): "@
            + why@,
        ConnectFailure::TimedOut => "daemon not running ("@ + SOCKET_PATH@
            + " connection timeout)"@,
    }
}

/// What a client has to show for its command.
#[derive(Debug)]
pub enum ClientOutcome<D> {
    /// Print this, and succeed.
    Show(D),
    /// Print that it went well, and succeed.
    Acknowledge,
    /// Print this error, and fail.
    Fail(String),
}

/// What a client that did not reach the daemon has to show.
pub fn connect_failed<D>(failure: ConnectFailure) -> (outcome: ClientOutcome<D>)
    ensures
        outcome matches ClientOutcome::Fail(message) && message@ == connect_message(failure),
{
    match failure {
        ConnectFailure::Refused(why) => {
            let mut message: String = "cannot connect to daemon (".to_owned();
            message.append(SOCKET_PATH);
            message.append("): ");
            message.append(why.as_str());
            ClientOutcome::Fail(message)
        },
        ConnectFailure::TimedOut => {
            let mut message: String = "daemon not running (".to_owned();
            message.append(SOCKET_PATH);
            message.append(" connection timeout)");
            ClientOutcome::Fail(message)
        },
    }
}

/// What a client shows for a response, or for a line that is none.
pub fn handle_client_command<D>(response: Option<IpcResponse<D>>) -> (outcome: ClientOutcome<D>)
    ensures
        match response {
            Some(response) => if response.ok {
                match response.data {
                    Some(data) => outcome == ClientOutcome::Show(data),
                    None => outcome == ClientOutcome::<D>::Acknowledge,
                }
            } else {
                outcome matches ClientOutcome::Fail(message) && message@ == match response.error {
                    Some(error) => error@,
                    None => "unknown"@,
                }
            },
            None => outcome matches ClientOutcome::Fail(message) && message@
                == "invalid response from daemon"@,
        },
{
    match response {
        Some(response) => {
            if response.ok {
                match response.data {
                    Some(data) => ClientOutcome::Show(data),
                    None => ClientOutcome::Acknowledge,
                }
            } else {
                match response.error {
                    Some(error) => ClientOutcome::Fail(error),
                    None => ClientOutcome::Fail("unknown".to_owned()),
                }
            }
        },
        None => ClientOutcome::Fail("invalid response from daemon".to_owned()),
    }
}

/// Every command of a client is one that the daemon knows: it is answered with a
/// report or carried out, and not refused.
pub proof fn law_client_commands_are_answered(
    command: Commands,
    cmd: Seq<char>,
    action: IpcAction,
    uptime_secs: u64,
    version: Seq<char>,
)
    requires
        cmd == match command {
            Commands::Status => "status"@,
            Commands::Reload => "reload"@,
        },
        answers(action, cmd, uptime_secs, version),
    ensures
        match command {
            Commands::Status => action matches IpcAction::Reply { response, then } && response.ok
                && response.data is Some && response.error is None,
            Commands::Reload => action == IpcAction::Reload,
        },
{
    reveal_strlit("status");
    reveal_strlit("reload");
    assert("status"@[0] != "reload"@[0]);
}

/// A refusal says why, and a response is a refusal or carries no error.
pub proof fn law_response_is_refusal_or_success(
    response: IpcResponse<StatusReport>,
    then: AfterReply,
    cmd: Seq<char>,
    uptime_secs: u64,
    version: Seq<char>,
    outcome: Result<(), String>,
)
    requires
        answers(IpcAction::Reply { response, then }, cmd, uptime_secs, version) || reports_reload(
            IpcAction::Reply { response, then },
            outcome,
        ),
    ensures
        response.ok <==> response.error is None,
        !response.ok ==> response.data is None,
{
}

/// A message with a word in front of it is the word and the message, whole.
pub proof fn law_prefixed_is_whole(prefix: Seq<char>, text: Seq<char>)
    ensures
        prefixed(prefix, text).len() == prefix.len() + text.len(),
        prefixed(prefix, text).take(prefix.len() as int) == prefix,
        prefixed(prefix, text).skip(prefix.len() as int) == text,
{
    assert(prefixed(prefix, text).take(prefix.len() as int) =~= prefix);
    assert(prefixed(prefix, text).skip(prefix.len() as int) =~= text);
}

/// A reload is asked for by its own command alone, a report is given to its own
/// command alone, and every other command is refused with a message that ends in
/// it.
pub proof fn law_commands_are_told_apart(
    action: IpcAction,
    cmd: Seq<char>,
    uptime_secs: u64,
    version: Seq<char>,
)
    requires
        answers(action, cmd, uptime_secs, version),
    ensures
        action == IpcAction::Reload <==> cmd == "reload"@,
        !(action is Hangup),
        action matches IpcAction::Reply { response, then } ==> {
            &&& then == AfterReply::ReadOnIfWritten
            &&& response.ok <==> cmd == "status"@
            &&& response.ok <==> response.error is None
            &&& response.data is Some <==> cmd == "status"@
            &&& response.data matches Some(report) ==> {
                &&& report.uptime_secs == uptime_secs
                &&& report.version@ == version
                &&& report.service@ == "slimhub"@
            }
            &&& response.error matches Some(error) ==> error@ == "unknown cmd: "@ + cmd
        },
{
    reveal_strlit("status");
    reveal_strlit("reload");
    assert("status"@[0] != "reload"@[0]);
}

/// The reply to a reload carries no data; it is a success just where the reload
/// was, and else says why, whole.
pub proof fn law_reload_is_reported(action: IpcAction, outcome: Result<(), String>)
    requires
        reports_reload(action, outcome),
    ensures
        action matches IpcAction::Reply { response, then } && {
            &&& response.ok <==> outcome is Ok
            &&& response.data is None
            &&& response.error is Some <==> outcome is Err
            &&& outcome matches Err(why) ==> response.error->0@ == "reload failed: "@ + why@
        },
{
}

/// A refusal is no success, carries no data, and says its message, whole.
pub proof fn law_refusal_says_why(response: IpcResponse<StatusReport>, message: Seq<char>)
    ensures
        refuses(response, message) <==> {
            &&& !response.ok
            &&& response.data is None
            &&& response.error matches Some(error) && error@ == message
        },
{
}

/// What a client reports where it did not reach the daemon names the socket, and
/// the cause, where there is one, whole.
pub proof fn law_connect_message_names_the_socket(why: String)
    ensures
        connect_message(ConnectFailure::Refused(why)) == "cannot connect to daemon ("@
            + "/tmp/slimhub.sock"@ + "): "@ + why@,
        connect_message(ConnectFailure::TimedOut) == "daemon not running ("@
            + "/tmp/slimhub.sock"@ + " connection timeout)"@,
{
}

} // verus!
