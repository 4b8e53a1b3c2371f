use slimhub::cli::Commands;
use slimhub::ipc::{
    connect_failed, handle_client_command, message_line, reads_on, reload_reply, request_for,
    respond, serve_ipc, AfterReply, ClientOutcome, ConnectFailure, IpcAction, IpcEvent, IpcRequest,
    IpcResponse, StatusReport,
};

fn request(cmd: &str) -> IpcRequest {
    IpcRequest { cmd: String::from(cmd) }
}

fn replied(action: IpcAction) -> (IpcResponse<StatusReport>, AfterReply) {
    match action {
        IpcAction::Reply { response, then } => (response, then),
        other => panic!("a reply was due, not {:?}", other),
    }
}

fn reply(event: IpcEvent) -> (IpcResponse<StatusReport>, AfterReply) {
    replied(serve_ipc(event, 42, "1.2.3"))
}

fn failure<D>(outcome: ClientOutcome<D>) -> String {
    match outcome {
        ClientOutcome::Fail(message) => message,
        _ => panic!("a failure was due"),
    }
}

#[test]
fn status_is_reported() {
    let (response, then) = replied(respond(&request("status"), 42, "1.2.3"));
    assert_eq!(then, AfterReply::ReadOnIfWritten);
    assert!(response.ok);
    assert_eq!(response.error, None);
    let report = response.data.unwrap();
    assert_eq!(report.uptime_secs, 42);
    assert_eq!(report.version, "1.2.3");
    assert_eq!(report.service, "slimhub");
}

#[test]
fn reload_is_carried_out() {
    assert!(matches!(respond(&request("reload"), 42, "1.2.3"), IpcAction::Reload));
    let event = IpcEvent::Request(request("reload"));
    assert!(matches!(serve_ipc(event, 42, "1.2.3"), IpcAction::Reload));
}

#[test]
fn reload_is_reported() {
    let (response, then) = replied(reload_reply(Ok(())));
    assert!(response.ok);
    assert!(response.data.is_none());
    assert_eq!(response.error, None);
    assert_eq!(then, AfterReply::ReadOnIfWritten);
    let (response, then) = replied(reload_reply(Err(String::from("no file"))));
    assert!(!response.ok);
    assert!(response.data.is_none());
    assert_eq!(response.error, Some(String::from("reload failed: no file")));
    assert_eq!(then, AfterReply::ReadOnIfWritten);
}

#[test]
fn unknown_command_is_refused_by_name() {
    for cmd in ["", "stop", "Status", "status ", "状态"] {
        let (response, _) = replied(respond(&request(cmd), 42, "1.2.3"));
        assert!(!response.ok);
        assert!(response.data.is_none());
        assert_eq!(response.error, Some(format!("unknown cmd: {}", cmd)));
    }
}

#[test]
fn event_closed_hangs_up() {
    assert!(matches!(serve_ipc(IpcEvent::Closed, 0, "v"), IpcAction::Hangup));
}

#[test]
fn event_read_failed_is_reported_and_ends() {
    let (response, then) = reply(IpcEvent::ReadFailed(String::from("broken")));
    assert!(!response.ok);
    assert!(response.data.is_none());
    assert_eq!(response.error, Some(String::from("read error: broken")));
    assert_eq!(then, AfterReply::Close);
}

#[test]
fn event_malformed_is_reported_and_goes_on() {
    let (response, then) = reply(IpcEvent::Malformed(String::from("expected value")));
    assert!(!response.ok);
    assert!(response.data.is_none());
    assert_eq!(response.error, Some(String::from("invalid JSON: expected value")));
    assert_eq!(then, AfterReply::ReadOn);
}

#[test]
fn event_request_is_answered() {
    let (response, then) = reply(IpcEvent::Request(request("status")));
    assert_eq!(response.data.unwrap().uptime_secs, 42);
    assert_eq!(then, AfterReply::ReadOnIfWritten);
    let (response, then) = reply(IpcEvent::Request(request("nope")));
    assert_eq!(response.error, Some(String::from("unknown cmd: nope")));
    assert_eq!(then, AfterReply::ReadOnIfWritten);
}

#[test]
fn reading_on_after_a_reply() {
    assert!(!reads_on(AfterReply::Close, true));
    assert!(!reads_on(AfterReply::Close, false));
    assert!(reads_on(AfterReply::ReadOn, true));
    assert!(reads_on(AfterReply::ReadOn, false));
    assert!(reads_on(AfterReply::ReadOnIfWritten, true));
    assert!(!reads_on(AfterReply::ReadOnIfWritten, false));
}

#[test]
fn message_ends_in_a_newline() {
    assert_eq!(message_line("{\"ok\":true}"), "{\"ok\":true}\n");
    assert_eq!(message_line(""), "\n");
}

#[test]
fn command_becomes_a_request() {
    assert_eq!(request_for(Commands::Status).cmd, "status");
    assert_eq!(request_for(Commands::Reload).cmd, "reload");
}

#[test]
fn commands_of_a_client_are_answered() {
    let (status, _) = replied(respond(&request_for(Commands::Status), 7, "v"));
    match handle_client_command(Some(status)) {
        ClientOutcome::Show(report) => assert_eq!(report.uptime_secs, 7),
        _ => panic!("a report was due"),
    }
    assert!(matches!(respond(&request_for(Commands::Reload), 7, "v"), IpcAction::Reload));
    let (reload, _) = replied(reload_reply(Ok(())));
    assert!(matches!(handle_client_command(Some(reload)), ClientOutcome::Acknowledge));
}

#[test]
fn client_shows_what_it_got() {
    let shown = handle_client_command(Some(IpcResponse { ok: true, data: Some(5), error: None }));
    assert!(matches!(shown, ClientOutcome::Show(5)));
    // Where all went well an error counts for nothing, and where not, data does.
    let odd = IpcResponse::<u32> { ok: true, data: None, error: Some(String::from("x")) };
    assert!(matches!(handle_client_command(Some(odd)), ClientOutcome::Acknowledge));
    let bad = IpcResponse { ok: false, data: Some(5), error: Some(String::from("no")) };
    assert_eq!(failure(handle_client_command(Some(bad))), "no");
}

#[test]
fn client_failures() {
    let silent = IpcResponse::<u32> { ok: false, data: None, error: None };
    assert_eq!(failure(handle_client_command(Some(silent))), "unknown");
    assert_eq!(failure(handle_client_command::<u32>(None)), "invalid response from daemon");
    assert_eq!(
        failure(connect_failed::<u32>(ConnectFailure::Refused(String::from("gone")))),
        "cannot connect to daemon (/tmp/slimhub.sock): gone"
    );
    assert_eq!(
        failure(connect_failed::<u32>(ConnectFailure::TimedOut)),
        "daemon not running (/tmp/slimhub.sock connection timeout)"
    );
}
