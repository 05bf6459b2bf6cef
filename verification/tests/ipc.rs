use fulgur_core::ipc::{
    message_delivered, message_lines, parse_line, queue_message, receive_line, receive_lines,
    start_ipc_listener, try_forward_to_existing_instance, try_send_command_to_existing_instance,
    ConnectionStep, IpcMessage, ListenerStep, ReceivedLine, IPC_PORT, IPC_WORKER_JOIN_TIMEOUT_SECS,
};

fn strings(list: &[&str]) -> Vec<String> {
    list.iter().map(|s| s.to_string()).collect()
}

fn read(text: &str, path_exists: bool) -> Option<ReceivedLine> {
    Some(ReceivedLine {
        text: text.to_string(),
        path_exists,
    })
}

fn receive(text: &str, on_disk: &[&str]) -> (Vec<String>, Vec<String>, usize) {
    let mut files = Vec::new();
    let mut commands = Vec::new();
    let lines = message_lines(text)
        .iter()
        .map(|text| read(text, on_disk.contains(&text.as_str())))
        .collect();
    let wakes = receive_lines(&lines, &mut files, &mut commands);
    (files, commands, wakes)
}

#[test]
fn forwarded_paths_arrive_in_order() {
    let paths = strings(&["/a b", "C:\\x\\y.txt", "/a b", "/gone"]);
    let message = try_forward_to_existing_instance(true, &paths).unwrap();
    assert_eq!(message, "/a b\nC:\\x\\y.txt\n/a b\n/gone\n");
    let (files, commands, wakes) = receive(&message, &["/a b", "C:\\x\\y.txt"]);
    assert_eq!(files, ["/a b", "C:\\x\\y.txt", "/a b"]);
    assert!(commands.is_empty());
    assert_eq!(wakes, 3);
}

#[test]
fn nothing_is_sent_without_a_running_instance() {
    assert_eq!(try_forward_to_existing_instance(false, &strings(&["/a"])), None);
    assert_eq!(try_send_command_to_existing_instance(false, "new-tab"), None);
    assert_eq!(
        try_forward_to_existing_instance(true, &Vec::new()),
        Some(String::new())
    );
}

#[test]
fn sent_command_arrives() {
    let message = try_send_command_to_existing_instance(true, "new-tab").unwrap();
    assert_eq!(message, "CMD:new-tab\n");
    let (files, commands, wakes) = receive(&message, &[]);
    assert!(files.is_empty());
    assert_eq!(commands, ["new-tab"]);
    assert_eq!(wakes, 1);
}

#[test]
fn lines_end_with_newline_or_both() {
    assert_eq!(message_lines(""), Vec::<String>::new());
    assert_eq!(message_lines("\n"), [""]);
    assert_eq!(message_lines("a\r\nb\n\nc"), ["a", "b", "", "c"]);
    assert_eq!(message_lines("a\r"), ["a\r"]);
    assert_eq!(message_lines("a\r\r\n"), ["a\r"]);
    assert_eq!(message_lines("\u{e9}\n\u{65e5}\n"), ["\u{e9}", "\u{65e5}"]);
}

#[test]
fn lines_are_told_apart_by_the_prefix() {
    assert_eq!(parse_line(""), IpcMessage::Blank);
    assert_eq!(parse_line("CMD:new-tab"), IpcMessage::Command("new-tab".to_string()));
    assert_eq!(parse_line("CMD:"), IpcMessage::Command(String::new()));
    assert_eq!(parse_line("CMD"), IpcMessage::File("CMD".to_string()));
    assert_eq!(parse_line(" CMD:x"), IpcMessage::File(" CMD:x".to_string()));
    assert_eq!(parse_line("cmd:x"), IpcMessage::File("cmd:x".to_string()));
}

#[test]
fn only_existing_files_are_queued() {
    let mut files = strings(&["/first"]);
    let mut commands = strings(&["new-window"]);
    let file = || IpcMessage::File("/x".to_string());
    assert!(!queue_message(file(), false, &mut files, &mut commands));
    assert_eq!(files, ["/first"]);
    assert!(queue_message(file(), true, &mut files, &mut commands));
    assert_eq!(files, ["/first", "/x"]);
    assert!(!queue_message(IpcMessage::Blank, true, &mut files, &mut commands));
    assert!(queue_message(
        IpcMessage::Command("new-tab".to_string()),
        false,
        &mut files,
        &mut commands
    ));
    assert_eq!(files, ["/first", "/x"]);
    assert_eq!(commands, ["new-window", "new-tab"]);
}

#[test]
fn blank_lines_wake_nobody() {
    let (files, commands, wakes) = receive("\n\n\n", &[""]);
    assert!(files.is_empty() && commands.is_empty());
    assert_eq!(wakes, 0);
}

#[test]
fn one_connection_may_carry_both() {
    let (files, commands, wakes) = receive("CMD:new-tab\n/a\n/gone\nCMD:x\n/a", &["/a"]);
    assert_eq!(files, ["/a", "/a"]);
    assert_eq!(commands, ["new-tab", "x"]);
    assert_eq!(wakes, 4);
    let (files, commands, wakes) = receive("/gone\n", &[]);
    assert!(files.is_empty() && commands.is_empty());
    assert_eq!(wakes, 0);
}

#[test]
fn an_unreadable_line_ends_its_connection_only() {
    let mut files = Vec::new();
    let mut commands = Vec::new();
    let first = vec![read("CMD:l1", false), None, read("CMD:l2", false), None];
    assert_eq!(receive_lines(&first, &mut files, &mut commands), 1);
    assert_eq!(commands, ["l1"]);
    let second = vec![read("CMD:l3", false)];
    assert_eq!(receive_lines(&second, &mut files, &mut commands), 1);
    assert_eq!(commands, ["l1", "l3"]);
    assert_eq!(receive_lines(&vec![None, read("/a", true)], &mut files, &mut commands), 0);
    assert!(files.is_empty());
}

#[test]
fn each_line_says_what_follows() {
    let mut files = Vec::new();
    let mut commands = Vec::new();
    let mut step = |line| receive_line(&line, &mut files, &mut commands);
    assert_eq!(step(read("/a", true)), ConnectionStep::Wake);
    assert_eq!(step(read("/b", false)), ConnectionStep::ReadOn);
    assert_eq!(step(read("", true)), ConnectionStep::ReadOn);
    assert_eq!(step(read("CMD:x", false)), ConnectionStep::Wake);
    assert_eq!(step(None), ConnectionStep::Close);
    assert_eq!(files, ["/a"]);
    assert_eq!(commands, ["x"]);
}

#[test]
fn a_message_is_delivered_once_it_is_written() {
    assert!(message_delivered(true, true));
    assert!(!message_delivered(true, false));
    assert!(!message_delivered(false, true));
    assert!(!message_delivered(false, false));
}

#[test]
fn nothing_is_read_after_shutdown() {
    let mut listener = start_ipc_listener(true).unwrap();
    assert_eq!(listener.on_incoming(true, false), ListenerStep::Stop);
    assert!(listener.stopped);
}

#[test]
fn listener_runs_until_it_is_stopped() {
    assert!(start_ipc_listener(false).is_none());
    let mut listener = start_ipc_listener(true).unwrap();
    assert_eq!(listener.on_incoming(false, true), ListenerStep::ReadConnection);
    assert_eq!(listener.on_incoming(false, false), ListenerStep::KeepListening);
    assert!(!listener.stopped);
    assert_eq!(listener.on_incoming(true, true), ListenerStep::Stop);
    assert!(listener.stopped);
}

#[test]
fn listener_constants() {
    assert_eq!(IPC_PORT, 29764);
    assert_eq!(IPC_WORKER_JOIN_TIMEOUT_SECS, 2);
}
