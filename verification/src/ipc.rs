//! Single-instance coordination: what one process writes to the loopback
//! connection of another, and what the other makes of it.
//!
//! A message is a run of lines, each ended by a newline. A line that begins
//! with `CMD:` carries a command; any other line that is not empty names a file.

use crate::search::{first_index, lemma_first_index_is, lemma_first_index_none};
use crate::text::{chars_of, lemma_texts_push, strip_prefix, texts};
use vstd::prelude::*;

verus! {

/// Loopback port on which the first instance listens.
pub const IPC_PORT: u16 = 29764;

/// Seconds for which a dropped listener is joined before it is detached.
pub const IPC_WORKER_JOIN_TIMEOUT_SECS: u64 = 2;

/// What sets a command line apart from a file line.
pub open spec fn command_prefix() -> Seq<char> {
    seq!['C', 'M', 'D', ':']
}

/// The text that carries `lines`: each of them, ended by a newline.
pub open spec fn wire_text(lines: Seq<Seq<char>>) -> Seq<char>
    decreases lines.len(),
{
    if lines.len() == 0 {
        Seq::empty()
    } else {
        lines[0].push('\n') + wire_text(lines.drop_first())
    }
}

/// How many characters of `text` come before its first newline; all of them
/// where it has none.
pub open spec fn line_length(text: Seq<char>) -> nat
    decreases text.len(),
{
    if text.len() == 0 || text[0] == '\n' {
        0
    } else {
        1 + line_length(text.drop_first())
    }
}

/// A line without the carriage return that may stand before its newline.
pub open spec fn without_return(line: Seq<char>) -> Seq<char> {
    if line.len() > 0 && line.last() == '\r' {
        line.drop_last()
    } else {
        line
    }
}

/// The lines of `text`: a newline ends a line, and so does a carriage return
/// directly before one. What stands behind the last newline is a line if it is
/// not empty.
pub open spec fn text_lines(text: Seq<char>) -> Seq<Seq<char>>
    decreases text.len(),
{
    if text.len() == 0 {
        Seq::empty()
    } else if line_length(text) >= text.len() {
        seq![text]
    } else {
        seq![without_return(text.take(line_length(text) as int))] + text_lines(
            text.skip(line_length(text) as int + 1),
        )
    }
}

proof fn lemma_line_length(text: Seq<char>)
    ensures
        line_length(text) <= text.len(),
        forall|j: int| 0 <= j < line_length(text) ==> text[j] != '\n',
        line_length(text) < text.len() ==> text[line_length(text) as int] == '\n',
    decreases text.len(),
{
    if text.len() > 0 && text[0] != '\n' {
        let rest = text.drop_first();
        lemma_line_length(rest);
        assert forall|j: int| 0 <= j < line_length(text) implies text[j] != '\n' by {
            if j > 0 {
                assert(text[j] == rest[j - 1]);
            }
        }
    }
}

proof fn lemma_line_length_is(text: Seq<char>, k: nat)
    requires
        k <= text.len(),
        forall|j: int| 0 <= j < k ==> text[j] != '\n',
        k < text.len() ==> text[k as int] == '\n',
    ensures
        line_length(text) == k,
{
    lemma_line_length(text);
    if line_length(text) < k {
        assert(text[line_length(text) as int] != '\n');
    } else if k < line_length(text) {
        assert(text[k as int] != '\n');
    }
}

proof fn lemma_wire_text_push(lines: Seq<Seq<char>>, line: Seq<char>)
    ensures
        wire_text(lines.push(line)) == wire_text(lines) + line.push('\n'),
    decreases lines.len(),
{
    let more = lines.push(line);
    if lines.len() == 0 {
        assert(more.drop_first() =~= Seq::empty());
        assert(wire_text(more.drop_first()) =~= Seq::empty());
        assert(wire_text(more) =~= wire_text(lines) + line.push('\n'));
    } else {
        assert(more.drop_first() =~= lines.drop_first().push(line));
        lemma_wire_text_push(lines.drop_first(), line);
        assert(wire_text(more) =~= wire_text(lines) + line.push('\n'));
    }
}

/// What one line means to the listener.
#[derive(PartialEq, Eq, Debug)]
pub enum IpcMessage {
    /// An empty line.
    Blank,
    /// A command, without the prefix.
    Command(String),
    /// The path of a file.
    File(String),
}

/// The characters of an [`IpcMessage`].
pub enum MessageView {
    Blank,
    Command(Seq<char>),
    File(Seq<char>),
}

impl View for IpcMessage {
    type V = MessageView;

    open spec fn view(&self) -> MessageView {
        match self {
            IpcMessage::Blank => MessageView::Blank,
            IpcMessage::Command(cmd) => MessageView::Command(cmd@),
            IpcMessage::File(path) => MessageView::File(path@),
        }
    }
}

/// What a line means: nothing if it is empty, a command if it begins with the
/// prefix, and a file otherwise.
pub open spec fn line_message(line: Seq<char>) -> MessageView {
    if line.len() == 0 {
        MessageView::Blank
    } else if command_prefix().is_prefix_of(line) {
        MessageView::Command(line.skip(command_prefix().len() as int))
    } else {
        MessageView::File(line)
    }
}

/// The two queues that the listener fills for the windows.
pub ghost struct Queues {
    pub files: Seq<Seq<char>>,
    pub commands: Seq<Seq<char>>,
}

/// Whether the listener queues a message: a command always, a file if it exists.
pub open spec fn queued(message: MessageView, path_exists: bool) -> bool {
    match message {
        MessageView::Blank => false,
        MessageView::Command(_) => true,
        MessageView::File(_) => path_exists,
    }
}

/// The queues after one message.
pub open spec fn after_message(queues: Queues, message: MessageView, path_exists: bool) -> Queues {
    match message {
        MessageView::Blank => queues,
        MessageView::Command(cmd) => Queues { commands: queues.commands.push(cmd), ..queues },
        MessageView::File(path) => if path_exists {
            Queues { files: queues.files.push(path), ..queues }
        } else {
            queues
        },
    }
}

/// Tell what a line means.
pub fn parse_line(line: &str) -> (message: IpcMessage)
    ensures
        message@ == line_message(line@),
        message is Blank <==> line@.len() == 0,
        message is Command <==> "CMD:"@.is_prefix_of(line@),
        message matches IpcMessage::Command(cmd) ==> line@ == "CMD:"@ + cmd@,
        message matches IpcMessage::File(path) ==> path@ == line@,
{
    proof {
        reveal_strlit("CMD:");
        assert("CMD:"@ =~= command_prefix());
        assert(line@.len() == 0 ==> !"CMD:"@.is_prefix_of(line@));
    }
    if line.is_empty() {
        IpcMessage::Blank
    } else {
        match strip_prefix(line, "CMD:") {
            Some(cmd) => {
                assert(cmd@ =~= line@.skip(command_prefix().len() as int));
                assert("CMD:"@.is_prefix_of(line@)) by {
                    assert(line@.subrange(0, 4) =~= "CMD:"@);
                }
                IpcMessage::Command(cmd.to_owned())
            },
            None => IpcMessage::File(line.to_owned()),
        }
    }
}

/// Put a message into the queue that it is for. `path_exists` says whether the
/// file of a [`IpcMessage::File`] exists; for the other messages it is not read.
///
/// Returns whether something was queued, and the windows have to be woken.
pub fn queue_message(
    message: IpcMessage,
    path_exists: bool,
    pending_files: &mut Vec<String>,
    pending_ipc_commands: &mut Vec<String>,
) -> (wake: bool)
    ensures
        ({
            let before = Queues {
                files: texts(old(pending_files)@),
                commands: texts(old(pending_ipc_commands)@),
            };
            let after = after_message(before, message@, path_exists);
            &&& texts(final(pending_files)@) == after.files
            &&& texts(final(pending_ipc_commands)@) == after.commands
        }),
        wake == queued(message@, path_exists),
{
    match message {
        IpcMessage::Blank => false,
        IpcMessage::Command(cmd) => {
            pending_ipc_commands.push(cmd);
            assert(texts(pending_ipc_commands@) =~= texts(old(pending_ipc_commands)@).push(cmd@));
            true
        },
        IpcMessage::File(path) => {
            if path_exists {
                pending_files.push(path);
                assert(texts(pending_files@) =~= texts(old(pending_files)@).push(path@));
            }
            path_exists
        },
    }
}

/// The lines of a received text.
pub fn message_lines(text: &str) -> (lines: Vec<String>)
    ensures
        texts(lines@) == text_lines(text@),
{
    let chars: Vec<char> = chars_of(text);
    let mut lines: Vec<String> = Vec::new();
    let mut start: usize = 0;
    let mut i: usize = 0;
    assert(text@.skip(0) =~= text@);
    assert(texts(lines@) + text_lines(text@) =~= text_lines(text@));
    while i < chars.len()
        invariant
            chars@ == text@,
            start <= i <= chars.len(),
            forall|j: int| start <= j < i ==> chars@[j] != '\n',
            text_lines(text@) == texts(lines@) + text_lines(text@.skip(start as int)),
        decreases chars.len() - i,
    {
        if chars[i] == '\n' {
            let end: usize = if i > start && chars[i - 1] == '\r' {
                i - 1
            } else {
                i
            };
            let line: String = text.substring_char(start, end).to_owned();
            proof {
                let rest = text@.skip(start as int);
                lemma_line_length_is(rest, (i - start) as nat);
                assert(rest.take(i - start) =~= text@.subrange(start as int, i as int));
                assert(without_return(rest.take(i - start)) =~= line@);
                assert(rest.skip(i - start + 1) =~= text@.skip(i + 1));
                lemma_texts_push(lines@, line);
                assert(text_lines(text@) =~= texts(lines@.push(line)) + text_lines(
                    text@.skip(i + 1),
                ));
            }
            lines.push(line);
            start = i + 1;
        }
        i += 1;
    }
    if start < chars.len() {
        let line: String = text.substring_char(start, chars.len()).to_owned();
        proof {
            let rest = text@.skip(start as int);
            lemma_line_length_is(rest, rest.len());
            assert(line@ =~= rest);
            lemma_texts_push(lines@, line);
            assert(text_lines(text@) =~= texts(lines@.push(line)));
        }
        lines.push(line);
    } else {
        assert(text_lines(text@) =~= texts(lines@));
    }
    lines
}

/// The listener for messages of other processes.
pub struct IpcListener {
    /// Whether it has been told to stop.
    pub stopped: bool,
}

/// What the listener does next.
#[derive(Clone, Copy, PartialEq, Eq, Debug, Structural)]
pub enum ListenerStep {
    /// Leave the loop.
    Stop,
    /// Read the lines of the connection.
    ReadConnection,
    /// Wait for the next connection: this one failed.
    KeepListening,
}

/// Start the listener. `bound` says whether the loopback port could be bound;
/// without it there is no listener.
#[must_use]
pub fn start_ipc_listener(bound: bool) -> (listener: Option<IpcListener>)
    ensures
        listener == (if bound {
            Some(IpcListener { stopped: false })
        } else {
            None
        }),
{
    if bound {
        Some(IpcListener { stopped: false })
    } else {
        None
    }
}

/// What the listener does about an incoming connection: it stops if it is told to,
/// and otherwise reads the connection if that stands.
pub open spec fn listener_step(shutdown: bool, accepted: bool) -> ListenerStep {
    if shutdown {
        ListenerStep::Stop
    } else if accepted {
        ListenerStep::ReadConnection
    } else {
        ListenerStep::KeepListening
    }
}

impl IpcListener {
    /// Decide what to do about an incoming connection. `shutdown` says whether the
    /// listener is being stopped, `accepted` whether the connection stands.
    ///
    /// The connection that wakes the listener up to be stopped is not read.
    pub fn on_incoming(&mut self, shutdown: bool, accepted: bool) -> (step: ListenerStep)
        requires
            !old(self).stopped,
        ensures
            final(self).stopped == shutdown,
            step == listener_step(shutdown, accepted),
    {
        if shutdown {
            self.stopped = true;
            ListenerStep::Stop
        } else if accepted {
            ListenerStep::ReadConnection
        } else {
            ListenerStep::KeepListening
        }
    }
}

/// Hand `paths` over to a running instance. `connected` says whether one took
/// the connection.
///
/// Returns the text to write to the connection, one path per line; whether that
/// hands the paths over is for [`message_delivered`] to say. Without a running
/// instance there is no text, and the process carries on as the first one.
#[must_use]
pub fn try_forward_to_existing_instance(connected: bool, paths: &Vec<String>) -> (message: Option<
    String,
>)
    ensures
        match message {
            Some(text) => connected && text@ == wire_text(texts(paths@)),
            None => !connected,
        },
{
    if !connected {
        return None;
    }
    let mut message: String = String::new();
    for i in 0..paths.len()
        invariant
            message@ == wire_text(texts(paths@).take(i as int)),
    {
        message.append(paths[i].as_str());
        message.append("\n");
        proof {
            reveal_strlit("\n");
            let done = texts(paths@).take(i as int);
            lemma_wire_text_push(done, paths@[i as int]@);
            assert(texts(paths@).take(i + 1) =~= done.push(paths@[i as int]@));
            assert(message@ =~= wire_text(done) + paths@[i as int]@.push('\n'));
        }
    }
    assert(texts(paths@).take(paths.len() as int) =~= texts(paths@));
    Some(message)
}

/// Send the command `cmd` (such as `new-tab`) to a running instance. `connected`
/// says whether one took the connection.
///
/// Returns the text to write to the connection, a single command line; whether
/// that hands the command over is for [`message_delivered`] to say. Without a
/// running instance there is no text, and the process starts normally.
#[must_use]
pub fn try_send_command_to_existing_instance(connected: bool, cmd: &str) -> (message: Option<
    String,
>)
    ensures
        match message {
            Some(text) => connected && text@ == wire_text(seq![command_prefix() + cmd@]),
            None => !connected,
        },
{
    if !connected {
        return None;
    }
    let mut message: String = "CMD:".to_owned();
    message.append(cmd);
    message.append("\n");
    proof {
        reveal_strlit("CMD:");
        reveal_strlit("\n");
        assert("CMD:"@ =~= command_prefix());
        let line = command_prefix() + cmd@;
        lemma_wire_text_push(Seq::empty(), line);
        assert(seq![line] =~= Seq::<Seq<char>>::empty().push(line));
        assert(message@ =~= wire_text(seq![line]));
    }
    Some(message)
}

/// Whether a message was handed over: a running instance took the connection, and
/// the whole text was written to it.
pub open spec fn is_delivered(connected: bool, written: bool) -> bool {
    connected && written
}

/// Tell whether a message was handed over, so that the process has nothing more to
/// do. What could not be written would be lost if the process left.
#[must_use]
pub fn message_delivered(connected: bool, written: bool) -> (delivered: bool)
    ensures
        delivered == is_delivered(connected, written),
{
    connected && written
}

/// A line of a connection. `path_exists` says whether it is the path of something
/// that exists; it is read only of a line that names a file.
pub struct ReceivedLine {
    pub text: String,
    pub path_exists: bool,
}

/// The characters of a [`ReceivedLine`].
pub ghost struct LineView {
    pub text: Seq<char>,
    pub path_exists: bool,
}

impl View for ReceivedLine {
    type V = LineView;

    open spec fn view(&self) -> LineView {
        LineView { text: self.text@, path_exists: self.path_exists }
    }
}

/// What was read of a connection in place of a line: the line, or nothing where it
/// could not be read, as where it is not valid UTF-8.
pub open spec fn line_view(line: Option<ReceivedLine>) -> Option<LineView> {
    match line {
        Some(line) => Some(line@),
        None => None,
    }
}

/// What was read of a connection.
pub open spec fn line_views(lines: Seq<Option<ReceivedLine>>) -> Seq<Option<LineView>> {
    lines.map_values(|line: Option<ReceivedLine>| line_view(line))
}

/// The lines that could not be read.
pub open spec fn is_unreadable() -> spec_fn(Option<LineView>) -> bool {
    |line: Option<LineView>| line is None
}

/// How many lines of a connection come before the first that could not be read.
pub open spec fn readable_length(lines: Seq<Option<LineView>>) -> int {
    match first_index(lines, is_unreadable()) {
        Some(i) => i,
        None => lines.len() as int,
    }
}

/// The lines of a connection up to the first that could not be read, which ends
/// the reading.
pub open spec fn readable(lines: Seq<Option<LineView>>) -> Seq<LineView> {
    lines.take(readable_length(lines)).map_values(|line: Option<LineView>| line->0)
}

/// The queues after the lines of a connection.
pub open spec fn received(queues: Queues, lines: Seq<LineView>) -> Queues
    decreases lines.len(),
{
    if lines.len() == 0 {
        queues
    } else {
        after_message(
            received(queues, lines.drop_last()),
            line_message(lines.last().text),
            lines.last().path_exists,
        )
    }
}

/// How many of the lines are queued, each of which wakes the windows.
pub open spec fn wake_count(lines: Seq<LineView>) -> nat
    decreases lines.len(),
{
    if lines.len() == 0 {
        0
    } else {
        wake_count(lines.drop_last()) + if queued(
            line_message(lines.last().text),
            lines.last().path_exists,
        ) {
            1nat
        } else {
            0nat
        }
    }
}

/// What follows a line of a connection.
#[derive(Clone, Copy, PartialEq, Eq, Debug, Structural)]
pub enum ConnectionStep {
    /// The line was queued: wake the windows now, then read on.
    Wake,
    /// Nothing was queued: read on.
    ReadOn,
    /// The line could not be read: the rest of the connection is not.
    Close,
}

/// Put a line of a connection into the queue that it is for. There is no line where
/// it could not be read, as where it is not valid UTF-8.
pub fn receive_line(
    line: &Option<ReceivedLine>,
    pending_files: &mut Vec<String>,
    pending_ipc_commands: &mut Vec<String>,
) -> (step: ConnectionStep)
    ensures
        match line_view(*line) {
            Some(line) => {
                let before = Queues {
                    files: texts(old(pending_files)@),
                    commands: texts(old(pending_ipc_commands)@),
                };
                let message = line_message(line.text);
                let after = after_message(before, message, line.path_exists);
                &&& texts(final(pending_files)@) == after.files
                &&& texts(final(pending_ipc_commands)@) == after.commands
                &&& step == if queued(message, line.path_exists) {
                    ConnectionStep::Wake
                } else {
                    ConnectionStep::ReadOn
                }
            },
            None => {
                &&& final(pending_files)@ == old(pending_files)@
                &&& final(pending_ipc_commands)@ == old(pending_ipc_commands)@
                &&& step == ConnectionStep::Close
            },
        },
{
    match line {
        Some(line) => {
            let wake: bool = queue_message(
                parse_line(line.text.as_str()),
                line.path_exists,
                pending_files,
                pending_ipc_commands,
            );
            if wake {
                ConnectionStep::Wake
            } else {
                ConnectionStep::ReadOn
            }
        },
        None => ConnectionStep::Close,
    }
}

/// Put the lines of a connection into the queues that they are for, one after the
/// other, up to the first that could not be read.
///
/// Returns how often the windows are woken: once for each line that was queued.
pub fn receive_lines(
    lines: &Vec<Option<ReceivedLine>>,
    pending_files: &mut Vec<String>,
    pending_ipc_commands: &mut Vec<String>,
) -> (wakes: usize)
    ensures
        ({
            let before = Queues {
                files: texts(old(pending_files)@),
                commands: texts(old(pending_ipc_commands)@),
            };
            let after = received(before, readable(line_views(lines@)));
            &&& texts(final(pending_files)@) == after.files
            &&& texts(final(pending_ipc_commands)@) == after.commands
        }),
        wakes == wake_count(readable(line_views(lines@))),
{
    let ghost before = Queues {
        files: texts(pending_files@),
        commands: texts(pending_ipc_commands@),
    };
    let ghost all = line_views(lines@);
    let ghost texts_of = |line: Option<LineView>| line->0;
    let mut wakes: usize = 0;
    let mut i: usize = 0;
    let mut reading: bool = true;
    assert(all.take(0).map_values(texts_of) =~= Seq::empty());
    while reading && i < lines.len()
        invariant
            all == line_views(lines@),
            texts_of == (|line: Option<LineView>| line->0),
            i <= lines.len(),
            wakes <= i,
            forall|j: int| 0 <= j < i ==> !is_unreadable()(#[trigger] all[j]),
            !reading ==> i < lines.len() && is_unreadable()(all[i as int]),
            texts(pending_files@) == received(before, all.take(i as int).map_values(texts_of)).files,
            texts(pending_ipc_commands@) == received(
                before,
                all.take(i as int).map_values(texts_of),
            ).commands,
            wakes == wake_count(all.take(i as int).map_values(texts_of)),
        decreases
                lines.len() - i,
                if reading {
                    1int
                } else {
                    0int
                },
    {
        let step: ConnectionStep = receive_line(&lines[i], pending_files, pending_ipc_commands);
        match step {
            ConnectionStep::Close => {
                reading = false;
            },
            _ => {
                proof {
                    let done = all.take(i as int).map_values(texts_of);
                    let upto = all.take(i + 1).map_values(texts_of);
                    assert(all[i as int] == line_view(lines@[i as int]));
                    assert(upto.drop_last() =~= done);
                    assert(upto.last() == all[i as int]->0);
                }
                if step == ConnectionStep::Wake {
                    wakes += 1;
                }
                i += 1;
            },
        }
    }
    proof {
        if reading {
            lemma_first_index_none(all, is_unreadable());
        } else {
            lemma_first_index_is(all, is_unreadable(), i as int);
        }
        assert(readable(all) =~= all.take(i as int).map_values(texts_of));
    }
    wakes
}

/// Whether `line` comes out of a message as it went in: it holds no newline and
/// does not end with a carriage return.
pub open spec fn fits_one_line(line: Seq<char>) -> bool {
    &&& !line.contains('\n')
    &&& line.len() > 0 ==> line.last() != '\r'
}

/// Lines that each fit one line are read back from the text that carries them,
/// in the same order.
pub proof fn law_lines_round_trip(lines: Seq<Seq<char>>)
    requires
        forall|i: int| 0 <= i < lines.len() ==> fits_one_line(#[trigger] lines[i]),
    ensures
        text_lines(wire_text(lines)) == lines,
    decreases lines.len(),
{
    let text = wire_text(lines);
    if lines.len() > 0 {
        let first = lines[0];
        let rest = lines.drop_first();
        assert forall|i: int| 0 <= i < rest.len() implies fits_one_line(#[trigger] rest[i]) by {
            assert(rest[i] == lines[i + 1]);
        }
        law_lines_round_trip(rest);
        assert(fits_one_line(first));
        assert forall|j: int| 0 <= j < first.len() implies text[j] != '\n' by {
            assert(text[j] == first[j]);
            assert(first.contains(first[j]));
        }
        assert(text[first.len() as int] == '\n');
        lemma_line_length_is(text, first.len());
        assert(text.take(first.len() as int) =~= first);
        assert(text.skip(first.len() as int + 1) =~= wire_text(rest));
        assert(text_lines(text) =~= lines);
    }
}

/// The windows are woken exactly if a message changed the queues, and no message
/// takes anything out of them.
pub proof fn law_woken_only_for_what_was_queued(
    queues: Queues,
    message: MessageView,
    path_exists: bool,
)
    ensures
        queued(message, path_exists) <==> after_message(queues, message, path_exists) != queues,
        queues.files.is_prefix_of(after_message(queues, message, path_exists).files),
        queues.commands.is_prefix_of(after_message(queues, message, path_exists).commands),
{
    let after = after_message(queues, message, path_exists);
    if queued(message, path_exists) {
        assert(after.files.len() + after.commands.len() == queues.files.len()
            + queues.commands.len() + 1);
    }
    assert(after.files.subrange(0, queues.files.len() as int) =~= queues.files);
    assert(after.commands.subrange(0, queues.commands.len() as int) =~= queues.commands);
}

/// Whether a path can be handed over: it fits one line, and that line is neither
/// empty nor a command.
pub open spec fn can_be_forwarded(path: Seq<char>) -> bool {
    &&& fits_one_line(path)
    &&& line_message(path) is File
}

/// The texts of the lines whose path exists, in order.
pub open spec fn existing(lines: Seq<LineView>) -> Seq<Seq<char>>
    decreases lines.len(),
{
    if lines.len() == 0 {
        Seq::empty()
    } else if lines.last().path_exists {
        existing(lines.drop_last()).push(lines.last().text)
    } else {
        existing(lines.drop_last())
    }
}

/// Whether `lines` are what is read from `text`.
pub open spec fn are_read_from(lines: Seq<LineView>, text: Seq<char>) -> bool {
    lines.map_values(|line: LineView| line.text) == text_lines(text)
}

proof fn lemma_file_lines(queues: Queues, lines: Seq<LineView>)
    requires
        forall|i: int| 0 <= i < lines.len() ==> can_be_forwarded((#[trigger] lines[i]).text),
    ensures
        received(queues, lines) == (Queues { files: queues.files + existing(lines), ..queues }),
    decreases lines.len(),
{
    if lines.len() == 0 {
        assert(queues.files + existing(lines) =~= queues.files);
    } else {
        let front = lines.drop_last();
        assert forall|i: int| 0 <= i < front.len() implies can_be_forwarded(
            (#[trigger] front[i]).text,
        ) by {
            assert(front[i] == lines[i]);
        }
        lemma_file_lines(queues, front);
        assert(can_be_forwarded(lines[lines.len() - 1].text));
        assert(received(queues, lines).files =~= queues.files + existing(lines));
    }
}

proof fn lemma_all_existing(lines: Seq<LineView>)
    requires
        forall|i: int| 0 <= i < lines.len() ==> (#[trigger] lines[i]).path_exists,
    ensures
        existing(lines) == lines.map_values(|line: LineView| line.text),
    decreases lines.len(),
{
    if lines.len() > 0 {
        let front = lines.drop_last();
        assert forall|i: int| 0 <= i < front.len() implies (#[trigger] front[i]).path_exists by {
            assert(front[i] == lines[i]);
        }
        lemma_all_existing(front);
        assert(lines[lines.len() - 1].path_exists);
        assert(existing(lines) =~= lines.map_values(|line: LineView| line.text));
    } else {
        assert(existing(lines) =~= lines.map_values(|line: LineView| line.text));
    }
}

/// The paths that one instance forwards are queued by the other, those that exist
/// there and in the order in which they were given; no command is queued. If all
/// of them exist, all of them are queued.
pub proof fn law_forwarded_files_are_queued(
    queues: Queues,
    paths: Seq<Seq<char>>,
    lines: Seq<LineView>,
)
    requires
        forall|i: int| 0 <= i < paths.len() ==> can_be_forwarded(#[trigger] paths[i]),
        are_read_from(lines, wire_text(paths)),
    ensures
        lines.len() == paths.len(),
        received(queues, lines) == (Queues { files: queues.files + existing(lines), ..queues }),
        (forall|i: int| 0 <= i < lines.len() ==> (#[trigger] lines[i]).path_exists) ==> received(
            queues,
            lines,
        ).files == queues.files + paths,
{
    assert forall|i: int| 0 <= i < paths.len() implies fits_one_line(#[trigger] paths[i]) by {
        assert(can_be_forwarded(paths[i]));
    }
    law_lines_round_trip(paths);
    let read = lines.map_values(|line: LineView| line.text);
    assert(read == paths);
    assert(read.len() == lines.len());
    assert forall|i: int| 0 <= i < lines.len() implies can_be_forwarded(
        (#[trigger] lines[i]).text,
    ) by {
        assert(read[i] == paths[i]);
    }
    lemma_file_lines(queues, lines);
    if forall|i: int| 0 <= i < lines.len() ==> (#[trigger] lines[i]).path_exists {
        lemma_all_existing(lines);
    }
}

/// The command that one instance sends is queued by the other, whatever exists
/// there; no file is queued.
pub proof fn law_sent_command_is_queued(queues: Queues, cmd: Seq<char>, lines: Seq<LineView>)
    requires
        fits_one_line(cmd),
        are_read_from(lines, wire_text(seq![command_prefix() + cmd])),
    ensures
        received(queues, lines) == (Queues { commands: queues.commands.push(cmd), ..queues }),
{
    let line = command_prefix() + cmd;
    assert(fits_one_line(line)) by {
        if line.contains('\n') {
            let i = choose|i: int| 0 <= i < line.len() && line[i] == '\n';
            assert(cmd[i - 4] == '\n');
        }
    }
    law_lines_round_trip(seq![line]);
    let read = lines.map_values(|line: LineView| line.text);
    assert(read == seq![line]);
    assert(read.len() == lines.len());
    assert(read[0] == lines[0].text);
    assert(lines.drop_last() =~= Seq::empty());
    assert(received(queues, lines.drop_last()) == queues);
    assert(lines.last().text == line);
    assert(command_prefix().is_prefix_of(line)) by {
        assert(line.subrange(0, 4) =~= command_prefix());
    }
    assert(line.skip(4) =~= cmd);
}

/// What the listener meets when a connection comes in.
pub ghost struct Incoming {
    /// Whether it is being stopped.
    pub shutdown: bool,
    /// What is read of the connection, if that stands.
    pub lines: Option<Seq<Option<LineView>>>,
}

/// The queues after the listener has met `events`, one after the other.
pub open spec fn listened(queues: Queues, events: Seq<Incoming>) -> Queues
    decreases events.len(),
{
    if events.len() == 0 {
        queues
    } else {
        match listener_step(events[0].shutdown, events[0].lines is Some) {
            ListenerStep::Stop => queues,
            ListenerStep::ReadConnection => listened(
                received(queues, readable(events[0].lines->0)),
                events.drop_first(),
            ),
            ListenerStep::KeepListening => listened(queues, events.drop_first()),
        }
    }
}

/// Once the listener is told to stop, nothing that comes in is queued any more: not
/// the connection that it is woken up with, and none behind it.
pub proof fn law_nothing_is_queued_after_shutdown(
    queues: Queues,
    earlier: Seq<Incoming>,
    stop: Incoming,
    later: Seq<Incoming>,
)
    requires
        stop.shutdown,
    ensures
        listened(queues, earlier.push(stop) + later) == listened(queues, earlier),
    decreases earlier.len(),
{
    let events = earlier.push(stop) + later;
    if earlier.len() == 0 {
        assert(events[0] == stop);
    } else {
        let rest = earlier.drop_first();
        assert(events[0] == earlier[0]);
        assert(events.drop_first() =~= rest.push(stop) + later);
        law_nothing_is_queued_after_shutdown(queues, rest, stop, later);
        if earlier[0].lines is Some {
            law_nothing_is_queued_after_shutdown(
                received(queues, readable(earlier[0].lines->0)),
                rest,
                stop,
                later,
            );
        }
    }
}

proof fn lemma_readable(before: Seq<LineView>, after: Seq<Option<LineView>>)
    ensures
        readable(before.map_values(|line: LineView| Some(line)).push(None) + after) == before,
{
    let some = before.map_values(|line: LineView| Some(line));
    let lines = some.push(None) + after;
    let k = before.len() as int;
    assert forall|j: int| 0 <= j < k implies !is_unreadable()(#[trigger] lines[j]) by {
        assert(lines[j] == some[j]);
    }
    assert(lines[k] is None);
    lemma_first_index_is(lines, is_unreadable(), k);
    assert forall|j: int| 0 <= j < k implies readable(lines)[j] == before[j] by {
        assert(lines[j] == some[j]);
    }
    assert(readable(lines) =~= before);
}

/// A line that cannot be read, as where it is not valid UTF-8, ends the reading of
/// its own connection and of no other: what came before it is queued, what comes
/// behind it is not, and the listener goes on with the next connection.
pub proof fn law_unreadable_line_ends_its_connection(
    queues: Queues,
    before: Seq<LineView>,
    after: Seq<Option<LineView>>,
    next: Seq<Incoming>,
)
    ensures
        ({
            let lines = before.map_values(|line: LineView| Some(line)).push(None) + after;
            let event = Incoming { shutdown: false, lines: Some(lines) };
            listened(queues, seq![event] + next) == listened(received(queues, before), next)
        }),
{
    let lines = before.map_values(|line: LineView| Some(line)).push(None) + after;
    let event = Incoming { shutdown: false, lines: Some(lines) };
    lemma_readable(before, after);
    assert((seq![event] + next).drop_first() =~= next);
}

/// A connection that fails changes nothing, and the listener goes on.
pub proof fn law_failed_connection_is_passed_over(queues: Queues, next: Seq<Incoming>)
    ensures
        ({
            let event = Incoming { shutdown: false, lines: None };
            listened(queues, seq![event] + next) == listened(queues, next)
        }),
{
    let event = Incoming { shutdown: false, lines: None };
    assert((seq![event] + next).drop_first() =~= next);
}

/// A connection whose lines can all be read is read to its end.
pub proof fn law_readable_connection_is_read_whole(lines: Seq<LineView>)
    ensures
        readable(lines.map_values(|line: LineView| Some(line))) == lines,
{
    let some = lines.map_values(|line: LineView| Some(line));
    assert forall|j: int| 0 <= j < some.len() implies !is_unreadable()(#[trigger] some[j]) by {
        assert(some[j] == Some(lines[j]));
    }
    lemma_first_index_none(some, is_unreadable());
    assert(readable(some) =~= lines);
}

/// A line means nothing exactly if it is empty; the prefix `CMD:` makes a command
/// of whatever follows it; every other line is the path that it holds, however long
/// it is.
pub proof fn law_line_meaning(line: Seq<char>, rest: Seq<char>)
    ensures
        command_prefix() == "CMD:"@,
        line_message(line) is Blank <==> line.len() == 0,
        line_message("CMD:"@ + rest) == MessageView::Command(rest),
        line.len() > 0 && !"CMD:"@.is_prefix_of(line) ==> line_message(line)
            == MessageView::File(line),
{
    reveal_strlit("CMD:");
    assert("CMD:"@ =~= command_prefix());
    let command = "CMD:"@ + rest;
    assert("CMD:"@.is_prefix_of(command)) by {
        assert(command.subrange(0, 4) =~= "CMD:"@);
    }
    assert(command.skip(4) =~= rest);
}

/// A command goes to the end of the queue of commands, and a file that exists to
/// the end of the queue of files; nothing else changes a queue.
pub proof fn law_message_goes_to_its_queue(queues: Queues, text: Seq<char>, path_exists: bool)
    ensures
        after_message(queues, MessageView::Blank, path_exists) == queues,
        after_message(queues, MessageView::Command(text), path_exists) == (Queues {
            files: queues.files,
            commands: queues.commands.push(text),
        }),
        after_message(queues, MessageView::File(text), true) == (Queues {
            files: queues.files.push(text),
            commands: queues.commands,
        }),
        after_message(queues, MessageView::File(text), false) == queues,
{
}

/// A text carries each of its lines and a newline behind it, and nothing more.
pub proof fn law_wire_text(a: Seq<Seq<char>>, b: Seq<Seq<char>>, line: Seq<char>)
    ensures
        wire_text(Seq::empty()) == Seq::<char>::empty(),
        wire_text(seq![line]) == line + seq!['\n'],
        wire_text(a + b) == wire_text(a) + wire_text(b),
    decreases a.len(),
{
    assert(wire_text(Seq::empty()) =~= Seq::<char>::empty());
    assert(seq![line].drop_first() =~= Seq::empty());
    assert(wire_text(seq![line]) =~= line + seq!['\n']);
    if a.len() == 0 {
        assert(a + b =~= b);
        assert(wire_text(a + b) =~= wire_text(a) + wire_text(b));
    } else {
        law_wire_text(a.drop_first(), b, line);
        assert((a + b).drop_first() =~= a.drop_first() + b);
        assert((a + b)[0] == a[0]);
        assert(wire_text(a + b) =~= wire_text(a) + wire_text(b));
    }
}

/// A text falls into lines at its newlines. A carriage return before a newline goes
/// with it, and what stands behind the last newline is a line of its own unless it
/// is empty.
pub proof fn law_text_lines(line: Seq<char>, rest: Seq<char>)
    requires
        forall|i: int| 0 <= i < line.len() ==> #[trigger] line[i] != '\n',
    ensures
        line.len() == 0 ==> text_lines(line) == Seq::<Seq<char>>::empty(),
        line.len() > 0 ==> text_lines(line) == seq![line],
        line.len() == 0 || line.last() != '\r' ==> text_lines(line + seq!['\n'] + rest) == seq![
            line,
        ] + text_lines(rest),
        text_lines(line + seq!['\r', '\n'] + rest) == seq![line] + text_lines(rest),
{
    lemma_line_length_is(line, line.len());
    let plain = line + seq!['\n'] + rest;
    assert forall|j: int| 0 <= j < line.len() implies plain[j] != '\n' by {
        assert(plain[j] == line[j]);
    }
    lemma_line_length_is(plain, line.len());
    assert(plain.take(line.len() as int) =~= line);
    assert(plain.skip(line.len() as int + 1) =~= rest);
    let longer = line.push('\r');
    let both = line + seq!['\r', '\n'] + rest;
    assert forall|j: int| 0 <= j < longer.len() implies both[j] != '\n' by {
        if j < line.len() {
            assert(both[j] == line[j]);
        }
    }
    lemma_line_length_is(both, longer.len());
    assert(both.take(longer.len() as int) =~= longer);
    assert(longer.drop_last() =~= line);
    assert(both.skip(longer.len() as int + 1) =~= rest);
}

/// The lines of a connection are queued one after the other, each by what it holds.
pub proof fn law_received_line_by_line(
    queues: Queues,
    a: Seq<LineView>,
    b: Seq<LineView>,
    line: LineView,
    cmd: Seq<char>,
)
    ensures
        received(queues, Seq::empty()) == queues,
        received(queues, a + b) == received(received(queues, a), b),
        line.text.len() == 0 ==> received(queues, seq![line]) == queues,
        line.text == "CMD:"@ + cmd ==> received(queues, seq![line]) == (Queues {
            files: queues.files,
            commands: queues.commands.push(cmd),
        }),
        line.text.len() > 0 && !"CMD:"@.is_prefix_of(line.text) ==> received(queues, seq![line])
            == (Queues {
            files: if line.path_exists {
                queues.files.push(line.text)
            } else {
                queues.files
            },
            commands: queues.commands,
        }),
    decreases b.len(),
{
    law_line_meaning(line.text, cmd);
    assert(seq![line].drop_last() =~= Seq::empty());
    assert(seq![line].last() == line);
    assert(received(queues, seq![line].drop_last()) == queues);
    if b.len() == 0 {
        assert(a + b =~= a);
    } else {
        law_received_line_by_line(queues, a, b.drop_last(), line, cmd);
        assert((a + b).drop_last() =~= a + b.drop_last());
        assert((a + b).last() == b.last());
    }
}

/// The windows are woken once for everything that is queued.
pub proof fn law_one_wake_for_each_queued_line(queues: Queues, lines: Seq<LineView>)
    ensures
        received(queues, lines).files.len() + received(queues, lines).commands.len()
            == queues.files.len() + queues.commands.len() + wake_count(lines),
    decreases lines.len(),
{
    if lines.len() > 0 {
        law_one_wake_for_each_queued_line(queues, lines.drop_last());
    }
}

/// The lines that are read of a connection are those before the first that cannot
/// be.
pub proof fn law_readable_lines(before: Seq<LineView>, after: Seq<Option<LineView>>)
    ensures
        readable(before.map_values(|line: LineView| Some(line)).push(None) + after) == before,
{
    lemma_readable(before, after);
}

/// Every connection that stands is read, as long as the listener is not stopped.
pub proof fn law_connection_is_read(
    queues: Queues,
    lines: Seq<Option<LineView>>,
    next: Seq<Incoming>,
)
    ensures
        listened(queues, Seq::empty()) == queues,
        ({
            let event = Incoming { shutdown: false, lines: Some(lines) };
            listened(queues, seq![event] + next) == listened(
                received(queues, readable(lines)),
                next,
            )
        }),
{
    let event = Incoming { shutdown: false, lines: Some(lines) };
    assert((seq![event] + next).drop_first() =~= next);
}

/// The texts of the lines whose path exists are kept, and no others, in order.
pub proof fn law_existing_lines(a: Seq<LineView>, b: Seq<LineView>, line: LineView)
    ensures
        existing(Seq::empty()) == Seq::<Seq<char>>::empty(),
        existing(a + b) == existing(a) + existing(b),
        existing(seq![line]) == (if line.path_exists {
            seq![line.text]
        } else {
            Seq::empty()
        }),
    decreases b.len(),
{
    assert(existing(Seq::empty()) =~= Seq::<Seq<char>>::empty());
    assert(seq![line].drop_last() =~= Seq::empty());
    assert(seq![line].last() == line);
    assert(existing(seq![line]) =~= (if line.path_exists {
        seq![line.text]
    } else {
        Seq::empty()
    }));
    if b.len() == 0 {
        assert(a + b =~= a);
        assert(existing(a + b) =~= existing(a) + existing(b));
    } else {
        law_existing_lines(a, b.drop_last(), line);
        assert((a + b).drop_last() =~= a + b.drop_last());
        assert((a + b).last() == b.last());
        assert(existing(a + b) =~= existing(a) + existing(b));
    }
}

/// Paths that are not empty, hold no newline, do not end with a carriage return and
/// do not begin with `CMD:` all arrive: if they exist, the other instance queues
/// them behind what it has queued, in the same order, and wakes its windows once
/// for each.
pub proof fn law_forwarded_paths_arrive(
    queues: Queues,
    paths: Seq<Seq<char>>,
    lines: Seq<LineView>,
)
    requires
        forall|i: int|
            0 <= i < paths.len() ==> {
                let path = #[trigger] paths[i];
                &&& path.len() > 0
                &&& !path.contains('\n')
                &&& path.last() != '\r'
                &&& !"CMD:"@.is_prefix_of(path)
            },
        lines.len() == text_lines(wire_text(paths)).len(),
        forall|i: int|
            0 <= i < lines.len() ==> (#[trigger] lines[i]).text == text_lines(wire_text(paths))[i]
                && lines[i].path_exists,
    ensures
        received(queues, lines) == (Queues {
            files: queues.files + paths,
            commands: queues.commands,
        }),
        wake_count(lines) == paths.len(),
{
    assert forall|i: int| 0 <= i < paths.len() implies can_be_forwarded(#[trigger] paths[i]) by {
        law_line_meaning(paths[i], paths[i]);
    }
    assert(lines.map_values(|line: LineView| line.text) =~= text_lines(wire_text(paths)));
    law_forwarded_files_are_queued(queues, paths, lines);
    law_one_wake_for_each_queued_line(queues, lines);
}

/// What the terms of the forwarding laws ask of a line and of a connection.
pub proof fn law_forwarding_terms(line: Seq<char>, lines: Seq<LineView>, text: Seq<char>)
    ensures
        fits_one_line(line) <==> !line.contains('\n') && (line.len() == 0 || line.last() != '\r'),
        can_be_forwarded(line) <==> line.len() > 0 && !line.contains('\n') && line.last() != '\r'
            && !"CMD:"@.is_prefix_of(line),
        are_read_from(lines, text) <==> lines.len() == text_lines(text).len() && forall|i: int|
            0 <= i < lines.len() ==> (#[trigger] lines[i]).text == text_lines(text)[i],
{
    law_line_meaning(line, line);
    let read = lines.map_values(|line: LineView| line.text);
    if are_read_from(lines, text) {
        assert(read.len() == lines.len());
        assert forall|i: int| 0 <= i < lines.len() implies (#[trigger] lines[i]).text == text_lines(
            text,
        )[i] by {
            assert(read[i] == lines[i].text);
        }
    }
    if lines.len() == text_lines(text).len() && forall|i: int|
        0 <= i < lines.len() ==> (#[trigger] lines[i]).text == text_lines(text)[i] {
        assert(read =~= text_lines(text));
    }
    if "CMD:"@.is_prefix_of(line) {
        assert(line =~= "CMD:"@ + line.skip("CMD:"@.len() as int));
        law_line_meaning(line, line.skip("CMD:"@.len() as int));
    }
}

/// A message keeps the text that it was made of.
pub proof fn law_message_text(text: String)
    ensures
        IpcMessage::Blank@ == MessageView::Blank,
        IpcMessage::Command(text)@ == MessageView::Command(text@),
        IpcMessage::File(text)@ == MessageView::File(text@),
{
}

/// What was read of a connection is, in the same places, the text of each line and
/// whether its path exists, and nothing where a line could not be read.
pub proof fn law_lines_as_read(lines: Seq<Option<ReceivedLine>>, i: int)
    requires
        0 <= i < lines.len(),
    ensures
        line_views(lines).len() == lines.len(),
        line_views(lines)[i] == line_view(lines[i]),
        match lines[i] {
            Some(line) => line_view(lines[i]) == Some(
                LineView { text: line.text@, path_exists: line.path_exists },
            ),
            None => line_view(lines[i]) is None,
        },
{
}

/// The listener stops exactly if it is told to, and reads a connection exactly if it
/// is not told to stop and the connection stands.
pub proof fn law_listener_step(shutdown: bool, accepted: bool)
    ensures
        listener_step(shutdown, accepted) is Stop <==> shutdown,
        listener_step(shutdown, accepted) is ReadConnection <==> !shutdown && accepted,
        listener_step(shutdown, accepted) is KeepListening <==> !shutdown && !accepted,
{
}

} // verus!
