//! What a window does about the queues that other processes and the system fill.

use crate::focus::{handles_queues, may_handle_queues};
use crate::fulgur::Fulgur;
use crate::text::{same_text, texts};
use vstd::prelude::*;

verus! {

/// What a window does about the files that are queued.
pub struct PendingFiles {
    /// The files to open, in order.
    pub open: Vec<String>,
    /// Whether the window comes back if it is minimized.
    pub restore_window: bool,
}

/// What a window does about one command.
#[derive(PartialEq, Eq, Debug)]
pub enum IpcAction {
    /// Open a tab in this window.
    NewTab,
    /// Open another window.
    NewWindow,
    /// Nothing: the command is not known.
    Unknown(String),
}

/// The characters of an [`IpcAction`].
pub enum ActionView {
    NewTab,
    NewWindow,
    Unknown(Seq<char>),
}

impl View for IpcAction {
    type V = ActionView;

    open spec fn view(&self) -> ActionView {
        match self {
            IpcAction::NewTab => ActionView::NewTab,
            IpcAction::NewWindow => ActionView::NewWindow,
            IpcAction::Unknown(cmd) => ActionView::Unknown(cmd@),
        }
    }
}

/// What a command asks for.
pub open spec fn command_action(cmd: Seq<char>) -> ActionView {
    if cmd == "new-tab"@ {
        ActionView::NewTab
    } else if cmd == "new-window"@ {
        ActionView::NewWindow
    } else {
        ActionView::Unknown(cmd)
    }
}

/// What each of the commands asks for.
pub open spec fn command_actions(commands: Seq<Seq<char>>) -> Seq<ActionView> {
    commands.map_values(|cmd: Seq<char>| command_action(cmd))
}

/// The actions of a list.
pub open spec fn actions_of(list: Seq<IpcAction>) -> Seq<ActionView> {
    list.map_values(|action: IpcAction| action@)
}

/// What a window does about the commands that are queued.
pub struct PendingCommands {
    /// What to do, in order.
    pub actions: Vec<IpcAction>,
    /// Whether the window comes back if it is minimized.
    pub restore_window: bool,
}

fn action_of(cmd: &String) -> (res: IpcAction)
    ensures
        res@ == command_action(cmd@),
{
    if same_text(cmd.as_str(), "new-tab") {
        IpcAction::NewTab
    } else if same_text(cmd.as_str(), "new-window") {
        IpcAction::NewWindow
    } else {
        IpcAction::Unknown(cmd.clone())
    }
}

impl Fulgur {
    /// Take the files that are queued for opening. `pending` is the queue, if its
    /// lock was free.
    ///
    /// Only a window that handles the queues takes them; it then comes back if it
    /// is minimized, so that the opened files can be seen.
    pub fn process_pending_files_from_macos(
        &self,
        last_focused: Option<u64>,
        pending: Option<&mut Vec<String>>,
    ) -> (res: PendingFiles)
        ensures
            match pending {
                Some(queue) => if handles_queues(last_focused, self.window_id) {
                    res.open@ == (*queue)@ && final(queue)@ == Seq::<String>::empty()
                } else {
                    res.open@ == Seq::<String>::empty() && final(queue)@ == (*queue)@
                },
                None => res.open@ == Seq::<String>::empty(),
            },
            res.restore_window == (res.open@.len() > 0),
    {
        let mut open: Vec<String> = Vec::new();
        if may_handle_queues(last_focused, self.window_id) {
            match pending {
                Some(queue) => {
                    core::mem::swap(queue, &mut open);
                },
                None => {},
            }
        }
        let restore_window: bool = open.len() > 0;
        PendingFiles { open, restore_window }
    }

    /// Take the commands that other processes sent, and tell what they ask for.
    /// `pending` is the queue, if its lock was free.
    ///
    /// Only a window that handles the queues takes them. It comes back if it is
    /// minimized and got a tab; a new window shows itself.
    pub fn process_pending_ipc_commands(
        &self,
        last_focused: Option<u64>,
        pending: Option<&mut Vec<String>>,
    ) -> (res: PendingCommands)
        ensures
            match pending {
                Some(queue) => if handles_queues(last_focused, self.window_id) {
                    actions_of(res.actions@) == command_actions(texts((*queue)@)) && final(queue)@
                        == Seq::<String>::empty()
                } else {
                    res.actions@ == Seq::<IpcAction>::empty() && final(queue)@ == (*queue)@
                },
                None => res.actions@ == Seq::<IpcAction>::empty(),
            },
            res.restore_window == actions_of(res.actions@).contains(ActionView::NewTab),
    {
        let mut commands: Vec<String> = Vec::new();
        if may_handle_queues(last_focused, self.window_id) {
            match pending {
                Some(queue) => {
                    core::mem::swap(queue, &mut commands);
                },
                None => {},
            }
        }
        let mut actions: Vec<IpcAction> = Vec::new();
        let mut opened_new_tab: bool = false;
        for i in 0..commands.len()
            invariant
                actions.len() == i,
                forall|j: int|
                    0 <= j < i ==> (#[trigger] actions@[j])@ == command_action(commands@[j]@),
                opened_new_tab <==> exists|j: int|
                    0 <= j < i && (#[trigger] actions@[j])@ == ActionView::NewTab,
        {
            let action: IpcAction = action_of(&commands[i]);
            let ghost before = actions@;
            let new_tab: bool = match action {
                IpcAction::NewTab => true,
                _ => false,
            };
            actions.push(action);
            proof {
                if opened_new_tab {
                    let j = choose|j: int| 0 <= j < i && (#[trigger] before[j])@ == ActionView::NewTab;
                    assert(actions@[j]@ == ActionView::NewTab);
                }
                assert(actions@[i as int]@ == action@);
            }
            if new_tab {
                opened_new_tab = true;
            }
        }
        proof {
            assert(actions_of(actions@) =~= command_actions(texts(commands@)));
            if opened_new_tab {
                let j = choose|j: int|
                    0 <= j < actions.len() && (#[trigger] actions@[j])@ == ActionView::NewTab;
                assert(actions_of(actions@)[j] == ActionView::NewTab);
            }
            if actions_of(actions@).contains(ActionView::NewTab) {
                let j = choose|j: int|
                    0 <= j < actions.len() && actions_of(actions@)[j] == ActionView::NewTab;
                assert(actions@[j]@ == ActionView::NewTab);
            }
        }
        PendingCommands { actions, restore_window: opened_new_tab }
    }
}

/// Each command is answered in its place: `new-tab` and `new-window` by what they
/// ask for, and no other command by either.
pub proof fn law_commands_are_answered_in_place(commands: Seq<Seq<char>>, i: int)
    requires
        0 <= i < commands.len(),
    ensures
        command_actions(commands).len() == commands.len(),
        command_actions(commands)[i] is NewTab <==> commands[i] == "new-tab"@,
        command_actions(commands)[i] is NewWindow <==> commands[i] == "new-window"@,
        command_actions(commands)[i] matches ActionView::Unknown(cmd) ==> cmd == commands[i],
{
    reveal_strlit("new-tab");
    reveal_strlit("new-window");
    assert("new-tab"@.len() != "new-window"@.len());
}

/// A list of actions holds each action in its place.
pub proof fn law_actions_of(list: Seq<IpcAction>, i: int)
    requires
        0 <= i < list.len(),
    ensures
        actions_of(list).len() == list.len(),
        actions_of(list)[i] is NewTab <==> list[i] is NewTab,
        actions_of(list)[i] is NewWindow <==> list[i] is NewWindow,
        list[i] matches IpcAction::Unknown(cmd) ==> actions_of(list)[i] == ActionView::Unknown(
            cmd@,
        ),
{
}

/// A window comes back for a row of commands exactly if `new-tab` is among them.
pub proof fn law_new_tab_brings_the_window_back(commands: Seq<Seq<char>>)
    ensures
        command_actions(commands).contains(ActionView::NewTab) <==> commands.contains("new-tab"@),
{
    let actions = command_actions(commands);
    if actions.contains(ActionView::NewTab) {
        let i = choose|i: int| 0 <= i < actions.len() && actions[i] == ActionView::NewTab;
        law_commands_are_answered_in_place(commands, i);
        assert(commands[i] == "new-tab"@);
    }
    if commands.contains("new-tab"@) {
        let i = choose|i: int| 0 <= i < commands.len() && commands[i] == "new-tab"@;
        law_commands_are_answered_in_place(commands, i);
        assert(actions[i] == ActionView::NewTab);
    }
}

} // verus!
