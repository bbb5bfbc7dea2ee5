//! Watch over the browsed directory: what the tree is told when something
//! changes on disk, and which directory is under watch.

use crate::file_explorer;
use vstd::prelude::*;

verus! {

pub enum Command {
    /// Create the watcher.
    Initialize,
    /// Watch this directory in place of the one watched so far.
    ResetRootPath(String),
}

/// What happened to the paths of a notification.
#[derive(Debug, Clone)]
pub enum ChangeKind {
    Created,
    Removed,
    /// Renamed, and it is not known whether to or from the path.
    Renamed,
    RenamedFrom,
    RenamedTo,
    Other,
}

/// A path of a notification.
#[derive(Debug, Clone)]
pub struct Change {
    /// The components of the path, from the root of the tree down.
    pub path: Vec<String>,
    /// Whether the path exists now.
    pub exists: bool,
}

#[derive(Debug, Clone)]
pub enum Message {
    /// The watcher's command queue is open.
    Initialize,
    Notify(ChangeKind, Vec<Change>),
}

/// Whether a change of this kind to `change` makes something appear at the
/// path, `Some(true)`, makes it go, `Some(false)`, or is of no interest.
pub open spec fn appears(kind: ChangeKind, change: Change) -> Option<bool> {
    match kind {
        ChangeKind::Created => Some(true),
        ChangeKind::Removed => Some(false),
        ChangeKind::Renamed => Some(change.exists),
        ChangeKind::RenamedFrom => Some(false),
        ChangeKind::RenamedTo => Some(true),
        ChangeKind::Other => None,
    }
}

/// `messages` tells the tree of the changes `changes`, one message for each,
/// in order.
pub open spec fn reports(kind: ChangeKind, changes: Seq<Change>, messages: Seq<file_explorer::Message>) -> bool {
    match kind {
        ChangeKind::Other => messages.len() == 0,
        _ => {
            &&& messages.len() == changes.len()
            &&& forall|i: int|
                0 <= i < changes.len() ==> #[trigger] messages[i] == match appears(kind, changes[i]) {
                    Some(true) => file_explorer::Message::Added(changes[i].path),
                    _ => file_explorer::Message::Removed(changes[i].path),
                }
        },
    }
}

pub struct FileWatcher {
    connected: bool,
}

/// What comes of a message: a command for the watcher, and messages for the
/// tree.
pub struct Outcome {
    pub command: Option<Command>,
    pub messages: Vec<file_explorer::Message>,
}

impl FileWatcher {
    /// Whether the watcher's command queue is connected.
    pub closed spec fn connected(&self) -> bool {
        self.connected
    }

    pub fn new() -> (watcher: Self)
        ensures
            !watcher.connected(),
    {
        FileWatcher { connected: false }
    }

    /// The command that puts `path` under watch, once the queue is connected.
    pub fn watch(&self, path: String) -> (command: Option<Command>)
        ensures
            command == if self.connected() {
                Some(Command::ResetRootPath(path))
            } else {
                None
            },
    {
        if self.connected {
            Some(Command::ResetRootPath(path))
        } else {
            None
        }
    }

    /// Connects the queue, or turns a notification into messages for the
    /// tree.
    pub fn update(&mut self, message: Message) -> (outcome: Outcome)
        ensures
            match message {
                Message::Initialize => {
                    &&& final(self).connected()
                    &&& outcome.command == Some(Command::Initialize)
                    &&& outcome.messages@.len() == 0
                },
                Message::Notify(kind, changes) => {
                    &&& final(self).connected() == old(self).connected()
                    &&& outcome.command.is_none()
                    &&& reports(kind, changes@, outcome.messages@)
                },
            },
    {
        let mut messages: Vec<file_explorer::Message> = Vec::new();
        match message {
            Message::Initialize => {
                self.connected = true;
                Outcome { command: Some(Command::Initialize), messages }
            },
            Message::Notify(kind, changes) => {
                if let ChangeKind::Other = kind {
                    return Outcome { command: None, messages };
                }
                let mut changes = changes;
                let ghost all = changes@;
                let mut reversed: Vec<Change> = Vec::new();
                while changes.len() > 0
                    invariant
                        reversed@.len() + changes@.len() == all.len(),
                        forall|i: int| 0 <= i < changes@.len() ==> changes@[i] == all[i],
                        forall|i: int| 0 <= i < reversed@.len() ==> reversed@[i] == all[all.len() - 1 - i],
                    decreases changes@.len(),
                {
                    let change = changes.pop().unwrap();
                    reversed.push(change);
                }
                while reversed.len() > 0
                    invariant
                        !(kind is Other),
                        messages@.len() + reversed@.len() == all.len(),
                        forall|i: int| 0 <= i < reversed@.len() ==> reversed@[i] == all[all.len() - 1 - i],
                        reports(kind, all.take(messages@.len() as int), messages@),
                    decreases reversed@.len(),
                {
                    let change = reversed.pop().unwrap();
                    let ghost done = messages@.len() as int;
                    assert(change == all[done]);
                    let appeared = match kind {
                        ChangeKind::Created => true,
                        ChangeKind::Removed => false,
                        ChangeKind::Renamed => change.exists,
                        ChangeKind::RenamedFrom => false,
                        ChangeKind::RenamedTo => true,
                        ChangeKind::Other => false,
                    };
                    if appeared {
                        messages.push(file_explorer::Message::Added(change.path));
                    } else {
                        messages.push(file_explorer::Message::Removed(change.path));
                    }
                    proof {
                        let taken = all.take(done + 1);
                        assert forall|i: int| 0 <= i < taken.len() implies #[trigger] messages@[i] == match appears(
                            kind,
                            taken[i],
                        ) {
                            Some(true) => file_explorer::Message::Added(taken[i].path),
                            _ => file_explorer::Message::Removed(taken[i].path),
                        } by {
                            if i < done {
                                assert(all.take(done)[i] == taken[i]);
                            }
                        }
                    }
                }
                assert(all.take(messages@.len() as int) =~= all);
                Outcome { command: None, messages }
            },
        }
    }
}

/// What the watcher has under watch.
pub struct Watch {
    has_watcher: bool,
    root_path: Option<String>,
}

/// What the caller has to do with the watcher.
pub enum WatchAction {
    /// Create the watcher and report whether that worked.
    Create,
    Unwatch(String),
    /// Watch the directory and all below it.
    Watch(String),
}

impl Watch {
    pub closed spec fn has_watcher(&self) -> bool {
        self.has_watcher
    }

    /// The directory under watch.
    pub closed spec fn root_path(&self) -> Option<String> {
        self.root_path
    }

    pub fn new() -> (watch: Self)
        ensures
            !watch.has_watcher(),
            watch.root_path().is_none(),
    {
        Watch { has_watcher: false, root_path: None }
    }

    /// Records whether the watcher could be created.
    pub fn created(&mut self, created: bool)
        ensures
            final(self).has_watcher() == created,
            final(self).root_path() == old(self).root_path(),
    {
        self.has_watcher = created;
    }

    /// One turn of the watcher's loop. A new root directory takes the place
    /// of the one under watch; without a watcher nothing is watched.
    pub fn run_watcher(&mut self, command: Command) -> (actions: Vec<WatchAction>)
        ensures
            final(self).has_watcher() == old(self).has_watcher(),
            match command {
                Command::Initialize => {
                    &&& final(self).root_path() == old(self).root_path()
                    &&& actions@ == seq![WatchAction::Create]
                },
                Command::ResetRootPath(path) => if !old(self).has_watcher() {
                    &&& final(self).root_path() == old(self).root_path()
                    &&& actions@.len() == 0
                } else {
                    &&& final(self).root_path() == Some(path)
                    &&& actions@ == match old(self).root_path() {
                        Some(watched) => seq![WatchAction::Unwatch(watched), WatchAction::Watch(path)],
                        None => seq![WatchAction::Watch(path)],
                    }
                },
            },
    {
        let mut actions: Vec<WatchAction> = Vec::new();
        match command {
            Command::Initialize => {
                actions.push(WatchAction::Create);
                assert(actions@ =~= seq![WatchAction::Create]);
            },
            Command::ResetRootPath(path_buf) => {
                if self.has_watcher {
                    match &self.root_path {
                        Some(root_path) => {
                            actions.push(WatchAction::Unwatch(root_path.clone()));
                        },
                        None => {},
                    }
                    actions.push(WatchAction::Watch(path_buf.clone()));
                    proof {
                        match old(self).root_path() {
                            Some(watched) => {
                                assert(actions@ =~= seq![WatchAction::Unwatch(watched), WatchAction::Watch(path_buf)]);
                            },
                            None => {
                                assert(actions@ =~= seq![WatchAction::Watch(path_buf)]);
                            },
                        }
                    }
                    self.root_path = Some(path_buf);
                }
            },
        }
        actions
    }
}

} // verus!
