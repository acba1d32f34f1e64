//! The interaction-level domain of the graphical session: screens, edit
//! actions, per-subject actions, and the undo history of text fields. The
//! widget toolkit itself lives outside the engine; these are the values its
//! events carry.

use vstd::prelude::*;
use crate::path::{StrictPath, RegistryItem};

verus! {

/// A top-level screen of the interactive session.
#[derive(Clone, Copy, Debug, PartialEq, Eq, Structural)]
pub enum Screen {
    Backup,
    Restore,
    CustomGames,
    Other,
}

impl Default for Screen {
    fn default() -> (r: Self)
        ensures
            r == Screen::Backup,
    {
        Screen::Backup
    }
}

/// The direction of a reordering edit.
#[derive(Clone, Copy, Debug, PartialEq, Eq, Structural)]
pub enum EditDirection {
    Up,
    Down,
}

impl EditDirection {
    /// The index an entry moves to.
    pub fn shift(&self, index: usize) -> (r: usize)
        requires
            *self == EditDirection::Up ==> index >= 1,
            *self == EditDirection::Down ==> index < usize::MAX,
        ensures
            *self == EditDirection::Up ==> r == index - 1,
            *self == EditDirection::Down ==> r == index + 1,
    {
        match self {
            EditDirection::Up => index - 1,
            EditDirection::Down => index + 1,
        }
    }
}

/// An edit of a configuration list.
#[derive(Clone, Debug, PartialEq, Eq)]
pub enum EditAction {
    Add,
    Change(usize, String),
    Remove(usize),
    Move(usize, EditDirection),
}

impl EditAction {
    pub fn move_up(index: usize) -> (r: Self)
        ensures
            r == EditAction::Move(index, EditDirection::Up),
    {
        EditAction::Move(index, EditDirection::Up)
    }

    pub fn move_down(index: usize) -> (r: Self)
        ensures
            r == EditAction::Move(index, EditDirection::Down),
    {
        EditAction::Move(index, EditDirection::Down)
    }
}

/// Which field of a redirect rule an edit touches.
#[derive(Clone, Copy, Debug, PartialEq, Eq, Structural)]
pub enum RedirectEditActionField {
    Source,
    Target,
}

/// What a directory-browse dialog was opened for.
#[derive(Clone, Copy, Debug, PartialEq, Eq, Structural)]
pub enum BrowseSubject {
    BackupTarget,
    RestoreSource,
    Root(usize),
    RedirectSource(usize),
    RedirectTarget(usize),
    CustomGameFile(usize, usize),
    BackupFilterIgnoredPath(usize),
}

/// Which text field an undo or redo applies to.
#[derive(Clone, Copy, Debug, PartialEq, Eq, Structural)]
pub enum UndoSubject {
    BackupTarget,
    RestoreSource,
    BackupSearchGameName,
    RestoreSearchGameName,
    Root(usize),
    RedirectSource(usize),
    RedirectTarget(usize),
    CustomGameName(usize),
    CustomGameFile(usize, usize),
    CustomGameRegistry(usize, usize),
    BackupFilterIgnoredPath(usize),
    BackupFilterIgnoredRegistry(usize),
}

/// Which scrollable area a scroll position belongs to.
#[derive(Clone, Copy, Debug, PartialEq, Eq, Hash, Structural)]
pub enum ScrollSubject {
    Backup,
    Restore,
    CustomGames,
    Other,
    Modal,
}

impl ScrollSubject {
    /// The list area of the given mode.
    pub fn game_list(restoring: bool) -> (r: Self)
        ensures
            r == (if restoring {
                ScrollSubject::Restore
            } else {
                ScrollSubject::Backup
            }),
    {
        if restoring {
            ScrollSubject::Restore
        } else {
            ScrollSubject::Backup
        }
    }

    /// The scroll area of a screen.
    pub fn of_screen(value: Screen) -> (r: Self)
        ensures
            r == (match value {
                Screen::Backup => ScrollSubject::Backup,
                Screen::Restore => ScrollSubject::Restore,
                Screen::CustomGames => ScrollSubject::CustomGames,
                Screen::Other => ScrollSubject::Other,
            }),
    {
        match value {
            Screen::Backup => ScrollSubject::Backup,
            Screen::Restore => ScrollSubject::Restore,
            Screen::CustomGames => ScrollSubject::CustomGames,
            Screen::Other => ScrollSubject::Other,
        }
    }
}

/// The glyph shown on a per-subject action.
#[derive(Clone, Copy, Debug, PartialEq, Eq, Structural)]
pub enum Icon {
    PlayCircleOutline,
    FastForward,
    Refresh,
    Edit,
    Language,
    Comment,
}

/// An action offered on one subject's row.
#[derive(Clone, Copy, Debug, PartialEq, Eq, Structural)]
pub enum GameAction {
    Customize,
    PreviewBackup,
    Backup { confirm: bool },
    PreviewRestore,
    Restore { confirm: bool },
    Wiki,
    Comment,
}

/// The actions offered on one subject's row, in display order, given the
/// session's mode and the subject's state.
pub open spec fn spec_game_action_options(
    restoring: bool,
    operating: bool,
    customized: bool,
    invented: bool,
    has_backups: bool,
) -> Seq<GameAction> {
    let ops: Seq<GameAction> = if !operating {
        if restoring {
            seq![GameAction::PreviewRestore, GameAction::Restore { confirm: true }]
        } else {
            seq![GameAction::PreviewBackup, GameAction::Backup { confirm: true }]
        }
    } else {
        Seq::empty()
    };
    let cust: Seq<GameAction> = if !restoring && !customized {
        seq![GameAction::Customize]
    } else {
        Seq::empty()
    };
    let cmt: Seq<GameAction> = if restoring && has_backups {
        seq![GameAction::Comment]
    } else {
        Seq::empty()
    };
    let wiki: Seq<GameAction> = if !invented {
        seq![GameAction::Wiki]
    } else {
        Seq::empty()
    };
    ops + cust + cmt + wiki
}

impl GameAction {
    /// The actions offered on one subject's row: preview and run for the
    /// current mode unless an operation is ongoing, customization when the
    /// subject is not yet customized, a comment editor when restoring with
    /// stored backups, and the wiki link for subjects that exist there.
    pub fn options(
        restoring: bool,
        operating: bool,
        customized: bool,
        invented: bool,
        has_backups: bool,
    ) -> (r: Vec<GameAction>)
        ensures
            r@ == spec_game_action_options(restoring, operating, customized, invented, has_backups),
    {
        let mut options: Vec<GameAction> = Vec::new();
        if !operating {
            if restoring {
                options.push(GameAction::PreviewRestore);
                options.push(GameAction::Restore { confirm: true });
            } else {
                options.push(GameAction::PreviewBackup);
                options.push(GameAction::Backup { confirm: true });
            }
        }
        if !restoring && !customized {
            options.push(GameAction::Customize);
        }
        if restoring && has_backups {
            options.push(GameAction::Comment);
        }
        if !invented {
            options.push(GameAction::Wiki);
        }
        proof {
            assert(options@ =~= spec_game_action_options(
                restoring,
                operating,
                customized,
                invented,
                has_backups,
            ));
        }
        options
    }

    /// The glyph for this action.
    pub fn icon(&self) -> (r: Icon)
        ensures
            r == (match *self {
                GameAction::Backup { confirm } => if confirm {
                    Icon::PlayCircleOutline
                } else {
                    Icon::FastForward
                },
                GameAction::Restore { confirm } => if confirm {
                    Icon::PlayCircleOutline
                } else {
                    Icon::FastForward
                },
                GameAction::PreviewBackup => Icon::Refresh,
                GameAction::PreviewRestore => Icon::Refresh,
                GameAction::Customize => Icon::Edit,
                GameAction::Wiki => Icon::Language,
                GameAction::Comment => Icon::Comment,
            }),
    {
        match self {
            GameAction::Backup { confirm } => {
                if *confirm {
                    Icon::PlayCircleOutline
                } else {
                    Icon::FastForward
                }
            },
            GameAction::Restore { confirm } => {
                if *confirm {
                    Icon::PlayCircleOutline
                } else {
                    Icon::FastForward
                }
            },
            GameAction::PreviewBackup => Icon::Refresh,
            GameAction::PreviewRestore => Icon::Refresh,
            GameAction::Customize => Icon::Edit,
            GameAction::Wiki => Icon::Language,
            GameAction::Comment => Icon::Comment,
        }
    }
}

/// A key of the file/registry tree shown per subject.
#[derive(Clone, Debug, PartialEq, Eq)]
pub enum TreeNodeKey {
    File(String),
    RegistryKey(String),
    RegistryValue(String),
}

impl TreeNodeKey {
    /// The raw text of the key.
    pub fn raw(&self) -> (r: &String)
        ensures
            r@ == (match self {
                TreeNodeKey::File(x) => x@,
                TreeNodeKey::RegistryKey(x) => x@,
                TreeNodeKey::RegistryValue(x) => x@,
            }),
    {
        match self {
            TreeNodeKey::File(x) => x,
            TreeNodeKey::RegistryKey(x) => x,
            TreeNodeKey::RegistryValue(x) => x,
        }
    }
}

/// An undo or redo request on a text field.
#[derive(Clone, Copy, Debug, PartialEq, Eq, Structural)]
pub enum Shortcut {
    Undo,
    Redo,
}

/// The edit history of one text field: the texts it has held, and the
/// position currently shown.
#[derive(Clone, Debug, PartialEq, Eq)]
pub struct TextHistory {
    pub history: Vec<String>,
    pub position: usize,
}

impl TextHistory {
    /// Well-formed: never empty, and the position is in range.
    pub open spec fn wf(&self) -> bool {
        self.history@.len() >= 1 && self.position < self.history@.len()
    }

    pub fn new(initial: String) -> (r: Self)
        ensures
            r.wf(),
            r.history@.len() == 1,
            r.history@[0]@ == initial@,
            r.position == 0,
    {
        let mut history: Vec<String> = Vec::new();
        history.push(initial);
        TextHistory { history, position: 0 }
    }

    /// Records a new text: anything after the current position is
    /// discarded, and the new text becomes current.
    #[verifier::loop_isolation(false)]
    pub fn push(&mut self, text: &str)
        requires
            old(self).wf(),
        ensures
            final(self).wf(),
            final(self).history@.len() == old(self).position + 2,
            forall|i: int|
                0 <= i <= old(self).position ==> final(self).history@[i] == old(self).history@[i],
            final(self).history@.last()@ == text@,
            final(self).position == old(self).position + 1,
    {
        while self.position < self.history.len() - 1
            invariant
                self.wf(),
                self.position == old(self).position,
                self.history@.len() >= self.position + 1,
                forall|i: int|
                    0 <= i < self.history@.len() ==> self.history@[i] == old(self).history@[i],
            decreases self.history@.len(),
        {
            self.history.pop();
        }
        self.history.push(text.to_owned());
        self.position = self.position + 1;
    }

    /// Steps back one edit, to the earliest at most, and returns the text
    /// now shown.
    pub fn undo(&mut self) -> (r: String)
        requires
            old(self).wf(),
        ensures
            final(self).wf(),
            final(self).history@ == old(self).history@,
            final(self).position == (if old(self).position >= 1 {
                old(self).position - 1
            } else {
                0
            }),
            r@ == final(self).history@[final(self).position as int]@,
    {
        if self.position >= 1 {
            self.position = self.position - 1;
        }
        self.history[self.position].clone()
    }

    /// Steps forward one edit, to the newest at most, and returns the text
    /// now shown.
    pub fn redo(&mut self) -> (r: String)
        requires
            old(self).wf(),
        ensures
            final(self).wf(),
            final(self).history@ == old(self).history@,
            final(self).position == (if old(self).position + 1 < old(self).history@.len() {
                old(self).position + 1
            } else {
                old(self).history@.len() - 1
            }),
            r@ == final(self).history@[final(self).position as int]@,
    {
        if self.position < self.history.len() - 1 {
            self.position = self.position + 1;
        }
        self.history[self.position].clone()
    }
}

/// Applies an undo or redo to a path field, together with its history.
pub fn apply_shortcut_to_strict_path_field(
    shortcut: &Shortcut,
    config: &mut StrictPath,
    history: &mut TextHistory,
)
    requires
        old(history).wf(),
    ensures
        final(history).wf(),
        final(history).history@ == old(history).history@,
        *shortcut == Shortcut::Undo ==> final(history).position == (if old(history).position >= 1 {
            old(history).position - 1
        } else {
            0
        }),
        *shortcut == Shortcut::Redo ==> final(history).position == (if old(history).position + 1
            < old(history).history@.len() {
            old(history).position + 1
        } else {
            old(history).history@.len() - 1
        }),
        final(config).raw@ == final(history).history@[final(history).position as int]@,
{
    match shortcut {
        Shortcut::Undo => {
            let text = history.undo();
            config.reset(text);
        },
        Shortcut::Redo => {
            let text = history.redo();
            config.reset(text);
        },
    }
}

/// Applies an undo or redo to a registry path field, together with its
/// history.
pub fn apply_shortcut_to_registry_path_field(
    shortcut: &Shortcut,
    config: &mut RegistryItem,
    history: &mut TextHistory,
)
    requires
        old(history).wf(),
    ensures
        final(history).wf(),
        final(history).history@ == old(history).history@,
        *shortcut == Shortcut::Undo ==> final(history).position == (if old(history).position >= 1 {
            old(history).position - 1
        } else {
            0
        }),
        *shortcut == Shortcut::Redo ==> final(history).position == (if old(history).position + 1
            < old(history).history@.len() {
            old(history).position + 1
        } else {
            old(history).history@.len() - 1
        }),
        final(config).raw@ == final(history).history@[final(history).position as int]@,
{
    match shortcut {
        Shortcut::Undo => {
            let text = history.undo();
            config.reset(text);
        },
        Shortcut::Redo => {
            let text = history.redo();
            config.reset(text);
        },
    }
}

/// Applies an undo or redo to a plain text field, together with its
/// history.
pub fn apply_shortcut_to_string_field(
    shortcut: &Shortcut,
    config: &mut String,
    history: &mut TextHistory,
)
    requires
        old(history).wf(),
    ensures
        final(history).wf(),
        final(history).history@ == old(history).history@,
        *shortcut == Shortcut::Undo ==> final(history).position == (if old(history).position >= 1 {
            old(history).position - 1
        } else {
            0
        }),
        *shortcut == Shortcut::Redo ==> final(history).position == (if old(history).position + 1
            < old(history).history@.len() {
            old(history).position + 1
        } else {
            old(history).history@.len() - 1
        }),
        final(config)@ == final(history).history@[final(history).position as int]@,
{
    match shortcut {
        Shortcut::Undo => {
            *config = history.undo();
        },
        Shortcut::Redo => {
            *config = history.redo();
        },
    }
}

} // verus!
