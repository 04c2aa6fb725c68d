//! The views of the terminal front end and the moves between them.

use vstd::prelude::*;

verus! {

/// What the terminal front end shows.
#[derive(Clone, Copy, Debug, PartialEq, Eq, Structural)]
pub enum ViewState {
    DailyPage,
    TagPage,
    EditBlock,
    Exit,
}

impl Default for ViewState {
    fn default() -> (state: ViewState)
        ensures
            state == ViewState::DailyPage,
    {
        ViewState::DailyPage
    }
}

/// What the user asks of the front end.
#[derive(Clone, Copy, Debug, PartialEq, Eq, Structural)]
pub enum Message {
    Quit,
    EditBlock,
}

/// The view that is shown, and the one that was shown before it.
#[derive(Debug)]
pub struct StateMachine {
    active_state: ViewState,
    previous_state: ViewState,
}

/// The view that is shown after `msg`, when `active` was shown before:
/// `Quit` leads to the exit from every view, `EditBlock` leads from the
/// daily page to the editor and changes nothing elsewhere.
pub open spec fn next_view(active: ViewState, msg: Message) -> ViewState {
    match msg {
        Message::Quit => ViewState::Exit,
        Message::EditBlock => if active == ViewState::DailyPage {
            ViewState::EditBlock
        } else {
            active
        },
    }
}

impl StateMachine {
    /// The view that is shown.
    pub closed spec fn active(&self) -> ViewState {
        self.active_state
    }

    /// The view that was shown before the editor was opened.
    pub closed spec fn previous(&self) -> ViewState {
        self.previous_state
    }

    /// The front end starts on the daily page.
    pub fn new() -> (machine: StateMachine)
        ensures
            machine.active() == ViewState::DailyPage,
            machine.previous() == ViewState::DailyPage,
    {
        StateMachine { active_state: ViewState::DailyPage, previous_state: ViewState::DailyPage }
    }

    pub fn get_active_state(&self) -> (state: &ViewState)
        ensures
            *state == self.active(),
    {
        &self.active_state
    }

    /// Moves to the view that `msg` leads to. Opening the editor keeps the
    /// view it was opened from.
    pub fn handle_message(&mut self, msg: Message)
        ensures
            final(self).active() == next_view(old(self).active(), msg),
            final(self).previous() == if msg == Message::EditBlock && old(self).active()
                == ViewState::DailyPage {
                old(self).active()
            } else {
                old(self).previous()
            },
    {
        match msg {
            Message::Quit => {
                self.active_state = ViewState::Exit;
            },
            Message::EditBlock => {
                if self.active_state == ViewState::DailyPage {
                    self.previous_state = self.active_state;
                    self.active_state = ViewState::EditBlock;
                }
            },
        }
    }
}

/// Handles a request to quit: the front end moves to the exit, and no
/// message follows. Editing a block is not handled here.
pub fn update(view_state: &mut ViewState, msg: Message) -> (next: Option<Message>)
    requires
        msg == Message::Quit,
    ensures
        *final(view_state) == ViewState::Exit,
        next is None,
{
    *view_state = ViewState::Exit;
    None
}

} // verus!
