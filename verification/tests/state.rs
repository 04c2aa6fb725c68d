use note_core::board::{
    update as move_cursor, ApplicationView, Block, Message as BoardMessage, Model, Update,
};
use note_core::state::{update, Message, StateMachine, ViewState};

#[test]
fn the_front_end_starts_on_the_daily_page() {
    let machine = StateMachine::new();
    assert_eq!(*machine.get_active_state(), ViewState::DailyPage);
    assert_eq!(ViewState::default(), ViewState::DailyPage);
}

#[test]
fn quit_leads_to_the_exit_from_every_view() {
    let mut machine = StateMachine::new();
    machine.handle_message(Message::Quit);
    assert_eq!(*machine.get_active_state(), ViewState::Exit);
    let mut machine = StateMachine::new();
    machine.handle_message(Message::EditBlock);
    machine.handle_message(Message::Quit);
    assert_eq!(*machine.get_active_state(), ViewState::Exit);
    machine.handle_message(Message::Quit);
    assert_eq!(*machine.get_active_state(), ViewState::Exit);
}

#[test]
fn the_editor_opens_from_the_daily_page_alone() {
    let mut machine = StateMachine::new();
    machine.handle_message(Message::EditBlock);
    assert_eq!(*machine.get_active_state(), ViewState::EditBlock);
    machine.handle_message(Message::EditBlock);
    assert_eq!(*machine.get_active_state(), ViewState::EditBlock);
    let mut machine = StateMachine::new();
    machine.handle_message(Message::Quit);
    machine.handle_message(Message::EditBlock);
    assert_eq!(*machine.get_active_state(), ViewState::Exit);
}

#[test]
fn a_block_keeps_what_it_is_given() {
    let mut block = Block::default();
    assert!(block.tags().is_empty());
    assert!(block.content().is_empty());
    assert!(!block.editing_block());
    block.set_tags(vec!["a".to_string()]);
    block.set_content(vec!["line".to_string(), "more".to_string()]);
    block.set_editing_block(true);
    assert_eq!(block.tags(), &vec!["a".to_string()]);
    assert_eq!(block.content(), &vec!["line".to_string(), "more".to_string()]);
    assert!(block.editing_block());
}

#[test]
fn a_model_starts_empty_and_keeps_its_cursor() {
    let mut model = Model::default();
    assert_eq!(*model.running_state(), ApplicationView::Main);
    assert_eq!(ApplicationView::default(), ApplicationView::Main);
    assert!(model.blocks().is_empty());
    assert_eq!(model.block_cursor(), 0);
    model.set_block_cursor(3);
    assert_eq!(model.block_cursor(), 3);
    assert_eq!(*model.running_state(), ApplicationView::Main);
}

#[test]
fn an_update_hands_back_its_parts() {
    let mut model = Model::default();
    model.set_block_cursor(2);
    let update = Update::new(model, Some(BoardMessage::MoveDown));
    assert_eq!(update.model().block_cursor(), 2);
    assert_eq!(*update.message(), Some(BoardMessage::MoveDown));
    let (model, message) = update.into_parts();
    assert_eq!(model.block_cursor(), 2);
    assert_eq!(message, Some(BoardMessage::MoveDown));
    let update = Update::new(Model::default(), None);
    assert_eq!(*update.message(), None);
}

#[test]
fn quitting_leads_to_the_exit() {
    let mut state = ViewState::TagPage;
    assert_eq!(update(&mut state, Message::Quit), None);
    assert_eq!(state, ViewState::Exit);
}

#[test]
fn the_cursor_wraps_around() {
    let mut model = Model::default();
    let moved = move_cursor(&model, BoardMessage::MoveDown);
    assert_eq!(moved.model().block_cursor(), 0);
    assert_eq!(*moved.message(), None);
    assert_eq!(model.block_cursor(), 0);
    model.set_block_cursor(5);
    let moved = move_cursor(&model, BoardMessage::MoveDown);
    assert_eq!(moved.model().block_cursor(), 0);
    let moved = move_cursor(&model, BoardMessage::MoveUp);
    assert_eq!(moved.model().block_cursor(), 4);
    assert_eq!(model.block_cursor(), 5);
    assert_eq!(*moved.model().running_state(), ApplicationView::Main);
}

#[test]
fn copies_keep_what_they_copy() {
    let mut block = Block::default();
    block.set_tags(vec!["t".to_string()]);
    block.set_content(vec!["c".to_string()]);
    let copy = block.clone();
    assert_eq!(copy.tags(), block.tags());
    assert_eq!(copy.content(), block.content());
    let mut model = Model::default();
    model.set_block_cursor(9);
    assert_eq!(model.clone().block_cursor(), 9);
}
