//! The model of the block board: blocks of text, a cursor, and the state
//! the application is in.

use crate::text::{duplicate_all, views, Duplicate};
use vstd::prelude::*;

verus! {

/// The state the application is in.
#[derive(Clone, Copy, Debug, PartialEq, Eq, Structural)]
pub enum ApplicationView {
    Main,
    Editing,
    Done,
}

impl Default for ApplicationView {
    fn default() -> (view: ApplicationView)
        ensures
            view == ApplicationView::Main,
    {
        ApplicationView::Main
    }
}

/// What the user asks of the board.
#[derive(Clone, Copy, Debug, PartialEq, Eq, Structural)]
pub enum Message {
    Quit,
    MoveDown,
    MoveUp,
    AddBlock,
}

/// A block of text with its tags.
#[derive(Debug)]
pub struct Block {
    tags: Vec<String>,
    content: Vec<String>,
    editing_block: bool,
}

pub struct BlockView {
    pub tags: Seq<Seq<char>>,
    pub content: Seq<Seq<char>>,
    pub editing_block: bool,
}

impl View for Block {
    type V = BlockView;

    closed spec fn view(&self) -> BlockView {
        BlockView {
            tags: views(self.tags@),
            content: views(self.content@),
            editing_block: self.editing_block,
        }
    }
}

impl Duplicate for Block {
    fn duplicate(&self) -> (r: Block) {
        Block {
            tags: duplicate_all(&self.tags),
            content: duplicate_all(&self.content),
            editing_block: self.editing_block,
        }
    }
}

impl Clone for Block {
    fn clone(&self) -> (r: Block)
        ensures
            r@ == self@,
    {
        self.duplicate()
    }
}

impl Default for Block {
    fn default() -> (block: Block)
        ensures
            block@.tags.len() == 0,
            block@.content.len() == 0,
            !block@.editing_block,
    {
        Block { tags: Vec::new(), content: Vec::new(), editing_block: false }
    }
}

impl Block {
    pub fn tags(&self) -> (tags: &Vec<String>)
        ensures
            views(tags@) == self@.tags,
    {
        &self.tags
    }

    pub fn content(&self) -> (content: &Vec<String>)
        ensures
            views(content@) == self@.content,
    {
        &self.content
    }

    pub fn set_tags(&mut self, tags: Vec<String>)
        ensures
            final(self)@ == (BlockView { tags: views(tags@), ..old(self)@ }),
    {
        self.tags = tags;
    }

    pub fn set_content(&mut self, content: Vec<String>)
        ensures
            final(self)@ == (BlockView { content: views(content@), ..old(self)@ }),
    {
        self.content = content;
    }

    pub fn editing_block(&self) -> (editing: bool)
        ensures
            editing == self@.editing_block,
    {
        self.editing_block
    }

    pub fn set_editing_block(&mut self, editing_block: bool)
        ensures
            final(self)@ == (BlockView { editing_block, ..old(self)@ }),
    {
        self.editing_block = editing_block;
    }
}

/// The board: its blocks, the block the cursor is on, and the state of the
/// application.
#[derive(Debug)]
pub struct Model {
    running_state: ApplicationView,
    blocks: Vec<Block>,
    block_cursor: usize,
}

pub struct ModelView {
    pub running_state: ApplicationView,
    pub blocks: Seq<BlockView>,
    pub block_cursor: usize,
}

impl View for Model {
    type V = ModelView;

    closed spec fn view(&self) -> ModelView {
        ModelView {
            running_state: self.running_state,
            blocks: views(self.blocks@),
            block_cursor: self.block_cursor,
        }
    }
}

impl Duplicate for Model {
    fn duplicate(&self) -> (r: Model) {
        Model {
            running_state: self.running_state,
            blocks: duplicate_all(&self.blocks),
            block_cursor: self.block_cursor,
        }
    }
}

impl Clone for Model {
    fn clone(&self) -> (r: Model)
        ensures
            r@ == self@,
    {
        self.duplicate()
    }
}

impl Default for Model {
    fn default() -> (model: Model)
        ensures
            model@.running_state == ApplicationView::Main,
            model@.blocks.len() == 0,
            model@.block_cursor == 0,
    {
        Model { running_state: ApplicationView::Main, blocks: Vec::new(), block_cursor: 0 }
    }
}

impl Model {
    pub fn running_state(&self) -> (state: &ApplicationView)
        ensures
            *state == self@.running_state,
    {
        &self.running_state
    }

    pub fn blocks(&self) -> (blocks: &Vec<Block>)
        ensures
            views(blocks@) == self@.blocks,
    {
        &self.blocks
    }

    pub fn set_block_cursor(&mut self, block_cursor: usize)
        ensures
            final(self)@ == (ModelView { block_cursor, ..old(self)@ }),
    {
        self.block_cursor = block_cursor;
    }

    pub fn block_cursor(&self) -> (cursor: usize)
        ensures
            cursor == self@.block_cursor,
    {
        self.block_cursor
    }
}

/// A model with the message that is to be handled next, if there is one.
#[derive(Debug)]
pub struct Update {
    model: Model,
    message: Option<Message>,
}

impl Update {
    /// The model of the update.
    pub closed spec fn held_model(&self) -> Model {
        self.model
    }

    /// The message of the update.
    pub closed spec fn held_message(&self) -> Option<Message> {
        self.message
    }

    pub fn new(model: Model, message: Option<Message>) -> (update: Update)
        ensures
            update.held_model() == model,
            update.held_message() == message,
    {
        Update { model, message }
    }

    pub fn into_parts(self) -> (parts: (Model, Option<Message>))
        ensures
            parts.0 == self.held_model(),
            parts.1 == self.held_message(),
    {
        (self.model, self.message)
    }

    pub fn model(&self) -> (model: &Model)
        ensures
            *model == self.held_model(),
    {
        &self.model
    }

    pub fn message(&self) -> (message: &Option<Message>)
        ensures
            *message == self.held_message(),
    {
        &self.message
    }
}

/// Where the cursor stands after `msg`: one block down, or on the first
/// block once it has passed the end; one block up, or on the last block
/// from the first.
pub open spec fn cursor_after(cursor: usize, blocks: nat, msg: Message) -> int {
    match msg {
        Message::MoveDown => if cursor + 1 > blocks {
            0
        } else {
            cursor + 1
        },
        Message::MoveUp => if cursor == 0 {
            blocks - 1
        } else {
            cursor - 1
        },
        _ => cursor as int,
    }
}

/// Moves the cursor. The model that is given stays as it is: the update
/// holds a copy with the cursor moved, and no message.
pub fn update(model: &Model, msg: Message) -> (update: Update)
    requires
        msg == Message::MoveDown || msg == Message::MoveUp,
        msg == Message::MoveUp && model@.block_cursor == 0 ==> model@.blocks.len() > 0,
    ensures
        update.held_message() is None,
        update.held_model()@ == (ModelView {
            block_cursor: cursor_after(model@.block_cursor, model@.blocks.len(), msg) as usize,
            ..model@
        }),
{
    let mut new_model = model.duplicate();
    match msg {
        Message::MoveDown => {
            if model.block_cursor() >= model.blocks().len() {
                new_model.set_block_cursor(0);
            } else {
                new_model.set_block_cursor(model.block_cursor() + 1);
            }
        },
        Message::MoveUp => {
            if model.block_cursor() == 0 {
                new_model.set_block_cursor(model.blocks().len() - 1);
            } else {
                new_model.set_block_cursor(model.block_cursor() - 1);
            }
        },
        _ => {},
    }
    Update::new(new_model, None)
}

} // verus!
