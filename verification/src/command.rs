//! The commands of the level editor: how a line is read, and what each
//! command does to the engine.

use crate::component::{BundleView, Key};
use crate::level::{Controller, ControllerView, Request, RequestView};
use crate::model::{retargeted, single_door, spawned};
use crate::text::{after, chars_of, decimal, parse_usize, spells, strip_prefix};
use vstd::prelude::*;

verus! {

/// A command of the level editor.
#[derive(Debug, PartialEq, Eq)]
pub enum Command {
    /// `/mk ident`: make a new level `ident`.
    Make(String),
    /// `/ld ident`: load the level `ident`.
    Load(String),
    /// `/cp ident`: save the current state and go on in a new level `ident`.
    Copy(String),
    /// `/door ident`: create a door that leads to `ident`.
    Door(String),
    /// `/setdoor ident`: point the level's door at `ident`.
    SetDoor(String),
    /// `/keep`: create a key that the level's door must keep.
    Keep,
    /// `/destroy`: create a key that must be destroyed before the level's
    /// door opens.
    Destroy,
    /// `/ammo n`: set the magazine of the selected weapon to `n` shots.
    Ammo(usize),
    /// `/ammo` with something that is not a number that fits.
    NotANumber(String),
    /// Anything else.
    Usage,
}

/// The mathematical value of a [`Command`].
pub enum CommandView {
    Make(Seq<char>),
    Load(Seq<char>),
    Copy(Seq<char>),
    Door(Seq<char>),
    SetDoor(Seq<char>),
    Keep,
    Destroy,
    Ammo(usize),
    NotANumber(Seq<char>),
    Usage,
}

impl View for Command {
    type V = CommandView;

    open spec fn view(&self) -> CommandView {
        match self {
            Command::Make(level) => CommandView::Make(level@),
            Command::Load(level) => CommandView::Load(level@),
            Command::Copy(level) => CommandView::Copy(level@),
            Command::Door(level) => CommandView::Door(level@),
            Command::SetDoor(level) => CommandView::SetDoor(level@),
            Command::Keep => CommandView::Keep,
            Command::Destroy => CommandView::Destroy,
            Command::Ammo(amount) => CommandView::Ammo(*amount),
            Command::NotANumber(text) => CommandView::NotANumber(text@),
            Command::Usage => CommandView::Usage,
        }
    }
}

/// The command that the line `line` gives. The forms are tried in the order
/// in which they are listed here, and the first that fits is taken.
pub open spec fn command_of(line: Seq<char>) -> CommandView {
    if let Some(level) = after(line, "/mk "@) {
        CommandView::Make(level)
    } else if let Some(level) = after(line, "/ld "@) {
        CommandView::Load(level)
    } else if let Some(level) = after(line, "/cp "@) {
        CommandView::Copy(level)
    } else if let Some(level) = after(line, "/door "@) {
        CommandView::Door(level)
    } else if let Some(level) = after(line, "/setdoor "@) {
        CommandView::SetDoor(level)
    } else if line == "/keep"@ {
        CommandView::Keep
    } else if line == "/destroy"@ {
        CommandView::Destroy
    } else if let Some(amount) = after(line, "/ammo "@) {
        match decimal(amount) {
            Some(n) => CommandView::Ammo(n),
            None => CommandView::NotANumber(amount),
        }
    } else {
        CommandView::Usage
    }
}

/// Reads the line `line` as a command.
pub fn parse_commands(line: &str) -> (command: Command)
    ensures
        command@ == command_of(line@),
{
    let chars = chars_of(line);
    if let Some(level) = strip_prefix(line, "/mk ") {
        return Command::Make(level);
    }
    if let Some(level) = strip_prefix(line, "/ld ") {
        return Command::Load(level);
    }
    if let Some(level) = strip_prefix(line, "/cp ") {
        return Command::Copy(level);
    }
    if let Some(level) = strip_prefix(line, "/door ") {
        return Command::Door(level);
    }
    if let Some(level) = strip_prefix(line, "/setdoor ") {
        return Command::SetDoor(level);
    }
    if spells(&chars, "/keep") {
        return Command::Keep;
    }
    if spells(&chars, "/destroy") {
        return Command::Destroy;
    }
    if let Some(amount) = strip_prefix(line, "/ammo ") {
        proof {
            reveal_strlit("/ammo ");
        }
        assert(chars@.skip(6) == amount@);
        return match parse_usize(&chars, 6) {
            Some(n) => Command::Ammo(n),
            None => Command::NotANumber(amount),
        };
    }
    Command::Usage
}

/// What the engine answers to a command.
#[derive(Debug, PartialEq, Eq)]
pub enum Reply {
    /// The command was carried out. What is to be saved is saved before
    /// what is to be loaded is loaded.
    Done { save: Option<Request>, load: Option<Request> },
    /// The command acts on the level's door, and the level does not have
    /// exactly one.
    NoDoor,
    /// The magazine of the selected weapon is to be set to this size.
    SetAmmo(usize),
    /// The command asked for a number and got none.
    NotANumber,
    /// The line was no command.
    Usage,
}

/// The mathematical value of a [`Reply`].
pub enum ReplyView {
    Done { save: Option<RequestView>, load: Option<RequestView> },
    NoDoor,
    SetAmmo(usize),
    NotANumber,
    Usage,
}

impl View for Reply {
    type V = ReplyView;

    open spec fn view(&self) -> ReplyView {
        match self {
            Reply::Done { save, load } => ReplyView::Done {
                save: crate::level::asked(*save),
                load: crate::level::asked(*load),
            },
            Reply::NoDoor => ReplyView::NoDoor,
            Reply::SetAmmo(n) => ReplyView::SetAmmo(*n),
            Reply::NotANumber => ReplyView::NotANumber,
            Reply::Usage => ReplyView::Usage,
        }
    }
}

/// The answer that tells that nothing is to be saved or loaded.
pub open spec fn done() -> ReplyView {
    ReplyView::Done { save: None, load: None }
}

impl ControllerView {
    /// The engine after a command.
    pub open spec fn command(self, command: CommandView) -> ControllerView {
        match command {
            CommandView::Make(level) => self.make_level(level),
            CommandView::Load(level) => self.transition(level),
            CommandView::Copy(level) => self.transition(level),
            CommandView::Door(level) => self.with_world(
                spawned(self.world, BundleView::door(level), None, None, None),
            ),
            CommandView::SetDoor(level) => match single_door(self.world) {
                Some(door) => self.with_world(retargeted(self.world, door as int, level)),
                None => self,
            },
            CommandView::Keep => match single_door(self.world) {
                Some(door) => self.with_world(
                    spawned(self.world, BundleView::key(Key::MustKeep), None, Some(door), None),
                ),
                None => self,
            },
            CommandView::Destroy => match single_door(self.world) {
                Some(door) => self.with_world(
                    spawned(self.world, BundleView::key(Key::MustDestroy), None, Some(door), None),
                ),
                None => self,
            },
            _ => self,
        }
    }

    /// The answer to a command.
    pub open spec fn reply(self, command: CommandView) -> ReplyView {
        match command {
            CommandView::Make(level) => ReplyView::Done {
                save: Some(self.make_level(level).save_request()),
                load: None,
            },
            CommandView::Load(level) => ReplyView::Done {
                save: None,
                load: Some(self.named(level).reset_request()),
            },
            CommandView::Copy(level) => ReplyView::Done {
                save: Some(self.save_request()),
                load: Some(self.named(level).reset_request()),
            },
            CommandView::Door(level) => done(),
            CommandView::SetDoor(_) | CommandView::Keep | CommandView::Destroy => match single_door(
                self.world,
            ) {
                Some(_) => done(),
                None => ReplyView::NoDoor,
            },
            CommandView::Ammo(n) => ReplyView::SetAmmo(n),
            CommandView::NotANumber(_) => ReplyView::NotANumber,
            CommandView::Usage => ReplyView::Usage,
        }
    }
}

impl Controller {
    /// Carries out a command of the level editor and answers it.
    pub fn command(&mut self, command: Command) -> (reply: Reply)
        ensures
            final(self)@ == old(self)@.command(command@),
            reply@ == old(self)@.reply(command@),
    {
        match command {
            Command::Make(level) => {
                let save = self.make_level(level);
                Reply::Done { save: Some(save), load: None }
            },
            Command::Load(level) => {
                let load = self.transition(level);
                Reply::Done { save: None, load: Some(load) }
            },
            Command::Copy(level) => {
                let (save, load) = self.copy_level(level);
                Reply::Done { save: Some(save), load: Some(load) }
            },
            Command::Door(level) => {
                self.create_door(level);
                Reply::Done { save: None, load: None }
            },
            Command::SetDoor(level) => match self.world().single_door() {
                Some(door) => {
                    proof {
                        crate::model::lemma_single_door(self@.world);
                    }
                    self.set_door_target(door, level);
                    Reply::Done { save: None, load: None }
                },
                None => Reply::NoDoor,
            },
            Command::Keep => match self.world().single_door() {
                Some(door) => {
                    proof {
                        crate::model::lemma_single_door(self@.world);
                    }
                    self.create_key(Key::MustKeep, door);
                    Reply::Done { save: None, load: None }
                },
                None => Reply::NoDoor,
            },
            Command::Destroy => match self.world().single_door() {
                Some(door) => {
                    proof {
                        crate::model::lemma_single_door(self@.world);
                    }
                    self.create_key(Key::MustDestroy, door);
                    Reply::Done { save: None, load: None }
                },
                None => Reply::NoDoor,
            },
            Command::Ammo(n) => Reply::SetAmmo(n),
            Command::NotANumber(_) => Reply::NotANumber,
            Command::Usage => Reply::Usage,
        }
    }
}

} // verus!
