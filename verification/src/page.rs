//! The state of the two game pages: whether a game has started, who plays,
//! and at which difficulty.

use vstd::prelude::*;
use vstd::string::StringExecFns;

verus! {

/// The page on which the human plays Connect4 against the automated side.
pub struct Connect4Computer {
    pub game_started: bool,
    pub player_name: String,
    pub difficulty_level: String,
}

/// What can happen on the Connect4 page: a game is started by the player
/// of the given name.
pub enum Msg {
    GameStarted(String),
}

/// The page on which the human plays TOOT-OTTO against the automated side.
pub struct TOOTComputer {
    pub game_started: bool,
    pub player_name: String,
    pub toro: String,
    pub difficulty_level: String,
}

/// What can happen on the TOOT-OTTO page: a game is started by the player
/// of the given name, or the human selects another letter.
#[allow(non_camel_case_types)]
pub enum Msg_TOOT {
    TOOTGameStarted(String),
    TOOTSelectChange(String),
}

impl Connect4Computer {
    /// The page before a game has started: the player is called `A` and the
    /// difficulty is `Easy`.
    pub fn create() -> (page: Self)
        ensures
            !page.game_started,
            page.player_name@ == "A"@,
            page.difficulty_level@ == "Easy"@,
    {
        Self {
            game_started: false,
            player_name: String::from_str("A"),
            difficulty_level: String::from_str("Easy"),
        }
    }

    /// Takes in what happened on the page. When a game is started, the
    /// player gets the name given and the difficulty becomes
    /// `selected_level`, the one selected on the page. The result tells
    /// that the page has to be drawn again.
    pub fn update(&mut self, msg: Msg, selected_level: String) -> (redraw: bool)
        ensures
            redraw,
            final(self).game_started,
            msg matches Msg::GameStarted(player) && final(self).player_name == player,
            final(self).difficulty_level == selected_level,
    {
        match msg {
            Msg::GameStarted(player) => {
                self.game_started = true;
                self.player_name = player;
                self.difficulty_level = selected_level;
                true
            },
        }
    }
}

impl TOOTComputer {
    /// The page before a game has started: the player has no name, the
    /// letter selected is `T` and the difficulty is `Easy`.
    pub fn create() -> (page: Self)
        ensures
            !page.game_started,
            page.player_name@ == Seq::<char>::empty(),
            page.toro@ == "T"@,
            page.difficulty_level@ == "Easy"@,
    {
        Self {
            game_started: false,
            player_name: String::new(),
            toro: String::from_str("T"),
            difficulty_level: String::from_str("Easy"),
        }
    }

    /// Takes in what happened on the page. When a game is started, the
    /// player gets the name given and the difficulty becomes
    /// `selected_level`, the one selected on the page; the letter stays.
    /// When the human selects a letter, only the letter changes. The
    /// result tells that the page has to be drawn again.
    pub fn update(&mut self, msg: Msg_TOOT, selected_level: String) -> (redraw: bool)
        ensures
            redraw,
            match msg {
                Msg_TOOT::TOOTGameStarted(player) => {
                    &&& final(self).game_started
                    &&& final(self).player_name == player
                    &&& final(self).difficulty_level == selected_level
                    &&& final(self).toro == old(self).toro
                },
                Msg_TOOT::TOOTSelectChange(selection) => {
                    &&& final(self).game_started == old(self).game_started
                    &&& final(self).player_name == old(self).player_name
                    &&& final(self).difficulty_level == old(self).difficulty_level
                    &&& final(self).toro == selection
                },
            },
    {
        match msg {
            Msg_TOOT::TOOTGameStarted(player) => {
                self.game_started = true;
                self.player_name = player;
                self.difficulty_level = selected_level;
                true
            },
            Msg_TOOT::TOOTSelectChange(selection) => {
                self.toro = selection;
                true
            },
        }
    }
}

} // verus!
