//! The records that the bot keeps beside its dice: prefixes, keywords and
//! character sheets. They are plain data; storing them is the caller's task.

use vstd::prelude::*;

verus! {

/// The command prefix of one guild or channel.
#[derive(Clone, Debug, PartialEq, Eq)]
pub struct Prefix {
    pub id: i64,
    pub prefix: String,
}

/// A keyword that definitions are filed under, with its owner and flags.
#[derive(Clone, Debug, Default, PartialEq, Eq)]
pub struct Keyword {
    pub keyword: String,
    pub owner: i64,
    pub bareword: bool,
    pub hidden: bool,
    pub protect: bool,
    pub shuffle: bool,
}

/// A tracked character: its name, where it is played, who owns it, and the
/// pinned message that shows its sheet.
#[derive(Clone, Debug, Default, PartialEq, Eq)]
pub struct Character {
    pub name: String,
    pub channel: i64,
    pub owner: i64,
    pub pin: i64,
}

/// A numeric attribute of a character, with its maximum.
#[derive(Clone, Debug, PartialEq, Eq)]
pub struct Attribute {
    pub pin: i64,
    pub name: String,
    pub value: i32,
    pub maximum: i32,
}

/// A named note on a character.
#[derive(Clone, Debug, PartialEq, Eq)]
pub struct Note {
    pub pin: i64,
    pub name: String,
    pub note: String,
}

/// A channel in which characters are tracked, and its game master.
#[derive(Clone, Debug, Default, PartialEq, Eq)]
pub struct Channel {
    pub channel: i64,
    pub gm: i64,
}

} // verus!
