//! Domain-rule violations the game's operations can return.
//!
//! Each maps to a fixed user-facing message and is expected control flow,
//! never fatal. Store or transport faults are the front-end's concern and do
//! not occur in the library itself.

use vstd::prelude::*;

verus! {

/// Why an operation refused to act.
#[derive(Debug, Clone, Copy, PartialEq, Eq, Structural)]
pub enum Error {
    /// Nobody holds the turn right now.
    NoParticipant,
    /// The requester does not hold the turn.
    NotYourTurn,
    /// The turn holder has not posted a picture yet.
    YouPostedNoPic,
    /// The nominated winner is the platform's own automated account.
    StfuBot,
    /// The turn already carries a picture.
    PicAlreadyPosted,
    /// The requester nominated themselves as winner.
    SelfWin,
    /// The scoreboard page is out of range.
    InvalidPage,
    /// No reset group carries this identifier.
    InvalidResetId,
    /// The reset command's arguments fit no known form.
    UnknownArguments,
    /// A game already runs in this channel.
    GameAlreadyExists,
    /// A store-side fault that persisted through its retries; surfaced
    /// generically, never exposing internals.
    Internal,
}

impl Error {
    /// The user-facing text of each error.
    pub open spec fn message_view(self) -> Seq<char> {
        match self {
            Error::NoParticipant => "⁉️ Mais personne n'a la main ..."@,
            Error::NotYourTurn => "❌ Tut tut tut, c'est pas toi qui a la main..."@,
            Error::YouPostedNoPic => "🤦 Hrmpf t'as pas mis de photo toi ..."@,
            Error::StfuBot => "🤖 Tg le bot !"@,
            Error::PicAlreadyPosted => "🦜 T'as déjà mis une photo coco."@,
            Error::SelfWin => "😏 Pas d'auto-victoire, hein."@,
            Error::InvalidPage => "Page invalide"@,
            Error::InvalidResetId => "ID de reset invalide"@,
            Error::UnknownArguments => "Arguments inconnus"@,
            Error::GameAlreadyExists => "Il y a déjà une partie en cours dans ce chan"@,
            Error::Internal => "Erreur interne"@,
        }
    }

    /// Render the error for the chat channel.
    pub fn as_message(&self) -> (r: String)
        ensures
            r@ == self.message_view(),
    {
        match self {
            Error::NoParticipant => "⁉️ Mais personne n'a la main ...".to_owned(),
            Error::NotYourTurn => "❌ Tut tut tut, c'est pas toi qui a la main...".to_owned(),
            Error::YouPostedNoPic => "🤦 Hrmpf t'as pas mis de photo toi ...".to_owned(),
            Error::StfuBot => "🤖 Tg le bot !".to_owned(),
            Error::PicAlreadyPosted => "🦜 T'as déjà mis une photo coco.".to_owned(),
            Error::SelfWin => "😏 Pas d'auto-victoire, hein.".to_owned(),
            Error::InvalidPage => "Page invalide".to_owned(),
            Error::InvalidResetId => "ID de reset invalide".to_owned(),
            Error::UnknownArguments => "Arguments inconnus".to_owned(),
            Error::GameAlreadyExists => "Il y a déjà une partie en cours dans ce chan".to_owned(),
            Error::Internal => "Erreur interne".to_owned(),
        }
    }
}

} // verus!
