//! The messages a hosting transaction layer exchanges with a match.

use vstd::prelude::*;
use crate::state::ChessMove;

verus! {

/// Instantiation data: an optional administrator address.
#[derive(PartialEq, Clone, Debug)]
pub struct InstantiateMsg {
    pub admin: Option<String>,
}

/// The queries a match answers.
#[derive(PartialEq, Clone, Debug)]
pub enum QueryMsg {
    GetAdmin {},
    CheckMatch { host: String, opponent: String },
}

/// The transactions a match accepts.
#[derive(PartialEq, Clone, Debug)]
pub enum ExecuteMsg {
    UpdateAdmin { admin: Option<String> },
    PlayMove { host: String, opponent: String, your_move: ChessMove },
    StartMatch { opponent: String, first_move: ChessMove },
}

} // verus!
