//! What can go wrong while the bot plays.
use vstd::prelude::*;

verus! {

/// The bot's errors.
#[derive(Debug)]
pub enum AppError {
    OcrError(String),
    CardNotFound(String),
    InsufficientMana { required: u32, colored: u32, colorless: u32, available_colored: u32, available_colorless: u32 },
    InvalidStateTransition(String),
    Other(String),
}

} // verus!
