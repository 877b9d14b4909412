//! The screens and input modes of the interactive session.

use vstd::prelude::*;

verus! {

/// Which screen the session shows.
#[derive(Clone, Copy, PartialEq, Eq, Structural, Debug)]
pub enum Screen {
    VaultCheck,
    CreateVault,
    UnlockVault,
    MainMenu,
    ViewPasswords,
    AddPassword,
    EditPassword,
    ViewHistory,
    SearchPassword,
    GeneratePassword,
    DeletePassword,
    FilterByTag,
}

/// Which input field is active.
#[derive(Clone, Copy, PartialEq, Eq, Structural, Debug)]
pub enum InputField {
    Idle,
    Password,
    PasswordConfirm,
}

/// How the status message is meant.
#[derive(Clone, Copy, PartialEq, Eq, Structural, Debug)]
pub enum MessageType {
    Neutral,
    Success,
    Error,
    Info,
}

} // verus!
