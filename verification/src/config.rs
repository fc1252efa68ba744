//! The user's settings: which editor opens notes, and whether the
//! process must wait for it to exit.

use vstd::prelude::*;

use crate::enums::ConfigType;
use crate::paths::string_eq;

verus! {

/// The editor's name and whether it needs the terminal to itself
/// (then the process waits for it instead of detaching).
#[derive(Debug)]
pub struct Config {
    editor: String,
    conflict: bool,
}

impl Config {
    /// The configured editor's name, for specification purposes.
    pub closed spec fn editor_spec(self) -> Seq<char> {
        self.editor@
    }

    /// Whether the editor blocks the terminal, for specification
    /// purposes.
    pub closed spec fn conflict_spec(self) -> bool {
        self.conflict
    }

    /// Assemble from loaded values.
    pub fn new(editor: String, conflict: bool) -> (r: Config)
        ensures
            r.editor_spec() == editor@,
            r.conflict_spec() == conflict,
    {
        Config { editor, conflict }
    }

    pub fn get_editor(&self) -> (r: &String)
        ensures
            r@ == self.editor_spec(),
    {
        &self.editor
    }

    pub fn editor_conflict(&self) -> (r: bool)
        ensures
            r == self.conflict_spec(),
    {
        self.conflict
    }

    /// The editor's name together with its blocking flag.
    pub fn get_editor_data(&self) -> (r: (&String, bool))
        ensures
            r.0@ == self.editor_spec(),
            r.1 == self.conflict_spec(),
    {
        (&self.editor, self.conflict)
    }

    /// Change one setting. The blocking flag is written as `true` or
    /// `false`; anything else is rejected by the caller beforehand.
    pub fn set_config(&mut self, config_type: &ConfigType, value: &String)
        requires
            *config_type is Conflict ==> value@ == "true"@ || value@ == "false"@,
        ensures
            *config_type is Editor ==> final(self).editor_spec() == value@
                && final(self).conflict_spec() == old(self).conflict_spec(),
            *config_type is Conflict ==> final(self).conflict_spec() == (value@ == "true"@)
                && final(self).editor_spec() == old(self).editor_spec(),
    {
        match config_type {
            ConfigType::Editor => {
                self.editor = value.clone();
            },
            ConfigType::Conflict => {
                let truth: String = String::from_str("true");
                self.conflict = string_eq(value, &truth);
            },
        }
    }

    /// Read one setting as text.
    pub fn get_config(&self, config_type: &ConfigType) -> (r: String)
        ensures
            *config_type is Editor ==> r@ == self.editor_spec(),
            *config_type is Conflict && self.conflict_spec() ==> r@ == "true"@,
            *config_type is Conflict && !self.conflict_spec() ==> r@ == "false"@,
    {
        match config_type {
            ConfigType::Editor => self.editor.clone(),
            ConfigType::Conflict => {
                if self.conflict {
                    String::from_str("true")
                } else {
                    String::from_str("false")
                }
            },
        }
    }
}

impl Default for Config {
    /// The out-of-the-box settings: a terminal editor that blocks.
    fn default() -> (r: Self)
        ensures
            r.editor_spec() == "nvim"@,
            r.conflict_spec() == true,
    {
        Config { editor: String::from_str("nvim"), conflict: true }
    }
}

} // verus!
