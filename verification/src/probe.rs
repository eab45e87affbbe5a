//! The document a consumer hands in to describe a probe.

use vstd::prelude::*;
use crate::strmap::StrMap;
use crate::text;

verus! {

/// How the game gets launched. The differences are not cosmetic: the success
/// predicate, whether a mod is generated, and the argument vector all differ.
#[derive(Debug, Clone, Copy, PartialEq, Eq, Structural)]
pub enum Mode {
    /// `--dump-data`. No mod is generated; the mod directory exists to be empty.
    DumpData,
    /// `--create`. A generated mod writes a dump and errors out.
    Create,
    /// `--load-scenario`. Long running, with a human at the keyboard.
    Interactive,
    /// `--generate-map-preview`. No mod, and it exits 0 on success.
    Preview,
    /// No binary at all. Migrations and API docs are files on disk.
    ReadOnly,
}

/// The throwaway mod a probe runs.
#[derive(Debug, Clone)]
pub struct ModSpec {
    pub name: String,
    pub version: String,
    pub dependencies: Vec<String>,
    /// Consumer Lua, passed through untouched.
    pub control_lua: Option<String>,
    pub control_lua_file: Option<String>,
    pub data_lua: Option<String>,
    /// Prototype overrides belong here, not in `data_lua`. A probe mod declares
    /// no dependencies, so its `data.lua` may run before `space-age`'s and the
    /// prototype it wants to change will not exist yet - a silent no-op.
    pub data_final_fixes_lua: Option<String>,
}

impl ModSpec {
    /// The on-disk directory name. Factorio requires `<name>_<version>`, and it
    /// must match `info.json` or the mod is not loaded.
    pub fn dir_name(&self) -> (s: String)
        ensures
            s@ == self.name@ + seq!['_'] + self.version@,
    {
        let mut v = text::chars_of_string(&self.name);
        v.push('_');
        let w = text::chars_of_string(&self.version);
        text::push_all(&mut v, &w);
        text::string_of(&v)
    }
}

/// A probe, as handed in.
#[derive(Debug, Clone)]
pub struct ProbeSpec {
    pub mode: Mode,
    pub probe_mod: Option<ModSpec>,
    /// Values injected as Lua locals above the consumer's control script.
    pub literals: StrMap<String>,
    pub timeout_seconds: Option<u64>,
    /// On by default. A contaminated capture looks entirely normal, so the
    /// safe default is to record what loaded and let a consumer opt out.
    pub capture_active_mods: bool,
    /// Bundled mods to turn off, by name, for example `space-age`.
    ///
    /// Naming them is the only way to switch them off: Factorio rewrites
    /// `mod-list.json` on every run and adds back any bundled mod missing from
    /// it with `enabled: true`. An explicit `enabled: false` is honoured.
    pub disable_mods: Vec<String>,
}

/// What an absent `capture_active_mods` means: on.
pub fn default_true() -> (b: bool)
    ensures
        b,
{
    true
}

} // verus!
