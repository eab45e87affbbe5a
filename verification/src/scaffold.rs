//! Writing the throwaway mod's files and the isolated config.

use vstd::prelude::*;
use crate::probe::ModSpec;
use crate::text;

verus! {

/// A Lua prelude that records which mods actually loaded.
///
/// Reading `script.active_mods` from inside the game is more reliable than
/// grepping Factorio's stdout for "Loading mod". It registers no event at all:
/// `helpers.write_file` works at `control.lua` toplevel, and `script.on_init`
/// takes exactly one handler, so a prelude registering one would have its
/// handler silently discarded whenever the consumer registers one too.
pub const ACTIVE_MODS_PRELUDE: &'static str = "\nhelpers.write_file(\"oracle-active-mods.json\", helpers.table_to_json(script.active_mods))\n";

/// An isolated `config.ini`.
///
/// `read-data` points at the install's bundled data by the path the caller
/// hands in, which is absolute: a relative `__PATH__executable__` token
/// resolves to the wrong directory wherever the binary sits in `bin/x64/`.
/// `write-data` points at a scratch directory that started empty, which is
/// what makes a stale dump from an earlier capture impossible to pick up by
/// accident.
pub fn build_config_ini(data_dir: &str, write_data: &str) -> (s: String)
    ensures
        s@ == "[path]\nread-data="@ + data_dir@ + "\nwrite-data="@ + write_data@ + seq!['\n'],
{
    let mut v = text::chars_of("[path]\nread-data=");
    text::push_str(&mut v, data_dir);
    text::push_str(&mut v, "\nwrite-data=");
    text::push_str(&mut v, write_data);
    v.push('\n');
    text::string_of(&v)
}

/// The fields of a probe mod's `info.json`.
#[derive(Debug, Clone)]
pub struct ModInfo {
    pub name: String,
    pub version: String,
    pub title: String,
    pub author: String,
    pub factorio_version: String,
    pub dependencies: Vec<String>,
}

/// The mod's `info.json`.
///
/// `mod_factorio_version` is always derived from the binary being run. A mod
/// declaring 2.1 against a 2.0.x binary is skipped in silence: the run ends
/// with no dump, and nothing in Factorio's output names the cause.
pub fn build_info_json(spec: &ModSpec, mod_factorio_version: &str) -> (info: ModInfo)
    ensures
        info.name@ == spec.name@,
        info.version@ == spec.version@,
        info.title@ == spec.name@,
        info.author@ == "factorio-oracle"@,
        info.factorio_version@ == mod_factorio_version@,
        text::strs(info.dependencies@) == text::strs(spec.dependencies@),
{
    let mut dependencies: Vec<String> = Vec::new();
    text::push_strings(&mut dependencies, &spec.dependencies);
    assert(text::strs(dependencies@) =~= text::strs(spec.dependencies@));
    ModInfo {
        name: spec.name.clone(),
        version: spec.version.clone(),
        title: spec.name.clone(),
        author: "factorio-oracle".to_string(),
        factorio_version: mod_factorio_version.to_string(),
        dependencies,
    }
}

/// Each mod as its name and whether it is enabled.
pub open spec fn mod_list_view(v: Seq<(String, bool)>) -> Seq<(Seq<char>, bool)> {
    v.map_values(|m: (String, bool)| (m.0@, m.1))
}

/// The `mod-list.json` for an isolated mod directory: `base` enabled, the
/// probe's mod enabled when there is one, then every mod named to be turned
/// off, disabled.
pub open spec fn mod_list_spec(mod_name: Option<Seq<char>>, disable_mods: Seq<Seq<char>>) -> Seq<(Seq<char>, bool)> {
    seq![("base"@, true)] + match mod_name {
        Some(n) => seq![(n, true)],
        None => Seq::empty(),
    } + disable_mods.map_values(|d: Seq<char>| (d, false))
}

/// The `mod-list.json` for an isolated mod directory.
///
/// With no probe mod, only `base` is enabled. That is the `--dump-data` case,
/// where the directory's whole job is to contain no user mods: mods rewrite
/// prototypes freely, so a capture that loads them describes one person's
/// game rather than Factorio. A bundled mod is only kept out by naming it
/// disabled: Factorio adds back any bundled mod missing from the list.
pub fn build_mod_list(mod_name: Option<&str>, disable_mods: &Vec<String>) -> (mods: Vec<(String, bool)>)
    ensures
        mod_list_view(mods@) == mod_list_spec(crate::refs::opt_view(mod_name), text::strs(disable_mods@)),
{
    let mut mods: Vec<(String, bool)> = Vec::new();
    mods.push(("base".to_string(), true));
    match mod_name {
        Some(n) => mods.push((n.to_string(), true)),
        None => {},
    }
    let ghost start = mod_list_view(mods@);
    let mut i: usize = 0;
    while i < disable_mods.len()
        invariant
            i <= disable_mods.len(),
            mod_list_view(mods@) == start + text::strs(disable_mods@).take(i as int).map_values(|d: Seq<char>| (d, false)),
        decreases disable_mods.len() - i,
    {
        let ghost before = mod_list_view(mods@);
        mods.push((disable_mods[i].clone(), false));
        proof {
            assert(mod_list_view(mods@) =~= before.push((disable_mods@[i as int]@, false)));
            assert(text::strs(disable_mods@).take(i + 1).map_values(|d: Seq<char>| (d, false)) =~= text::strs(disable_mods@).take(i as int).map_values(|d: Seq<char>| (d, false)).push((disable_mods@[i as int]@, false)));
        }
        i = i + 1;
    }
    proof {
        assert(text::strs(disable_mods@).take(disable_mods.len() as int) =~= text::strs(disable_mods@));
        assert(mod_list_view(mods@) =~= mod_list_spec(crate::refs::opt_view(mod_name), text::strs(disable_mods@)));
    }
    mods
}

} // verus!
