//! The argument vector, which differs per mode.

use vstd::prelude::*;
use crate::text;

verus! {

/// What to launch, carrying exactly the paths that mode needs.
#[derive(Debug, Clone)]
#[allow(inconsistent_fields)]
pub enum Launch {
    DumpData { mod_dir: String, config: String },
    Create {
        save: String,
        /// `None` when the caller supplied no settings: `--create` succeeds
        /// with no settings file at all.
        map_gen: Option<String>,
        /// Also written into the settings file. `--map-gen-seed` overrides
        /// the file's seed, so both come from one field and agree, which makes
        /// the precedence irrelevant.
        seed: Option<u64>,
        mod_dir: String,
        config: String,
    },
    Interactive { scenario: String, mod_dir: String, config: String },
    Preview {
        out: String,
        map_gen: String,
        planet: Option<String>,
        seed: Option<u64>,
        size: Option<u32>,
    },
}

/// A flag followed by its value, or nothing when there is no value.
pub open spec fn opt_flag(flag: Seq<char>, value: Option<Seq<char>>) -> Seq<Seq<char>> {
    match value {
        Some(v) => seq![flag, v],
        None => Seq::empty(),
    }
}

pub open spec fn opt_text(v: Option<String>) -> Option<Seq<char>> {
    match v {
        Some(s) => Some(s@),
        None => None,
    }
}

pub open spec fn opt_number(v: Option<u64>) -> Option<Seq<char>> {
    match v {
        Some(n) => Some(text::decimal(n as nat)),
        None => None,
    }
}

/// The argument vector for each launch.
pub open spec fn build_args_spec(launch: Launch) -> Seq<Seq<char>> {
    match launch {
        Launch::DumpData { mod_dir, config } => seq![
            "--dump-data"@,
            "--mod-directory"@,
            mod_dir@,
            "--config"@,
            config@,
        ],
        Launch::Create { save, map_gen, seed, mod_dir, config } => seq!["--create"@, save@]
            + opt_flag("--map-gen-settings"@, opt_text(map_gen)) + opt_flag(
            "--map-gen-seed"@,
            opt_number(seed),
        ) + seq!["--mod-directory"@, mod_dir@, "--config"@, config@],
        Launch::Interactive { scenario, mod_dir, config } => seq![
            "--load-scenario"@,
            scenario@,
            "--mod-directory"@,
            mod_dir@,
            "--config"@,
            config@,
        ],
        Launch::Preview { out, map_gen, planet, seed, size } => seq![
            "--generate-map-preview"@,
            out@,
            "--map-gen-settings"@,
            map_gen@,
        ] + opt_flag("--map-preview-planet"@, opt_text(planet)) + opt_flag(
            "--map-gen-seed"@,
            opt_number(seed),
        ) + opt_flag(
            "--map-preview-size"@,
            match size {
                Some(n) => Some(text::decimal(n as nat)),
                None => None,
            },
        ),
    }
}

/// Builds the argument vector for a launch.
pub fn build_args(launch: &Launch) -> (args: Vec<String>)
    ensures
        text::strs(args@) == build_args_spec(*launch),
{
    let mut args: Vec<String> = Vec::new();
    match launch {
        Launch::DumpData { mod_dir, config } => {
            text::push_string(&mut args, "--dump-data");
            text::push_string(&mut args, "--mod-directory");
            text::push_string(&mut args, mod_dir.as_str());
            text::push_string(&mut args, "--config");
            text::push_string(&mut args, config.as_str());
        },
        Launch::Create { save, map_gen, seed, mod_dir, config } => {
            text::push_string(&mut args, "--create");
            text::push_string(&mut args, save.as_str());
            // Optional: --create generates a map, loads the mod and produces a
            // dump with no settings file at all.
            if let Some(map_gen) = map_gen {
                text::push_string(&mut args, "--map-gen-settings");
                text::push_string(&mut args, map_gen.as_str());
            }
            // The seed also goes inside the settings file. The flag overrides
            // the file, so both come from one field and therefore agree.
            if let Some(seed) = seed {
                text::push_string(&mut args, "--map-gen-seed");
                text::push_decimal(&mut args, *seed);
            }
            text::push_string(&mut args, "--mod-directory");
            text::push_string(&mut args, mod_dir.as_str());
            text::push_string(&mut args, "--config");
            text::push_string(&mut args, config.as_str());
        },
        Launch::Interactive { scenario, mod_dir, config } => {
            text::push_string(&mut args, "--load-scenario");
            text::push_string(&mut args, scenario.as_str());
            text::push_string(&mut args, "--mod-directory");
            text::push_string(&mut args, mod_dir.as_str());
            text::push_string(&mut args, "--config");
            text::push_string(&mut args, config.as_str());
        },
        Launch::Preview { out, map_gen, planet, seed, size } => {
            text::push_string(&mut args, "--generate-map-preview");
            text::push_string(&mut args, out.as_str());
            text::push_string(&mut args, "--map-gen-settings");
            text::push_string(&mut args, map_gen.as_str());
            if let Some(planet) = planet {
                text::push_string(&mut args, "--map-preview-planet");
                text::push_string(&mut args, planet.as_str());
            }
            if let Some(seed) = seed {
                text::push_string(&mut args, "--map-gen-seed");
                text::push_decimal(&mut args, *seed);
            }
            if let Some(size) = size {
                text::push_string(&mut args, "--map-preview-size");
                text::push_decimal(&mut args, *size as u64);
            }
        },
    }
    assert(text::strs(args@) =~= build_args_spec(*launch));
    args
}

/// The value that follows `flag` somewhere in `args`.
pub open spec fn passes(args: Seq<Seq<char>>, flag: Seq<char>, value: Seq<char>) -> bool {
    exists|i: int| 0 <= i && i + 1 < args.len() && #[trigger] args[i] == flag && args[i + 1] == value
}

/// Every launch names its mode first, and every launch that runs with the
/// isolated setup hands the game both its own mod directory and its own
/// `config.ini`: `--mod-directory` and `--config`, each followed by its
/// path. A preview is handed its output file and its map settings.
pub proof fn law_every_launch_is_isolated(launch: Launch)
    ensures
        ({
            let args = build_args_spec(launch);
            match launch {
                Launch::DumpData { mod_dir, config } => args[0] == "--dump-data"@
                    && passes(args, "--mod-directory"@, mod_dir@) && passes(args, "--config"@, config@),
                Launch::Create { save, mod_dir, config, .. } => passes(args, "--create"@, save@) && args[0] == "--create"@
                    && passes(args, "--mod-directory"@, mod_dir@) && passes(args, "--config"@, config@),
                Launch::Interactive { scenario, mod_dir, config } => passes(args, "--load-scenario"@, scenario@)
                    && args[0] == "--load-scenario"@ && passes(args, "--mod-directory"@, mod_dir@)
                    && passes(args, "--config"@, config@),
                Launch::Preview { out, map_gen, .. } => passes(args, "--generate-map-preview"@, out@)
                    && args[0] == "--generate-map-preview"@ && passes(args, "--map-gen-settings"@, map_gen@),
            }
        }),
{
    let args = build_args_spec(launch);
    let n = args.len() as int;
    match launch {
        Launch::DumpData { mod_dir, config } => {
            assert(args[1] == "--mod-directory"@ && args[2] == mod_dir@);
            assert(args[3] == "--config"@ && args[4] == config@);
        },
        Launch::Create { save, map_gen, seed, mod_dir, config } => {
            assert(args[0] == "--create"@ && args[1] == save@);
            assert(args[n - 4] == "--mod-directory"@ && args[n - 3] == mod_dir@);
            assert(args[n - 2] == "--config"@ && args[n - 1] == config@);
        },
        Launch::Interactive { scenario, mod_dir, config } => {
            assert(args[0] == "--load-scenario"@ && args[1] == scenario@);
            assert(args[2] == "--mod-directory"@ && args[3] == mod_dir@);
            assert(args[4] == "--config"@ && args[5] == config@);
        },
        Launch::Preview { out, map_gen, .. } => {
            assert(args[0] == "--generate-map-preview"@ && args[1] == out@);
            assert(args[2] == "--map-gen-settings"@ && args[3] == map_gen@);
        },
    }
}

/// How many of the optional values are given, each adding a flag and its
/// value.
pub open spec fn given<T>(v: Option<T>) -> int {
    if v is Some {
        2
    } else {
        0
    }
}

/// The optional settings reach the game when given, each as its flag
/// followed by its value, and add nothing when not given: map settings and
/// seed for `--create`; planet, seed and size for a preview.
pub proof fn law_optional_settings_are_passed(launch: Launch)
    ensures
        ({
            let args = build_args_spec(launch);
            match launch {
                Launch::Create { map_gen, seed, .. } => {
                    &&& args.len() == 6 + given(map_gen) + given(seed)
                    &&& map_gen is Some ==> passes(args, "--map-gen-settings"@, (map_gen->0)@)
                    &&& seed is Some ==> passes(args, "--map-gen-seed"@, text::decimal((seed->0) as nat))
                },
                Launch::Preview { planet, seed, size, .. } => {
                    &&& args.len() == 4 + given(planet) + given(seed) + given(size)
                    &&& planet is Some ==> passes(args, "--map-preview-planet"@, (planet->0)@)
                    &&& seed is Some ==> passes(args, "--map-gen-seed"@, text::decimal((seed->0) as nat))
                    &&& size is Some ==> passes(args, "--map-preview-size"@, text::decimal((size->0) as nat))
                },
                _ => true,
            }
        }),
{
    let args = build_args_spec(launch);
    match launch {
        Launch::Create { save, map_gen, seed, mod_dir, config } => {
            let a = seq!["--create"@, save@];
            let b = opt_flag("--map-gen-settings"@, opt_text(map_gen));
            let c = opt_flag("--map-gen-seed"@, opt_number(seed));
            let d = seq!["--mod-directory"@, mod_dir@, "--config"@, config@];
            assert(args == a + b + c + d);
            if map_gen is Some {
                assert(args[2] == "--map-gen-settings"@ && args[3] == (map_gen->0)@);
            }
            if seed is Some {
                assert(args[(2 + b.len()) as int] == "--map-gen-seed"@);
                assert(args[(3 + b.len()) as int] == text::decimal((seed->0) as nat));
            }
        },
        Launch::Preview { out, map_gen, planet, seed, size } => {
            let sz = match size {
                Some(n) => Some(text::decimal(n as nat)),
                None => None,
            };
            let a = seq!["--generate-map-preview"@, out@, "--map-gen-settings"@, map_gen@];
            let b = opt_flag("--map-preview-planet"@, opt_text(planet));
            let c = opt_flag("--map-gen-seed"@, opt_number(seed));
            let d = opt_flag("--map-preview-size"@, sz);
            assert(args == a + b + c + d);
            if planet is Some {
                assert(args[4] == "--map-preview-planet"@ && args[5] == (planet->0)@);
            }
            if seed is Some {
                assert(args[(4 + b.len()) as int] == "--map-gen-seed"@);
                assert(args[(5 + b.len()) as int] == text::decimal((seed->0) as nat));
            }
            if size is Some {
                assert(args[(4 + b.len() + c.len()) as int] == "--map-preview-size"@);
                assert(args[(5 + b.len() + c.len()) as int] == text::decimal((size->0) as nat));
            }
        },
        _ => {},
    }
}

} // verus!
