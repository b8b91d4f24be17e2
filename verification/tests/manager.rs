use std::str::FromStr;

use workspace_root::manager::{
    InvalidFileError, Manager, ParseManagerError, PREFERRED_WORKSPACE_MANAGER, SEARCH_ORDER,
};
use workspace_root::path::FsPath;

fn path(text: &str) -> FsPath {
    let (anchor, rest) = match text.strip_prefix('/') {
        Some(rest) => ("/", rest),
        None => ("", text),
    };
    FsPath {
        anchor: anchor.to_string(),
        parts: rest.split('/').filter(|part| !part.is_empty()).map(String::from).collect(),
    }
}

#[test]
fn parse_manager_lowercase_yarn() {
    assert_eq!("yarn".parse(), Ok(Manager::Yarn));
}

#[test]
fn parse_manager_uppercase_yarn() {
    assert_eq!("YARN".parse(), Ok(Manager::Yarn));
}

#[test]
fn parse_manager_lowercase_pnpm() {
    assert_eq!("pnpm".parse(), Ok(Manager::Pnpm));
}

#[test]
fn parse_manager_uppercase_pnpm() {
    assert_eq!("PNPM".parse(), Ok(Manager::Pnpm));
}

#[test]
fn parse_manager_lowercase_rush() {
    assert_eq!("rush".parse(), Ok(Manager::Rush));
}

#[test]
fn parse_manager_uppercase_rush() {
    assert_eq!("RUSH".parse(), Ok(Manager::Rush));
}

#[test]
fn parse_manager_lowercase_npm() {
    assert_eq!("npm".parse(), Ok(Manager::Npm));
}

#[test]
fn parse_manager_uppercase_npm() {
    assert_eq!("NPM".parse(), Ok(Manager::Npm));
}

#[test]
fn parse_manager_lowercase_lerna() {
    assert_eq!("lerna".parse(), Ok(Manager::Lerna));
}

#[test]
fn parse_manager_uppercase_lerna() {
    assert_eq!("LERNA".parse(), Ok(Manager::Lerna));
}

#[test]
fn parse_manager_lowercase_failure() {
    assert_eq!(
        "lolwut".parse::<Manager>(),
        Err(ParseManagerError(String::from("lolwut")))
    );
}

#[test]
fn parse_manager_uppercase_failure() {
    assert_eq!(
        "LOLWUT".parse::<Manager>(),
        Err(ParseManagerError(String::from("LOLWUT")))
    );
}

#[test]
fn parse_manager_mixed_case() {
    assert_eq!(Manager::from_str("YaRn"), Ok(Manager::Yarn));
    assert_eq!(Manager::from_str("pNpM"), Ok(Manager::Pnpm));
    assert_eq!(Manager::from_str("Rush"), Ok(Manager::Rush));
    assert_eq!(Manager::from_str("nPm"), Ok(Manager::Npm));
    assert_eq!(Manager::from_str("lernA"), Ok(Manager::Lerna));
}

#[test]
fn parse_manager_every_casing_of_npm() {
    for bits in 0u32..8 {
        let text: String = "npm"
            .chars()
            .enumerate()
            .map(|(i, c)| if bits & (1 << i) != 0 { c.to_ascii_uppercase() } else { c })
            .collect();
        assert_eq!(Manager::from_str(&text), Ok(Manager::Npm));
    }
}

#[test]
fn parse_manager_is_exact() {
    for text in ["", "yarn ", " yarn", "yar", "yarnn", "npmm", "pnp", "lerna.json", "yarn.lock"] {
        assert_eq!(
            Manager::from_str(text),
            Err(ParseManagerError(text.to_string()))
        );
    }
}

#[test]
fn parse_manager_keeps_the_case_of_a_rejected_input() {
    assert_eq!(
        Manager::from_str("NpX"),
        Err(ParseManagerError(String::from("NpX")))
    );
}

#[test]
fn parse_manager_agrees_with_unicode_lowercasing() {
    let samples = [
        "yarn",
        "Yarn",
        "PNPM",
        "RuSh",
        "nPM",
        "LERNa",
        "lolwut",
        "\u{ff39}\u{ff21}\u{ff32}\u{ff2e}",
        "ru\u{17f}h",
        "\u{212a}",
        "\u{130}",
        "y\u{c5}rn",
        "\u{3a3}",
        "",
    ];
    for text in samples {
        let expected = match text.to_lowercase().as_str() {
            "yarn" => Some(Manager::Yarn),
            "pnpm" => Some(Manager::Pnpm),
            "rush" => Some(Manager::Rush),
            "npm" => Some(Manager::Npm),
            "lerna" => Some(Manager::Lerna),
            _ => None,
        };
        assert_eq!(Manager::from_str(text).ok(), expected);
    }
}

#[test]
fn as_ref_path_yarn() {
    assert_eq!(Manager::Yarn.as_ref(), "yarn.lock");
}

#[test]
fn as_ref_path_pnpm() {
    assert_eq!(Manager::Pnpm.as_ref(), "pnpm-workspace.yaml");
}

#[test]
fn as_ref_path_rush() {
    assert_eq!(Manager::Rush.as_ref(), "rush.json");
}

#[test]
fn as_ref_path_npm() {
    assert_eq!(Manager::Npm.as_ref(), "package-lock.json");
}

#[test]
fn as_ref_path_lerna() {
    assert_eq!(Manager::Lerna.as_ref(), "lerna.json");
}

#[test]
fn try_from_path_yarn_without_stem() {
    assert_eq!(Manager::try_from(&path("yarn.lock")), Ok(Manager::Yarn));
}

#[test]
fn try_from_path_pnpm_without_stem() {
    assert_eq!(Manager::try_from(&path("pnpm-workspace.yaml")), Ok(Manager::Pnpm));
}

#[test]
fn try_from_path_rush_without_stem() {
    assert_eq!(Manager::try_from(&path("rush.json")), Ok(Manager::Rush));
}

#[test]
fn try_from_path_npm_without_stem() {
    assert_eq!(Manager::try_from(&path("package-lock.json")), Ok(Manager::Npm));
}

#[test]
fn try_from_path_lerna_without_stem() {
    assert_eq!(Manager::try_from(&path("lerna.json")), Ok(Manager::Lerna));
}

#[test]
fn try_from_path_yarn_with_stem() {
    assert_eq!(Manager::try_from(&path("/foo/yarn.lock")), Ok(Manager::Yarn));
}

#[test]
fn try_from_path_pnpm_with_stem() {
    assert_eq!(Manager::try_from(&path("/bar/pnpm-workspace.yaml")), Ok(Manager::Pnpm));
}

#[test]
fn try_from_path_rush_with_stem() {
    assert_eq!(Manager::try_from(&path("/baz/rush.json")), Ok(Manager::Rush));
}

#[test]
fn try_from_path_npm_with_stem() {
    assert_eq!(Manager::try_from(&path("/quux/package-lock.json")), Ok(Manager::Npm));
}

#[test]
fn try_from_path_lerna_with_stem() {
    assert_eq!(Manager::try_from(&path("/yolo/lerna.json")), Ok(Manager::Lerna));
}

#[test]
fn try_from_path_invalid_path() {
    assert_eq!(
        Manager::try_from(&path("invalid")),
        Err(InvalidFileError(path("invalid")))
    );
}

#[test]
fn try_from_path_carries_the_whole_path() {
    assert_eq!(
        Manager::try_from(&path("/a/b/yarn.lock.bak")),
        Err(InvalidFileError(path("/a/b/yarn.lock.bak")))
    );
}

#[test]
fn try_from_path_is_exact_about_case() {
    assert_eq!(
        Manager::try_from(&path("/a/Yarn.lock")),
        Err(InvalidFileError(path("/a/Yarn.lock")))
    );
}

#[test]
fn try_from_path_looks_at_the_last_component_only() {
    assert_eq!(
        Manager::try_from(&path("/yarn.lock/src")),
        Err(InvalidFileError(path("/yarn.lock/src")))
    );
    assert_eq!(Manager::try_from(&path("/rush.json/lerna.json")), Ok(Manager::Lerna));
}

#[test]
fn try_from_path_without_components() {
    assert_eq!(Manager::try_from(&path("/")), Err(InvalidFileError(path("/"))));
    assert_eq!(Manager::try_from(&path("")), Err(InvalidFileError(path(""))));
}

#[test]
fn marker_round_trip_in_any_directory() {
    let managers = [Manager::Yarn, Manager::Pnpm, Manager::Rush, Manager::Npm, Manager::Lerna];
    for dir in ["", "/", "a", "/a/b/c", "../x"] {
        for manager in managers {
            let file = path(dir).join(manager.as_ref());
            assert_eq!(Manager::try_from(&file), Ok(manager));
        }
    }
}

#[test]
fn search_order_is_lerna_rush_yarn_pnpm_npm() {
    assert_eq!(
        SEARCH_ORDER,
        [Manager::Lerna, Manager::Rush, Manager::Yarn, Manager::Pnpm, Manager::Npm]
    );
}

#[test]
fn override_variable_name() {
    assert_eq!(PREFERRED_WORKSPACE_MANAGER, "PREFERRED_WORKSPACE_MANAGER");
}

#[test]
fn from_env_unset_is_no_preference() {
    assert_eq!(Manager::from_env(None), Ok(None));
}

#[test]
fn from_env_names_a_manager() {
    assert_eq!(Manager::from_env(Some("pnpm")), Ok(Some(Manager::Pnpm)));
    assert_eq!(Manager::from_env(Some("Lerna")), Ok(Some(Manager::Lerna)));
}

#[test]
fn from_env_rejects_what_names_none() {
    assert_eq!(
        Manager::from_env(Some("bower")),
        Err(ParseManagerError(String::from("bower")))
    );
    assert_eq!(Manager::from_env(Some("")), Err(ParseManagerError(String::new())));
}

#[test]
fn parse_error_message() {
    assert_eq!(
        ParseManagerError(String::from("lolwut")).message(),
        "Invalid manager: lolwut"
    );
}

#[test]
fn invalid_file_error_message() {
    assert_eq!(
        InvalidFileError(path("invalid")).message(),
        "Invalid manager file: invalid"
    );
    assert_eq!(
        InvalidFileError(path("/foo/bar.json")).message(),
        "Invalid manager file: /foo/bar.json"
    );
}

#[test]
fn name_is_the_lowercase_identifier() {
    assert_eq!(Manager::Yarn.name(), "yarn");
    assert_eq!(Manager::Pnpm.name(), "pnpm");
    assert_eq!(Manager::Rush.name(), "rush");
    assert_eq!(Manager::Npm.name(), "npm");
    assert_eq!(Manager::Lerna.name(), "lerna");
}

#[test]
fn name_parses_back_to_its_manager() {
    for manager in SEARCH_ORDER {
        assert_eq!(Manager::from_str(manager.name()), Ok(manager));
        assert_eq!(Manager::from_str(&manager.name().to_uppercase()), Ok(manager));
    }
}

#[test]
fn parse_manager_agrees_with_unicode_lowercasing_of_every_character() {
    let names = ["yarn", "pnpm", "rush", "npm", "lerna"];
    let mut tried = 0u32;
    for code in 0u32..=0x10ffff {
        let Some(c) = char::from_u32(code) else { continue };
        let unchanged = c.to_lowercase().eq([c]);
        if !c.is_ascii() && unchanged && code % 97 != 0 {
            continue;
        }
        for name in names {
            for at in 0..name.len() {
                let mut text = String::new();
                text.push_str(&name[..at]);
                text.push(c);
                text.push_str(&name[at + 1..]);
                let expected = names.iter().any(|other| text.to_lowercase() == *other);
                assert_eq!(Manager::from_str(&text).is_ok(), expected, "{:?}", text);
                tried += 1;
            }
        }
    }
    assert!(tried > 20_000);
}
