//! The command line: commands and their arguments.

use vstd::prelude::*;

verus! {

/// A parsed command line.
#[derive(Clone, Debug)]
pub struct Cli {
    pub command: Command,
}

/// The commands of `bckt`.
#[derive(Clone, Debug)]
pub enum Command {
    Init(InitArgs),
    Render(RenderArgs),
    Dev(DevArgs),
    Clean(CleanArgs),
    Themes(ThemesArgs),
    Config(ConfigArgs),
}

/// Arguments of `bckt init`.
#[derive(Clone, Debug)]
pub struct InitArgs {
    pub root: Option<String>,
    pub theme: Option<String>,
}

/// Arguments of `bckt render`.
#[derive(Clone, Debug)]
pub struct RenderArgs {
    pub posts: bool,
    pub static_assets: bool,
    pub changed: bool,
    pub force: bool,
    pub verbose: bool,
}

/// Arguments of `bckt dev`.
#[derive(Clone, Debug)]
pub struct DevArgs {
    pub root: Option<String>,
    pub host: String,
    pub port: u16,
    pub force: bool,
    pub verbose: bool,
}

/// Arguments of `bckt clean`.
#[derive(Clone, Debug)]
pub struct CleanArgs {
    pub root: Option<String>,
}

/// Arguments of `bckt themes`.
#[derive(Clone, Debug)]
pub struct ThemesArgs {
    pub root: Option<String>,
    pub command: ThemesSubcommand,
}

/// The subcommands of `bckt themes`.
#[derive(Clone, Debug)]
pub enum ThemesSubcommand {
    List,
    Use { name: String, force: bool },
    Install(ThemeInstallArgs),
}

/// Arguments of `bckt themes install`.
#[derive(Clone, Debug)]
pub struct ThemeInstallArgs {
    pub path: String,
    pub name: Option<String>,
    pub force: bool,
}

/// Arguments of `bckt config`.
#[derive(Clone, Debug)]
pub struct ConfigArgs {
    pub root: Option<String>,
    pub root_dir: bool,
    pub base_url: bool,
    pub title: bool,
    pub homepage_posts: bool,
    pub date_format: bool,
    pub default_timezone: bool,
    pub theme: bool,
    pub search_asset_path: bool,
    pub search_default_language: bool,
}

} // verus!
