//! Configuration of the resolution engine and its front ends.

use vstd::prelude::*;
use vstd::string::StringExecFns;

verus! {

/// Possible ways of displaying the kernel parameters.
#[derive(Clone, Copy, Debug, Eq, PartialEq, Structural)]
pub enum DisplayType {
    /// Print the kernel parameter name along with its value.
    Default,
    /// Print only the name of the parameter.
    Name,
    /// Print only the value of the parameter.
    Value,
    /// Print only the value of the parameter without new line.
    Binary,
}

impl Default for DisplayType {
    fn default() -> (r: Self)
        ensures
            r == DisplayType::Default,
    {
        DisplayType::Default
    }
}

/// Possible output types for the command-line front end.
#[derive(Clone, Copy, Debug, Eq, PartialEq, Structural)]
pub enum OutputType {
    /// Print the output as is.
    Default,
    /// Print the output in a tree-like format.
    Tree,
    /// Print the output in JSON format.
    Json,
}

impl Default for OutputType {
    fn default() -> (r: Self)
        ensures
            r == OutputType::Default,
    {
        OutputType::Default
    }
}

/// CLI configuration.
#[derive(Clone, Debug)]
pub struct CliConfig {
    /// Whether if the verbose logging is enabled.
    pub verbose: bool,
    /// Whether if the errors should be ignored.
    pub ignore_errors: bool,
    /// Whether if the quiet mode is enabled.
    pub quiet: bool,
    /// Whether if the pager is disabled.
    pub no_pager: bool,
    /// Display type of the kernel parameters.
    pub display_type: DisplayType,
    /// Output type of the application.
    pub output_type: OutputType,
}

/// TUI color configuration.
#[derive(Clone, Debug)]
pub struct TuiColorConfig {
    /// Foreground color.
    pub fg_color: String,
    /// Background color.
    pub bg_color: String,
}

/// TUI configuration.
#[derive(Clone, Debug)]
pub struct TuiConfig {
    /// Refresh rate of the terminal.
    pub tick_rate: u64,
    /// Do not parse/show Linux kernel documentation.
    pub no_docs: bool,
    /// Path for saving the changed kernel parameters.
    pub save_path: Option<String>,
    /// File to save the logs.
    pub log_file: Option<String>,
    /// Color configuration.
    pub color: TuiColorConfig,
}

/// Configuration.
#[derive(Clone, Debug)]
pub struct Config {
    /// Whether if the deprecated variables should be included while listing.
    pub display_deprecated: bool,
    /// Path of the Linux kernel documentation.
    pub kernel_docs: Option<String>,
    /// CLI configuration.
    pub cli: CliConfig,
    /// TUI configuration.
    pub tui: TuiConfig,
}

impl Default for Config {
    fn default() -> (r: Self)
        ensures
            !r.display_deprecated,
            r.kernel_docs is None,
            !r.cli.verbose && !r.cli.ignore_errors && !r.cli.quiet && !r.cli.no_pager,
            r.cli.display_type == DisplayType::Default,
            r.cli.output_type == OutputType::Default,
            r.tui.tick_rate == 250,
            !r.tui.no_docs,
            r.tui.save_path is None,
            r.tui.log_file is None,
            r.tui.color.fg_color@ == "white"@,
            r.tui.color.bg_color@ == "black"@,
    {
        Config {
            display_deprecated: false,
            kernel_docs: None,
            cli: CliConfig {
                verbose: false,
                ignore_errors: false,
                quiet: false,
                no_pager: false,
                display_type: DisplayType::Default,
                output_type: OutputType::Default,
            },
            tui: TuiConfig {
                tick_rate: 250,
                no_docs: false,
                save_path: None,
                log_file: None,
                color: TuiColorConfig {
                    fg_color: String::from_str("white"),
                    bg_color: String::from_str("black"),
                },
            },
        }
    }
}

} // verus!
