use std::collections::HashMap;
use vstd::prelude::*;

verus! {

/// The installer's configuration.
#[derive(Debug)]
pub struct IcicleConfig {
    pub distribution_name: String,
    pub branding: String,
    pub internet_check_url: String,
    pub default_hostname: String,
    pub choices: Vec<ChoiceEnum>,
}

/// A system the user can pick: a configuration kept in its own file, or
/// the live system.
#[derive(Debug)]
pub enum ChoiceEnum {
    Configuration { file: String, config: InstallationConfig },
    Live,
}

/// How a configuration is laid out.
#[derive(Clone, Copy, Debug, PartialEq, Eq, Structural)]
pub enum ConfigType {
    Snowfall,
    Flakes,
    Legacy,
}

/// One installable configuration and the wizard steps it asks for.
#[derive(Debug)]
pub struct InstallationConfig {
    pub config_id: String,
    pub config_name: String,
    pub config_logo: String,
    pub config_type: ConfigType,
    pub imperative_timezone: bool,
    pub steps: Vec<StepType>,
    pub commands: Vec<String>,
}

/// A page of the wizard.
#[derive(Debug)]
pub enum StepType {
    Welcome,
    Location,
    Keyboard,
    User { root: Option<bool>, hostname: Option<bool> },
    List {
        id: String,
        multiple: bool,
        required: bool,
        title: String,
        choices: Vec<HashMap<String, Choice>>,
    },
    Partitioning,
    Manual,
    Summary,
}

/// An entry of a list page.
#[derive(Debug)]
pub struct Choice {
    pub description: Option<String>,
    pub packages: Option<Vec<String>>,
    pub config: Option<String>,
}

/// The slides shown during installation.
#[derive(Debug)]
pub struct BrandingConfig {
    pub slides: Vec<Slide>,
}

#[derive(Debug)]
pub struct Slide {
    pub title: String,
    pub subtitle: String,
    pub image: String,
}

impl ConfigType {
    /// Configurations are flakes unless they say otherwise.
    pub fn default_type() -> (r: ConfigType)
        ensures
            r == ConfigType::Flakes,
    {
        ConfigType::Flakes
    }
}

impl InstallationConfig {
    /// A configuration that names nothing yet, of the default type.
    pub fn empty() -> (r: InstallationConfig)
        ensures
            r.config_id@.len() == 0,
            r.config_type == ConfigType::Flakes,
            !r.imperative_timezone,
            r.steps@.len() == 0,
            r.commands@.len() == 0,
    {
        InstallationConfig {
            config_id: String::new(),
            config_name: String::new(),
            config_logo: String::new(),
            config_type: ConfigType::default_type(),
            imperative_timezone: false,
            steps: Vec::new(),
            commands: Vec::new(),
        }
    }
}

/// The files of the configuration choices, in order of the choices.
pub open spec fn configuration_files_of(choices: Seq<ChoiceEnum>) -> Seq<Seq<char>>
    decreases choices.len(),
{
    if choices.len() == 0 {
        Seq::empty()
    } else {
        configuration_files_of(choices.drop_last()) + match choices.last() {
            ChoiceEnum::Configuration { file, .. } => seq![file@],
            ChoiceEnum::Live => Seq::empty(),
        }
    }
}

/// The configuration files to load, one per configuration choice.
pub fn configuration_files(config: &IcicleConfig) -> (r: Vec<String>)
    ensures
        r@.map_values(|s: String| s@) == configuration_files_of(config.choices@),
{
    let mut out: Vec<String> = Vec::new();
    let mut i: usize = 0;
    while i < config.choices.len()
        invariant
            i <= config.choices@.len(),
            out@.map_values(|s: String| s@) == configuration_files_of(config.choices@.take(i as int)),
        decreases config.choices.len() - i,
    {
        let ghost before = out@.map_values(|s: String| s@);
        match &config.choices[i] {
            ChoiceEnum::Configuration { file, .. } => out.push(file.clone()),
            ChoiceEnum::Live => {},
        }
        assert(config.choices@.take(i + 1).drop_last() =~= config.choices@.take(i as int));
        assert(out@.map_values(|s: String| s@) =~= configuration_files_of(config.choices@.take(i + 1)));
        i = i + 1;
    }
    assert(config.choices@.take(config.choices@.len() as int) =~= config.choices@);
    out
}

} // verus!
