//! User settings: their defaults and what becomes of the settings file.

use vstd::prelude::*;
use vstd::string::*;

use crate::text;

verus! {

/// What the overlay shows.
#[derive(Clone, Copy, Debug, PartialEq, Eq, Structural)]
pub enum Mode {
    /// Load charts.
    System,
    /// One line per provider.
    Balances,
}

impl Mode {
    /// The mode that a `start_mode` text names.
    pub open spec fn of_key(key: Seq<char>) -> Mode {
        if key == "balances"@ {
            Mode::Balances
        } else {
            Mode::System
        }
    }

    /// The mode that a `start_mode` text names; anything but `balances` reads
    /// as the system mode.
    pub fn from_key(key: &str) -> (mode: Mode)
        ensures
            mode == Mode::of_key(key@),
    {
        if text::same_text(key, "balances") {
            Mode::Balances
        } else {
            Mode::System
        }
    }

    /// The mode that the mode hotkey switches to.
    pub open spec fn other(self) -> Mode {
        match self {
            Mode::System => Mode::Balances,
            Mode::Balances => Mode::System,
        }
    }

    /// The mode that the mode hotkey switches to.
    pub fn switched(self) -> (mode: Mode)
        ensures
            mode == self.other(),
    {
        match self {
            Mode::System => Mode::Balances,
            Mode::Balances => Mode::System,
        }
    }
}

/// User settings. Lengths are logical pixels at 96 DPI, colors are `RRGGBB`.
#[derive(Debug, Clone)]
pub struct Config {
    pub deepseek_token: String,
    pub proxyapi_token: String,
    pub openrouter_token: String,
    /// Whether there is a system block at all; without it the overlay has
    /// nothing but balances to show and takes no load samples.
    pub show_system: bool,
    /// Mode to open in: `system` or `balances`.
    pub start_mode: String,
    /// Seconds between balance polls.
    pub refresh_interval_secs: u64,
    pub font_name: String,
    pub font_size: i32,
    pub font_bold: bool,
    pub outline_width: u32,
    pub text_color: String,
    /// Text outline, and the well the charts sit in.
    pub outline_color: String,
    /// Chart fill; frame and grid are dimmer shades of it.
    pub meter_color: String,
    pub meter_width: i32,
    /// Opacity of everything but the charts.
    pub opacity: u8,
    pub pos_x: i32,
    pub pos_y: i32,
}

pub fn default_show_system() -> (v: bool)
    ensures
        v == true,
{
    true
}

pub fn default_start_mode() -> (v: String)
    ensures
        v@ == "system"@,
{
    "system".to_owned()
}

pub fn default_refresh_interval() -> (v: u64)
    ensures
        v == 60,
{
    60
}

pub fn default_font_name() -> (v: String)
    ensures
        v@ == "Consolas"@,
{
    "Consolas".to_owned()
}

pub fn default_font_size() -> (v: i32)
    ensures
        v == 18,
{
    18
}

pub fn default_font_bold() -> (v: bool)
    ensures
        v == true,
{
    true
}

pub fn default_outline_width() -> (v: u32)
    ensures
        v == 1,
{
    1
}

pub fn default_text_color() -> (v: String)
    ensures
        v@ == "FFFFFF"@,
{
    "FFFFFF".to_owned()
}

pub fn default_outline_color() -> (v: String)
    ensures
        v@ == "000000"@,
{
    "000000".to_owned()
}

pub fn default_meter_color() -> (v: String)
    ensures
        v@ == "FFFFFF"@,
{
    "FFFFFF".to_owned()
}

pub fn default_meter_width() -> (v: i32)
    ensures
        v == 120,
{
    120
}

pub fn default_opacity() -> (v: u8)
    ensures
        v == 200,
{
    200
}

pub fn default_pos_x() -> (v: i32)
    ensures
        v == 10,
{
    10
}

pub fn default_pos_y() -> (v: i32)
    ensures
        v == 10,
{
    10
}

impl Default for Config {
    fn default() -> (cfg: Self)
        ensures
            cfg.is_default(),
    {
        Config {
            deepseek_token: String::new(),
            proxyapi_token: String::new(),
            openrouter_token: String::new(),
            show_system: default_show_system(),
            start_mode: default_start_mode(),
            refresh_interval_secs: default_refresh_interval(),
            font_name: default_font_name(),
            font_size: default_font_size(),
            font_bold: default_font_bold(),
            outline_width: default_outline_width(),
            text_color: default_text_color(),
            outline_color: default_outline_color(),
            meter_color: default_meter_color(),
            meter_width: default_meter_width(),
            opacity: default_opacity(),
            pos_x: default_pos_x(),
            pos_y: default_pos_y(),
        }
    }
}

/// The settings to run on, and what is left to do about the settings file.
#[derive(Debug)]
pub struct Loaded {
    pub config: Config,
    /// Whether the settings are to be written to the file.
    pub save: bool,
    /// What to tell the user.
    pub warning: Option<String>,
}

impl Config {
    /// Whether every setting has its default value.
    pub open spec fn is_default(self) -> bool {
        &&& self.deepseek_token@ == Seq::<char>::empty()
        &&& self.proxyapi_token@ == Seq::<char>::empty()
        &&& self.openrouter_token@ == Seq::<char>::empty()
        &&& self.show_system
        &&& self.start_mode@ == "system"@
        &&& self.refresh_interval_secs == 60
        &&& self.font_name@ == "Consolas"@
        &&& self.font_size == 18
        &&& self.font_bold
        &&& self.outline_width == 1
        &&& self.text_color@ == "FFFFFF"@
        &&& self.outline_color@ == "000000"@
        &&& self.meter_color@ == "FFFFFF"@
        &&& self.meter_width == 120
        &&& self.opacity == 200
        &&& self.pos_x == 10
        &&& self.pos_y == 10
    }

    /// What to do with the settings file. `file` is `None` if there is none;
    /// otherwise it holds the settings read from it, or why it is unusable.
    ///
    /// An existing file is never written: a typo in it would otherwise cost the
    /// user their tokens.
    pub fn load_or_create(file: Option<Result<Config, String>>) -> (loaded: Loaded)
        ensures
            loaded.save == (file is None),
            match file {
                Some(Ok(cfg)) => loaded.config == cfg && loaded.warning is None,
                Some(Err(e)) => {
                    &&& loaded.config.is_default()
                    &&& loaded.warning matches Some(w)
                    &&& w@ == "Config unusable: "@ + e@ + ". Running on defaults, file kept."@
                },
                None => loaded.config.is_default() && loaded.warning is None,
            },
    {
        match file {
            Some(Ok(config)) => Loaded { config, save: false, warning: None },
            Some(Err(e)) => {
                let warning = "Config unusable: ".to_owned().concat(e.as_str()).concat(
                    ". Running on defaults, file kept.",
                );
                Loaded { config: Config::default(), save: false, warning: Some(warning) }
            },
            None => Loaded { config: Config::default(), save: true, warning: None },
        }
    }

    /// What to tell the user when the default settings could not be written.
    pub fn save_warning(error: &str) -> (warning: String)
        ensures
            warning@ == "Failed to save default config: "@ + error@,
    {
        "Failed to save default config: ".to_owned().concat(error)
    }
}

/// Switching the mode twice gives the first mode back.
pub proof fn law_switching_twice_restores_the_mode(mode: Mode)
    ensures
        mode.other().other() == mode,
        mode.other() != mode,
{
}

/// On default settings the overlay opens in the system mode.
pub proof fn law_default_settings_open_in_system_mode(cfg: Config)
    requires
        cfg.is_default(),
    ensures
        Mode::of_key(cfg.start_mode@) == Mode::System,
{
    reveal_strlit("system");
    reveal_strlit("balances");
    assert("system"@.len() != "balances"@.len());
}

/// The balance mode is named by the word `balances`, letter for letter, and by
/// nothing else.
pub proof fn law_only_one_word_names_the_balance_mode(key: Seq<char>)
    ensures
        Mode::of_key(key) == Mode::Balances <==> key == seq!['b', 'a', 'l', 'a', 'n', 'c', 'e', 's'],
        Mode::of_key(key) == Mode::System <==> key != seq!['b', 'a', 'l', 'a', 'n', 'c', 'e', 's'],
{
    reveal_strlit("balances");
    assert("balances"@ =~= seq!['b', 'a', 'l', 'a', 'n', 'c', 'e', 's']);
}

} // verus!
