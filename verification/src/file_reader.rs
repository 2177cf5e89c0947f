//! The settings of a run and the command script for the sensor, from text.
//!
//! A settings text holds one `key = value` per line. White space round the
//! key and round the value does not count. A line whose key is not known,
//! that has no `=`, or whose value does not read as what the key asks for,
//! changes nothing; where a key stands on several lines the last one counts.

use vstd::prelude::*;
use crate::text::{
    chars_of,
    find_char,
    index_of,
    is_word,
    lines_of,
    next_line,
    parse_bool,
    parse_u32,
    parsed_bool,
    parsed_u32,
    string_of,
    trim_range,
    trimmed,
};

verus! {

/// The command script that configures the sensor, as it was read.
pub struct Config {
    pub raw_input: String,
}

impl Config {
    /// Takes the text of a command script as the configuration.
    pub fn parse_conf_string(config: String) -> (conf: Config)
        ensures
            conf.raw_input@ == config@,
    {
        Config { raw_input: config }
    }
}

/// The settings of a run.
#[derive(Debug)]
pub struct Settings {
    pub cfg_port: String,
    pub cfg_baud: u32,
    pub data_port: String,
    pub data_baud: u32,
    pub read_from_file: bool,
    pub raw_data_save: bool,
    pub save_frames: bool,
    pub ipc_send: bool,
}

/// The settings of a run, as mathematical values.
pub struct SettingsView {
    pub cfg_port: Seq<char>,
    pub cfg_baud: u32,
    pub data_port: Seq<char>,
    pub data_baud: u32,
    pub read_from_file: bool,
    pub raw_data_save: bool,
    pub save_frames: bool,
    pub ipc_send: bool,
}

impl View for Settings {
    type V = SettingsView;

    open spec fn view(&self) -> SettingsView {
        SettingsView {
            cfg_port: self.cfg_port@,
            cfg_baud: self.cfg_baud,
            data_port: self.data_port@,
            data_baud: self.data_baud,
            read_from_file: self.read_from_file,
            raw_data_save: self.raw_data_save,
            save_frames: self.save_frames,
            ipc_send: self.ipc_send,
        }
    }
}

/// The settings that hold where the text says nothing else.
pub open spec fn default_settings() -> SettingsView {
    SettingsView {
        cfg_port: "/dev/ttyUSB0"@,
        cfg_baud: 115200,
        data_port: "/dev/ttyUSB1"@,
        data_baud: 921600,
        read_from_file: false,
        raw_data_save: true,
        save_frames: false,
        ipc_send: true,
    }
}

/// `current`, or `parsed` where the value read as a number.
pub open spec fn number_or(parsed: Option<u32>, current: u32) -> u32 {
    match parsed {
        Some(v) => v,
        None => current,
    }
}

/// `current`, or `parsed` where the value read as a truth value.
pub open spec fn flag_or(parsed: Option<bool>, current: bool) -> bool {
    match parsed {
        Some(v) => v,
        None => current,
    }
}

/// The settings after one line of the text.
pub open spec fn apply_line(settings: SettingsView, line: Seq<char>) -> SettingsView {
    let eq = index_of(line, '=') as int;
    if eq >= line.len() {
        settings
    } else {
        let key = trimmed(line.take(eq));
        let value = trimmed(line.skip(eq + 1));
        if key == "cfg_port"@ {
            SettingsView { cfg_port: value, ..settings }
        } else if key == "cfg_baud"@ {
            SettingsView { cfg_baud: number_or(parsed_u32(value), settings.cfg_baud), ..settings }
        } else if key == "data_port"@ {
            SettingsView { data_port: value, ..settings }
        } else if key == "data_baud"@ {
            SettingsView {
                data_baud: number_or(parsed_u32(value), settings.data_baud),
                ..settings
            }
        } else if key == "read_from_file"@ {
            SettingsView {
                read_from_file: flag_or(parsed_bool(value), settings.read_from_file),
                ..settings
            }
        } else if key == "save_raw_data"@ {
            SettingsView {
                raw_data_save: flag_or(parsed_bool(value), settings.raw_data_save),
                ..settings
            }
        } else if key == "save_frames"@ {
            SettingsView {
                save_frames: flag_or(parsed_bool(value), settings.save_frames),
                ..settings
            }
        } else if key == "ipc_send"@ {
            SettingsView { ipc_send: flag_or(parsed_bool(value), settings.ipc_send), ..settings }
        } else {
            settings
        }
    }
}

/// The settings after the given lines, one after another.
pub open spec fn apply_lines(settings: SettingsView, lines: Seq<Seq<char>>) -> SettingsView
    decreases lines.len(),
{
    if lines.len() == 0 {
        settings
    } else {
        apply_lines(apply_line(settings, lines[0]), lines.skip(1))
    }
}

/// The settings that a text gives.
pub open spec fn settings_of(text: Seq<char>) -> SettingsView {
    apply_lines(default_settings(), lines_of(text))
}

impl Settings {
    /// The settings that hold where nothing else is said.
    pub fn default() -> (settings: Settings)
        ensures
            settings@ == default_settings(),
    {
        Settings {
            cfg_port: "/dev/ttyUSB0".to_owned(),
            cfg_baud: 115200,
            data_port: "/dev/ttyUSB1".to_owned(),
            data_baud: 921600,
            read_from_file: false,
            raw_data_save: true,
            save_frames: false,
            ipc_send: true,
        }
    }

    /// Reads the settings from the text of a settings file.
    pub fn from_text(contents: &str) -> (settings: Settings)
        ensures
            settings@ == settings_of(contents@),
    {
        let chars: Vec<char> = chars_of(contents);
        let mut settings = Settings::default();
        let mut pos: usize = 0;
        assert(chars@.skip(0) =~= contents@);
        while pos < chars.len()
            invariant
                pos <= chars.len(),
                chars@ == contents@,
                apply_lines(settings@, lines_of(chars@.skip(pos as int))) == settings_of(
                    contents@,
                ),
            decreases chars.len() - pos,
        {
            let (end, next) = next_line(&chars, pos);
            let ghost line = chars@.subrange(pos as int, end as int);
            let ghost rest = lines_of(chars@.skip(next as int));
            assert((seq![line] + rest)[0] == line);
            assert((seq![line] + rest).skip(1) =~= rest);
            settings.apply(contents, &chars, pos, end);
            pos = next;
        }
        assert(lines_of(chars@.skip(pos as int)) =~= Seq::<Seq<char>>::empty());
        settings
    }

    /// Takes over what the line `chars[from..to]` of `contents` says.
    fn apply(&mut self, contents: &str, chars: &Vec<char>, from: usize, to: usize)
        requires
            chars@ == contents@,
            from <= to <= chars.len(),
        ensures
            final(self)@ == apply_line(old(self)@, chars@.subrange(from as int, to as int)),
    {
        let ghost line = chars@.subrange(from as int, to as int);
        let eq: usize = find_char(chars, from, to, '=');
        if eq == to {
            return ;
        }
        let (key_from, key_to) = trim_range(chars, from, eq);
        let (value_from, value_to) = trim_range(chars, eq + 1, to);
        assert(line.take(eq - from) =~= chars@.subrange(from as int, eq as int));
        assert(line.skip(eq - from + 1) =~= chars@.subrange(eq + 1, to as int));
        if is_word(chars, key_from, key_to, "cfg_port") {
            self.cfg_port = string_of(contents, value_from, value_to);
        } else if is_word(chars, key_from, key_to, "cfg_baud") {
            if let Some(baud) = parse_u32(chars, value_from, value_to) {
                self.cfg_baud = baud;
            }
        } else if is_word(chars, key_from, key_to, "data_port") {
            self.data_port = string_of(contents, value_from, value_to);
        } else if is_word(chars, key_from, key_to, "data_baud") {
            if let Some(baud) = parse_u32(chars, value_from, value_to) {
                self.data_baud = baud;
            }
        } else if is_word(chars, key_from, key_to, "read_from_file") {
            if let Some(flag) = parse_bool(chars, value_from, value_to) {
                self.read_from_file = flag;
            }
        } else if is_word(chars, key_from, key_to, "save_raw_data") {
            if let Some(flag) = parse_bool(chars, value_from, value_to) {
                self.raw_data_save = flag;
            }
        } else if is_word(chars, key_from, key_to, "save_frames") {
            if let Some(flag) = parse_bool(chars, value_from, value_to) {
                self.save_frames = flag;
            }
        } else if is_word(chars, key_from, key_to, "ipc_send") {
            if let Some(flag) = parse_bool(chars, value_from, value_to) {
                self.ipc_send = flag;
            }
        }
    }
}

} // verus!
