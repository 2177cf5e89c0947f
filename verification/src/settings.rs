//! The settings of the two serial links, from text in the strict form.
//!
//! In the strict form a line is a key, `=` and a value with nothing between
//! them: white space counts as part of the key or of the value. A line
//! without `=`, with a key that is not known, or with a baud rate that does
//! not read as a number changes nothing.

use vstd::prelude::*;
use crate::text::{
    chars_of,
    find_char,
    index_of,
    is_word,
    lines_of,
    next_line,
    parse_u32,
    parsed_u32,
    string_of,
};

verus! {

/// The ports and baud rates of the command link and of the data link.
pub struct Settings {
    pub cfg_port: String,
    pub cfg_baud: u32,
    pub data_port: String,
    pub data_baud: u32,
}

/// The link settings, as mathematical values.
pub struct SettingsView {
    pub cfg_port: Seq<char>,
    pub cfg_baud: u32,
    pub data_port: Seq<char>,
    pub data_baud: u32,
}

impl View for Settings {
    type V = SettingsView;

    open spec fn view(&self) -> SettingsView {
        SettingsView {
            cfg_port: self.cfg_port@,
            cfg_baud: self.cfg_baud,
            data_port: self.data_port@,
            data_baud: self.data_baud,
        }
    }
}

/// The link settings that hold where the text says nothing else.
pub open spec fn default_settings() -> SettingsView {
    SettingsView {
        cfg_port: "/dev/ttyUSB0"@,
        cfg_baud: 115200,
        data_port: "/dev/ttyUSB1"@,
        data_baud: 921600,
    }
}

/// The link settings after one line of the text.
pub open spec fn apply_line(settings: SettingsView, line: Seq<char>) -> SettingsView {
    let eq = index_of(line, '=') as int;
    if eq >= line.len() {
        settings
    } else {
        let key = line.take(eq);
        let value = line.skip(eq + 1);
        if key == "cfg_port"@ {
            SettingsView { cfg_port: value, ..settings }
        } else if key == "cfg_baud"@ {
            match parsed_u32(value) {
                Some(baud) => SettingsView { cfg_baud: baud, ..settings },
                None => settings,
            }
        } else if key == "data_port"@ {
            SettingsView { data_port: value, ..settings }
        } else if key == "data_baud"@ {
            match parsed_u32(value) {
                Some(baud) => SettingsView { data_baud: baud, ..settings },
                None => settings,
            }
        } else {
            settings
        }
    }
}

/// The link settings after the given lines, one after another.
pub open spec fn apply_lines(settings: SettingsView, lines: Seq<Seq<char>>) -> SettingsView
    decreases lines.len(),
{
    if lines.len() == 0 {
        settings
    } else {
        apply_lines(apply_line(settings, lines[0]), lines.skip(1))
    }
}

/// The link settings that a text gives.
pub open spec fn settings_of(text: Seq<char>) -> SettingsView {
    apply_lines(default_settings(), lines_of(text))
}

impl Settings {
    /// The link settings that hold where nothing else is said.
    pub fn default() -> (settings: Settings)
        ensures
            settings@ == default_settings(),
    {
        Settings {
            cfg_port: "/dev/ttyUSB0".to_owned(),
            cfg_baud: 115200,
            data_port: "/dev/ttyUSB1".to_owned(),
            data_baud: 921600,
        }
    }

    /// Reads the link settings from the text of a settings file.
    pub fn from_text(contents: &str) -> (settings: Settings)
        ensures
            settings@ == settings_of(contents@),
    {
        let chars: Vec<char> = chars_of(contents);
        let mut settings = Settings::default();
        let mut pos: usize = 0;
        assert(chars@.skip(0) =~= contents@);
        while pos < chars.len()
            invariant
                pos <= chars.len(),
                chars@ == contents@,
                apply_lines(settings@, lines_of(chars@.skip(pos as int))) == settings_of(
                    contents@,
                ),
            decreases chars.len() - pos,
        {
            let (end, next) = next_line(&chars, pos);
            let ghost line = chars@.subrange(pos as int, end as int);
            let ghost rest = lines_of(chars@.skip(next as int));
            assert((seq![line] + rest)[0] == line);
            assert((seq![line] + rest).skip(1) =~= rest);
            settings.apply(contents, &chars, pos, end);
            pos = next;
        }
        assert(lines_of(chars@.skip(pos as int)) =~= Seq::<Seq<char>>::empty());
        settings
    }

    /// Takes over what the line `chars[from..to]` of `contents` says.
    fn apply(&mut self, contents: &str, chars: &Vec<char>, from: usize, to: usize)
        requires
            chars@ == contents@,
            from <= to <= chars.len(),
        ensures
            final(self)@ == apply_line(old(self)@, chars@.subrange(from as int, to as int)),
    {
        let ghost line = chars@.subrange(from as int, to as int);
        let eq: usize = find_char(chars, from, to, '=');
        if eq == to {
            return ;
        }
        assert(line.take(eq - from) =~= chars@.subrange(from as int, eq as int));
        assert(line.skip(eq - from + 1) =~= chars@.subrange(eq + 1, to as int));
        if is_word(chars, from, eq, "cfg_port") {
            self.cfg_port = string_of(contents, eq + 1, to);
        } else if is_word(chars, from, eq, "cfg_baud") {
            if let Some(baud) = parse_u32(chars, eq + 1, to) {
                self.cfg_baud = baud;
            }
        } else if is_word(chars, from, eq, "data_port") {
            self.data_port = string_of(contents, eq + 1, to);
        } else if is_word(chars, from, eq, "data_baud") {
            if let Some(baud) = parse_u32(chars, eq + 1, to) {
                self.data_baud = baud;
            }
        }
    }
}

} // verus!
