use fmcw_tlv::config::Config;
use fmcw_tlv::file_reader::Settings;
use fmcw_tlv::settings::Settings as LinkSettings;
use fmcw_tlv::text::{
    chars_of, find_char, is_whitespace, is_word, next_line, parse_bool, parse_u32, string_of,
    trim_range,
};

fn chars(s: &str) -> Vec<char> {
    s.chars().collect()
}

fn u32_of(s: &str) -> Option<u32> {
    let c = chars(s);
    parse_u32(&c, 0, c.len())
}

fn bool_of(s: &str) -> Option<bool> {
    let c = chars(s);
    parse_bool(&c, 0, c.len())
}

fn trim_of(s: &str) -> String {
    let c = chars(s);
    let (a, b) = trim_range(&c, 0, c.len());
    c[a..b].iter().collect()
}

fn lines_with(s: &str) -> Vec<String> {
    let c = chars(s);
    let mut lines = Vec::new();
    let mut pos = 0;
    while pos < c.len() {
        let (end, next) = next_line(&c, pos);
        lines.push(c[pos..end].iter().collect());
        pos = next;
    }
    lines
}

fn summary(s: &Settings) -> (String, u32, String, u32, bool, bool, bool, bool) {
    (
        s.cfg_port.clone(),
        s.cfg_baud,
        s.data_port.clone(),
        s.data_baud,
        s.read_from_file,
        s.raw_data_save,
        s.save_frames,
        s.ipc_send,
    )
}

fn defaults() -> (String, u32, String, u32, bool, bool, bool, bool) {
    ("/dev/ttyUSB0".to_string(), 115200, "/dev/ttyUSB1".to_string(), 921600, false, true, false, true)
}

#[test]
fn default_settings_have_their_values() {
    let s = Settings::default();
    assert_eq!(s.cfg_port, "/dev/ttyUSB0");
    assert_eq!(s.cfg_baud, 115200);
    assert_eq!(s.data_port, "/dev/ttyUSB1");
    assert_eq!(s.data_baud, 921600);
    assert!(!s.read_from_file);
    assert!(s.raw_data_save);
    assert!(!s.save_frames);
    assert!(s.ipc_send);
}

#[test]
fn empty_text_gives_the_defaults() {
    assert_eq!(summary(&Settings::from_text("")), defaults());
    assert_eq!(summary(&Settings::from_text("\n\n\r\n")), defaults());
    assert_eq!(summary(&Settings::from_text("# nothing = here\nfoo = bar\n")), defaults());
}

#[test]
fn every_key_is_taken_over() {
    let text = "cfg_port = /dev/ttyACM0\ncfg_baud = 9600\ndata_port=/dev/ttyACM1\r\n\
                data_baud =0000460800\nread_from_file = true\nsave_raw_data = false\n\
                save_frames = true\nipc_send = false";
    assert_eq!(
        summary(&Settings::from_text(text)),
        ("/dev/ttyACM0".to_string(), 9600, "/dev/ttyACM1".to_string(), 460800, true, false, true, false)
    );
}

#[test]
fn white_space_round_key_and_value_does_not_count() {
    let s = Settings::from_text("  \tcfg_port\u{a0}=\u{3000} COM 3 \t\r\n cfg_baud =\t+57600 ");
    assert_eq!(s.cfg_port, "COM 3");
    assert_eq!(s.cfg_baud, 57600);
}

#[test]
fn value_starts_after_the_first_equals_sign() {
    let s = Settings::from_text("cfg_port = a=b = c\ndata_port==\n");
    assert_eq!(s.cfg_port, "a=b = c");
    assert_eq!(s.data_port, "=");
    let s = Settings::from_text("cfg_port =\n");
    assert_eq!(s.cfg_port, "");
}

#[test]
fn values_that_do_not_parse_change_nothing() {
    let text = "cfg_baud = fast\ndata_baud = 4294967296\nread_from_file = yes\n\
                save_raw_data = True\nsave_frames = 1\nipc_send = \ncfg_baud = -1\ndata_baud = 9 6";
    assert_eq!(summary(&Settings::from_text(text)), defaults());
}

#[test]
fn the_last_line_of_a_key_counts() {
    let s = Settings::from_text("cfg_baud = 1\ncfg_baud = 2\ncfg_baud = x\nipc_send=false\nipc_send=true");
    assert_eq!(s.cfg_baud, 2);
    assert!(s.ipc_send);
}

#[test]
fn a_key_without_equals_sign_changes_nothing() {
    assert_eq!(summary(&Settings::from_text("cfg_port\ncfg_baud\nipc_send\n")), defaults());
}

#[test]
fn keys_are_case_sensitive_and_exact() {
    assert_eq!(
        summary(&Settings::from_text("CFG_PORT = x\ncfg_ports = y\ncfg port = z\nraw_data_save = false")),
        defaults()
    );
}

#[test]
fn link_settings_default_and_strict_form() {
    let d = LinkSettings::default();
    assert_eq!(
        (d.cfg_port.as_str(), d.cfg_baud, d.data_port.as_str(), d.data_baud),
        ("/dev/ttyUSB0", 115200, "/dev/ttyUSB1", 921600)
    );
    let s = LinkSettings::from_text("cfg_port=/dev/ttyS0\ncfg_baud=9600\ndata_port= a \r\ndata_baud=1000000\n");
    assert_eq!(
        (s.cfg_port.as_str(), s.cfg_baud, s.data_port.as_str(), s.data_baud),
        ("/dev/ttyS0", 9600, " a ", 1000000)
    );
}

#[test]
fn link_settings_do_not_trim() {
    let s = LinkSettings::from_text("cfg_port =x\ncfg_baud= 9600\n data_baud=5\ndata_port\nother=1\ndata_baud=7\r");
    assert_eq!(
        (s.cfg_port.as_str(), s.cfg_baud, s.data_port.as_str(), s.data_baud),
        ("/dev/ttyUSB0", 115200, "/dev/ttyUSB1", 921600)
    );
    let s = LinkSettings::from_text("data_baud=7\r\ncfg_port=a=b");
    assert_eq!(s.data_baud, 7);
    assert_eq!(s.cfg_port, "a=b");
}

#[test]
fn parse_conf_keeps_the_text() {
    let conf = Config::parse_conf("sensorStop\nflushCfg\n".to_string());
    assert_eq!(conf.raw_input, "sensorStop\nflushCfg\n");
}

#[test]
fn parse_u32_reads_what_std_reads() {
    for s in [
        "", "+", "-", "0", "+0", "-0", "7", "007", "+42", "++1", "1+", " 1", "1 ", "12a", "4294967295",
        "4294967296", "+4294967295", "99999999999999999999", "0000000000000000000001", "١٢", "1_000",
        "0x10", "-5",
    ] {
        assert_eq!(u32_of(s), s.parse::<u32>().ok(), "for {:?}", s);
    }
    assert_eq!(u32_of("115200"), Some(115200));
    assert_eq!(u32_of("4294967295"), Some(u32::MAX));
    assert_eq!(u32_of("4294967296"), None);
}

#[test]
fn parse_bool_reads_true_and_false_only() {
    assert_eq!(bool_of("true"), Some(true));
    assert_eq!(bool_of("false"), Some(false));
    for s in ["", "True", "FALSE", "tru", "truee", "fals", "false ", "1", "0", "yes"] {
        assert_eq!(bool_of(s), None);
        assert_eq!(bool_of(s), s.parse::<bool>().ok());
    }
}

#[test]
fn parse_u32_reads_a_range() {
    let c = chars("ab123cd");
    assert_eq!(parse_u32(&c, 2, 5), Some(123));
    assert_eq!(parse_u32(&c, 2, 6), None);
    assert_eq!(parse_u32(&c, 3, 3), None);
}

#[test]
fn white_space_is_what_unicode_says() {
    for code in 0u32..0x11_0000 {
        if let Some(c) = char::from_u32(code) {
            assert_eq!(is_whitespace(c), c.is_whitespace(), "for U+{:04X}", code);
        }
    }
}

#[test]
fn trim_range_trims_like_std() {
    for s in ["", " ", "a", " a", "a ", "  a b  ", "\t\r\n x \u{a0}\u{2003}", "\u{3000}", " = "] {
        assert_eq!(trim_of(s), s.trim());
    }
    let c = chars("  ab  cd  ");
    assert_eq!(trim_range(&c, 3, 8), (3, 8));
    assert_eq!(trim_range(&c, 4, 6), (6, 6));
}

#[test]
fn lines_are_the_lines_of_std() {
    for s in [
        "", "\n", "a", "a\n", "a\nb", "a\r\nb\r\n", "a\r", "\r", "\r\n", "a\n\nb\n\n", "\n\na",
        "foo\r\nbar\n\nbaz\r", "a\r\r\nb", "x\ry\nz",
    ] {
        let expected: Vec<String> = s.lines().map(|l| l.to_string()).collect();
        assert_eq!(lines_with(s), expected, "for {:?}", s);
    }
}

#[test]
fn find_char_gives_the_first_or_the_end() {
    let c = chars("a=b=c");
    assert_eq!(find_char(&c, 0, 5, '='), 1);
    assert_eq!(find_char(&c, 2, 5, '='), 3);
    assert_eq!(find_char(&c, 4, 5, '='), 5);
    assert_eq!(find_char(&c, 0, 1, '='), 1);
    assert_eq!(find_char(&c, 2, 2, '='), 2);
}

#[test]
fn is_word_compares_character_for_character() {
    let c = chars("xcfg_porty");
    assert!(is_word(&c, 1, 9, "cfg_port"));
    assert!(!is_word(&c, 0, 9, "cfg_port"));
    assert!(!is_word(&c, 1, 8, "cfg_port"));
    assert!(!is_word(&c, 1, 9, "cfg_pord"));
    assert!(is_word(&c, 3, 3, ""));
}

#[test]
fn chars_and_strings_keep_the_text() {
    assert_eq!(chars_of("aä€😀"), vec!['a', 'ä', '€', '😀']);
    assert!(chars_of("").is_empty());
    assert_eq!(string_of("aä€😀b", 1, 4), "ä€😀");
    assert_eq!(string_of("abc", 3, 3), "");
}
