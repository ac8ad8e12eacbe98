use hnefatafl_copenhagen::board::BoardSize;
use hnefatafl_copenhagen::client::{text_collect, Coordinates, Dimensions, Size, TabId, Volume, MAX_VOLUME};
use hnefatafl_copenhagen::futhorc::dictionary_is_readable;
use hnefatafl_copenhagen::icelandic_runic::{translate_line, translate_to_runic};
use hnefatafl_copenhagen::text::parse_i64;
use hnefatafl_copenhagen::time::{Time, TimeSettings, TimeSettingsError};
use hnefatafl_copenhagen::{HOME, SERVER_PORT, SOCKET_PATH, VERSION_ID};

#[test]
fn client_settings() {
    assert_eq!(Coordinates::default(), Coordinates::Show);
    assert_eq!(Coordinates::Show.not(), Coordinates::Hide);
    assert_eq!(Coordinates::Hide.not(), Coordinates::Show);
    assert_eq!(Coordinates::from_bool(true), Coordinates::Show);
    assert_eq!(Coordinates::from_bool(false), Coordinates::Hide);
    assert!(Coordinates::Show.to_bool());
    assert!(!Coordinates::Hide.to_bool());
    assert_eq!(TabId::default(), TabId::Games);
    assert_eq!(TabId::GameNew.to_str(), "Create Game");
    assert_eq!(TabId::AccountSettings.to_str(), "Account Settings");
    assert_eq!(Volume::default().0, 4);
    assert_eq!(MAX_VOLUME, 8);
}

#[test]
fn collecting_text() {
    assert_eq!(text_collect("  hello \t there\n  friend "), "hello there friend");
    assert_eq!(text_collect(""), "");
    assert_eq!(text_collect(" \n "), "");
    assert_eq!(text_collect("one"), "one");
}

#[test]
fn icelandic_runes() {
    assert_eq!(translate_to_runic('a'), 'ᛆ');
    assert_eq!(translate_to_runic('Þ'), 'ᚦ');
    assert_eq!(translate_to_runic('q'), 'q');
    assert_eq!(translate_line("Ísland er gott!\n"), "ᛇᛋᛚᛆᚿᛑ ᛂᚱ ᚵᚮᛐᛐ!\n");
}

#[test]
fn readable_dictionaries() {
    assert!(dictionary_is_readable(""));
    assert!(dictionary_is_readable("no,\tˈnoʊ\r\nXXXXX\n"));
    assert!(!dictionary_is_readable("no,\tˈnoʊ\n\nyes,\tjɛs\n"));
    assert!(!dictionary_is_readable("no,\n"));
    assert!(!dictionary_is_readable("no,\tˈ\n"));
}

#[test]
fn project_constants() {
    assert_eq!(HOME, "hnefatafl-copenhagen");
    assert_eq!(SERVER_PORT, ":49152");
    assert_eq!(SOCKET_PATH, "/tmp/hnefatafl.sock");
    assert_eq!(VERSION_ID, "ad746a65");
}

#[test]
fn time_settings_commands() {
    assert_eq!(
        TimeSettings::try_from_args(&["time_settings", "fischer", "900000", "10"]),
        Ok(TimeSettings::Timed(Time { add_seconds: 10, milliseconds_left: 900_000 }))
    );
    assert_eq!(
        TimeSettings::try_from_args(&["time_settings", "un-timed"]),
        Ok(TimeSettings::UnTimed)
    );
    assert_eq!(
        TimeSettings::try_from_args(&["time_settings", "fischer", "10"]),
        Err(TimeSettingsError::Expected)
    );
    assert_eq!(
        TimeSettings::try_from_args(&["time_settings", "bronstein", "1", "2"]),
        Err(TimeSettingsError::Expected)
    );
    assert_eq!(
        TimeSettings::try_from_args(&["time_settings", "fischer", "ten", "2"]),
        Err(TimeSettingsError::Arg2NotAnInteger)
    );
    assert_eq!(
        TimeSettings::try_from_args(&["time_settings", "fischer", "1", "+"]),
        Err(TimeSettingsError::Arg3NotAnInteger)
    );
    assert_eq!(
        TimeSettingsError::Arg2NotAnInteger.message(),
        "time_settings: arg 2 is not an integer"
    );

    let timed = TimeSettings::Timed(Time { add_seconds: -5, milliseconds_left: 60_000 });
    assert_eq!(timed.to_debug_string(), "fischer 60000 -5");
    assert_eq!(TimeSettings::UnTimed.to_debug_string(), "un-timed _ _");
    assert_eq!(TimeSettings::UnTimed.to_string(), "-");
    assert_eq!(TimeSettings::default().to_string(), "00:15:00 | 00:00:10");

    // The protocol text reads back as the same settings.
    let text = format!("time_settings {}", timed.to_debug_string());
    let words: Vec<&str> = text.split(' ').collect();
    assert_eq!(TimeSettings::try_from_args(&words), Ok(timed));

    assert_eq!(parse_i64("-9223372036854775808"), Some(i64::MIN));
    assert_eq!(parse_i64("9223372036854775807"), Some(i64::MAX));
    assert_eq!(parse_i64("9223372036854775808"), None);
    assert_eq!(parse_i64("+12"), Some(12));
    assert_eq!(parse_i64("-"), None);
    assert_eq!(parse_i64("1 2"), None);
    assert_eq!(parse_i64("-+1"), None);
}

#[test]
fn board_dimensions() {
    let d = Dimensions::new(BoardSize::_11, &Size::Small);
    assert_eq!((d.board_dimension, d.letter_size, d.piece_size, d.spacing), (55, 35, 40, 11));
    let d = Dimensions::new(BoardSize::_13, &Size::Giant);
    assert_eq!((d.board_dimension, d.letter_size, d.piece_size, d.spacing), (65, 45, 50, 8));
    let d = Dimensions::new(BoardSize::_13, &Size::TinyWide);
    assert_eq!((d.board_dimension, d.letter_size, d.piece_size, d.spacing), (40, 20, 25, 15));
}
