use catguard::detector::Sensitivity;
use catguard::settings::Settings;
use catguard::sound::Sound;

#[test]
fn a_word_that_cannot_be_typed_blind_falls_back_to_human() {
    for bad in ["", "ab", "pass word", "gr\u{fc}n", "h4ck", "averyveryverylongword"] {
        let settings = Settings { word: bad.into(), ..Settings::default() }.sanitized();
        assert_eq!(settings.word, "human", "{bad:?}");
    }
    assert_eq!(Settings { word: "Mensch".into(), ..Settings::default() }.sanitized().word, "mensch");
}

#[test]
fn the_defaults() {
    let s = Settings::default();
    assert_eq!(s.sensitivity, Sensitivity::Normal);
    assert!(s.sound);
    assert_eq!(s.sound_kind, Sound::Harmonica);
    assert_eq!(s.word, "human");
    assert_eq!(s.theme, "dark");
    assert_eq!(s.locks, 0);
}

#[test]
fn an_unknown_theme_becomes_dark() {
    for (theme, kept) in [("light", "light"), ("system", "system"), ("dark", "dark"), ("Light", "dark"), ("", "dark")] {
        let s = Settings { theme: theme.into(), ..Settings::default() }.sanitized();
        assert_eq!(s.theme, kept, "{theme:?}");
    }
}

#[test]
fn sanitizing_twice_changes_nothing() {
    let s = Settings { word: "KATZE".into(), theme: "neon".into(), locks: 3, ..Settings::default() };
    let once = s.sanitized();
    let twice = once.clone().sanitized();
    assert_eq!(once, twice);
    assert_eq!(once.word, "katze");
    assert_eq!(once.locks, 3);
}

#[test]
fn twelve_letters_are_fine_thirteen_are_not() {
    let twelve = Settings { word: "abcdefghijkl".into(), ..Settings::default() }.sanitized();
    assert_eq!(twelve.word, "abcdefghijkl");
    let thirteen = Settings { word: "abcdefghijklm".into(), ..Settings::default() }.sanitized();
    assert_eq!(thirteen.word, "human");
    let three = Settings { word: "cat".into(), ..Settings::default() }.sanitized();
    assert_eq!(three.word, "cat");
}
