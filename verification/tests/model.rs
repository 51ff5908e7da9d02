use aurme::cmd;
use aurme::config::{Config, VerboseOtion};
use aurme::record::Record;
use aurme::settings::Settings;
use aurme::theme::Type;

#[test]
fn record_defaults_follow_the_data_model() {
    let r = Record::new(String::from("pkg"), None, None, None, None, None);
    assert_eq!(r.name, "pkg");
    assert_eq!(r.description, "No description provided");
    assert_eq!(r.version, "1");
    assert_eq!(r.popularity, 0);
    assert_eq!(r.url_path, "");
    assert!(r.depends.is_empty());
    assert_eq!(r.get_description(), "No description provided");
}

#[test]
fn record_download_url_is_base_plus_path() {
    let r = Record::new(
        String::from("pkg"),
        None,
        None,
        None,
        Some(String::from("/cgit/pkg.tar.gz")),
        None,
    );
    assert_eq!(r.get_url_path(), "https://aur.archlinux.org/cgit/pkg.tar.gz");
}

#[test]
fn config_default_keeps_cache_and_asks() {
    let c = Config::default();
    assert!(c.keep_cache);
    assert!(!c.no_confirm);
    assert_eq!(c.verbose, VerboseOtion::Default);
}

#[test]
fn settings_getters_return_what_was_stored() {
    let s = Settings::new(String::from(".cache/aurme"), true, false, String::from("normal"));
    assert_eq!(s.get_cache_path(), ".cache/aurme");
    assert!(s.get_keep_cache());
    assert!(!s.get_no_confirm());
    assert_eq!(s.get_verbose(), "normal");
}

#[test]
fn command_line_build_splits_flag_and_values() {
    let settings = Settings::new(String::from("p"), true, true, String::from("quiet"));
    let args = vec![String::from("-S"), String::from("foo"), String::from("bar")];
    let c = cmd::Config::build(&args, settings).expect("valid invocation");
    assert_eq!(c.get_arg(), "-S");
    assert_eq!(c.get_values(), &vec![String::from("foo"), String::from("bar")]);
    assert!(c.get_settings().get_no_confirm());
}

#[test]
fn command_line_build_rejects_missing_or_flagless_first_argument() {
    let settings = Settings::new(String::from("p"), true, true, String::from("quiet"));
    let none: Vec<String> = Vec::new();
    assert_eq!(cmd::Config::build(&none, settings.clone()).unwrap_err(), "usage");
    let plain = vec![String::from("install")];
    assert_eq!(cmd::Config::build(&plain, settings).unwrap_err(), "usage");
}

#[test]
fn message_kinds_are_distinct() {
    assert_ne!(Type::Error, Type::Success);
    assert_ne!(Type::Warning, Type::Info);
    assert_eq!(Type::Header, Type::Header);
}
