use carboncopycat::parse_arg;
use carboncopycat::NumberingMode;
use carboncopycat::Options;
use carboncopycat::Parsed;

fn updated(arg: &str, options: Options) -> Options {
    match parse_arg(arg, options) {
        Parsed::Updated(after) => after,
        other => panic!("{:?}", other),
    }
}

fn fields(options: Options) -> (NumberingMode, bool, bool, bool, bool) {
    (
        options.number,
        options.show_ends,
        options.squeeze_blank,
        options.show_tabs,
        options.show_nonprinting,
    )
}

#[test]
fn long_options() {
    let none = Options::new();
    assert_eq!(
        fields(updated("--show-all", none)),
        (NumberingMode::Off, true, false, true, true)
    );
    assert_eq!(
        fields(updated("--number-nonblank", none)),
        (NumberingMode::NonEmpty, false, false, false, false)
    );
    assert_eq!(
        fields(updated("--show-ends", none)),
        (NumberingMode::Off, true, false, false, false)
    );
    assert_eq!(
        fields(updated("--number", none)),
        (NumberingMode::All, false, false, false, false)
    );
    assert_eq!(
        fields(updated("--squeeze-blank", none)),
        (NumberingMode::Off, false, true, false, false)
    );
    assert_eq!(
        fields(updated("--show-tabs", none)),
        (NumberingMode::Off, false, false, true, false)
    );
    assert_eq!(
        fields(updated("--show-nonprinting", none)),
        (NumberingMode::Off, false, false, false, true)
    );
}

#[test]
fn help_and_version() {
    assert!(matches!(parse_arg("--help", Options::new()), Parsed::Help));
    assert!(matches!(parse_arg("--version", Options::new()), Parsed::Version));
}

#[test]
fn unknown_options_are_invalid() {
    assert!(matches!(parse_arg("--", Options::new()), Parsed::Invalid));
    assert!(matches!(parse_arg("--numbers", Options::new()), Parsed::Invalid));
    assert!(matches!(parse_arg("--numbe", Options::new()), Parsed::Invalid));
    assert!(matches!(parse_arg("--Help", Options::new()), Parsed::Invalid));
    assert!(matches!(parse_arg("-x", Options::new()), Parsed::Invalid));
    assert!(matches!(parse_arg("-nxv", Options::new()), Parsed::Invalid));
    assert!(matches!(parse_arg("-n-", Options::new()), Parsed::Invalid));
    assert!(matches!(parse_arg("-\u{e9}", Options::new()), Parsed::Invalid));
}

#[test]
fn short_flags() {
    let none = Options::new();
    assert_eq!(fields(updated("-A", none)), (NumberingMode::Off, true, false, true, true));
    assert_eq!(fields(updated("-b", none)), (NumberingMode::NonEmpty, false, false, false, false));
    assert_eq!(fields(updated("-e", none)), (NumberingMode::Off, true, false, false, true));
    assert_eq!(fields(updated("-E", none)), (NumberingMode::Off, true, false, false, false));
    assert_eq!(fields(updated("-n", none)), (NumberingMode::All, false, false, false, false));
    assert_eq!(fields(updated("-s", none)), (NumberingMode::Off, false, true, false, false));
    assert_eq!(fields(updated("-t", none)), (NumberingMode::Off, false, false, true, true));
    assert_eq!(fields(updated("-T", none)), (NumberingMode::Off, false, false, true, false));
    assert_eq!(fields(updated("-u", none)), (NumberingMode::Off, false, false, false, false));
    assert_eq!(fields(updated("-v", none)), (NumberingMode::Off, false, false, false, true));
}

#[test]
fn flags_in_one_argument_add_up() {
    let none = Options::new();
    assert_eq!(fields(updated("-vET", none)), fields(updated("-A", none)));
    assert_eq!(fields(updated("-sn", none)), (NumberingMode::All, false, true, false, false));
    assert_eq!(fields(updated("-", none)), fields(none));
}

#[test]
fn number_nonblank_overrides_number() {
    let none = Options::new();
    assert_eq!(updated("-nb", none).number, NumberingMode::NonEmpty);
    assert_eq!(updated("-bn", none).number, NumberingMode::NonEmpty);
    let nonempty = updated("--number-nonblank", none);
    assert_eq!(updated("--number", nonempty).number, NumberingMode::NonEmpty);
    let all = updated("--number", none);
    assert_eq!(updated("--number-nonblank", all).number, NumberingMode::NonEmpty);
}

#[test]
fn options_keep_what_was_set_before() {
    let before = Options::new().squeeze_blank(true).show_tabs(true);
    assert_eq!(
        fields(updated("--show-ends", before)),
        (NumberingMode::Off, true, true, true, false)
    );
    assert_eq!(fields(updated("-v", before)), (NumberingMode::Off, false, true, true, true));
}

#[test]
fn other_arguments_name_files() {
    assert!(matches!(parse_arg("file.txt", Options::new()), Parsed::File));
    assert!(matches!(parse_arg("", Options::new()), Parsed::File));
    assert!(matches!(parse_arg("a-b", Options::new()), Parsed::File));
}
