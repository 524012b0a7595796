use carboncopycat::CatError;
use carboncopycat::CatFilesError;
use carboncopycat::NumberingMode;
use carboncopycat::Options;

#[test]
fn new_options_are_all_off() {
    let options = Options::new();
    assert_eq!(options.number, NumberingMode::Off);
    assert!(!options.show_ends);
    assert!(!options.squeeze_blank);
    assert!(!options.show_tabs);
    assert!(!options.show_nonprinting);
    assert!(options.can_write_fast());
}

#[test]
fn each_setter_changes_its_own_field_only() {
    let options = Options::new().number(NumberingMode::All);
    assert_eq!(options.number, NumberingMode::All);
    assert!(!options.show_ends && !options.squeeze_blank);
    assert!(!options.show_tabs && !options.show_nonprinting);
    let options = Options::new().show_ends(true);
    assert!(options.show_ends);
    assert!(!options.squeeze_blank && !options.show_tabs && !options.show_nonprinting);
    let options = Options::new().squeeze_blank(true);
    assert!(options.squeeze_blank);
    assert!(!options.show_ends && !options.show_tabs && !options.show_nonprinting);
    let options = Options::new().show_tabs(true);
    assert!(options.show_tabs);
    assert!(!options.show_ends && !options.squeeze_blank && !options.show_nonprinting);
    let options = Options::new().show_nonprinting(true);
    assert!(options.show_nonprinting);
    assert!(!options.show_ends && !options.squeeze_blank && !options.show_tabs);
    let options = options.show_nonprinting(false).number(NumberingMode::NonEmpty);
    assert!(!options.show_nonprinting);
    assert_eq!(options.number, NumberingMode::NonEmpty);
}

#[test]
fn any_option_forces_the_annotated_pass() {
    assert!(!Options::new().number(NumberingMode::All).can_write_fast());
    assert!(!Options::new().number(NumberingMode::NonEmpty).can_write_fast());
    assert!(!Options::new().show_ends(true).can_write_fast());
    assert!(!Options::new().squeeze_blank(true).can_write_fast());
    assert!(!Options::new().show_tabs(true).can_write_fast());
    assert!(!Options::new().show_nonprinting(true).can_write_fast());
    assert!(Options::new().show_tabs(true).show_tabs(false).can_write_fast());
}

#[test]
fn tab_and_end_of_line_texts() {
    assert_eq!(Options::new().tab(), "\t");
    assert_eq!(Options::new().show_tabs(true).tab(), "^I");
    assert_eq!(Options::new().end_of_line(), "\n");
    assert_eq!(Options::new().show_ends(true).end_of_line(), "$\n");
}

#[test]
fn open_failure_of_a_missing_source_is_not_found() {
    let error = std::io::Error::new(std::io::ErrorKind::NotFound, "missing");
    let result = CatFilesError::from_open("nonexistent_file".to_string(), true, error);
    assert!(matches!(result, CatFilesError::NotFound(ref file) if file == "nonexistent_file"));
    assert_eq!(result.message(), "file not found");
}

#[test]
fn other_open_failure_is_an_io_error() {
    let error = std::io::Error::new(std::io::ErrorKind::PermissionDenied, "denied");
    let result = CatFilesError::from_open("file".to_string(), false, error);
    assert!(
        matches!(result, CatFilesError::Io(ref e) if e.kind() == std::io::ErrorKind::PermissionDenied)
    );
    assert_eq!(result.message(), "io error");
}

#[test]
fn cat_error_becomes_the_io_error_of_the_list() {
    let error = CatError::from(std::io::Error::new(std::io::ErrorKind::BrokenPipe, "pipe"));
    assert_eq!(error.message(), "io error");
    assert!(matches!(error, CatError::Io(ref e) if e.kind() == std::io::ErrorKind::BrokenPipe));
    let result = CatFilesError::from_cat(error);
    assert!(matches!(result, CatFilesError::Io(ref e) if e.kind() == std::io::ErrorKind::BrokenPipe));
    let direct = CatFilesError::from(std::io::Error::new(std::io::ErrorKind::Other, "other"));
    assert!(matches!(direct, CatFilesError::Io(ref e) if e.kind() == std::io::ErrorKind::Other));
}
