use water_sampling::error::Error;
use water_sampling::ingest::{dispatch_upload, LogFormat};

#[test]
fn known_extensions_select_their_formats() {
    assert_eq!(dispatch_upload("readings.csv").unwrap(), LogFormat::Csv);
    assert_eq!(dispatch_upload("readings.txt").unwrap(), LogFormat::Txt);
    assert_eq!(
        dispatch_upload("readings.zip").unwrap(),
        LogFormat::ZippedHtml
    );
}

#[test]
fn extension_match_is_case_sensitive() {
    let r = dispatch_upload("readings.CSV");
    assert!(matches!(r, Err(Error::UnsupportedFormat)));
}

#[test]
fn unknown_extension_is_unsupported() {
    assert!(matches!(
        dispatch_upload("readings.bin"),
        Err(Error::UnsupportedFormat)
    ));
}

#[test]
fn only_the_last_extension_counts() {
    assert_eq!(dispatch_upload("export.2024.csv").unwrap(), LogFormat::Csv);
    assert!(matches!(
        dispatch_upload("archive.tar.gz"),
        Err(Error::UnsupportedFormat)
    ));
}

#[test]
fn names_without_a_dot_are_unsupported() {
    assert!(matches!(
        dispatch_upload("readings"),
        Err(Error::UnsupportedFormat)
    ));
    assert!(matches!(
        dispatch_upload("csv"),
        Err(Error::UnsupportedFormat)
    ));
    assert!(matches!(dispatch_upload(""), Err(Error::UnsupportedFormat)));
}

#[test]
fn trailing_dot_yields_an_empty_unsupported_extension() {
    assert!(matches!(
        dispatch_upload("readings."),
        Err(Error::UnsupportedFormat)
    ));
}

#[test]
fn unsupported_format_counts_as_validation() {
    let err = dispatch_upload("readings.bin").unwrap_err();
    assert!(err.is_validation());
    assert!(!Error::Store.is_validation());
}
