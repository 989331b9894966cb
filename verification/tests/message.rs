use cargo_minimize::failures::Failure;
use cargo_minimize::message::{deprecated_message, dry_run_message, Colour, Message, Piece, Stream};

#[test]
fn a_warning_is_a_red_line_on_the_error_stream() {
    assert_eq!(
        deprecated_message("mind"),
        Message {
            stream: Stream::Stderr,
            pieces: vec![
                Piece::SetColour(Colour::Red),
                Piece::Text("mind\n".to_string()),
                Piece::ClearColour,
            ],
        }
    );
}

#[test]
fn a_dry_run_is_announced_in_cyan() {
    assert_eq!(
        dry_run_message(),
        Message {
            stream: Stream::Stdout,
            pieces: vec![
                Piece::SetColour(Colour::Cyan),
                Piece::Text("Starting dry run. ".to_string()),
                Piece::ClearColour,
                Piece::Text("Changes will not be saved.\n".to_string()),
            ],
        }
    );
}

#[test]
fn failures_have_messages() {
    assert_eq!(
        Failure::CrateSpec("a@nope".to_string()).message(),
        "Invalid crate version requirement"
    );
    assert_eq!(Failure::InvalidCargoConfig.message(), "Invalid cargo config");
    assert_eq!(
        Failure::VirtualManifest.message(),
        "Found virtual manifest, but this command requires running against an \
         actual package in this workspace. Try adding `--workspace`."
    );
}
