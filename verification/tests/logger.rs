use entry_commands::logger::{colour, error, info, Record, Role, Stream};

#[test]
fn an_informational_line_carries_a_green_tag() {
    assert_eq!(info("hello"), "\x1b[32mI.\x1b[0m hello");
    assert_eq!(info(""), "\x1b[32mI.\x1b[0m ");
}

#[test]
fn an_error_line_carries_a_red_tag() {
    assert_eq!(error("unrecognised format: xyz_target"), "\x1b[31mE.\x1b[0m unrecognised format: xyz_target");
}

#[test]
fn a_command_line_carries_its_index_in_one_of_three_colours() {
    assert_eq!(colour(0, "a"), "\x1b[94m0.\x1b[0m a");
    assert_eq!(colour(1, "a"), "\x1b[95m1.\x1b[0m a");
    assert_eq!(colour(2, "a"), "\x1b[96m2.\x1b[0m a");
    assert_eq!(colour(3, "a"), "\x1b[94m3.\x1b[0m a");
    assert_eq!(colour(4, "a"), "\x1b[95m4.\x1b[0m a");
    assert_eq!(colour(5, "a"), "\x1b[96m5.\x1b[0m a");
    assert_eq!(colour(10, "[+] ls"), "\x1b[95m10.\x1b[0m [+] ls");
    assert_eq!(colour(12, ""), "\x1b[94m12.\x1b[0m ");
}

#[test]
fn errors_go_to_the_error_stream_and_the_rest_to_the_output_stream() {
    let roles = [
        (Role::JobStart, Stream::Output),
        (Role::JobEnd, Stream::Output),
        (Role::CommandStart(0), Stream::Output),
        (Role::Output(1), Stream::Output),
        (Role::CommandEnd(2), Stream::Output),
        (Role::Failure(3), Stream::Error),
        (Role::Malformed, Stream::Error),
    ];
    for (role, stream) in roles {
        let record = Record { role, text: String::new() };
        assert_eq!(record.stream(), stream);
    }
}
