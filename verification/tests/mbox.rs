use procmail::config::OutputEnding;
use procmail::delivery::mbox::{
    write_record, write_record_with_ending, Postmark, PostmarkError, MAX_POSTMARK_LEN,
};

fn postmark() -> Postmark {
    Postmark::new(b"From MAILER-DAEMON Thu Jan  1 00:00:00 1970\n").unwrap()
}

#[test]
fn quotes_every_mboxrd_line_reversibly() {
    let message =
        b"From hostile header\nX: value\n\nFrom body\n>From quoted\n>>From twice\nnot From safe\n";
    let mut output = Vec::new();

    write_record(&mut output, &postmark(), message).unwrap();

    assert_eq!(
            output,
            b"From MAILER-DAEMON Thu Jan  1 00:00:00 1970\n>From hostile header\nX: value\n\n>From body\n>>From quoted\n>>>From twice\nnot From safe\n\n"
        );
}

#[test]
fn adds_record_separator_without_changing_input() {
    for (message, suffix) in [
        (&b"body"[..], &b"body\n\n"[..]),
        (&b"body\n"[..], &b"body\n\n"[..]),
        (&b"body\n\n"[..], &b"body\n\n\n"[..]),
        (&b""[..], &b"\n"[..]),
    ] {
        let original = message.to_vec();
        let mut output = Vec::new();
        write_record(&mut output, &postmark(), message).unwrap();
        assert!(output.ends_with(suffix));
        assert_eq!(message, original);
    }
}

#[test]
fn raw_mode_adds_only_the_line_ending_required_for_mbox_framing() {
    for (message, suffix) in [
        (&b"body"[..], &b"body\n"[..]),
        (&b"body\n"[..], &b"body\n"[..]),
        (&b"body\n\n"[..], &b"body\n\n"[..]),
        (&b""[..], &b"1970\n"[..]),
    ] {
        let mut output = Vec::new();
        write_record_with_ending(&mut output, &postmark(), message, OutputEnding::Preserve)
            .unwrap();
        assert!(output.ends_with(suffix), "{output:?}");
    }
}

#[test]
fn validates_postmark_shape_and_limit() {
    assert_eq!(
        Postmark::new(b"not From\n"),
        Err(PostmarkError::InvalidShape)
    );
    assert_eq!(
        Postmark::new(b"From first\nsecond\n"),
        Err(PostmarkError::InvalidShape)
    );
    assert_eq!(
        Postmark::new(b"From non-ascii \xff\n"),
        Err(PostmarkError::NonAscii)
    );

    let mut boundary = b"From ".to_vec();
    boundary.resize(MAX_POSTMARK_LEN - 1, b'x');
    boundary.push(b'\n');
    assert!(Postmark::new(&boundary).is_ok());
    boundary.insert(MAX_POSTMARK_LEN - 1, b'x');
    assert_eq!(Postmark::new(&boundary), Err(PostmarkError::TooLong));
}

#[test]
fn generates_stable_utc_postmark() {
    assert_eq!(
        Postmark::generated(0).unwrap().as_bytes(),
        b"From MAILER-DAEMON Thu Jan  1 00:00:00 1970\n"
    );
    assert_eq!(
        Postmark::generated(951_827_696)
            .unwrap()
            .as_bytes(),
        b"From MAILER-DAEMON Tue Feb 29 12:34:56 2000\n"
    );
}
