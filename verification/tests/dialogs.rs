use bad_apple::dialog::{interactive_args, message_script, read_answers, Shown};
use bad_apple::options::{Args, Location, Mode};

fn path(location: &Location) -> &str {
    match location {
        Location::Text(text) => text,
        Location::Argument(_) => panic!(),
    }
}

fn confirmed(printed: &[u8]) -> Result<Args, String> {
    interactive_args(Ok(Shown { confirmed: true, printed: printed.to_vec() }))
}

#[test]
fn answers() {
    let a = read_answers("C:\\b a.mp4\r\ncircle-future\r\n24\r\n5\r\nout.mp4\r\n").unwrap();
    assert_eq!(path(&a.input), "C:\\b a.mp4");
    assert_eq!(a.mode, Some(Mode::Future));
    assert_eq!(a.fps, 24);
    assert_eq!(a.count, 5);
    assert_eq!(a.grid, None);
    assert_eq!(path(&a.output.unwrap()), "out.mp4");
    assert!(!a.all);
}

#[test]
fn answers_with_default_name() {
    for text in ["in\ncircle\n30\n1\n\n", "in\ncircle\n30\n1\n", "in\ncircle\n30\n1"] {
        let a = read_answers(text).unwrap();
        assert_eq!(path(&a.output.unwrap()), "Bad Apple.mp4");
    }
    let a = read_answers("in\ncircle-future\n0\n7,8\n\nmore\n").unwrap();
    assert_eq!(a.fps, 0);
    assert_eq!(a.count, 1);
    assert_eq!(a.grid, Some(vec![7, 8]));
    assert_eq!(path(&a.output.unwrap()), "Bad Apple-future-0-grid-7-8.mp4");
}

#[test]
fn answers_for_both_modes() {
    let a = read_answers("in\r\nall\r\n30\r\n12\r\nignored\r\n").unwrap();
    assert!(a.all);
    assert!(a.mode.is_none());
    assert!(a.output.is_none());
    assert_eq!(a.count, 12);
}

#[test]
fn answers_refused() {
    for (text, message) in [
        ("", "missing input"),
        ("in", "missing type"),
        ("in\n", "missing type"),
        ("in\nsquare\n", "invalid type"),
        ("in\ncircle\r", "invalid type"),
        ("in\n\n", "invalid type"),
        ("in\ncircle\n", "missing fps"),
        ("in\ncircle\nfast\n", "invalid fps"),
        ("in\ncircle\n 30\n", "invalid fps"),
        ("in\ncircle\n30\n", "missing counts"),
        ("in\ncircle\n30\n0\n", "counts must be positive integers"),
        ("in\ncircle\n30\n\n", "counts must be positive integers"),
    ] {
        assert_eq!(read_answers(text).unwrap_err(), message, "{text:?}");
    }
}

#[test]
fn answers_keep_carriage_returns_inside() {
    let a = read_answers("a\rb\r\r\ncircle\n30\n1\nc\r").unwrap();
    assert_eq!(path(&a.input), "a\rb\r");
    assert_eq!(path(&a.output.unwrap()), "c\r");
}

#[test]
fn lines_agree_with_the_standard_library() {
    for first in ["", "a", "\r", "a\r", "\r\r", "é漢"] {
        for end in ["\n", "\r\n"] {
            for last in ["", "x", "x\r", "x\n", "\n"] {
                let text = format!("{first}{end}circle{end}30{end}1{end}{last}");
                let lines: Vec<&str> = text.lines().collect();
                let a = read_answers(&text).unwrap();
                assert_eq!(path(&a.input), lines[0]);
                let expected = match lines.get(4) {
                    Some(line) if !line.is_empty() => line,
                    _ => "Bad Apple.mp4",
                };
                assert_eq!(path(&a.output.unwrap()), expected);
            }
        }
    }
}

#[test]
fn dialog_confirmed() {
    let a = confirmed("höhe.mp4\r\ncircle\r\n30\r\n3\r\nü.mp4\r\n".as_bytes()).unwrap();
    assert_eq!(path(&a.input), "höhe.mp4");
    assert_eq!(a.count, 3);
    assert_eq!(path(&a.output.unwrap()), "ü.mp4");
}

#[test]
fn dialog_cancelled() {
    let shown = Shown { confirmed: false, printed: vec![0xff] };
    assert_eq!(interactive_args(Ok(shown)).unwrap_err(), "cancelled");
}

#[test]
fn dialog_not_shown() {
    assert_eq!(interactive_args(Err("not found".to_string())).unwrap_err(), "GUI: not found");
}

#[test]
fn dialog_printed_no_unicode() {
    for bytes in [vec![0xff], vec![b'a', 0xc3], vec![0xe2, 0x82, b'x'], vec![0xed, 0xa0, 0x80]] {
        let text = String::from_utf8(bytes.clone()).unwrap_err().to_string();
        assert_eq!(confirmed(&bytes).unwrap_err(), text);
    }
    assert_eq!(confirmed(&[]).unwrap_err(), "missing input");
}

#[test]
fn message_scripts() {
    let start = "Add-Type -AssemblyName System.Windows.Forms; [void][Windows.Forms.MessageBox]::Show(\
        $env:BAD_APPLE_MESSAGE, 'Bad Apple converter', 'OK', '";
    assert_eq!(message_script(true), format!("{start}Error')"));
    assert_eq!(message_script(false), format!("{start}Information')"));
}
