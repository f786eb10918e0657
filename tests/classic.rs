use figurust::classic::{from_args, ClassicArgsError, ClassicOption};
use figurust::{Justification, ParagraphMode, RightToLeft};

fn run(args: &[&str]) -> Result<figurust::FigletSettings, ClassicArgsError> {
    let args: Vec<String> = args.iter().map(|a| a.to_string()).collect();
    from_args(&args, "/usr/share/fonts", Some(120))
}

#[test]
fn classic_defaults() {
    let s = run(&[]).unwrap();
    assert_eq!(s.font_name, "standard.flf");
    assert_eq!(s.font_directory, "/usr/share/fonts");
    assert_eq!(s.width, 80);
    assert_eq!(s.infocode, -1);
    assert_eq!(s.smush_mode, None);
    assert_eq!(s.smush_override, 0);
    assert_eq!(s.justification, Justification::Auto);
    assert_eq!(s.right_to_left, RightToLeft::Detect);
    assert_eq!(s.paragraph, ParagraphMode::Normal);
    assert_eq!(s.message, None);
}

#[test]
fn classic_options_and_message() {
    let s = run(&["-c", "-w", "40", "hello", "-R", "world", "-p", "-f", "small.flf", "-d", "/f"]).unwrap();
    assert_eq!(s.justification, Justification::Center);
    assert_eq!(s.width, 40);
    assert_eq!(s.message.as_deref(), Some("hello world"));
    assert_eq!(s.right_to_left, RightToLeft::Right);
    assert_eq!(s.paragraph, ParagraphMode::Paragraph);
    assert_eq!(s.font_name, "small");
    assert_eq!(s.font_directory, "/f");
    let s = run(&["-t", "-f", "big", "-"]).unwrap();
    assert_eq!(s.width, 120);
    assert_eq!(s.font_name, "big");
    assert_eq!(s.message.as_deref(), Some("-"));
}

#[test]
fn classic_smush_modes() {
    assert_eq!(run(&["-m", "3"]).unwrap().smush_mode, Some(131));
    assert_eq!(run(&["-m", "0"]).unwrap().smush_mode, Some(64));
    assert_eq!(run(&["-m", "-1"]).unwrap().smush_mode, Some(0));
    assert_eq!(run(&["-m", "100"]).unwrap().smush_mode, Some(164));
    let s = run(&["-S"]).unwrap();
    assert_eq!((s.smush_mode, s.smush_override), (Some(128), 2));
    let s = run(&["-k", "-s"]).unwrap();
    assert_eq!((s.smush_mode, s.smush_override), (None, 0));
    assert!(matches!(run(&["-m", "-5"]), Err(ClassicArgsError::UnknownArgument(a)) if a == "-5"));
    assert_eq!(run(&["-m", "x"]).unwrap().smush_override, 0);
}

#[test]
fn classic_errors() {
    assert!(matches!(run(&["-I"]), Err(ClassicArgsError::MissingArgument(ClassicOption::InfoCode))));
    assert!(matches!(run(&["-f"]), Err(ClassicArgsError::MissingArgument(ClassicOption::Font))));
    assert!(matches!(
        run(&["-e", "-w", "abc"]),
        Err(ClassicArgsError::InvalidArgument(ClassicOption::Width))
    ));
    assert_eq!(run(&["-w", "abc"]).unwrap().width, 80);
    assert_eq!(run(&["-w", "0"]).unwrap().width, 80);
    assert!(matches!(run(&["-z"]), Err(ClassicArgsError::UnknownArgument(a)) if a == "-z"));
    assert!(matches!(run(&["-abc"]), Err(ClassicArgsError::UnknownArgument(a)) if a == "-abc"));
    assert_eq!(run(&["-e", "-ne", "-I", "x"]).unwrap().infocode, 0);
    assert_eq!(run(&["-I", "5", "-v"]).unwrap().infocode, 0);
    assert_eq!(run(&["-I", "5"]).unwrap().infocode, 5);
}
