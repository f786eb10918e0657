use vstd::prelude::*;

use crate::header::{parse_number, parse_number_exec};
use crate::settings::{FigletSettings, Justification, ParagraphMode, RightToLeft};
use crate::text::{chars_to_string, lines_view, str_to_chars};

verus! {

/// Smush mode: full width (no bit set).
pub const SM_FULLWIDTH: i32 = 0;

/// Smush mode bit: kerning.
pub const SM_KERN: i32 = 64;

/// Smush mode bit: smushing.
pub const SM_SMUSH: i32 = 128;

/// Smush override: keep the font's layout.
pub const SMO_NO: u8 = 0;

/// Smush override: use the layout asked for.
pub const SMO_YES: u8 = 1;

/// Smush override: smush even where the font would not.
pub const SMO_FORCE: u8 = 2;

/// The options of the classic command line that take a value.
#[derive(Debug, Clone, Copy, PartialEq, Eq, Structural)]
pub enum ClassicOption {
    /// `-I`
    InfoCode,
    /// `-m`
    SmushMode,
    /// `-w`
    Width,
    /// `-d`
    FontDirectory,
    /// `-f`
    Font,
}

#[derive(Debug)]
pub enum ClassicArgsError {
    /// The option is the last argument, without its value.
    MissingArgument(ClassicOption),
    /// The option's value is not a number, and errors were asked for (`-e`).
    InvalidArgument(ClassicOption),
    /// An argument that starts with `-` names no option.
    UnknownArgument(String),
}

/// What the arguments read so far have set.
pub ghost struct ClassicModel {
    pub font_name: Seq<char>,
    pub font_directory: Seq<char>,
    pub smush_override: u8,
    pub smush_mode: Option<i32>,
    pub justification: Justification,
    pub right_to_left: RightToLeft,
    pub paragraph: ParagraphMode,
    pub infocode: i8,
    pub width: u16,
    pub message: Option<Seq<char>>,
    pub show_errors: bool,
    /// The next argument is the value of an option and is passed over.
    pub skip_next: bool,
}

pub ghost enum ClassicFault {
    Missing(ClassicOption),
    Invalid(ClassicOption),
    Unknown(Seq<char>),
}

/// Where reading starts: the standard font, 80 columns, everything else
/// left to the font.
pub open spec fn classic_start(font_directory: Seq<char>) -> ClassicModel {
    ClassicModel {
        font_name: seq!['s', 't', 'a', 'n', 'd', 'a', 'r', 'd', '.', 'f', 'l', 'f'],
        font_directory,
        smush_override: SMO_NO,
        smush_mode: None,
        justification: Justification::Auto,
        right_to_left: RightToLeft::Detect,
        paragraph: ParagraphMode::Normal,
        infocode: -1i8,
        width: 80,
        message: None,
        show_errors: false,
        skip_next: false,
    }
}

/// A font name without the `.flf` suffix, where it has one.
pub open spec fn strip_font_suffix(t: Seq<char>) -> Seq<char> {
    if t.len() >= 4 && t.skip(t.len() - 4) == seq!['.', 'f', 'l', 'f'] {
        t.take(t.len() - 4)
    } else {
        t
    }
}

/// The layout mask that `-m` sets for a mode of -1 or more: -1 full width,
/// 0 kerning, otherwise the low six bits of the mode as smushing rules.
pub open spec fn mode_mask(mode: i32) -> i32 {
    if mode == 0 {
        SM_KERN
    } else if mode == -1 {
        SM_FULLWIDTH
    } else {
        (mode & 63) | SM_SMUSH
    }
}

/// Reads the argument at `x`. Options are `-` and one letter (or `-ne`);
/// `-I`, `-m`, `-w`, `-d` and `-f` take the next argument as their value.
/// A value that is not a number is an error after `-e`, and otherwise reads
/// as 0 (`-I`), leaves the font's layout (`-m`) or is ignored (`-w`). Any
/// other argument is a word of the message.
pub open spec fn classic_step(
    m: ClassicModel,
    args: Seq<Seq<char>>,
    x: int,
    terminal_cols: Option<u16>,
) -> Result<ClassicModel, ClassicFault> {
    let arg = args[x];
    let next: Option<Seq<char>> = if x + 1 < args.len() {
        Some(args[x + 1])
    } else {
        None
    };
    if m.skip_next {
        Ok(ClassicModel { skip_next: false, ..m })
    } else if arg.len() > 1 && arg[0] == '-' {
        if arg.len() == 3 && arg[1] == 'n' && arg[2] == 'e' {
            Ok(ClassicModel { show_errors: false, ..m })
        } else if arg.len() != 2 {
            Err(ClassicFault::Unknown(arg))
        } else {
            let c = arg[1];
            if c == 'e' {
                Ok(ClassicModel { show_errors: true, ..m })
            } else if c == 'X' {
                Ok(ClassicModel { right_to_left: RightToLeft::Detect, ..m })
            } else if c == 'L' {
                Ok(ClassicModel { right_to_left: RightToLeft::Left, ..m })
            } else if c == 'R' {
                Ok(ClassicModel { right_to_left: RightToLeft::Right, ..m })
            } else if c == 'x' {
                Ok(ClassicModel { justification: Justification::Auto, ..m })
            } else if c == 'l' {
                Ok(ClassicModel { justification: Justification::Left, ..m })
            } else if c == 'c' {
                Ok(ClassicModel { justification: Justification::Center, ..m })
            } else if c == 'r' {
                Ok(ClassicModel { justification: Justification::Right, ..m })
            } else if c == 'p' {
                Ok(ClassicModel { paragraph: ParagraphMode::Paragraph, ..m })
            } else if c == 'n' {
                Ok(ClassicModel { paragraph: ParagraphMode::Normal, ..m })
            } else if c == 's' {
                Ok(ClassicModel { smush_override: SMO_NO, smush_mode: None, ..m })
            } else if c == 'k' {
                Ok(ClassicModel { smush_override: SMO_YES, smush_mode: Some(SM_KERN), ..m })
            } else if c == 'S' {
                Ok(ClassicModel { smush_override: SMO_FORCE, smush_mode: Some(SM_SMUSH), ..m })
            } else if c == 'o' {
                Ok(ClassicModel { smush_override: SMO_YES, smush_mode: Some(SM_SMUSH), ..m })
            } else if c == 'W' {
                Ok(ClassicModel { smush_override: SMO_YES, smush_mode: Some(SM_FULLWIDTH), ..m })
            } else if c == 't' {
                match terminal_cols {
                    Some(cols) => Ok(ClassicModel { width: cols, ..m }),
                    None => Ok(m),
                }
            } else if c == 'v' {
                Ok(ClassicModel { infocode: 0, ..m })
            } else if c == 'I' {
                match next {
                    None => Err(ClassicFault::Missing(ClassicOption::InfoCode)),
                    Some(t) => match parse_number(t, -128, 127) {
                        Ok(v) => Ok(ClassicModel { infocode: v as i8, skip_next: true, ..m }),
                        Err(_) => if m.show_errors {
                            Err(ClassicFault::Invalid(ClassicOption::InfoCode))
                        } else {
                            Ok(ClassicModel { infocode: 0, skip_next: true, ..m })
                        },
                    },
                }
            } else if c == 'm' {
                match next {
                    None => Err(ClassicFault::Missing(ClassicOption::SmushMode)),
                    Some(t) => match parse_number(t, i32::MIN as int, i32::MAX as int) {
                        Ok(v) => if v < -1 {
                            Ok(ClassicModel { smush_override: SMO_NO, ..m })
                        } else {
                            Ok(
                                ClassicModel {
                                    smush_override: SMO_YES,
                                    smush_mode: Some(mode_mask(v as i32)),
                                    skip_next: true,
                                    ..m
                                },
                            )
                        },
                        Err(_) => if m.show_errors {
                            Err(ClassicFault::Invalid(ClassicOption::SmushMode))
                        } else {
                            Ok(ClassicModel { smush_override: SMO_NO, skip_next: true, ..m })
                        },
                    },
                }
            } else if c == 'w' {
                match next {
                    None => Err(ClassicFault::Missing(ClassicOption::Width)),
                    Some(t) => match parse_number(t, 0, 65535) {
                        Ok(v) => if v > 0 {
                            Ok(ClassicModel { width: v as u16, skip_next: true, ..m })
                        } else {
                            Ok(ClassicModel { skip_next: true, ..m })
                        },
                        Err(_) => if m.show_errors {
                            Err(ClassicFault::Invalid(ClassicOption::Width))
                        } else {
                            Ok(ClassicModel { skip_next: true, ..m })
                        },
                    },
                }
            } else if c == 'd' {
                match next {
                    None => Err(ClassicFault::Missing(ClassicOption::FontDirectory)),
                    Some(t) => Ok(ClassicModel { font_directory: t, skip_next: true, ..m }),
                }
            } else if c == 'f' {
                match next {
                    None => Err(ClassicFault::Missing(ClassicOption::Font)),
                    Some(t) => Ok(
                        ClassicModel { font_name: strip_font_suffix(t), skip_next: true, ..m },
                    ),
                }
            } else {
                Err(ClassicFault::Unknown(arg))
            }
        }
    } else {
        match m.message {
            Some(msg) => Ok(ClassicModel { message: Some(msg + seq![' '] + arg), ..m }),
            None => Ok(ClassicModel { message: Some(arg), ..m }),
        }
    }
}

/// The arguments read one after the other, up to the first error.
pub open spec fn classic_run(
    start: ClassicModel,
    args: Seq<Seq<char>>,
    k: int,
    terminal_cols: Option<u16>,
) -> Result<ClassicModel, ClassicFault>
    decreases k,
{
    if k <= 0 {
        Ok(start)
    } else {
        match classic_run(start, args, k - 1, terminal_cols) {
            Err(e) => Err(e),
            Ok(m) => classic_step(m, args, k - 1, terminal_cols),
        }
    }
}

/// The error `e` is the fault `f`.
pub open spec fn fault_matches(e: ClassicArgsError, f: ClassicFault) -> bool {
    match f {
        ClassicFault::Missing(o) => e == ClassicArgsError::MissingArgument(o),
        ClassicFault::Invalid(o) => e == ClassicArgsError::InvalidArgument(o),
        ClassicFault::Unknown(a) => (e matches ClassicArgsError::UnknownArgument(s) && s@ == a),
    }
}

/// The settings `s` are what the model `m` holds.
pub open spec fn settings_match(s: FigletSettings, m: ClassicModel) -> bool {
    &&& s.font_name@ == m.font_name
    &&& s.font_directory@ == m.font_directory
    &&& s.smush_override == m.smush_override
    &&& s.smush_mode == m.smush_mode
    &&& s.justification == m.justification
    &&& s.right_to_left == m.right_to_left
    &&& s.paragraph == m.paragraph
    &&& s.infocode == m.infocode
    &&& s.width == m.width
    &&& match (s.message, m.message) {
        (Some(a), Some(b)) => a@ == b,
        (None, None) => true,
        _ => false,
    }
}

struct ClassicState {
    font_name: Vec<char>,
    font_directory: Vec<char>,
    smush_override: u8,
    smush_mode: Option<i32>,
    justification: Justification,
    right_to_left: RightToLeft,
    paragraph: ParagraphMode,
    infocode: i8,
    width: u16,
    message: Option<Vec<char>>,
    show_errors: bool,
    skip_next: bool,
}

impl ClassicState {
    spec fn model(&self) -> ClassicModel {
        ClassicModel {
            font_name: self.font_name@,
            font_directory: self.font_directory@,
            smush_override: self.smush_override,
            smush_mode: self.smush_mode,
            justification: self.justification,
            right_to_left: self.right_to_left,
            paragraph: self.paragraph,
            infocode: self.infocode,
            width: self.width,
            message: match self.message {
                Some(v) => Some(v@),
                None => None,
            },
            show_errors: self.show_errors,
            skip_next: self.skip_next,
        }
    }
}

fn strip_font_suffix_exec(t: &Vec<char>) -> (r: Vec<char>)
    ensures
        r@ == strip_font_suffix(t@),
{
    let mut r = t.clone();
    assert(r@ == t@);
    let n = r.len();
    if n >= 4 {
        let ends = r[n - 4] == '.' && r[n - 3] == 'f' && r[n - 2] == 'l' && r[n - 1] == 'f';
        proof {
            let tail = t@.skip(n - 4);
            if ends {
                assert(tail =~= seq!['.', 'f', 'l', 'f']);
            } else {
                assert(tail[0] == t@[n - 4]);
                assert(tail[1] == t@[n - 3]);
                assert(tail[2] == t@[n - 2]);
                assert(tail[3] == t@[n - 1]);
                let suffix = seq!['.', 'f', 'l', 'f'];
                assert(suffix[0] == '.' && suffix[1] == 'f' && suffix[2] == 'l' && suffix[3] == 'f');
            }
        }
        if ends {
            r.truncate(n - 4);
        }
    }
    r
}

fn classic_step_exec(
    st: ClassicState,
    args: &Vec<Vec<char>>,
    x: usize,
    terminal_cols: Option<u16>,
) -> (r: Result<ClassicState, ClassicArgsError>)
    requires
        x < args@.len(),
    ensures
        match classic_step(st.model(), lines_view(args@), x as int, terminal_cols) {
            Ok(m) => r matches Ok(s) && s.model() == m,
            Err(f) => r matches Err(e) && fault_matches(e, f),
        },
{
    let ghost av = lines_view(args@);
    let mut s = st;
    let arg = &args[x];
    assert(arg@ == av[x as int]);
    let has_next = x < args.len() - 1;
    if has_next {
        assert(args@[x + 1]@ == av[x + 1]);
    }
    if s.skip_next {
        s.skip_next = false;
        return Ok(s);
    }
    let n = arg.len();
    if n > 1 && arg[0] == '-' {
        if n == 3 && arg[1] == 'n' && arg[2] == 'e' {
            s.show_errors = false;
            return Ok(s);
        }
        if n != 2 {
            return Err(ClassicArgsError::UnknownArgument(chars_to_string(arg)));
        }
        let c = arg[1];
        if c == 'e' {
            s.show_errors = true;
        } else if c == 'X' {
            s.right_to_left = RightToLeft::Detect;
        } else if c == 'L' {
            s.right_to_left = RightToLeft::Left;
        } else if c == 'R' {
            s.right_to_left = RightToLeft::Right;
        } else if c == 'x' {
            s.justification = Justification::Auto;
        } else if c == 'l' {
            s.justification = Justification::Left;
        } else if c == 'c' {
            s.justification = Justification::Center;
        } else if c == 'r' {
            s.justification = Justification::Right;
        } else if c == 'p' {
            s.paragraph = ParagraphMode::Paragraph;
        } else if c == 'n' {
            s.paragraph = ParagraphMode::Normal;
        } else if c == 's' {
            s.smush_override = SMO_NO;
            s.smush_mode = None;
        } else if c == 'k' {
            s.smush_override = SMO_YES;
            s.smush_mode = Some(SM_KERN);
        } else if c == 'S' {
            s.smush_override = SMO_FORCE;
            s.smush_mode = Some(SM_SMUSH);
        } else if c == 'o' {
            s.smush_override = SMO_YES;
            s.smush_mode = Some(SM_SMUSH);
        } else if c == 'W' {
            s.smush_override = SMO_YES;
            s.smush_mode = Some(SM_FULLWIDTH);
        } else if c == 't' {
            if let Some(cols) = terminal_cols {
                s.width = cols;
            }
        } else if c == 'v' {
            s.infocode = 0;
        } else if c == 'I' {
            if !has_next {
                return Err(ClassicArgsError::MissingArgument(ClassicOption::InfoCode));
            }
            match parse_number_exec(&args[x + 1], -128, 127) {
                Ok(v) => {
                    s.infocode = v as i8;
                },
                Err(_) => {
                    if s.show_errors {
                        return Err(ClassicArgsError::InvalidArgument(ClassicOption::InfoCode));
                    }
                    s.infocode = 0;
                },
            }
            s.skip_next = true;
        } else if c == 'm' {
            if !has_next {
                return Err(ClassicArgsError::MissingArgument(ClassicOption::SmushMode));
            }
            match parse_number_exec(&args[x + 1], i32::MIN as i64, i32::MAX as i64) {
                Ok(v) => {
                    if v < -1 {
                        s.smush_override = SMO_NO;
                        return Ok(s);
                    }
                    let mode = v as i32;
                    s.smush_mode = Some(
                        if mode == 0 {
                            SM_KERN
                        } else if mode == -1 {
                            SM_FULLWIDTH
                        } else {
                            (mode & 63) | SM_SMUSH
                        },
                    );
                    s.smush_override = SMO_YES;
                },
                Err(_) => {
                    if s.show_errors {
                        return Err(ClassicArgsError::InvalidArgument(ClassicOption::SmushMode));
                    }
                    s.smush_override = SMO_NO;
                },
            }
            s.skip_next = true;
        } else if c == 'w' {
            if !has_next {
                return Err(ClassicArgsError::MissingArgument(ClassicOption::Width));
            }
            match parse_number_exec(&args[x + 1], 0, 65535) {
                Ok(v) => {
                    if v > 0 {
                        s.width = v as u16;
                    }
                },
                Err(_) => {
                    if s.show_errors {
                        return Err(ClassicArgsError::InvalidArgument(ClassicOption::Width));
                    }
                },
            }
            s.skip_next = true;
        } else if c == 'd' {
            if !has_next {
                return Err(ClassicArgsError::MissingArgument(ClassicOption::FontDirectory));
            }
            s.font_directory = args[x + 1].clone();
            s.skip_next = true;
        } else if c == 'f' {
            if !has_next {
                return Err(ClassicArgsError::MissingArgument(ClassicOption::Font));
            }
            s.font_name = strip_font_suffix_exec(&args[x + 1]);
            s.skip_next = true;
        } else {
            return Err(ClassicArgsError::UnknownArgument(chars_to_string(arg)));
        }
        Ok(s)
    } else {
        let ghost before = s.model();
        let msg = match s.message {
            Some(mut msg) => {
                let ghost old_msg = msg@;
                msg.push(' ');
                crate::render::append_chars(&mut msg, arg);
                assert(msg@ =~= old_msg + seq![' '] + arg@);
                msg
            },
            None => {
                let copy = arg.clone();
                assert(copy@ == arg@);
                copy
            },
        };
        s.message = Some(msg);
        assert(s.model().message == match before.message {
            Some(m) => Some(m + seq![' '] + arg@),
            None => Some(arg@),
        });
        Ok(s)
    }
}

/// The arguments as characters.
pub open spec fn args_view(args: Seq<String>) -> Seq<Seq<char>> {
    args.map_values(|a: String| a@)
}

/// Reads the classic command line (the arguments after the program's name)
/// as `classic_run` says, from the standard font in `font_directory`;
/// `terminal_cols` is the terminal's width, where there is a terminal.
pub fn from_args(args: &Vec<String>, font_directory: &str, terminal_cols: Option<u16>) -> (r: Result<
    FigletSettings,
    ClassicArgsError,
>)
    ensures
        match classic_run(
            classic_start(font_directory@),
            args_view(args@),
            args@.len() as int,
            terminal_cols,
        ) {
            Ok(m) => r matches Ok(s) && settings_match(s, m),
            Err(f) => r matches Err(e) && fault_matches(e, f),
        },
{
    let mut chars: Vec<Vec<char>> = Vec::new();
    let mut i: usize = 0;
    while i < args.len()
        invariant
            i <= args@.len(),
            lines_view(chars@) == args_view(args@).take(i as int),
        decreases args@.len() - i,
    {
        let a = str_to_chars(args[i].as_str());
        let ghost before = lines_view(chars@);
        chars.push(a);
        proof {
            assert(lines_view(chars@) =~= before.push(args@[i as int]@));
            assert(args_view(args@).take(i + 1) =~= args_view(args@).take(i as int).push(
                args@[i as int]@,
            ));
        }
        i = i + 1;
    }
    let ghost av = args_view(args@);
    assert(lines_view(chars@) =~= av);
    let ghost start = classic_start(font_directory@);
    let mut st = ClassicState {
        font_name: vec!['s', 't', 'a', 'n', 'd', 'a', 'r', 'd', '.', 'f', 'l', 'f'],
        font_directory: str_to_chars(font_directory),
        smush_override: SMO_NO,
        smush_mode: None,
        justification: Justification::Auto,
        right_to_left: RightToLeft::Detect,
        paragraph: ParagraphMode::Normal,
        infocode: -1,
        width: 80,
        message: None,
        show_errors: false,
        skip_next: false,
    };
    assert(st.model() =~= start) by {
        assert(st.font_name@ =~= seq!['s', 't', 'a', 'n', 'd', 'a', 'r', 'd', '.', 'f', 'l', 'f']);
    }
    let mut x: usize = 0;
    while x < chars.len()
        invariant
            x <= chars@.len(),
            lines_view(chars@) == av,
            av == args_view(args@),
            start == classic_start(font_directory@),
            classic_run(start, av, x as int, terminal_cols) == Ok::<ClassicModel, ClassicFault>(st.model()),
        decreases chars@.len() - x,
    {
        match classic_step_exec(st, &chars, x, terminal_cols) {
            Ok(next) => {
                st = next;
            },
            Err(e) => {
                proof {
                    lemma_classic_run_fails(start, av, x as int + 1, av.len() as int, terminal_cols);
                }
                return Err(e);
            },
        }
        x = x + 1;
    }
    Ok(
        FigletSettings {
            font_name: chars_to_string(&st.font_name),
            font_directory: chars_to_string(&st.font_directory),
            smush_override: st.smush_override,
            smush_mode: st.smush_mode,
            justification: st.justification,
            right_to_left: st.right_to_left,
            paragraph: st.paragraph,
            infocode: st.infocode,
            width: st.width,
            message: match &st.message {
                Some(m) => Some(chars_to_string(m)),
                None => None,
            },
        },
    )
}

proof fn lemma_classic_run_fails(
    start: ClassicModel,
    args: Seq<Seq<char>>,
    a: int,
    b: int,
    terminal_cols: Option<u16>,
)
    requires
        0 <= a <= b,
        classic_run(start, args, a, terminal_cols) is Err,
    ensures
        classic_run(start, args, b, terminal_cols) == classic_run(start, args, a, terminal_cols),
    decreases b - a,
{
    if a < b {
        lemma_classic_run_fails(start, args, a, b - 1, terminal_cols);
    }
}

} // verus!
