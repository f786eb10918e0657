use vstd::prelude::*;

use crate::layout::SmushRules;
use crate::render::RenderConfig;

verus! {

/// How each block of output is aligned within the output width.
#[derive(Debug, Clone, Copy, PartialEq, Eq, Structural)]
pub enum Justify {
    Left,
    Center,
    Right,
    Auto,
}

/// The output width: a fixed number of columns, or the terminal's.
#[derive(Debug, Clone, Copy, PartialEq, Eq, Structural)]
pub enum Width {
    Terminal,
    Fixed(usize),
}

impl Default for Justify {
    /// Left to the direction of the text.
    fn default() -> (r: Justify)
        ensures
            r == Justify::Auto,
    {
        Justify::Auto
    }
}

impl Default for Mode {
    fn default() -> (r: Mode)
        ensures
            r == Mode::Normal,
    {
        Mode::Normal
    }
}

impl Default for Spacing {
    fn default() -> (r: Spacing)
        ensures
            r == Spacing::Smushing,
    {
        Spacing::Smushing
    }
}

impl Default for Direction {
    /// Left to the font.
    fn default() -> (r: Direction)
        ensures
            r == Direction::Auto,
    {
        Direction::Auto
    }
}

impl Default for Width {
    /// Eighty columns.
    fn default() -> (r: Width)
        ensures
            r == Width::Fixed(80),
    {
        Width::Fixed(80)
    }
}

/// Whether each input line stands alone, or runs of non-blank lines form
/// one paragraph.
#[derive(Debug, Clone, Copy, PartialEq, Eq, Structural)]
pub enum Mode {
    Paragraph,
    Normal,
}

/// How adjoining glyphs are laid out.
#[derive(Debug, Clone, Copy, PartialEq, Eq, Structural)]
pub enum Spacing {
    Smushing,
    ForceSmushing,
    Kerning,
    FullWidth,
}

/// The order in which the glyphs of a line are laid out.
#[derive(Debug, Clone, Copy, PartialEq, Eq, Structural)]
pub enum Direction {
    LeftToRight,
    RightToLeft,
    Auto,
}

/// The groups of command-line options of which at most one may be given.
#[derive(Debug, Clone, Copy, PartialEq, Eq, Structural)]
pub enum OptionGroup {
    Justify,
    Width,
    Mode,
    Spacing,
    Direction,
}

impl OptionGroup {
    pub fn name(&self) -> (r: &'static str)
        ensures
            r@ == match self {
                OptionGroup::Justify => "justify"@,
                OptionGroup::Width => "width"@,
                OptionGroup::Mode => "mode"@,
                OptionGroup::Spacing => "spacing"@,
                OptionGroup::Direction => "direction"@,
            },
    {
        match self {
            OptionGroup::Justify => "justify",
            OptionGroup::Width => "width",
            OptionGroup::Mode => "mode",
            OptionGroup::Spacing => "spacing",
            OptionGroup::Direction => "direction",
        }
    }
}

#[derive(Debug, Clone, Copy, PartialEq, Eq, Structural)]
pub enum SettingsError {
    /// Two options of one group were given.
    ConflictingOptions(OptionGroup),
    /// The terminal's width was asked for outside a terminal.
    NoTerminalSize,
}

/// The command-line options, as given.
#[derive(Debug, Clone)]
pub struct Args {
    pub font: String,
    pub font_directory: String,
    pub justify_center: bool,
    pub justify_right: bool,
    pub justify_left: bool,
    pub justify_detect: bool,
    pub use_terminal_width: bool,
    pub width: Option<usize>,
    pub paragraph_mode: bool,
    pub normal_mode: bool,
    pub smushing: bool,
    pub force_smushing: bool,
    pub kerning: bool,
    pub full_width: bool,
    pub overlap: bool,
    pub layout_mode: Option<u8>,
    pub info_code: i8,
    pub left_to_right: bool,
    pub right_to_left: bool,
    pub auto_direction: bool,
}

/// What the options ask for, once checked.
#[derive(Debug, Clone)]
pub struct Settings {
    pub font: String,
    pub font_directory: String,
    pub justify: Justify,
    pub width: Width,
    pub mode: Mode,
    pub spacing: Spacing,
    pub overlap: bool,
    pub layout_mode: Option<u8>,
    pub info_code: i8,
    pub direction: Direction,
}

/// Fails with a conflict in `name` where any of `vals` is set.
pub fn assert_none_true(name: OptionGroup, vals: &[bool]) -> (r: Result<(), SettingsError>)
    ensures
        r is Ok <==> forall|i: int| 0 <= i < vals@.len() ==> !vals@[i],
        r is Err ==> r == Err::<(), SettingsError>(SettingsError::ConflictingOptions(name)),
{
    let mut i: usize = 0;
    while i < vals.len()
        invariant
            i <= vals@.len(),
            forall|k: int| 0 <= k < i ==> !vals@[k],
        decreases vals@.len() - i,
    {
        if vals[i] {
            return Err(SettingsError::ConflictingOptions(name));
        }
        i = i + 1;
    }
    Ok(())
}

/// The justification the options choose, or `None` on a conflict; the
/// options are looked at in the order detect, center, right, left.
pub open spec fn justify_choice(a: Args) -> Option<Justify> {
    if a.justify_detect {
        if a.justify_left || a.justify_right || a.justify_center {
            None
        } else {
            Some(Justify::Auto)
        }
    } else if a.justify_center {
        if a.justify_left || a.justify_right {
            None
        } else {
            Some(Justify::Center)
        }
    } else if a.justify_right {
        if a.justify_left {
            None
        } else {
            Some(Justify::Right)
        }
    } else if a.justify_left {
        Some(Justify::Left)
    } else {
        Some(Justify::Auto)
    }
}

/// The width the options choose (80 columns unless told otherwise), or
/// `None` on a conflict.
pub open spec fn width_choice(a: Args) -> Option<Width> {
    if a.use_terminal_width {
        if a.width is Some {
            None
        } else {
            Some(Width::Terminal)
        }
    } else {
        match a.width {
            Some(w) => Some(Width::Fixed(w)),
            None => Some(Width::Fixed(80)),
        }
    }
}

pub open spec fn mode_choice(a: Args) -> Option<Mode> {
    if a.paragraph_mode {
        if a.normal_mode {
            None
        } else {
            Some(Mode::Paragraph)
        }
    } else {
        Some(Mode::Normal)
    }
}

/// The spacing the options choose (smushing unless told otherwise), or
/// `None` on a conflict; looked at in the order smushing, force smushing,
/// kerning, full width.
pub open spec fn spacing_choice(a: Args) -> Option<Spacing> {
    if a.smushing {
        if a.force_smushing || a.kerning || a.full_width {
            None
        } else {
            Some(Spacing::Smushing)
        }
    } else if a.force_smushing {
        if a.kerning || a.full_width {
            None
        } else {
            Some(Spacing::ForceSmushing)
        }
    } else if a.kerning {
        if a.full_width {
            None
        } else {
            Some(Spacing::Kerning)
        }
    } else if a.full_width {
        Some(Spacing::FullWidth)
    } else {
        Some(Spacing::Smushing)
    }
}

pub open spec fn direction_choice(a: Args) -> Option<Direction> {
    if a.auto_direction {
        if a.left_to_right || a.right_to_left {
            None
        } else {
            Some(Direction::Auto)
        }
    } else if a.left_to_right {
        if a.right_to_left {
            None
        } else {
            Some(Direction::LeftToRight)
        }
    } else if a.right_to_left {
        Some(Direction::RightToLeft)
    } else {
        Some(Direction::Auto)
    }
}

/// The settings the options give: the first group with a conflict, in the
/// order justify, width, mode, spacing, direction, is the error.
pub open spec fn settings_from_spec(a: Args) -> Result<Settings, SettingsError> {
    if justify_choice(a) is None {
        Err(SettingsError::ConflictingOptions(OptionGroup::Justify))
    } else if width_choice(a) is None {
        Err(SettingsError::ConflictingOptions(OptionGroup::Width))
    } else if mode_choice(a) is None {
        Err(SettingsError::ConflictingOptions(OptionGroup::Mode))
    } else if spacing_choice(a) is None {
        Err(SettingsError::ConflictingOptions(OptionGroup::Spacing))
    } else if direction_choice(a) is None {
        Err(SettingsError::ConflictingOptions(OptionGroup::Direction))
    } else {
        Ok(
            Settings {
                font: a.font,
                font_directory: a.font_directory,
                justify: justify_choice(a)->Some_0,
                width: width_choice(a)->Some_0,
                mode: mode_choice(a)->Some_0,
                spacing: spacing_choice(a)->Some_0,
                overlap: a.overlap,
                layout_mode: a.layout_mode,
                info_code: a.info_code,
                direction: direction_choice(a)->Some_0,
            },
        )
    }
}

impl Settings {
    /// Checks the options and builds the settings.
    pub fn from_args(value: Args) -> (r: Result<Settings, SettingsError>)
        ensures
            r == settings_from_spec(value),
    {
        let ghost a = value;
        let justify = if value.justify_detect {
            assert_none_true(
                OptionGroup::Justify,
                &[value.justify_left, value.justify_right, value.justify_center],
            )?;
            Justify::Auto
        } else if value.justify_center {
            assert_none_true(OptionGroup::Justify, &[value.justify_left, value.justify_right])?;
            Justify::Center
        } else if value.justify_right {
            assert_none_true(OptionGroup::Justify, &[value.justify_left])?;
            Justify::Right
        } else if value.justify_left {
            Justify::Left
        } else {
            Justify::Auto
        };
        let width = if value.use_terminal_width {
            assert_none_true(OptionGroup::Width, &[value.width.is_some()])?;
            Width::Terminal
        } else {
            match value.width {
                Some(w) => Width::Fixed(w),
                None => Width::Fixed(80),
            }
        };
        let mode = if value.paragraph_mode {
            assert_none_true(OptionGroup::Mode, &[value.normal_mode])?;
            Mode::Paragraph
        } else {
            Mode::Normal
        };
        let spacing = if value.smushing {
            assert_none_true(
                OptionGroup::Spacing,
                &[value.force_smushing, value.kerning, value.full_width],
            )?;
            Spacing::Smushing
        } else if value.force_smushing {
            assert_none_true(OptionGroup::Spacing, &[value.kerning, value.full_width])?;
            Spacing::ForceSmushing
        } else if value.kerning {
            assert_none_true(OptionGroup::Spacing, &[value.full_width])?;
            Spacing::Kerning
        } else if value.full_width {
            Spacing::FullWidth
        } else {
            Spacing::Smushing
        };
        let direction = if value.auto_direction {
            assert_none_true(OptionGroup::Direction, &[value.left_to_right, value.right_to_left])?;
            Direction::Auto
        } else if value.left_to_right {
            assert_none_true(OptionGroup::Direction, &[value.right_to_left])?;
            Direction::LeftToRight
        } else if value.right_to_left {
            Direction::RightToLeft
        } else {
            Direction::Auto
        };
        Ok(
            Settings {
                font: value.font,
                font_directory: value.font_directory,
                justify,
                width,
                mode,
                spacing,
                overlap: value.overlap,
                layout_mode: value.layout_mode,
                info_code: value.info_code,
                direction,
            },
        )
    }

    /// The settings an installed `figlet` stands for: the standard font in
    /// its font directory, 80 columns, everything else at its default.
    pub fn figlet_defaults(font_directory: String) -> (r: Settings)
        ensures
            r.font@ == "standard"@,
            r.font_directory == font_directory,
            r.justify == Justify::Auto,
            r.width == Width::Fixed(80),
            r.mode == Mode::Normal,
            r.spacing == Spacing::Smushing,
            !r.overlap,
            r.layout_mode is None,
            r.info_code == 0,
            r.direction == Direction::Auto,
    {
        let name = vec!['s', 't', 'a', 'n', 'd', 'a', 'r', 'd'];
        let font = crate::text::chars_to_string(&name);
        proof {
            reveal_strlit("standard");
            assert(font@ =~= "standard"@);
        }
        Settings {
            font,
            font_directory,
            justify: Justify::Auto,
            width: Width::Fixed(80),
            mode: Mode::Normal,
            spacing: Spacing::Smushing,
            overlap: false,
            layout_mode: None,
            info_code: 0,
            direction: Direction::Auto,
        }
    }

    /// The output width: the fixed width, or the terminal's where asked for
    /// (`None` where there is no terminal).
    pub fn width(&self, terminal_cols: Option<usize>) -> (r: Option<usize>)
        ensures
            match self.width {
                Width::Fixed(w) => r == Some(w),
                Width::Terminal => r == terminal_cols,
            },
    {
        match self.width {
            Width::Fixed(w) => Some(w),
            Width::Terminal => terminal_cols,
        }
    }

    /// The configuration rendering takes, for an output `width`; a layout
    /// mode replaces the font's smushing rules.
    pub fn render_config(&self, width: usize) -> (r: RenderConfig)
        ensures
            r.width == width,
            r.justify == self.justify,
            r.mode == self.mode,
            r.direction == self.direction,
            r.spacing == self.spacing,
            r.rules == match self.layout_mode {
                Some(m) => Some(crate::render::rules_of_mask(m as u32)),
                None => None::<SmushRules>,
            },
    {
        RenderConfig {
            width,
            justify: self.justify,
            mode: self.mode,
            direction: self.direction,
            spacing: self.spacing,
            rules: match self.layout_mode {
                Some(m) => Some(SmushRules::from_mask(m as u32)),
                None => None,
            },
        }
    }
}

impl TryFrom<Args> for Settings {
    type Error = SettingsError;

    fn try_from(value: Args) -> (r: Result<Settings, SettingsError>) {
        Settings::from_args(value)
    }
}

impl vstd::std_specs::convert::TryFromSpecImpl<Args> for Settings {
    open spec fn obeys_try_from_spec() -> bool {
        true
    }

    open spec fn try_from_spec(value: Args) -> Result<Settings, SettingsError> {
        settings_from_spec(value)
    }
}

/// Justification as the classic command line numbers it: 0 left, 1 center,
/// 2 right, anything else automatic.
#[derive(Debug, Clone, Copy, PartialEq, Eq, Structural)]
pub enum Justification {
    Auto,
    Left,
    Center,
    Right,
}

impl From<u8> for Justification {
    fn from(val: u8) -> (r: Justification) {
        match val {
            0 => Justification::Left,
            1 => Justification::Center,
            2 => Justification::Right,
            _ => Justification::Auto,
        }
    }
}

impl vstd::std_specs::convert::FromSpecImpl<u8> for Justification {
    open spec fn obeys_from_spec() -> bool {
        true
    }

    open spec fn from_spec(val: u8) -> Justification {
        if val == 0 {
            Justification::Left
        } else if val == 1 {
            Justification::Center
        } else if val == 2 {
            Justification::Right
        } else {
            Justification::Auto
        }
    }
}

/// Direction as the classic command line numbers it: 0 left to right, 1
/// right to left, anything else detected from the font.
#[derive(Debug, Clone, Copy, PartialEq, Eq, Structural)]
pub enum RightToLeft {
    Detect,
    Left,
    Right,
}

impl From<i8> for RightToLeft {
    fn from(val: i8) -> (r: RightToLeft) {
        match val {
            0 => RightToLeft::Left,
            1 => RightToLeft::Right,
            _ => RightToLeft::Detect,
        }
    }
}

impl vstd::std_specs::convert::FromSpecImpl<i8> for RightToLeft {
    open spec fn obeys_from_spec() -> bool {
        true
    }

    open spec fn from_spec(val: i8) -> RightToLeft {
        if val == 0 {
            RightToLeft::Left
        } else if val == 1 {
            RightToLeft::Right
        } else {
            RightToLeft::Detect
        }
    }
}

/// Paragraph mode as the classic command line numbers it: 1 paragraph,
/// anything else normal.
#[derive(Debug, Clone, Copy, PartialEq, Eq, Structural)]
pub enum ParagraphMode {
    Normal,
    Paragraph,
}

impl From<u8> for ParagraphMode {
    fn from(val: u8) -> (r: ParagraphMode) {
        match val {
            1 => ParagraphMode::Paragraph,
            _ => ParagraphMode::Normal,
        }
    }
}

impl vstd::std_specs::convert::FromSpecImpl<u8> for ParagraphMode {
    open spec fn obeys_from_spec() -> bool {
        true
    }

    open spec fn from_spec(val: u8) -> ParagraphMode {
        if val == 1 {
            ParagraphMode::Paragraph
        } else {
            ParagraphMode::Normal
        }
    }
}

/// The settings of the classic command line.
#[derive(Debug, Clone)]
pub struct FigletSettings {
    pub font_name: String,
    pub font_directory: String,
    pub smush_override: u8,
    /// The layout mask asked for; the font's own where `None`.
    pub smush_mode: Option<i32>,
    pub justification: Justification,
    pub right_to_left: RightToLeft,
    pub paragraph: ParagraphMode,
    pub infocode: i8,
    pub width: u16,
    pub message: Option<String>,
}

} // verus!
