//! Renders text as large banner letters from fonts in the FIGlet format:
//! a font file is parsed into a table of glyphs, and glyphs are laid out side
//! by side under one of four spacing modes.
pub mod chars;
pub mod classic;
pub mod font;
pub mod header;
pub mod layout;
pub mod render;
pub mod settings;
pub mod text;

pub use chars::{Cell, CharacterParseError, FIGcharacter};
pub use font::{FIGfont, FontLoadError};
pub use header::{
    FIGLET_FONT_SIGNATURE, FONT_FILE_MAGIC_NUMBER, FONT_FILE_SUFFIX, HeaderField, HeaderParseError, NumberError, RawHeader,
    to_magic_number,
};
pub use layout::{Outcome, SmushRules, merge_column};
pub use render::{FontConvertError, RenderConfig};
pub use settings::{
    Args, Direction, FigletSettings, Justification, Justify, Mode, OptionGroup, ParagraphMode,
    RightToLeft, Settings, SettingsError, Spacing, Width,
};
