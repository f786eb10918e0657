use figurust::{
    Args, Direction, Justification, Justify, Mode, OptionGroup, ParagraphMode, RightToLeft,
    Settings, SettingsError, Spacing, Width,
};

fn args() -> Args {
    Args {
        font: "standard".to_string(),
        font_directory: "/fonts".to_string(),
        justify_center: false,
        justify_right: false,
        justify_left: false,
        justify_detect: false,
        use_terminal_width: false,
        width: None,
        paragraph_mode: false,
        normal_mode: false,
        smushing: false,
        force_smushing: false,
        kerning: false,
        full_width: false,
        overlap: false,
        layout_mode: None,
        info_code: -1,
        left_to_right: false,
        right_to_left: false,
        auto_direction: false,
    }
}

#[test]
fn default_settings() {
    let s = Settings::from_args(args()).unwrap();
    assert_eq!(s.font, "standard");
    assert_eq!(s.justify, Justify::Auto);
    assert_eq!(s.width, Width::Fixed(80));
    assert_eq!(s.mode, Mode::Normal);
    assert_eq!(s.spacing, Spacing::Smushing);
    assert_eq!(s.direction, Direction::Auto);
    assert_eq!(s.width(None), Some(80));
}

#[test]
fn chosen_settings() {
    let mut a = args();
    a.justify_right = true;
    a.use_terminal_width = true;
    a.paragraph_mode = true;
    a.kerning = true;
    a.right_to_left = true;
    a.layout_mode = Some(3);
    let s = Settings::from_args(a).unwrap();
    assert_eq!(s.justify, Justify::Right);
    assert_eq!(s.width, Width::Terminal);
    assert_eq!(s.width(Some(132)), Some(132));
    assert_eq!(s.width(None), None);
    assert_eq!(s.mode, Mode::Paragraph);
    assert_eq!(s.spacing, Spacing::Kerning);
    assert_eq!(s.direction, Direction::RightToLeft);
    let cfg = s.render_config(40);
    assert_eq!(cfg.width, 40);
    let rules = cfg.rules.unwrap();
    assert!(rules.equal && rules.underscore && !rules.hierarchy);
}

#[test]
fn conflicting_options() {
    let mut a = args();
    a.justify_left = true;
    a.justify_center = true;
    assert_eq!(
        Settings::from_args(a).unwrap_err(),
        SettingsError::ConflictingOptions(OptionGroup::Justify)
    );
    let mut a = args();
    a.use_terminal_width = true;
    a.width = Some(10);
    assert_eq!(Settings::from_args(a).unwrap_err(), SettingsError::ConflictingOptions(OptionGroup::Width));
    let mut a = args();
    a.paragraph_mode = true;
    a.normal_mode = true;
    assert_eq!(Settings::from_args(a).unwrap_err(), SettingsError::ConflictingOptions(OptionGroup::Mode));
    let mut a = args();
    a.full_width = true;
    a.force_smushing = true;
    a.justify_left = true;
    a.justify_right = true;
    assert_eq!(
        Settings::from_args(a).unwrap_err(),
        SettingsError::ConflictingOptions(OptionGroup::Justify)
    );
    let mut a = args();
    a.full_width = true;
    a.force_smushing = true;
    assert_eq!(
        Settings::from_args(a).unwrap_err(),
        SettingsError::ConflictingOptions(OptionGroup::Spacing)
    );
    let mut a = args();
    a.left_to_right = true;
    a.auto_direction = true;
    assert_eq!(
        Settings::from_args(a).unwrap_err(),
        SettingsError::ConflictingOptions(OptionGroup::Direction)
    );
    assert_eq!(OptionGroup::Spacing.name(), "spacing");
}

#[test]
fn classic_codes() {
    assert_eq!(Justification::from(0u8), Justification::Left);
    assert_eq!(Justification::from(1u8), Justification::Center);
    assert_eq!(Justification::from(2u8), Justification::Right);
    assert_eq!(Justification::from(9u8), Justification::Auto);
    assert_eq!(RightToLeft::from(0i8), RightToLeft::Left);
    assert_eq!(RightToLeft::from(1i8), RightToLeft::Right);
    assert_eq!(RightToLeft::from(-1i8), RightToLeft::Detect);
    assert_eq!(ParagraphMode::from(1u8), ParagraphMode::Paragraph);
    assert_eq!(ParagraphMode::from(0u8), ParagraphMode::Normal);
    assert_eq!(ParagraphMode::from(7u8), ParagraphMode::Normal);
}

#[test]
fn magic_number_packs_four_characters() {
    assert_eq!(figurust::to_magic_number(['F', 'R', 'F', '0']), figurust::FONT_FILE_MAGIC_NUMBER);
    assert_eq!(figurust::to_magic_number(['\0', '\0', '\u{1}', 'A']), 256 + 65);
    assert_eq!(figurust::to_magic_number(['\0', '\0', '\0', '\u{1F600}']), 0x1F600);
    assert_eq!(figurust::to_magic_number(['\u{100}', '\0', '\0', '\0']), 0);
    assert_eq!(figurust::FONT_FILE_SUFFIX, ".frf");
    assert_eq!(figurust::FIGLET_FONT_SIGNATURE, "flf2");
}

#[test]
fn default_width_is_eighty_columns() {
    assert_eq!(Width::default(), Width::Fixed(80));
}

#[test]
fn try_from_checks_the_options() {
    let s = Settings::try_from(args()).unwrap();
    assert_eq!(s.spacing, Spacing::Smushing);
    let mut a = args();
    a.kerning = true;
    a.full_width = true;
    assert_eq!(Settings::try_from(a).unwrap_err(), SettingsError::ConflictingOptions(OptionGroup::Spacing));
}

#[test]
fn defaults_of_the_settings_enums() {
    assert_eq!(Justify::default(), Justify::Auto);
    assert_eq!(Mode::default(), Mode::Normal);
    assert_eq!(Spacing::default(), Spacing::Smushing);
    assert_eq!(Direction::default(), Direction::Auto);
}

#[test]
fn figlet_defaults_use_the_standard_font() {
    let s = Settings::figlet_defaults("/usr/share/figlet".to_string());
    assert_eq!(s.font, "standard");
    assert_eq!(s.font_directory, "/usr/share/figlet");
    assert_eq!(s.width, Width::Fixed(80));
    assert_eq!(s.info_code, 0);
    assert_eq!(s.spacing, Spacing::Smushing);
}
