use callnotes::theme::{Look, Rgb, Theme};

#[test]
fn default_theme_palette() {
    let theme = Theme::default();
    assert_eq!(theme.background, Rgb { r: 18, g: 20, b: 24 });
    assert_eq!(theme.foreground, Rgb { r: 225, g: 229, b: 235 });
    assert_eq!(theme.muted, Rgb { r: 130, g: 140, b: 153 });
    assert_eq!(theme.accent, Rgb { r: 92, g: 190, b: 170 });
    assert_eq!(theme.active, Rgb { r: 255, g: 193, b: 92 });
    assert_eq!(theme.border, Rgb { r: 65, g: 76, b: 88 });
}

#[test]
fn theme_looks() {

    let theme = Theme::default();
    assert_eq!(theme.title(), Look { fg: theme.accent, bold: true });
    assert_eq!(theme.muted(), Look { fg: theme.muted, bold: false });
    assert_eq!(theme.active(), Look { fg: theme.active, bold: true });
}
