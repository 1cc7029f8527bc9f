use clankerdiff_core::model::DiffTone;
use clankerdiff_core::theme::{
    DiffPalette, DiffTheme, FontStyle, Rgba, SyntaxStyle, ThemeError, ThemeId,
};

fn style(r: u8) -> SyntaxStyle {
    SyntaxStyle { foreground: Rgba::new(r, 0, 0, 255), font_style: FontStyle::none() }
}

fn theme() -> DiffTheme {
    DiffTheme::from_document(
        ThemeId::Custom("x".to_string()),
        1,
        DiffPalette::default(),
        vec![("function".to_string(), style(1)), ("function.method".to_string(), style(2))],
        b"{}",
    )
    .unwrap()
}

#[test]
fn capture_style_uses_parent_fallback() {
    let theme = theme();
    assert_eq!(theme.style("function.method.builtin"), theme.style("function.method"));
    assert!(theme.style("not-a-capture").is_none());
}

#[test]
fn capture_style_uses_nearest_parent() {
    let theme = theme();
    assert_eq!(theme.style("function.method.builtin"), theme.style("function.method"));
    assert_eq!(theme.style("function.method.builtin"), Some(style(2)));
    assert_eq!(theme.style("function.call"), Some(style(1)));
    assert!(theme.style("not-a-capture").is_none());
    assert!(theme.style("keyword.function").is_none());
}

#[test]
fn unsupported_versions_are_rejected() {
    let result = DiffTheme::from_document(ThemeId::Sage, 2, DiffPalette::default(), Vec::new(), b"{}");
    assert!(matches!(result, Err(ThemeError::UnsupportedVersion { version: 2 })));
}

#[test]
fn revisions_depend_on_name_and_document() {
    let a = DiffTheme::from_document(ThemeId::Sage, 1, DiffPalette::default(), Vec::new(), b"{}").unwrap();
    let b = DiffTheme::from_document(ThemeId::Ayu, 1, DiffPalette::default(), Vec::new(), b"{}").unwrap();
    let c = DiffTheme::from_document(ThemeId::Sage, 1, DiffPalette::default(), Vec::new(), b"{ }").unwrap();
    let again = DiffTheme::from_document(ThemeId::Sage, 1, DiffPalette::default(), Vec::new(), b"{}").unwrap();
    assert_ne!(a.revision(), b.revision());
    assert_ne!(a.revision(), c.revision());
    assert_eq!(a.revision(), again.revision());
    assert_eq!(b.id(), &ThemeId::Ayu);
    assert_eq!(ThemeId::Ayu.name(), "ayu-dark");
}

#[test]
fn compositing_blends_by_alpha_and_rounds() {
    let color = Rgba::new(255, 0, 0, 128).over(Rgba::new(0, 0, 255, 255));
    assert_eq!(color, Rgba::new(128, 0, 127, 255));
    assert_eq!(Rgba::new(9, 8, 7, 255).over(Rgba::new(1, 2, 3, 255)), Rgba::new(9, 8, 7, 255));
    assert_eq!(Rgba::new(9, 8, 7, 0).over(Rgba::new(1, 2, 3, 255)), Rgba::new(1, 2, 3, 255));
    assert_eq!(Rgba::new(1, 2, 3, 4).to_bytes(), [1, 2, 3, 4]);
}

#[test]
fn palette_tones_and_defaults() {
    let palette = DiffPalette::default();
    assert_eq!(palette.tone(DiffTone::Added).foreground, palette.addition);
    assert_eq!(palette.tone(DiffTone::Removed).background, palette.deletion_background);
    assert_eq!(palette.tone(DiffTone::Meta).background, palette.background);
    assert_eq!(palette.addition_background, Rgba::new(40, 52, 39, 255));
    assert_eq!(palette.colors().len(), 11);
    assert!(FontStyle::default().is_plain());
    assert!(!FontStyle { bold: true, ..FontStyle::none() }.is_plain());
}
