use battery_status::theme::ButtonStyle;
use battery_status::theme::DetectedMode;
use battery_status::theme::TextColor;
use battery_status::theme::ThemeChoice;
use battery_status::theme::resolve_system_theme;

#[test]
fn theme_button_reads_black_on_light() {
    assert_eq!(ButtonStyle::ThemeButton.text_color(ThemeChoice::Light), TextColor::Black);
    assert_eq!(ButtonStyle::ThemeButton.text_color(ThemeChoice::Dark), TextColor::White);
}

#[test]
fn standard_button_always_reads_white() {
    assert_eq!(ButtonStyle::Standard.text_color(ThemeChoice::Light), TextColor::White);
    assert_eq!(ButtonStyle::Standard.text_color(ThemeChoice::Dark), TextColor::White);
}

#[test]
fn system_theme_resolution() {
    assert_eq!(resolve_system_theme(Some(DetectedMode::Dark)), ThemeChoice::Dark);
    assert_eq!(resolve_system_theme(Some(DetectedMode::Light)), ThemeChoice::Light);
    assert_eq!(resolve_system_theme(Some(DetectedMode::Unspecified)), ThemeChoice::Light);
    assert_eq!(resolve_system_theme(None), ThemeChoice::Dark);
}
