use mechanix_home::config::config_path;
use mechanix_home::config::{
    cells_of_icon, cells_of_slot, default_columns, default_rows, default_span, same_config,
    HomeConfig, IconConfig, SlotConfig,
};
use mechanix_home::grid::RectCells;

#[test]
fn defaults_for_missing_keys() {
    assert_eq!(default_columns(), 4);
    assert_eq!(default_rows(), 6);
    assert_eq!(default_span(), 1);
}

#[test]
fn slot_spans_are_at_least_one() {
    let s = SlotConfig { page: 1, col: 2, row: 3, col_span: 0, row_span: 4, command: "x".into() };
    assert_eq!(cells_of_slot(&s), RectCells { page: 1, col: 2, row: 3, col_span: 1, row_span: 4 });
    let i = IconConfig { page: 0, col: 1, row: 1, desktop: "d".into() };
    assert_eq!(cells_of_icon(&i), RectCells { page: 0, col: 1, row: 1, col_span: 1, row_span: 1 });
}

#[test]
fn same_config_compares_every_field() {
    let a = HomeConfig::default();
    let mut b = HomeConfig::default();
    assert!(same_config(&a, &b));
    b.slots[1].command = "other".into();
    assert!(!same_config(&a, &b));
    let mut c = HomeConfig::default();
    c.icons[0].row = 5;
    assert!(!same_config(&a, &c));
}

#[test]
fn the_config_path_follows_the_override_then_xdg_then_home() {
    assert_eq!(config_path(Some("/etc/home.toml"), Some("/x"), Some("/h")), "/etc/home.toml");
    assert_eq!(config_path(None, Some("/x"), Some("/h")), "/x/mechanix/homescreen.toml");
    assert_eq!(config_path(None, Some("/x/"), None), "/x/mechanix/homescreen.toml");
    assert_eq!(config_path(None, None, Some("/home/u")), "/home/u/.config/mechanix/homescreen.toml");
    assert_eq!(config_path(None, None, None), "./mechanix/homescreen.toml");
    assert_eq!(config_path(None, Some(""), None), "mechanix/homescreen.toml");
}
