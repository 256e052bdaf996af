use herdr_flash::config::{
    apply_toml, parse_depth, parse_scroll_follow, Config, Depth, ScrollFollow,
};
use herdr_flash::style::Color;
use herdr_flash::toml_doc::parse_toml_document;

fn apply_text(config: &mut Config, text: &str) {
    let doc = parse_toml_document(text).unwrap();
    apply_toml(config, &doc);
}

#[test]
fn default_config_has_four_depths() {
    let c = Config::default();
    assert_eq!(c.profiles.len(), 1);
    assert_eq!(c.profiles[0].name, "default");
    assert_eq!(c.profiles[0].depths.len(), 4);
    assert_eq!(c.profiles[0].depths[0], Depth::Lines(200));
    assert_eq!(c.profiles[0].depths[1], Depth::Lines(5000));
    assert_eq!(c.profiles[0].depths[2], Depth::Unlimited);
    assert_eq!(c.profiles[0].depths[3], Depth::Viewport);
}

#[test]
fn parse_depth_viewport() {
    assert_eq!(parse_depth("viewport"), Some(Depth::Viewport));
    assert_eq!(parse_depth("VIEWPORT"), Some(Depth::Viewport));
}

#[test]
fn parse_depth_lines() {
    assert_eq!(parse_depth("200"), Some(Depth::Lines(200)));
    assert_eq!(parse_depth("2000"), Some(Depth::Lines(2000)));
}

#[test]
fn parse_depth_unlimited() {
    assert_eq!(parse_depth("unlimited"), Some(Depth::Unlimited));
    assert_eq!(parse_depth("UNLIMITED"), Some(Depth::Unlimited));
    assert_eq!(parse_depth("all"), Some(Depth::Unlimited));
}

#[test]
fn parse_depth_rejects_zero_and_garbage() {
    assert_eq!(parse_depth("0"), None);
    assert_eq!(parse_depth("abc"), None);
    assert_eq!(parse_depth(""), None);
}

#[test]
fn depth_label() {
    assert_eq!(Depth::Viewport.label(), "viewport");
    assert_eq!(Depth::Lines(200).label(), "200");
    assert_eq!(Depth::Unlimited.label(), "unlimited");
}

#[test]
fn apply_toml_parses_profiles() {
    let mut config = Config::default();
    apply_text(
        &mut config,
        r#"
[profiles.deep]
depths = ["2000", "5000"]

[profiles.quick]
depths = ["viewport", "100"]
"#,
    );
    assert_eq!(config.profiles.len(), 3); // deep, quick, + auto-added default
    let deep = config.profiles.iter().find(|p| p.name == "deep").unwrap();
    assert_eq!(deep.depths, vec![Depth::Lines(2000), Depth::Lines(5000)]);
    let quick = config.profiles.iter().find(|p| p.name == "quick").unwrap();
    assert_eq!(quick.depths, vec![Depth::Viewport, Depth::Lines(100)]);
}

#[test]
fn apply_toml_ensures_default_profile_exists() {
    let mut config = Config::default();
    apply_text(
        &mut config,
        r#"
[profiles.custom]
depths = ["viewport"]
"#,
    );
    assert!(config.profiles.iter().any(|p| p.name == "custom"));
    assert!(config.profiles.iter().any(|p| p.name == "default"));
}

#[test]
fn apply_toml_parses_labels() {
    let mut config = Config::default();
    apply_text(&mut config, r#"labels = "asdfjkl;""#);
    assert_eq!(config.labels, vec!['a', 's', 'd', 'f', 'j', 'k', 'l', ';']);
}

#[test]
fn apply_toml_parses_line_labels_unified() {
    let mut config = Config::default();
    apply_text(&mut config, r#"line_labels = "unified""#);
    assert!(config.line_labels_unified);
}

#[test]
fn apply_toml_parses_color_override() {
    let mut config = Config::default();
    apply_text(&mut config, r##"color_sel_bg = "#ff0000""##);
    assert_eq!(config.theme.sel_bg, Color::Rgb(255, 0, 0));
}

#[test]
fn apply_toml_empty_depths_skips_profile() {
    let mut config = Config::default();
    apply_text(
        &mut config,
        r#"
[profiles.empty]
depths = []
"#,
    );
    assert!(config.profiles.iter().all(|p| p.name == "default"));
}

#[test]
fn parse_scroll_follow_values() {
    assert_eq!(parse_scroll_follow("off"), Some(ScrollFollow::Off));
    assert_eq!(parse_scroll_follow("OFFSET"), Some(ScrollFollow::Offset));
    assert_eq!(parse_scroll_follow("content"), Some(ScrollFollow::Content));
    assert_eq!(parse_scroll_follow("none"), Some(ScrollFollow::Off));
    assert_eq!(parse_scroll_follow("garbage"), None);
    assert_eq!(parse_scroll_follow(""), None);
}

#[test]
fn apply_toml_parses_scroll_follow() {
    let mut config = Config::default();
    apply_text(&mut config, r#"scroll_follow = "content""#);
    assert_eq!(config.scroll_follow, ScrollFollow::Content);
}

#[test]
fn default_scroll_follow_is_off() {
    assert_eq!(Config::default().scroll_follow, ScrollFollow::Off);
}
