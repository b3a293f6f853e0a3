use snug::config::{Args, DisplayConfig, DisplayEntry, SnugConfig};

fn no_args() -> Args {
    Args {
        config: None,
        display: None,
        radius: None,
        left: None,
        right: None,
        top: None,
        bottom: None,
        color: None,
        opacity: None,
        shadow_enabled: None,
        shadow_color: None,
        shadow_opacity: None,
        shadow_blur: None,
    }
}

#[test]
fn default_config_values() {
    let d = DisplayConfig::default();
    assert_eq!(d.radius, 15);
    assert_eq!(d.left, 30);
    assert_eq!(d.right, 30);
    assert_eq!(d.top, 30);
    assert_eq!(d.bottom, 30);
    assert_eq!(d.color, "000000");
    assert!(d.opacity.is_none());
    assert!(d.shadow_enabled.is_none());
    assert!(d.shadow_color.is_none());
    assert!(d.shadow_opacity.is_none());
    assert!(d.shadow_blur.is_none());
}

#[test]
fn display_lookup_finds_first_entry() {
    let mut one = DisplayConfig::default();
    one.radius = 7;
    let mut two = DisplayConfig::default();
    two.radius = 9;
    let cfg = SnugConfig {
        displays: vec![
            DisplayEntry { name: "DP-1".to_string(), config: one },
            DisplayEntry { name: "DP-1".to_string(), config: two },
        ],
    };
    assert_eq!(cfg.get_display_config("DP-1").radius, 7);
}

#[test]
fn display_lookup_falls_back_to_default() {
    let cfg = SnugConfig { displays: vec![] };
    let d = cfg.get_display_config("HDMI-A-1");
    assert_eq!(d.radius, 15);
    assert_eq!(d.color, "000000");
}

#[test]
fn worker_names_skip_default_sentinel() {
    let cfg = SnugConfig {
        displays: vec![
            DisplayEntry { name: "default".to_string(), config: DisplayConfig::default() },
            DisplayEntry { name: "DP-1".to_string(), config: DisplayConfig::default() },
            DisplayEntry { name: "eDP-1".to_string(), config: DisplayConfig::default() },
        ],
    };
    let names = cfg.worker_display_names();
    assert_eq!(names, vec!["DP-1".to_string(), "eDP-1".to_string()]);
}

#[test]
fn merge_prefers_arguments() {
    let mut args = no_args();
    args.radius = Some(3);
    args.color = Some("ffffff".to_string());
    args.shadow_enabled = Some(true);
    let mut file = DisplayConfig::default();
    file.radius = 20;
    file.left = 5;
    file.opacity = Some(700);
    file.shadow_color = Some("101010".to_string());
    let m = args.merge_with_config(&file);
    assert_eq!(m.radius, 3);
    assert_eq!(m.color, "ffffff");
    assert_eq!(m.shadow_enabled, Some(true));
    // unset arguments fall back to the file
    assert_eq!(m.left, 5);
    assert_eq!(m.right, 30);
    assert_eq!(m.opacity, Some(700));
    assert_eq!(m.shadow_color, Some("101010".to_string()));
    assert!(m.shadow_opacity.is_none());
}

#[test]
fn merge_keeps_file_when_no_overrides() {
    let args = no_args();
    let file = DisplayConfig::default();
    let m = args.merge_with_config(&file);
    assert_eq!(m.radius, 15);
    assert_eq!(m.left, 30);
    assert_eq!(m.color, "000000");
    assert!(m.opacity.is_none());
    assert!(m.shadow_enabled.is_none());
}

#[test]
fn merged_duplicate_is_field_equal() {
    let args = no_args();
    let mut file = DisplayConfig::default();
    file.shadow_color = Some("abcdef".to_string());
    let m = args.merge_with_config(&file);
    let c = m.duplicate();
    assert_eq!(c.radius, m.radius);
    assert_eq!(c.color, m.color);
    assert_eq!(c.shadow_color, m.shadow_color);
}

#[test]
fn duplicate_is_field_equal() {
    let mut d = DisplayConfig::default();
    d.shadow_color = Some("333333".to_string());
    d.shadow_opacity = Some(512);
    let c = d.duplicate();
    assert_eq!(c.radius, d.radius);
    assert_eq!(c.color, d.color);
    assert_eq!(c.shadow_color, d.shadow_color);
    assert_eq!(c.shadow_opacity, d.shadow_opacity);
}
