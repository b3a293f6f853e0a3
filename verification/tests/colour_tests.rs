use snug::colour::{parse_colour, parse_hex_color, premultiply};

#[test]
fn hex_color_plain() {
    assert_eq!(parse_hex_color("ff8001"), (255, 128, 1));
}

#[test]
fn hex_color_hash_prefix() {
    assert_eq!(parse_hex_color("#ff8001"), (255, 128, 1));
    assert_eq!(parse_hex_color("##ff8001"), (255, 128, 1));
}

#[test]
fn hex_color_invalid_component_reads_zero() {
    assert_eq!(parse_hex_color("zzff00"), (0, 255, 0));
    assert_eq!(parse_hex_color("ffzz00"), (255, 0, 0));
}

#[test]
fn hex_color_wrong_length_is_black() {
    assert_eq!(parse_hex_color("fff"), (0, 0, 0));
    assert_eq!(parse_hex_color(""), (0, 0, 0));
    assert_eq!(parse_hex_color("ffffff00"), (0, 0, 0));
}

#[test]
fn hex_color_uppercase() {
    assert_eq!(parse_hex_color("AbCdEf"), (171, 205, 239));
}

#[test]
fn colour_with_alpha_pair() {
    assert_eq!(parse_colour("11223344", None), (17, 34, 51, 68));
}

#[test]
fn colour_without_alpha_is_opaque() {
    assert_eq!(parse_colour("112233", None), (17, 34, 51, 255));
}

#[test]
fn colour_invalid_alpha_pair_is_opaque() {
    assert_eq!(parse_colour("112233zz", None), (17, 34, 51, 255));
}

#[test]
fn colour_override_takes_precedence() {
    // 512/1024 of 255, truncated
    assert_eq!(parse_colour("11223344", Some(512)), (17, 34, 51, 127));
    // clamped to one
    assert_eq!(parse_colour("112233", Some(2000)), (17, 34, 51, 255));
    assert_eq!(parse_colour("112233", Some(0)), (17, 34, 51, 0));
}

#[test]
fn colour_short_string_keeps_alpha_rules() {
    assert_eq!(parse_colour("fff", None), (0, 0, 0, 255));
    assert_eq!(parse_colour("fff", Some(1024)), (0, 0, 0, 255));
}

#[test]
fn premultiply_rounds_to_nearest() {
    assert_eq!(premultiply(255, 255), 255);
    assert_eq!(premultiply(255, 128), 128);
    assert_eq!(premultiply(100, 51), 20);
    assert_eq!(premultiply(7, 0), 0);
    assert_eq!(premultiply(0, 200), 0);
    // 200 * 100 / 255 = 78.43..., rounds down
    assert_eq!(premultiply(200, 100), 78);
    // 201 * 100 / 255 = 78.82..., rounds up
    assert_eq!(premultiply(201, 100), 79);
}
