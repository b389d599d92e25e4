use text_split::alignment::{parse_alignment, HDir, TextAlignment, VDir};

#[test]
fn no_direction_is_the_middle() {
    assert_eq!(
        parse_alignment(""),
        TextAlignment { hdir: HDir::Mid, vdir: VDir::Center, is_vert: false }
    );
    assert_eq!(
        parse_alignment("中央揃え[中]"),
        TextAlignment { hdir: HDir::Mid, vdir: VDir::Center, is_vert: false }
    );
    assert_eq!(
        parse_alignment("left top"),
        TextAlignment { hdir: HDir::Mid, vdir: VDir::Center, is_vert: false }
    );
}

#[test]
fn horizontal_directions() {
    assert_eq!(parse_alignment("左寄せ[中]").hdir, HDir::Left);
    assert_eq!(parse_alignment("右寄せ[中]").hdir, HDir::Right);
    assert_eq!(parse_alignment("中央揃え[上]").hdir, HDir::Mid);
}

#[test]
fn vertical_directions() {
    assert_eq!(parse_alignment("左寄せ[上]").vdir, VDir::Top);
    assert_eq!(parse_alignment("左寄せ[下]").vdir, VDir::Bottom);
    assert_eq!(parse_alignment("左寄せ[中]").vdir, VDir::Center);
}

#[test]
fn left_goes_before_right_and_top_before_bottom() {
    assert_eq!(parse_alignment("右左").hdir, HDir::Left);
    assert_eq!(parse_alignment("下上").vdir, VDir::Top);
}

#[test]
fn vertical_writing() {
    assert_eq!(
        parse_alignment("縦書 上寄[右]"),
        TextAlignment { hdir: HDir::Right, vdir: VDir::Top, is_vert: true }
    );
    assert!(parse_alignment("縦書").is_vert);
    assert!(!parse_alignment("縦").is_vert);
    assert!(!parse_alignment("書縦").is_vert);
    assert!(!parse_alignment("縦 書").is_vert);
    assert!(parse_alignment("縦縦書").is_vert);
}

#[test]
fn default_alignment() {
    assert_eq!(HDir::default(), HDir::Mid);
    assert_eq!(VDir::default(), VDir::Center);
    assert_eq!(TextAlignment::default(), parse_alignment(""));
}
