use wayland_overlay_media_viewer::assets::{asset_load_kind, load_kind_of_extension, AssetLoadKind};
use wayland_overlay_media_viewer::interaction::closes_on_click;
use wayland_overlay_media_viewer::pointer::PointerButton;
use wayland_overlay_media_viewer::position::{Anchor, FullScreenMode, HorizontalAnchor, VerticalAnchor};
use wayland_overlay_media_viewer::shader::{shader_source, SHADER_PLACEHOLDER, SHADER_TEMPLATE};

#[test]
fn gif_and_webp_are_animations() {
    assert_eq!(asset_load_kind("frog.gif"), AssetLoadKind::Animated);
    assert_eq!(asset_load_kind("/tmp/a.b/clip.webp"), AssetLoadKind::Animated);
    assert_eq!(asset_load_kind("https://example.org/x/y.gif"), AssetLoadKind::Animated);
}

#[test]
fn other_files_are_still_images() {
    assert_eq!(asset_load_kind("photo.png"), AssetLoadKind::Static);
    assert_eq!(asset_load_kind("anim.GIF"), AssetLoadKind::Static);
    assert_eq!(asset_load_kind("gif"), AssetLoadKind::Static);
    assert_eq!(asset_load_kind(".gif"), AssetLoadKind::Static);
    assert_eq!(asset_load_kind("archive.gif.zip"), AssetLoadKind::Static);
    assert_eq!(asset_load_kind(""), AssetLoadKind::Static);
}

#[test]
fn load_kind_by_extension() {
    assert_eq!(load_kind_of_extension(Some("gif")), AssetLoadKind::Animated);
    assert_eq!(load_kind_of_extension(Some("webp")), AssetLoadKind::Animated);
    assert_eq!(load_kind_of_extension(Some("png")), AssetLoadKind::Static);
    assert_eq!(load_kind_of_extension(Some("Gif")), AssetLoadKind::Static);
    assert_eq!(load_kind_of_extension(Some("")), AssetLoadKind::Static);
    assert_eq!(load_kind_of_extension(None), AssetLoadKind::Static);
}

#[test]
fn shader_code_replaces_placeholder() {
    let code = "return vec4<f32>(1.0, 0.0, 0.0, p_opacity);";
    let src = shader_source(code);
    assert_eq!(src, SHADER_TEMPLATE.replace(SHADER_PLACEHOLDER, code));
    assert!(src.contains(code));
    assert!(!src.contains(SHADER_PLACEHOLDER));
    assert!(src.starts_with("\n    #import bevy_pbr::forward_io::VertexOutput"));
}

#[test]
fn empty_shader_code_leaves_empty_body() {
    let src = shader_source("");
    assert!(src.contains("vec4<f32> {\n       \n    }"));
}

#[test]
fn short_primary_click_closes() {
    assert!(closes_on_click(150_000_000, PointerButton::Primary, true));
    assert!(closes_on_click(200_000_000, PointerButton::Primary, true));
}

#[test]
fn long_or_other_clicks_do_not_close() {
    assert!(!closes_on_click(200_000_001, PointerButton::Primary, true));
    assert!(!closes_on_click(10, PointerButton::Secondary, true));
    assert!(!closes_on_click(10, PointerButton::Primary, false));
}

#[test]
fn anchors_are_plain_values() {
    let a = Anchor { vertical: VerticalAnchor::Bottom, horizontal: HorizontalAnchor::Right };
    let b = a;
    assert_eq!(a, b);
    assert_ne!(FullScreenMode::One, FullScreenMode::All);
}
