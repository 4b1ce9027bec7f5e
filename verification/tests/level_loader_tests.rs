use zephyr::components::RenderLayer;
use zephyr::level_loader::{
    layer_counts_fit_check, plan_backdrops, strip_parent_refs, BackdropRole, LevelLayout,
};

#[test]
fn strip_removes_leading_parent_refs() {
    assert_eq!(strip_parent_refs("../Gfx/sky.png"), "Gfx/sky.png");
    assert_eq!(strip_parent_refs("../../Gfx/sky.png"), "Gfx/sky.png");
}

#[test]
fn strip_keeps_plain_paths() {
    assert_eq!(strip_parent_refs("Resources/Gfx/sky.png"), "Resources/Gfx/sky.png");
    assert_eq!(strip_parent_refs(""), "");
    assert_eq!(strip_parent_refs("./a.png"), "./a.png");
}

#[test]
fn strip_matches_str_replace() {
    for p in [
        "a/../b", "..../", "......//", "../", "..", ".../x", "x/..", "..//../", "ü/../é",
    ] {
        assert_eq!(strip_parent_refs(p), p.replace("../", ""), "path {p}");
    }
}

#[test]
fn strip_scans_once() {
    assert_eq!(strip_parent_refs("....//"), "../");
}

fn full_level() -> LevelLayout {
    LevelLayout {
        background: "../Gfx/sky.png".to_string(),
        bottom_foreground: Some("../Gfx/floor.png".to_string()),
        top_foreground: Some("../Gfx/top.png".to_string()),
        parallax_fix: Some("../Gfx/fix.png".to_string()),
        parallaxes: Some(vec!["../Gfx/p0.png".to_string(), "../Gfx/p1.png".to_string(), "../Gfx/p2.png".to_string()]),
        foregrounds: Some(vec!["../Gfx/f0.png".to_string(), "../Gfx/f1.png".to_string()]),
    }
}

#[test]
fn plan_of_full_level() {
    let level = full_level();
    assert!(layer_counts_fit_check(&level));
    let plan = plan_backdrops(&level);
    let got: Vec<(BackdropRole, String, RenderLayer, Option<i32>)> = plan
        .into_iter()
        .map(|b| (b.role, b.texture_path, b.layer, b.parallax_layer))
        .collect();
    let want = vec![
        (BackdropRole::Sky, "Gfx/sky.png".to_string(), RenderLayer::Background, None),
        (BackdropRole::ParallaxFix, "Gfx/fix.png".to_string(), RenderLayer::ParallaxFix, Some(-9)),
        (BackdropRole::Parallax(0), "Gfx/p0.png".to_string(), RenderLayer::Parallax1, Some(-5)),
        (BackdropRole::Parallax(1), "Gfx/p1.png".to_string(), RenderLayer::Parallax2, Some(-4)),
        (BackdropRole::Parallax(2), "Gfx/p2.png".to_string(), RenderLayer::Parallax2, Some(-3)),
        (BackdropRole::BottomForeground, "Gfx/floor.png".to_string(), RenderLayer::Foreground, Some(-1)),
        (BackdropRole::TopForeground, "Gfx/top.png".to_string(), RenderLayer::Foreground, Some(10)),
        (BackdropRole::ForegroundParallax(0), "Gfx/f0.png".to_string(), RenderLayer::Foreground, Some(5)),
        (BackdropRole::ForegroundParallax(1), "Gfx/f1.png".to_string(), RenderLayer::Foreground, Some(6)),
    ];
    assert_eq!(got, want);
}

#[test]
fn plan_of_bare_level_is_the_sky() {
    let level = LevelLayout {
        background: "sky.png".to_string(),
        bottom_foreground: None,
        top_foreground: None,
        parallax_fix: None,
        parallaxes: None,
        foregrounds: Some(vec![]),
    };
    let plan = plan_backdrops(&level);
    assert_eq!(plan.len(), 1);
    assert_eq!(plan[0].role, BackdropRole::Sky);
    assert_eq!(plan[0].texture_path, "sky.png");
    assert_eq!(plan[0].layer, RenderLayer::Background);
    assert_eq!(plan[0].parallax_layer, None);
}

#[test]
fn plan_layers_go_back_to_front() {
    let plan = plan_backdrops(&full_level());
    for w in plan.windows(2) {
        assert!(w[0].layer.draw_rank() <= w[1].layer.draw_rank());
    }
}
