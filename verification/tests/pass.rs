use rendering_engine::render::pass::{
    default_pass_order, sort_pass_groups, ClearFlags, PassGroup, PassSettings, PassType,
};

#[test]
fn default_pass_group_order_is_stable() {
    let mut passes = vec![
        PassGroup { pass_type: PassType::UI, index: 2 },
        PassGroup { pass_type: PassType::Opaque, index: 1 },
        PassGroup { pass_type: PassType::Skybox, index: 0 },
    ];
    passes.sort();

    assert_eq!(passes[0].pass_type, PassType::Opaque);
    assert_eq!(passes[1].pass_type, PassType::Skybox);
    assert_eq!(passes[2].pass_type, PassType::UI);
}

#[test]
fn pass_config_default_clear_flags_match_expected_stage() {
    let skybox = PassSettings::new(PassType::Skybox);
    assert!(skybox.clear_flags.color);
    assert!(skybox.clear_flags.depth);

    let opaque = PassSettings::new(PassType::Opaque);
    assert!(!opaque.clear_flags.color);
    assert!(!opaque.clear_flags.depth);
}

#[test]
fn verified_sort_orders_by_pass_type_and_keeps_ties() {
    let mut passes = vec![
        PassGroup { pass_type: PassType::UI, index: 2 },
        PassGroup { pass_type: PassType::Opaque, index: 5 },
        PassGroup { pass_type: PassType::Skybox, index: 0 },
        PassGroup { pass_type: PassType::Opaque, index: 1 },
    ];
    sort_pass_groups(&mut passes);
    let types: Vec<PassType> = passes.iter().map(|p| p.pass_type).collect();
    assert_eq!(types, vec![PassType::Opaque, PassType::Opaque, PassType::Skybox, PassType::UI]);
    assert_eq!(passes[0].index, 5);
    assert_eq!(passes[1].index, 1);
}

#[test]
fn default_pass_order_is_skybox_opaque_ui_sorted() {
    let order = default_pass_order();
    let types: Vec<PassType> = order.iter().map(|p| p.pass_type).collect();
    assert_eq!(types, vec![PassType::Opaque, PassType::Skybox, PassType::UI]);
}

#[test]
fn clear_flag_constructors_and_bits() {
    let none = ClearFlags::none();
    assert!(!none.color && !none.depth && !none.stencil);
    assert_eq!(none.to_gl_bits(), 0);
    let cd = ClearFlags::color_and_depth();
    assert_eq!(cd.to_gl_bits(), glow::COLOR_BUFFER_BIT | glow::DEPTH_BUFFER_BIT);
    let d = ClearFlags::depth_only();
    assert_eq!(d.to_gl_bits(), glow::DEPTH_BUFFER_BIT);
    let all = ClearFlags::all();
    assert_eq!(
        all.to_gl_bits(),
        glow::COLOR_BUFFER_BIT | glow::DEPTH_BUFFER_BIT | glow::STENCIL_BUFFER_BIT
    );
}

#[test]
fn pass_settings_per_type() {
    let shadow = PassSettings::new(PassType::Shadow);
    assert!(!shadow.clear_flags.color && shadow.clear_flags.depth);
    assert!(shadow.depth_write && shadow.depth_test);
    let ui = PassSettings::new(PassType::UI);
    assert!(!ui.depth_test && !ui.depth_write);
    assert!(!ui.clears_anything());
    assert!(PassSettings::new(PassType::Skybox).clears_anything());
    let t = PassSettings::new(PassType::Transparent);
    assert!(t.depth_test && !t.depth_write);
}

#[test]
fn pass_settings_builders_and_viewport() {
    let p = PassSettings::new(PassType::Opaque).with_viewport(1, 2, 30, 40);
    assert_eq!(p.viewport, Some((1, 2, 30, 40)));
    assert_eq!(p.effective_viewport(800, 600), (1, 2, 30, 40));
    let q = PassSettings::new(PassType::Opaque);
    assert_eq!(q.effective_viewport(800, 600), (0, 0, 800, 600));
    let r = q.with_clear_flags(ClearFlags::all());
    assert!(r.clear_flags.stencil);
}
