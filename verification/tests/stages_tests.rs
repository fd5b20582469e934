use raymarch::stages::{prepare_stages, StageSize};

#[test]
fn full_hd_viewport_schedules_six_mid_stages() {
    // 1920x1080, start 16, doubling: first stage 16x9, six mid stages,
    // last stage at the viewport size
    let plan = prepare_stages(1920, 1080, 16, 2).unwrap();
    assert_eq!(plan.first, StageSize { width: 16, height: 9 });
    assert_eq!(plan.mid.len(), 6);
    let expected = [
        StageSize { width: 32, height: 18 },
        StageSize { width: 64, height: 36 },
        StageSize { width: 128, height: 72 },
        StageSize { width: 256, height: 144 },
        StageSize { width: 512, height: 288 },
        StageSize { width: 1024, height: 576 },
    ];
    for (got, want) in plan.mid.iter().zip(expected.iter()) {
        assert_eq!(got, want);
    }
    assert_eq!(plan.last, StageSize { width: 1920, height: 1080 });
}

#[test]
fn texel_sizes_are_reciprocals_of_stage_dimensions() {
    let plan = prepare_stages(1920, 1080, 16, 2).unwrap();
    let texel = |s: &StageSize| (1.0f32 / s.width as f32, 1.0f32 / s.height as f32);
    assert_eq!(texel(&plan.first), (0.0625, 1.0 / 9.0));
    assert_eq!(texel(&plan.last), (1.0 / 1920.0, 1.0 / 1080.0));
}

#[test]
fn degenerate_viewport_yields_no_stages() {
    assert!(prepare_stages(0, 1080, 16, 2).is_none());
    assert!(prepare_stages(1920, 0, 16, 2).is_none());
}

#[test]
fn tiny_viewport_clamps_to_one_pixel() {
    let plan = prepare_stages(1, 1, 16, 2).unwrap();
    assert_eq!(plan.first, StageSize { width: 1, height: 1 });
    assert_eq!(plan.mid.len(), 0);
    assert_eq!(plan.last, StageSize { width: 1, height: 1 });
}

#[test]
fn portrait_viewport_puts_start_on_the_tall_axis() {
    let plan = prepare_stages(1080, 1920, 16, 2).unwrap();
    assert_eq!(plan.first, StageSize { width: 9, height: 16 });
    assert_eq!(plan.mid.len(), 6);
    assert_eq!(plan.last, StageSize { width: 1080, height: 1920 });
}

#[test]
fn start_is_clamped_by_the_scaling_factor() {
    // requesting a start beyond viewport / scaling clamps it
    let plan = prepare_stages(64, 64, 1000, 2).unwrap();
    assert_eq!(plan.first, StageSize { width: 32, height: 32 });
    assert_eq!(plan.mid.len(), 1);
    assert_eq!(plan.mid[0], StageSize { width: 64, height: 64 });
    assert_eq!(plan.last, StageSize { width: 64, height: 64 });
}

#[test]
fn narrow_strip_viewport_schedules_safely() {
    let plan = prepare_stages(3, 1000, 16, 2).unwrap();
    assert!(plan.first.width >= 1 && plan.first.height >= 1);
    assert!(plan.first.width <= 3 && plan.first.height <= 1000);
    for s in plan.mid.iter() {
        assert!(s.width <= 3 && s.height <= 1000);
    }
}
