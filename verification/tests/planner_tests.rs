//! The export selection and the resize planner on concrete inputs.

use texturizer::{plan, Axis, Config, ResizeTarget};

fn config(flags: [bool; 10]) -> Config {
    Config::from_flags(&flags.to_vec()).expect("ten flags")
}

#[test]
fn from_flags_maps_positionally() {
    let c = config([true, false, true, false, true, false, true, false, true, false]);
    assert!(c.x16 && !c.x32 && c.x64 && !c.x128 && c.x256 && !c.x512);
    assert!(c.w && !c.h);
    assert!(c.nearest && !c.everything_in_dir);
    assert_eq!(c.format, "png");
}

#[test]
fn from_flags_rejects_wrong_arity() {
    assert!(Config::from_flags(&vec![true; 9]).is_none());
    assert!(Config::from_flags(&vec![true; 11]).is_none());
    assert!(Config::from_flags(&Vec::new()).is_none());
}

#[test]
fn nums_lists_enabled_sizes_ascending() {
    let c = config([true, false, true, false, false, true, false, false, false, false]);
    assert_eq!(c.nums(), vec![16, 64, 512]);
    let none = config([false; 10]);
    assert_eq!(none.nums(), Vec::<usize>::new());
}

#[test]
fn x128_enabled_reads_its_flag() {
    let c = config([false, false, false, true, false, false, false, false, false, false]);
    assert!(c.x128_enabled());
    let d = config([true; 10]);
    assert!(d.x128_enabled());
}

#[test]
fn plan_640x480_width_axis() {
    // Sizes {16, 32} on the width of a 640x480 source:
    // factor 640/16 = 40 gives 480/40 = 12; factor 640/32 = 20 gives 24.
    let c = config([true, true, false, false, false, false, true, false, true, false]);
    let p = plan(640, 480, &c);
    assert_eq!(
        p,
        vec![
            ResizeTarget { axis: Axis::Width, target: 16, width: 16, height: 12 },
            ResizeTarget { axis: Axis::Width, target: 32, width: 32, height: 24 },
        ]
    );
}

#[test]
fn plan_orders_width_before_height_sizes_ascending() {
    let c = config([true, true, false, false, false, false, true, true, true, false]);
    let p = plan(100, 100, &c);
    assert_eq!(
        p,
        vec![
            ResizeTarget { axis: Axis::Width, target: 16, width: 16, height: 16 },
            ResizeTarget { axis: Axis::Width, target: 32, width: 32, height: 33 },
            ResizeTarget { axis: Axis::Height, target: 16, width: 16, height: 16 },
            ResizeTarget { axis: Axis::Height, target: 32, width: 33, height: 32 },
        ]
    );
}

#[test]
fn plan_skips_upscales() {
    // 512 does not divide into a 100-pixel dimension even once.
    let c = config([false, false, false, false, false, true, true, true, true, false]);
    assert_eq!(plan(100, 100, &c), Vec::<ResizeTarget>::new());
}

#[test]
fn plan_degenerate_source_is_empty() {
    let c = config([true, true, true, true, true, true, true, true, true, false]);
    assert_eq!(plan(0, 480, &c), Vec::<ResizeTarget>::new());
    assert_eq!(plan(640, 0, &c), Vec::<ResizeTarget>::new());
}

#[test]
fn plan_empty_axes_is_no_op() {
    let c = config([true, true, true, true, true, true, false, false, true, false]);
    assert_eq!(plan(640, 480, &c), Vec::<ResizeTarget>::new());
}
