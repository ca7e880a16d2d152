use xcap::{Monitor, RawOutput, Rotation, XCapError};

fn output(id: u32, x: i32, y: i32, width: u32, height: u32, primary: bool) -> RawOutput {
    RawOutput {
        id,
        name: format!("display-{}", id),
        x,
        y,
        width,
        height,
        rotation_degrees: 0,
        scale_factor_permille: 1000,
        frequency_millihertz: 60000,
        is_primary: primary,
    }
}

fn side_by_side() -> Vec<RawOutput> {
    vec![output(1, 0, 0, 1920, 1080, true), output(2, 1920, 0, 1280, 1024, false)]
}

#[test]
fn all_keeps_reported_order_and_fields() {
    let ms = Monitor::all(&side_by_side()).unwrap();
    assert_eq!(ms.len(), 2);
    assert_eq!(ms[0].id(), 1);
    assert_eq!(ms[0].name(), "display-1");
    assert_eq!((ms[1].x(), ms[1].y(), ms[1].width(), ms[1].height()), (1920, 0, 1280, 1024));
    assert_eq!(ms[1].scale_factor_permille(), 1000);
    assert_eq!(ms[1].frequency_millihertz(), 60000);
    assert_eq!(ms[0].rotation(), Rotation::Deg0);
}

#[test]
fn exactly_one_primary_when_flagged() {
    let ms = Monitor::all(&side_by_side()).unwrap();
    assert_eq!(ms.iter().filter(|m| m.is_primary()).count(), 1);
    assert!(ms[0].is_primary());
}

#[test]
fn first_monitor_is_primary_when_none_flagged() {
    let outs = vec![output(5, 0, 0, 800, 600, false), output(6, 800, 0, 800, 600, false)];
    let ms = Monitor::all(&outs).unwrap();
    assert!(ms[0].is_primary());
    assert!(!ms[1].is_primary());
}

#[test]
fn first_flagged_wins_when_several_are_flagged() {
    let outs = vec![
        output(5, 0, 0, 800, 600, false),
        output(6, 800, 0, 800, 600, true),
        output(7, 1600, 0, 800, 600, true),
    ];
    let ms = Monitor::all(&outs).unwrap();
    let flags: Vec<bool> = ms.iter().map(|m| m.is_primary()).collect();
    assert_eq!(flags, vec![false, true, false]);
}

#[test]
fn zero_area_outputs_are_left_out() {
    let outs = vec![
        output(1, 0, 0, 0, 1080, true),
        output(2, 0, 0, 1024, 768, false),
        output(3, 0, 0, 1024, 0, false),
    ];
    let ms = Monitor::all(&outs).unwrap();
    assert_eq!(ms.len(), 1);
    assert_eq!(ms[0].id(), 2);
    assert!(ms[0].is_primary());
    assert!(ms.iter().all(|m| m.width() > 0 && m.height() > 0));
}

#[test]
fn no_outputs_give_no_monitors() {
    assert_eq!(Monitor::all(&Vec::new()).unwrap().len(), 0);
}

#[test]
fn duplicate_ids_are_an_enumeration_error() {
    let outs = vec![output(4, 0, 0, 800, 600, true), output(4, 800, 0, 800, 600, false)];
    assert_eq!(Monitor::all(&outs).unwrap_err(), XCapError::Enumeration);
    assert_eq!(Monitor::from_point(&outs, 10, 10).unwrap_err(), XCapError::Enumeration);
}

#[test]
fn duplicate_id_on_a_disabled_output_is_ignored() {
    let outs = vec![output(4, 0, 0, 800, 600, true), output(4, 800, 0, 0, 0, false)];
    assert_eq!(Monitor::all(&outs).unwrap().len(), 1);
}

#[test]
fn rotation_is_rounded_to_the_nearest_quarter_turn() {
    assert_eq!(Rotation::from_degrees(0), Rotation::Deg0);
    assert_eq!(Rotation::from_degrees(44), Rotation::Deg0);
    assert_eq!(Rotation::from_degrees(45), Rotation::Deg90);
    assert_eq!(Rotation::from_degrees(100), Rotation::Deg90);
    assert_eq!(Rotation::from_degrees(180), Rotation::Deg180);
    assert_eq!(Rotation::from_degrees(269), Rotation::Deg270);
    assert_eq!(Rotation::from_degrees(359), Rotation::Deg0);
    assert_eq!(Rotation::from_degrees(-90), Rotation::Deg270);
    assert_eq!(Rotation::from_degrees(-1), Rotation::Deg0);
    assert_eq!(Rotation::from_degrees(450), Rotation::Deg90);
    assert_eq!(Rotation::from_degrees(i32::MIN), Rotation::Deg270);
    assert_eq!(Rotation::Deg270.degrees(), 270);
}

#[test]
fn reported_rotation_reaches_the_descriptor() {
    let mut o = output(1, 0, 0, 1080, 1920, true);
    o.rotation_degrees = 91;
    let ms = Monitor::all(&vec![o]).unwrap();
    assert_eq!(ms[0].rotation(), Rotation::Deg90);
}

#[test]
fn from_point_finds_the_monitor_holding_the_point() {
    let outs = side_by_side();
    assert_eq!(Monitor::from_point(&outs, 0, 0).unwrap().id(), 1);
    assert_eq!(Monitor::from_point(&outs, 1919, 1079).unwrap().id(), 1);
    assert_eq!(Monitor::from_point(&outs, 1920, 0).unwrap().id(), 2);
    assert_eq!(Monitor::from_point(&outs, 3199, 1023).unwrap().id(), 2);
}

#[test]
fn from_point_outside_every_monitor_is_not_found() {
    let outs = side_by_side();
    assert_eq!(Monitor::from_point(&outs, -100000, -100000).unwrap_err(), XCapError::NotFound);
    assert_eq!(Monitor::from_point(&outs, 3200, 0).unwrap_err(), XCapError::NotFound);
    assert_eq!(Monitor::from_point(&outs, 1920, 1024).unwrap_err(), XCapError::NotFound);
}

#[test]
fn from_point_prefers_the_primary_among_overlapping_monitors() {
    let outs = vec![output(1, 0, 0, 1920, 1080, false), output(2, 0, 0, 1920, 1080, true)];
    let m = Monitor::from_point(&outs, 100, 100).unwrap();
    assert_eq!(m.id(), 2);
    assert!(m.is_primary());
}

#[test]
fn from_point_takes_the_first_when_no_overlapping_monitor_is_primary() {
    let outs = vec![
        output(1, 5000, 0, 100, 100, true),
        output(2, 0, 0, 1920, 1080, false),
        output(3, 0, 0, 1920, 1080, false),
    ];
    assert_eq!(Monitor::from_point(&outs, 10, 10).unwrap().id(), 2);
}

#[test]
fn from_point_handles_negative_coordinates() {
    let outs = vec![output(1, 0, 0, 1920, 1080, true), output(2, -1280, -200, 1280, 1024, false)];
    assert_eq!(Monitor::from_point(&outs, -1, -200).unwrap().id(), 2);
    assert_eq!(Monitor::from_point(&outs, -1281, 0).unwrap_err(), XCapError::NotFound);
}

#[test]
fn setters_change_only_their_field() {
    let mut m = Monitor::all(&side_by_side()).unwrap().remove(1);
    m.set_x(-5);
    m.set_y(7);
    m.set_width(640);
    m.set_height(480);
    assert_eq!((m.x(), m.y(), m.width(), m.height()), (-5, 7, 640, 480));
    assert_eq!(m.id(), 2);
    assert_eq!(m.name(), "display-2");
    assert!(!m.is_primary());
}

#[test]
fn descriptors_are_equal_by_id() {
    let ms = Monitor::all(&side_by_side()).unwrap();
    let mut moved = Monitor::from_point(&side_by_side(), 5, 5).unwrap();
    moved.set_x(300);
    assert!(ms[0] == moved);
    assert!(ms[0] != ms[1]);
}
