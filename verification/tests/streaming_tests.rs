use waystream::compositor::{composite_into, SourceFrame};
use waystream::flags::{set_flags, ArgKind};
use waystream::geometry::CaptureRegion;
use waystream::intersect::{
    bounding_box, intersecting_outputs, plan_capture, resolve_capture_target, OutputInfo,
};
use waystream::pump::{PumpPhase, PumpState};
use waystream::StreamError;

fn region(x: i32, y: i32, w: i32, h: i32) -> CaptureRegion {
    CaptureRegion { x_coordinate: x, y_coordinate: y, width: w, height: h }
}

fn output(name: &str, x: i32, y: i32, w: i32, h: i32) -> OutputInfo {
    OutputInfo { name: String::from(name), dimensions: region(x, y, w, h) }
}

fn two_outputs() -> Vec<OutputInfo> {
    vec![output("left", 0, 0, 1920, 1080), output("right", 1920, 0, 1920, 1080)]
}

// --- intersection ---

#[test]
fn intersects_across_two_outputs() {
    let outs = two_outputs();
    let target = region(1000, 100, 1600, 400);
    let entries = intersecting_outputs(&outs, &target);
    assert_eq!(entries.len(), 2);
    assert_eq!(entries[0].output_index, 0);
    assert_eq!(entries[0].region, region(1000, 100, 1600, 400));
    assert_eq!(entries[1].output_index, 1);
    assert_eq!(entries[1].region, region(-920, 100, 1600, 400));
}

#[test]
fn excludes_outputs_touched_only_at_the_edge() {
    let outs = two_outputs();
    let target = region(1920, 0, 10, 10);
    let entries = intersecting_outputs(&outs, &target);
    assert_eq!(entries.len(), 1);
    assert_eq!(entries[0].output_index, 1);
    assert_eq!(entries[0].region, region(0, 0, 10, 10));
}

#[test]
fn rejects_a_target_outside_all_outputs() {
    let outs = two_outputs();
    let target = region(10000, 10000, 100, 100);
    assert_eq!(intersecting_outputs(&outs, &target).len(), 0);
    let planned = plan_capture(&outs, &target);
    assert_eq!(planned.err(), Some(StreamError::NoIntersectingOutputs));
}

#[test]
fn rejects_an_empty_target() {
    let outs = two_outputs();
    let target = region(100, 100, 0, 50);
    let planned = plan_capture(&outs, &target);
    assert_eq!(planned.err(), Some(StreamError::NoIntersectingOutputs));
}

#[test]
fn plans_a_single_output_capture() {
    let outs = two_outputs();
    let target = region(10, 20, 30, 40);
    let planned = plan_capture(&outs, &target).unwrap();
    assert_eq!(planned.len(), 1);
    assert_eq!(planned[0].output_index, 0);
    assert_eq!(planned[0].region, region(10, 20, 30, 40));
}

// --- bounding box and target resolution ---

#[test]
fn bounds_two_side_by_side_outputs() {
    let outs = two_outputs();
    assert_eq!(bounding_box(&outs), region(0, 0, 3840, 1080));
}

#[test]
fn bounds_outputs_with_negative_origin() {
    let outs = vec![output("a", -100, -50, 200, 100), output("b", 0, 0, 1920, 1080)];
    assert_eq!(bounding_box(&outs), region(-100, -50, 2020, 1130));
}

#[test]
fn bounds_no_outputs_to_the_origin() {
    let outs: Vec<OutputInfo> = Vec::new();
    assert_eq!(bounding_box(&outs), region(0, 0, 0, 0));
}

#[test]
fn resolves_an_explicit_region() {
    let outs = two_outputs();
    assert_eq!(resolve_capture_target(Some("1,2 3x4"), &outs), Ok(region(1, 2, 3, 4)));
}

#[test]
fn resolves_a_bad_region_to_a_configuration_error() {
    let outs = two_outputs();
    let r = resolve_capture_target(Some("nonsense"), &outs);
    assert_eq!(r, Err(StreamError::InvalidGeometry));
    assert!(StreamError::InvalidGeometry.is_configuration_error());
}

#[test]
fn resolves_no_region_to_the_bounding_box() {
    let outs = two_outputs();
    assert_eq!(resolve_capture_target(None, &outs), Ok(region(0, 0, 3840, 1080)));
}

// --- compositor ---

#[test]
fn copies_one_row_between_strides() {
    // source stride 8192, width 1920, height 1; destination stride 7680
    let mut src = vec![0u8; 8192];
    for i in 0..8192 {
        src[i] = (i % 251) as u8;
    }
    let mut dst = vec![0xAAu8; 7680];
    composite_into(&mut dst, 7680, &src, 8192, 1920, 1);
    for i in 0..7680 {
        assert_eq!(dst[i], src[i]);
    }
}

#[test]
fn leaves_destination_padding_untouched() {
    let mut src = vec![0u8; 8192];
    for i in 0..8192 {
        src[i] = (i % 251) as u8;
    }
    let mut dst = vec![0xAAu8; 8000];
    composite_into(&mut dst, 8000, &src, 8192, 1920, 1);
    for i in 0..7680 {
        assert_eq!(dst[i], src[i]);
    }
    for i in 7680..8000 {
        assert_eq!(dst[i], 0xAA);
    }
}

#[test]
fn copies_rows_at_their_own_strides() {
    // width 2 pixels (8 bytes), height 3; source stride 12, destination 10
    let mut src = vec![0u8; 3 * 12];
    for i in 0..src.len() {
        src[i] = i as u8;
    }
    let mut dst = vec![0xEEu8; 3 * 10];
    composite_into(&mut dst, 10, &src, 12, 2, 3);
    for row in 0..3 {
        for k in 0..8 {
            assert_eq!(dst[row * 10 + k], src[row * 12 + k]);
        }
        for k in 8..10 {
            assert_eq!(dst[row * 10 + k], 0xEE);
        }
    }
}

// --- frame pump ---

fn source_frame(width: usize, height: usize, stride: usize, fill: u8) -> SourceFrame {
    SourceFrame { data: vec![fill; height * stride], width, height, stride }
}

#[test]
fn stamps_consecutive_frames_with_increasing_timestamps() {
    let mut pump = PumpState::new(2, 1, 8, 20);
    let mut timestamps = Vec::new();
    for n in 0..3 {
        let frame = pump.produce_frame(Some(vec![source_frame(2, 1, 8, n as u8)])).unwrap();
        assert_eq!(frame.width, 2);
        assert_eq!(frame.height, 1);
        assert_eq!(frame.stride, 8);
        timestamps.push(frame.timestamp_ms);
    }
    assert_eq!(timestamps, vec![0, 20, 40]);
    assert_eq!(pump.frame_index, 3);
    assert_eq!(pump.phase, PumpPhase::Idle);
}

#[test]
fn composites_the_source_bytes_into_the_frame() {
    let mut pump = PumpState::new(2, 2, 12, 40);
    let mut source = source_frame(2, 2, 16, 0);
    for i in 0..source.data.len() {
        source.data[i] = i as u8;
    }
    let frame = pump.produce_frame(Some(vec![source])).unwrap();
    assert_eq!(frame.data.len(), 2 * 12);
    for row in 0..2 {
        for k in 0..8 {
            assert_eq!(frame.data[row * 12 + k], (row * 16 + k) as u8);
        }
        // padding bytes of a fresh frame are zero
        for k in 8..12 {
            assert_eq!(frame.data[row * 12 + k], 0);
        }
    }
}

#[test]
fn terminates_when_the_capture_collaborator_fails() {
    let mut pump = PumpState::new(2, 1, 8, 20);
    let r = pump.produce_frame(None);
    assert_eq!(r.err(), Some(StreamError::CaptureFailure));
    assert_eq!(pump.phase, PumpPhase::Terminated);
    assert_eq!(pump.frame_index, 0);
}

#[test]
fn terminates_when_no_source_frame_arrives() {
    let mut pump = PumpState::new(2, 1, 8, 20);
    let r = pump.produce_frame(Some(Vec::new()));
    assert_eq!(r.err(), Some(StreamError::CaptureFailure));
    assert_eq!(pump.phase, PumpPhase::Terminated);
}

#[test]
fn terminates_on_an_undersized_source_frame() {
    let mut pump = PumpState::new(1920, 1080, 7680, 20);
    // a source whose rows are too short for the negotiated width
    let small = source_frame(16, 1080, 64, 1);
    let r = pump.produce_frame(Some(vec![small]));
    assert_eq!(r.err(), Some(StreamError::CaptureFailure));
    assert_eq!(pump.phase, PumpPhase::Terminated);
    assert_eq!(pump.frame_index, 0);
}

// --- flags and errors ---

#[test]
fn lists_the_full_flag_table() {
    let flags = set_flags();
    assert_eq!(flags.len(), 13);
    assert_eq!(flags[0].name, "debug");
    assert_eq!(flags[0].kind, ArgKind::Toggle);
    assert_eq!(flags[1].name, "slurp");
    assert_eq!(flags[6].name, "http-port");
    assert_eq!(flags[6].kind, ArgKind::PortNumber);
    assert_eq!(flags[8].name, "udp-port");
    assert_eq!(flags[8].kind, ArgKind::SignedNumber);
    assert_eq!(flags[12].name, "output");
    assert_eq!(flags[12].conflicts_with, Some("slurp"));
    for f in &flags {
        assert!(!f.help.is_empty());
    }
}

#[test]
fn tells_configuration_errors_from_runtime_errors() {
    assert!(StreamError::InvalidGeometry.is_configuration_error());
    assert!(StreamError::NoIntersectingOutputs.is_configuration_error());
    assert!(!StreamError::CaptureFailure.is_configuration_error());
    assert!(!StreamError::SinkFailure.is_configuration_error());
    assert_eq!(StreamError::CaptureFailure.message(), "output capture failed");
    assert_eq!(
        StreamError::NoIntersectingOutputs.message(),
        "capture region does not intersect any output"
    );
}
