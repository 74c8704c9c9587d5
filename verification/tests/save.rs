use scene::save::{
    cap_to_u8, deserialise, mode_to_u8, resolve_version, serialise_frame, shape_to_u8, u8_to_cap,
    u8_to_mode, u8_to_shape,
};
use scene::sprite::{Cap, DrawingMode, Shape};

#[test]
fn test_codes() {
    assert_eq!(mode_to_u8(DrawingMode::Cone), 1);
    assert_eq!(mode_to_u8(DrawingMode::Line), 3);
    assert_eq!(u8_to_mode(9), DrawingMode::Freehand);
    assert_eq!(shape_to_u8(Shape::Rectangle), 4);
    assert_eq!(u8_to_shape(2), Shape::Hexagon);
    assert_eq!(u8_to_shape(0), Shape::Rectangle);
    assert_eq!(cap_to_u8(Cap::Plain), 255);
    assert_eq!(u8_to_cap(2), Cap::Round);
    assert_eq!(u8_to_cap(7), Cap::Plain);
    for mode in [DrawingMode::Cone, DrawingMode::Freehand, DrawingMode::Line] {
        assert_eq!(u8_to_mode(mode_to_u8(mode)), mode);
    }
    for cap in [Cap::Arrow, Cap::Plain, Cap::Round] {
        assert_eq!(u8_to_cap(cap_to_u8(cap)), cap);
    }
}

#[test]
fn test_frame_layout() {
    let bytes = serialise_frame(1, &vec![7, 8, 9]);
    assert_eq!(bytes, vec![1, 0, 0, 0, 3, 0, 0, 0, 0, 0, 0, 0, 7, 8, 9]);
}

#[test]
fn test_frame_round_trip() {
    let data: Vec<u8> = (0..40).collect();
    let bytes = serialise_frame(3, &data);
    let read = deserialise(&bytes, |d: &[u8]| Ok::<Vec<u8>, String>(d.to_vec()));
    assert_eq!(read, Ok(data));
}

#[test]
fn test_deserialise_refuses_short_bytes() {
    match deserialise(&[1, 0, 0], |d: &[u8]| Ok::<usize, String>(d.len())) {
        Err(msg) => assert!(msg.starts_with("Deserialisation failed, error: ")),
        Ok(_) => panic!("short bytes were read"),
    }
}

#[test]
fn test_deserialise_unknown_version() {
    let bytes = serialise_frame(7, &vec![1, 2]);
    let read = deserialise(&bytes, |_: &[u8]| Err::<u8, String>("bad data".to_string()));
    assert_eq!(read, Err("Unknown serialisation version: 7".to_string()));
    // Version 1 passes on the reading's own error.
    let bytes = serialise_frame(1, &vec![1, 2]);
    let read = deserialise(&bytes, |_: &[u8]| Err::<u8, String>("bad data".to_string()));
    assert_eq!(read, Err("bad data".to_string()));
}

#[test]
fn test_resolve_version() {
    assert_eq!(resolve_version(1, Ok::<u8, String>(5)), Ok(5));
    assert_eq!(resolve_version(12, Ok::<u8, String>(5)), Ok(5));
    assert_eq!(
        resolve_version(1234, Err::<u8, String>("x".to_string())),
        Err("Unknown serialisation version: 1234".to_string())
    );
    assert_eq!(
        resolve_version(0, Err::<u8, String>("x".to_string())),
        Err("Unknown serialisation version: 0".to_string())
    );
}
