//! Tests for glTF buffer data placement.

use all_is_cubes::gltf_buffer::{GltfDataDestination, GltfWriteError};

#[test]
fn discard() {
    let d = GltfDataDestination::null();
    let (buffer_entity, file) = d.write(String::from("foo"), "bar", vec![1, 2, 3]).unwrap();
    assert_eq!(buffer_entity.name, Some(String::from("foo")));
    assert_eq!(buffer_entity.uri, None);
    assert_eq!(buffer_entity.byte_length, 3);
    assert!(file.is_none());
}

#[test]
fn inline_only_success() {
    let d = GltfDataDestination::new(None, usize::MAX);
    let (buffer_entity, file) = d.write(String::from("foo"), "bar", vec![1, 2, 255]).unwrap();
    assert_eq!(buffer_entity.name, Some(String::from("foo")));
    assert_eq!(
        buffer_entity.uri.as_deref(),
        Some("data:application/gltf-buffer;base64,AQL/") // AQL/ = 000000 010000 001011 111111
    );
    assert_eq!(buffer_entity.byte_length, 3);
    assert!(file.is_none());
}

#[test]
fn inline_only_failure() {
    let d = GltfDataDestination::new(None, 1);
    let error = d.write(String::from("foo"), "bar", vec![1, 2, 255]).unwrap_err();
    assert_eq!(error, GltfWriteError::NoDestination { limit: 1 });
    assert_eq!(
        error.message(),
        "no destination was provided for glTF buffers > 1 bytes"
    );
}

#[test]
fn over_limit_goes_to_sidecar_file() {
    let d = GltfDataDestination::new(Some(String::from("basepath")), 3);
    let (buffer_entity, file) =
        d.write(String::from("foo"), "bar", vec![1, 2, 3, 4, 5, 6]).unwrap();
    assert_eq!(buffer_entity.name, Some(String::from("foo")));
    // The URL is relative, not an absolute path.
    assert_eq!(buffer_entity.uri.as_deref(), Some("basepath-bar.glbin"));
    assert_eq!(buffer_entity.byte_length, 6);
    let file = file.unwrap();
    assert_eq!(file.relative_name, String::from("basepath-bar.glbin"));
    assert_eq!(file.contents, vec![1, 2, 3, 4, 5, 6]);
}
