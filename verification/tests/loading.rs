use glam::{Affine3A, Vec2, Vec3};
use obj_mesh::{load_bytes, Face, ObjError};

#[test]
fn round_trip_sample() {
    let src = b"v 0 0 0\nv 1 0 0\nv 1 1 0\nv 0 1 0\nf 1 2 3 4\n";
    let (mesh, faces) = load_bytes(src, Affine3A::IDENTITY).unwrap();
    assert_eq!(
        mesh.p,
        vec![
            Vec3::new(0.0, 0.0, 0.0),
            Vec3::new(1.0, 0.0, 0.0),
            Vec3::new(1.0, 1.0, 0.0),
            Vec3::new(0.0, 1.0, 0.0),
        ]
    );
    assert_eq!(faces, vec![Face(0, 1, 2), Face(0, 2, 3)]);
    assert!(mesh.uv.is_empty());
    assert!(mesh.n.is_empty());
}

#[test]
fn quad_fan_pivots_on_first_corner() {
    let src = b"v 0 0 0\nv 2 0 0\nv 2 2 0\nv 0 2 0\nf 1 2 3 4\n";
    let (_, faces) = load_bytes(src, Affine3A::IDENTITY).unwrap();
    assert_eq!(faces, vec![Face(0, 1, 2), Face(0, 2, 3)]);
}

#[test]
fn welding_deduplicates_equal_triples() {
    let src = b"v 0 0 0\nv 1 0 0\nv 0 1 0\nf 1 2 3\nf 1 2 3\n";
    let (mesh, faces) = load_bytes(src, Affine3A::IDENTITY).unwrap();
    assert_eq!(mesh.p.len(), 3);
    assert_eq!(faces, vec![Face(0, 1, 2), Face(0, 1, 2)]);
}

#[test]
fn welding_repeated_corner_in_one_face() {
    let src = b"v 0 0 0\nv 1 0 0\nf 1 2 1\n";
    let (mesh, faces) = load_bytes(src, Affine3A::IDENTITY).unwrap();
    assert_eq!(mesh.p.len(), 2);
    assert_eq!(faces, vec![Face(0, 1, 0)]);
}

#[test]
fn relative_index_matches_positive_index() {
    let a = b"v 0 0 0\nv 1 1 1\nf 2 1 2\n";
    let b = b"v 0 0 0\nv 1 1 1\nf -1 1 -1\n";
    let (mesh_a, faces_a) = load_bytes(a, Affine3A::IDENTITY).unwrap();
    let (mesh_b, faces_b) = load_bytes(b, Affine3A::IDENTITY).unwrap();
    assert_eq!(mesh_a.p, mesh_b.p);
    assert_eq!(faces_a, faces_b);
    assert_eq!(faces_a, vec![Face(0, 1, 0)]);
}

#[test]
fn face_with_two_corners_is_rejected() {
    let src = b"v 0 0 0\nv 1 0 0\nf 1 2\n";
    assert_eq!(
        load_bytes(src, Affine3A::IDENTITY).err(),
        Some(ObjError::UnsupportedFaceArity(2))
    );
}

#[test]
fn face_with_five_corners_is_rejected() {
    let src = b"v 0 0 0\nf 1 1 1 1 1\n";
    assert_eq!(
        load_bytes(src, Affine3A::IDENTITY).err(),
        Some(ObjError::UnsupportedFaceArity(5))
    );
}

#[test]
fn face_with_no_corners_is_rejected() {
    let src = b"v 0 0 0\nf\n";
    assert_eq!(
        load_bytes(src, Affine3A::IDENTITY).err(),
        Some(ObjError::UnsupportedFaceArity(0))
    );
}

#[test]
fn malformed_corner_reference() {
    let src = b"f a\n";
    assert_eq!(
        load_bytes(src, Affine3A::IDENTITY).err(),
        Some(ObjError::MalformedScalar)
    );
}

#[test]
fn empty_position_field_is_missing_position_index() {
    let src = b"v 0 0 0\nf /1 1 1\n";
    assert_eq!(
        load_bytes(src, Affine3A::IDENTITY).err(),
        Some(ObjError::MissingPositionIndex)
    );
}

#[test]
fn missing_scalar_in_position_record() {
    let src = b"v 1 2\n";
    assert_eq!(
        load_bytes(src, Affine3A::IDENTITY).err(),
        Some(ObjError::MissingScalar)
    );
}

#[test]
fn malformed_scalar_in_position_record() {
    let src = b"v 1 2 x\n";
    assert_eq!(
        load_bytes(src, Affine3A::IDENTITY).err(),
        Some(ObjError::MalformedScalar)
    );
}

#[test]
fn missing_scalar_in_texture_record() {
    let src = b"vt 1\n";
    assert_eq!(
        load_bytes(src, Affine3A::IDENTITY).err(),
        Some(ObjError::MissingScalar)
    );
}

#[test]
fn zero_position_index_is_rejected() {
    let src = b"v 0 0 0\nf 0 1 1\n";
    assert_eq!(
        load_bytes(src, Affine3A::IDENTITY).err(),
        Some(ObjError::MalformedScalar)
    );
}

#[test]
fn out_of_range_position_index_is_rejected() {
    let src = b"v 0 0 0\nf 2 1 1\n";
    assert_eq!(
        load_bytes(src, Affine3A::IDENTITY).err(),
        Some(ObjError::MalformedScalar)
    );
}

#[test]
fn out_of_range_texture_index_is_rejected() {
    let src = b"v 0 0 0\nf 1/1 1 1\n";
    assert_eq!(
        load_bytes(src, Affine3A::IDENTITY).err(),
        Some(ObjError::MalformedScalar)
    );
}

#[test]
fn unparsable_texture_field_is_rejected() {
    let src = b"v 0 0 0\nvt 0 0\nf 1/x 1 1\n";
    assert_eq!(
        load_bytes(src, Affine3A::IDENTITY).err(),
        Some(ObjError::MalformedScalar)
    );
}

#[test]
fn unparsable_normal_field_is_rejected() {
    let src = b"v 0 0 0\nvn 0 0 1\nf 1//y 1 1\n";
    assert_eq!(
        load_bytes(src, Affine3A::IDENTITY).err(),
        Some(ObjError::MalformedScalar)
    );
}

#[test]
fn empty_attribute_fields_are_absent() {
    let src = b"v 0 0 0\nvt 0 0\nf 1/ 1 1/\n";
    let (mesh, faces) = load_bytes(src, Affine3A::IDENTITY).unwrap();
    assert_eq!(mesh.p.len(), 1);
    assert!(mesh.uv.is_empty());
    assert_eq!(faces, vec![Face(0, 0, 0)]);
}

#[test]
fn texture_and_normal_are_copied_when_present() {
    let src = b"v 0 0 0\nvt 0.5 0.25\nvn 0 0 1\nf 1/1/1 1/1/1 1/1/1\n";
    let (mesh, faces) = load_bytes(src, Affine3A::IDENTITY).unwrap();
    assert_eq!(mesh.p.len(), 1);
    assert_eq!(mesh.uv, vec![Vec2::new(0.5, 0.25)]);
    assert_eq!(mesh.n, vec![Vec3::new(0.0, 0.0, 1.0)]);
    assert_eq!(faces, vec![Face(0, 0, 0)]);
}

#[test]
fn mixed_attribute_presence_misaligns_outputs() {
    let src = b"v 0 0 0\nvt 0.5 0.25\nf 1/1 1 1/1\n";
    let (mesh, faces) = load_bytes(src, Affine3A::IDENTITY).unwrap();
    assert_eq!(mesh.p.len(), 2);
    assert_eq!(mesh.uv.len(), 1);
    assert_eq!(faces, vec![Face(0, 1, 0)]);
}

#[test]
fn transform_is_applied_to_positions_and_normals() {
    let t = Affine3A::from_translation(Vec3::new(1.0, 2.0, 3.0));
    let src = b"v 0 0 0\nvn 0 0 1\nf 1//1 1//1 1//1\n";
    let (mesh, _) = load_bytes(src, t).unwrap();
    assert_eq!(mesh.p, vec![Vec3::new(1.0, 2.0, 3.0)]);
    assert_eq!(mesh.n, vec![Vec3::new(0.0, 0.0, 1.0)]);
}

#[test]
fn unknown_records_and_blank_lines_are_ignored() {
    let src = b"# a comment\n\no thing\ng grp\ns 1\nusemtl m\nv 0 0 0\nv 1 0 0\nv 0 1 0\nf 1 2 3\n";
    let (mesh, faces) = load_bytes(src, Affine3A::IDENTITY).unwrap();
    assert_eq!(mesh.p.len(), 3);
    assert_eq!(faces, vec![Face(0, 1, 2)]);
}

#[test]
fn extra_tokens_are_ignored() {
    let src = b"v 0 0 0 9 9\nvt 0 0 9\nv 1 0 0\nv 0 1 0\nf 1 2 3 \n";
    let (mesh, faces) = load_bytes(src, Affine3A::IDENTITY).unwrap();
    assert_eq!(mesh.p.len(), 3);
    assert_eq!(faces, vec![Face(0, 1, 2)]);
}

#[test]
fn float_scalar_formats_are_accepted() {
    let src = b"v 1e0 -2.5 .5\nv 0 0 0\nv 0 1 0\nf 1 2 3\n";
    let (mesh, _) = load_bytes(src, Affine3A::IDENTITY).unwrap();
    assert_eq!(mesh.p[0], Vec3::new(1.0, -2.5, 0.5));
}

#[test]
fn crlf_line_endings_are_accepted() {
    let src = b"v 0 0 0\r\nv 1 0 0\r\nv 0 1 0\r\nf 1 2 3\r\n";
    let (mesh, faces) = load_bytes(src, Affine3A::IDENTITY).unwrap();
    assert_eq!(mesh.p.len(), 3);
    assert_eq!(faces, vec![Face(0, 1, 2)]);
}

#[test]
fn empty_input_yields_empty_mesh() {
    let (mesh, faces) = load_bytes(b"", Affine3A::IDENTITY).unwrap();
    assert!(mesh.p.is_empty());
    assert!(mesh.uv.is_empty());
    assert!(mesh.n.is_empty());
    assert!(faces.is_empty());
}
