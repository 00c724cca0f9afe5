// Images, sound and meshes as bytes.

use tea_sir::io::{parse_audio, parse_image};
use tea_sir::math::vec::{Vec2, Vec3};
use tea_sir::model::Model;
use tea_sir::obj::{parse_obj, Material, ObjError};
use tea_sir::raster::Srgb;

fn arr3(v: Vec3) -> [f32; 3] {
    [f32::from_bits(v.x.to_bits()), f32::from_bits(v.y.to_bits()), f32::from_bits(v.z.to_bits())]
}

fn arr2(v: Vec2) -> [f32; 2] {
    [f32::from_bits(v.x.to_bits()), f32::from_bits(v.y.to_bits())]
}

// A material of the given name whose texture is `width` pixels of one grey.
fn material(name: &str, width: usize) -> Material {
    let grey = width as u8;
    Material {
        name: name.as_bytes().to_vec(),
        width,
        height: 1,
        pixels: vec![Srgb { r: grey, g: grey, b: grey, a: 255 }; width],
    }
}

fn read(text: &str, names: &[&str]) -> Result<Model, ObjError> {
    let materials: Vec<Material> = names.iter().enumerate().map(|(i, n)| material(n, i + 1)).collect();
    parse_obj(text.as_bytes(), &materials)
}

#[test]
fn an_image_is_a_width_a_height_and_pixels() {
    let mut bytes = vec![2, 0, 0, 0, 3, 0, 0, 0];
    for i in 0..24u8 {
        bytes.push(i);
    }
    let (w, h, px) = parse_image(&bytes).unwrap();
    assert_eq!((w, h, px.len()), (2, 3, 6));
    assert_eq!(px[0], Srgb { r: 0, g: 1, b: 2, a: 3 });
    assert_eq!(px[5], Srgb { r: 20, g: 21, b: 22, a: 23 });
    let wide = parse_image(&[0, 1, 0, 0, 0, 0, 0, 0]).unwrap();
    assert_eq!((wide.0, wide.1, wide.2.len()), (256, 0, 0));
    // too short, ragged, or of another size than it says
    assert!(parse_image(&[]).is_none());
    assert!(parse_image(&[1, 0, 0, 0]).is_none());
    assert!(parse_image(&[0, 0, 0, 0, 0, 0, 0, 0, 9]).is_none());
    assert!(parse_image(&[1, 0, 0, 0, 1, 0, 0, 0]).is_none());
    assert!(parse_image(&[1, 0, 0, 0, 2, 0, 0, 0, 1, 2, 3, 4]).is_none());
    assert!(parse_image(&[0xff, 0xff, 0xff, 0xff, 0xff, 0xff, 0xff, 0xff, 1, 2, 3, 4]).is_none());
}

#[test]
fn sound_is_signed_samples_low_byte_first() {
    let samples = parse_audio(&[0x01, 0x00, 0xff, 0x7f, 0x00, 0x80, 0xff, 0xff, 0x34, 0x12]).unwrap();
    assert_eq!(samples, vec![1, i16::MAX, i16::MIN, -1, 0x1234]);
    assert_eq!(samples[4], i16::from_le_bytes([0x34, 0x12]));
    assert_eq!(parse_audio(&[]).unwrap().len(), 0);
    assert!(parse_audio(&[1, 2, 3]).is_none());
}

#[test]
fn a_mesh_is_read_line_by_line() {
    let text = "# a square\nv 0 0 0\nv 1.5 0 -2e3\nv 1 1 0\nv 0 1 0\n\nvn 0 0 1\nf 1 2 3\nf +1 3 4\n";
    let mesh = read(text, &[]).unwrap();
    assert_eq!(mesh.faces, vec![0, 1, 2, 0, 2, 3]);
    assert_eq!(mesh.verts.len(), 4);
    assert_eq!(arr3(mesh.verts[1]), [1.5, 0.0, -2000.0]);
    assert_eq!(arr3(mesh.verts[3]), [0.0, 1.0, 0.0]);
    assert!(mesh.uvs.is_empty() && mesh.face_textures.is_empty() && mesh.textures.is_empty());
    assert_eq!(mesh.validate(), Ok(()));
    let empty = read("", &[]).unwrap();
    assert!(empty.faces.is_empty() && empty.verts.is_empty());
    // the last line needs no line feed, and a carriage return ends a token
    let mesh = read("v 1 2 3\r\nf 1 1 1", &[]).unwrap();
    assert_eq!(mesh.faces, vec![0, 0, 0]);
    assert_eq!(arr3(mesh.verts[0]), [1.0, 2.0, 3.0]);
    // every number that the standard library reads is read
    let mesh = read("v .5 5. 1E2\nv -inf NaN +7e-1\n", &[]).unwrap();
    assert_eq!(arr3(mesh.verts[0]), [0.5, 5.0, 100.0]);
    assert_eq!(arr3(mesh.verts[1])[0], f32::NEG_INFINITY);
    assert!(arr3(mesh.verts[1])[1].is_nan());
    assert_eq!(arr3(mesh.verts[1])[2], 0.7);
}

#[test]
fn faces_with_slashes_bind_texture_coordinates() {
    let text = "v 0 0 0\nv 1 0 0\nv 1 1 0\nvt 0.5 1\nvt 0 0\nusemtl skin\nf 1/1 2/2 3/1\nusemtl coat\nf 3/2/9  2/1/9\t1/1/9\n";
    let mesh = read(text, &["coat", "skin"]).unwrap();
    assert_eq!(mesh.faces, vec![0, 1, 2, 2, 1, 0]);
    assert_eq!(mesh.face_textures, vec![(0, 0), (1, 0), (0, 0), (1, 1), (0, 1), (0, 1)]);
    // the textures of the materials, in the order in which they are named
    assert_eq!(mesh.textures.len(), 2);
    assert_eq!((mesh.textures[0].0, mesh.textures[0].1, mesh.textures[0].2.len()), (2, 1, 2));
    assert_eq!((mesh.textures[1].0, mesh.textures[1].1, mesh.textures[1].2.len()), (1, 1, 1));
    assert_eq!(mesh.textures[0].2[1], Srgb { r: 2, g: 2, b: 2, a: 255 });
    assert_eq!(mesh.uvs.len(), 2);
    assert_eq!(arr2(mesh.uvs[0]), [0.5, 1.0]);
    assert_eq!(mesh.validate(), Ok(()));
    // before any material is named, faces are bound to texture 0
    let mesh = read("f 1/1 2/2 3/3\n", &[]).unwrap();
    assert_eq!(mesh.face_textures, vec![(0, 0), (1, 0), (2, 0)]);
    // a group without a slash on a line with slashes names a vertex only
    let mesh = read("f 1/1 2 3/3\n", &[]).unwrap();
    assert_eq!(mesh.faces, vec![0, 1, 2]);
    assert_eq!(mesh.face_textures, vec![(0, 0), (2, 0)]);
    // the first of two materials of one name is taken
    let mesh = read("usemtl a\n", &["b", "a", "a"]).unwrap();
    assert_eq!(mesh.textures[0].0, 2);
}

#[test]
fn a_token_that_ends_the_line_is_read_again() {
    let mesh = read("v 1 2\nvt 7\nf 5\n", &[]).unwrap();
    assert_eq!(arr3(mesh.verts[0]), [1.0, 2.0, 2.0]);
    assert_eq!(arr2(mesh.uvs[0]), [7.0, 7.0]);
    assert_eq!(mesh.faces, vec![4, 4, 4]);
}

#[test]
fn what_is_wrong_with_a_mesh_is_said() {
    for bad in ["f 1 2 x\n", "f 0 1 2\n", "f 1  2 3\n", "f 1 2 -3\n", "f 1 2 3.0\n", "f 1 + 3\n", "f \n",
        "f 1/ 2/1 3/1\n", "f 1//2 2//2 3//2\n", "f /1 2/1 3/1\n", "f 1/0 2/1 3/1\n",
        "f 1 2 99999999999999999999999999999999999999\n"] {
        assert_eq!(read(bad, &[]).err(), Some(ObjError::BadIndex), "{:?}", bad);
    }
    // two spaces make an empty token, which is no number
    for bad in ["v 1  2 3\n", "v 1 2 x\n", "v \n", "v 1,5 2 3\n", "vt 0.5 1e\n", "vt a b\n", "v 1 2 3f\n"] {
        assert_eq!(read(bad, &[]).err(), Some(ObjError::BadNumber), "{:?}", bad);
    }
    assert_eq!(read("usemtl\n", &["a"]).err(), Some(ObjError::BadMaterialLine));
    assert_eq!(read("usemtl a\n", &[]).err(), Some(ObjError::UnknownMaterial));
    assert_eq!(read("usemtl a\r\n", &["a"]).err(), Some(ObjError::UnknownMaterial));
    assert_eq!(read("usemtl ab\n", &["a", "abc"]).err(), Some(ObjError::UnknownMaterial));
    assert!(read("usemtl \n", &[""]).is_ok());
    // the first thing that is wrong is the one that is said
    assert_eq!(read("v 1 2 3\nusemtl a\nf 1 2 x\n", &[]).err(), Some(ObjError::UnknownMaterial));
    let most = format!("f 1 2 {}\n", usize::MAX);
    assert_eq!(read(&most, &[]).unwrap().faces, vec![0, 1, usize::MAX - 1]);
}

#[test]
fn a_cube_in_text_is_the_cube() {
    let mut text = String::new();
    for (x, y, z) in [(-0.5, -0.5, -0.5), (0.5, -0.5, -0.5), (0.5, 0.5, -0.5), (-0.5, 0.5, -0.5), (-0.5, -0.5, 0.5),
        (0.5, -0.5, 0.5), (0.5, 0.5, 0.5), (-0.5, 0.5, 0.5)] {
        text.push_str(&format!("v {:.6} {:.6} {:.6}\n", x, y, z));
    }
    for f in [[1, 2, 3], [1, 3, 4], [6, 5, 8], [6, 8, 7], [5, 1, 4], [5, 4, 8], [2, 6, 7], [2, 7, 3], [5, 6, 2],
        [5, 2, 1], [4, 3, 7], [4, 7, 8]] {
        text.push_str(&format!("f {} {} {}\n", f[0], f[1], f[2]));
    }
    let mesh = read(&text, &[]).unwrap();
    assert_eq!(mesh.validate(), Ok(()));
    assert_eq!((mesh.verts.len(), mesh.faces.len()), (8, 36));
    let obb = tea_sir::model::compute_obb(&mesh);
    assert_eq!([arr3(obb.min), arr3(obb.max)], [[-0.5, -0.5, -0.5], [0.5, 0.5, 0.5]]);
}
