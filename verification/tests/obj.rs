use rasterizer::color::Color;
use rasterizer::obj::{Obj, RawMesh};
use rasterizer::scalar::Scalar;
use rasterizer::vector::{Vec2, Vec3};

fn flat(values: &[f32]) -> Vec<Scalar> {
    values.iter().map(|v| Scalar::from_bits(v.to_bits())).collect()
}

fn vec3(x: f32, y: f32, z: f32) -> Vec3 {
    Vec3::from_bits(x.to_bits(), y.to_bits(), z.to_bits())
}

fn vec2(x: f32, y: f32) -> Vec2 {
    Vec2::from_bits(x.to_bits(), y.to_bits())
}

#[test]
fn vertices_follow_the_indices() {
    let mesh = RawMesh {
        positions: flat(&[0.0, 0.0, 0.0, 1.0, 0.5, 0.0, 0.0, -1.0, 2.0]),
        normals: flat(&[0.0, 0.0, 1.0, 0.0, 1.0, 0.0, 1.0, 0.0, 0.0]),
        texcoords: flat(&[0.0, 1.0, 1.0, 0.75, 0.5, 0.0]),
        indices: vec![2, 0, 1, 2],
    };
    let vertices = Obj::load(vec![mesh]).get_vertex_array();
    assert_eq!(vertices.len(), 4);
    assert_eq!(vertices[0].position, vec3(0.0, -1.0, 2.0));
    assert_eq!(vertices[0].normal, vec3(1.0, 0.0, 0.0));
    assert_eq!(vertices[0].tex_coords, vec2(0.5, 0.0));
    assert_eq!(vertices[0].elevation, Scalar::from_bits((-1.0f32).to_bits()));
    assert_eq!(vertices[1].position, vec3(0.0, 0.0, 0.0));
    assert_eq!(vertices[2].position, vec3(1.0, 0.5, 0.0));
    assert_eq!(vertices[2].tex_coords, vec2(1.0, 0.75));
    assert_eq!(vertices[3], vertices[0]);
    for v in &vertices {
        assert_eq!(v.color, Color::black());
        assert_eq!(v.transformed_position, v.position);
        assert_eq!(v.transformed_normal, v.normal);
        assert_eq!(v.elevation, v.position.y);
    }
}

#[test]
fn missing_normals_point_up_and_missing_texcoords_are_the_origin() {
    let mesh = RawMesh {
        positions: flat(&[0.0, 0.0, 0.0, 1.0, 2.0, 3.0]),
        normals: Vec::new(),
        texcoords: Vec::new(),
        indices: vec![1, 0],
    };
    let vertices = Obj::load(vec![mesh]).get_vertex_array();
    assert_eq!(vertices.len(), 2);
    for v in &vertices {
        assert_eq!(v.normal, vec3(0.0, 1.0, 0.0));
        assert_eq!(v.transformed_normal, vec3(0.0, 1.0, 0.0));
        assert_eq!(v.tex_coords, vec2(0.0, 0.0));
    }
    assert_eq!(vertices[0].position, vec3(1.0, 2.0, 3.0));
}

#[test]
fn normals_for_some_positions_only() {
    let mesh = RawMesh {
        positions: flat(&[0.0, 0.0, 0.0, 1.0, 2.0, 3.0]),
        normals: flat(&[0.0, 0.0, -1.0]),
        texcoords: flat(&[0.25, 0.5]),
        indices: vec![0, 1],
    };
    let vertices = Obj::load(vec![mesh]).get_vertex_array();
    assert_eq!(vertices[0].normal, vec3(0.0, 0.0, -1.0));
    assert_eq!(vertices[0].tex_coords, vec2(0.25, 0.5));
    assert_eq!(vertices[1].normal, vec3(0.0, 1.0, 0.0));
    assert_eq!(vertices[1].tex_coords, vec2(0.0, 0.0));
}

#[test]
fn meshes_come_one_after_the_other() {
    let first = RawMesh {
        positions: flat(&[1.0, 1.0, 1.0]),
        normals: Vec::new(),
        texcoords: Vec::new(),
        indices: vec![0, 0],
    };
    let second = RawMesh {
        positions: flat(&[2.0, 2.0, 2.0, 3.0, 3.0, 3.0]),
        normals: Vec::new(),
        texcoords: Vec::new(),
        indices: vec![1, 0, 1],
    };
    let empty = RawMesh {
        positions: Vec::new(),
        normals: Vec::new(),
        texcoords: Vec::new(),
        indices: Vec::new(),
    };
    let vertices = Obj::load(vec![first, empty, second]).get_vertex_array();
    let heights: Vec<f32> =
        vertices.iter().map(|v| f32::from_bits(v.elevation.to_bits())).collect();
    assert_eq!(heights, vec![1.0, 1.0, 3.0, 2.0, 3.0]);
}

#[test]
fn object_without_meshes_has_no_vertices() {
    assert!(Obj::load(Vec::new()).get_vertex_array().is_empty());
}

#[test]
fn whole_meshes_have_whole_vectors() {
    let mut mesh = RawMesh {
        positions: flat(&[0.0, 0.0, 0.0]),
        normals: flat(&[0.0, 1.0, 0.0]),
        texcoords: flat(&[0.5, 0.5]),
        indices: vec![0],
    };
    assert!(mesh.is_whole());
    mesh.positions.push(Scalar::from_bits(0));
    assert!(!mesh.is_whole());
    mesh.positions.pop();
    mesh.normals.pop();
    assert!(!mesh.is_whole());
    mesh.normals.clear();
    assert!(mesh.is_whole());
    mesh.texcoords.pop();
    assert!(!mesh.is_whole());
}

#[test]
fn indices_beyond_the_positions_are_found() {
    let good = RawMesh {
        positions: flat(&[0.0, 0.0, 0.0, 1.0, 1.0, 1.0]),
        normals: Vec::new(),
        texcoords: Vec::new(),
        indices: vec![0, 1, 1, 0],
    };
    let bad = RawMesh {
        positions: flat(&[0.0, 0.0, 0.0, 1.0, 1.0, 1.0]),
        normals: Vec::new(),
        texcoords: Vec::new(),
        indices: vec![0, 1, 2],
    };
    let empty = RawMesh {
        positions: Vec::new(),
        normals: Vec::new(),
        texcoords: Vec::new(),
        indices: vec![0],
    };
    assert!(Obj::load(Vec::new()).is_indexable());
    assert!(Obj::load(vec![good]).is_indexable());
    assert!(!Obj::load(vec![bad]).is_indexable());
    assert!(!Obj::load(vec![empty]).is_indexable());
}
