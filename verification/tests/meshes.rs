use voxel_mesh::{
    assemble, create_cube_mesh, face_of, random_hues, Chunk, ChunkCoord, Dimensions, Direction,
    IVec3, Mesh, Neighbors, Quad, Rgba,
};

fn v(x: i32, y: i32, z: i32) -> IVec3 {
    IVec3::new(x, y, z)
}

fn check_well_formed(mesh: &Mesh) {
    assert_eq!(mesh.positions.len(), mesh.normals.len());
    assert_eq!(mesh.positions.len(), mesh.colors.len());
    assert_eq!(mesh.indices.len() % 3, 0);
    assert_eq!(mesh.indices.len() % 6, 0);
    assert_eq!(mesh.indices.len() / 6, mesh.positions.len() / 4);
    for &i in &mesh.indices {
        assert!((i as usize) < mesh.positions.len());
    }
    for (i, c) in mesh.colors.iter().enumerate() {
        assert_eq!(*c, mesh.colors[4 * (i / 4)]);
        assert_eq!((c.r, c.g, c.a), (0, 0, 255));
    }
}

#[test]
fn assemble_lays_out_corners_normals_colors_and_indices() {
    let quads = vec![face_of(0, 0, 0, Direction::PlusX), face_of(1, 2, 3, Direction::MinusY)];
    let mesh = assemble(&quads, &vec![10, 200]);
    assert_eq!(
        mesh.positions,
        vec![
            v(1, -1, -1),
            v(1, 1, -1),
            v(1, 1, 1),
            v(1, -1, 1),
            v(1, 3, 5),
            v(3, 3, 5),
            v(3, 3, 7),
            v(1, 3, 7),
        ]
    );
    assert_eq!(
        mesh.normals,
        vec![
            v(1, 0, 0),
            v(1, 0, 0),
            v(1, 0, 0),
            v(1, 0, 0),
            v(0, -1, 0),
            v(0, -1, 0),
            v(0, -1, 0),
            v(0, -1, 0),
        ]
    );
    let first = Rgba { r: 0, g: 0, b: 10, a: 255 };
    let second = Rgba { r: 0, g: 0, b: 200, a: 255 };
    assert_eq!(
        mesh.colors,
        vec![first, first, first, first, second, second, second, second]
    );
    assert_eq!(mesh.indices, vec![0, 1, 2, 2, 3, 0, 4, 5, 6, 6, 7, 4]);
    check_well_formed(&mesh);
}

#[test]
fn assemble_of_nothing_is_an_empty_mesh() {
    let mesh = assemble(&Vec::<Quad>::new(), &Vec::new());
    assert!(mesh.positions.is_empty());
    assert!(mesh.normals.is_empty());
    assert!(mesh.colors.is_empty());
    assert!(mesh.indices.is_empty());
    let empty = Mesh::empty();
    assert!(empty.positions.is_empty() && empty.indices.is_empty());
    check_well_formed(&empty);
}

#[test]
fn triangles_of_a_quad_face_along_its_normal() {
    let quads: Vec<Quad> = [
        Direction::PlusX,
        Direction::MinusX,
        Direction::PlusY,
        Direction::MinusY,
        Direction::PlusZ,
        Direction::MinusZ,
    ]
    .iter()
    .map(|d| face_of(2, 3, 4, *d))
    .collect();
    let mesh = assemble(&quads, &vec![0; 6]);
    for t in mesh.indices.chunks(3) {
        let (a, b, c) = (
            mesh.positions[t[0] as usize],
            mesh.positions[t[1] as usize],
            mesh.positions[t[2] as usize],
        );
        let (ux, uy, uz) = (b.x - a.x, b.y - a.y, b.z - a.z);
        let (wx, wy, wz) = (c.x - a.x, c.y - a.y, c.z - a.z);
        let cross = v(uy * wz - uz * wy, uz * wx - ux * wz, ux * wy - uy * wx);
        let n = mesh.normals[t[0] as usize];
        assert_eq!(cross, v(4 * n.x, 4 * n.y, 4 * n.z));
    }
}

#[test]
fn random_hues_gives_as_many_as_asked() {
    assert_eq!(random_hues(0).len(), 0);
    assert_eq!(random_hues(1).len(), 1);
    assert_eq!(random_hues(257).len(), 257);
}

#[test]
fn chunk_mesh_is_well_formed() {
    let dims = Dimensions::new(4, 5).unwrap();
    let surface = vec![1, 2, 3, 4, 5, 4, 3, 2, 1, 0, 1, 2, 3, 3, 3, 3];
    let chunk = Chunk::new(0, dims, ChunkCoord { x: 0, z: 0 }, &surface).unwrap();
    let mesh = create_cube_mesh(&chunk, &Neighbors::none());
    assert!(!mesh.positions.is_empty());
    check_well_formed(&mesh);
    // Every corner lies on the lattice of block corners.
    for p in &mesh.positions {
        assert!(p.x.rem_euclid(2) == 1 && p.y.rem_euclid(2) == 1 && p.z.rem_euclid(2) == 1);
        assert!(-1 <= p.x && p.x <= 7 && -1 <= p.y && p.y <= 9 && -1 <= p.z && p.z <= 7);
    }
}
