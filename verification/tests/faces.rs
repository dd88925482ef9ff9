use voxel_mesh::{
    face_of, generate_cube, is_exposed, visible_faces, Chunk, ChunkCoord, Dimensions, Direction,
    IVec3, Neighbors, Quad,
};

const ALL: [Direction; 6] = [
    Direction::PlusX,
    Direction::MinusX,
    Direction::PlusY,
    Direction::MinusY,
    Direction::PlusZ,
    Direction::MinusZ,
];

fn v(x: i32, y: i32, z: i32) -> IVec3 {
    IVec3::new(x, y, z)
}

fn chunk_from(width: i32, height: i32, surface: Vec<i32>) -> Chunk {
    let dims = Dimensions::new(width, height).unwrap();
    Chunk::new(0, dims, ChunkCoord { x: 0, z: 0 }, &surface).unwrap()
}

#[test]
fn face_corners_of_the_block_at_the_origin() {
    // Half units: the corners of the block at the origin lie at -1 and 1.
    assert_eq!(
        face_of(0, 0, 0, Direction::PlusX),
        Quad { c0: v(1, -1, -1), c1: v(1, 1, -1), c2: v(1, 1, 1), c3: v(1, -1, 1), normal: Direction::PlusX }
    );
    assert_eq!(
        face_of(0, 0, 0, Direction::MinusX),
        Quad { c0: v(-1, 1, 1), c1: v(-1, 1, -1), c2: v(-1, -1, -1), c3: v(-1, -1, 1), normal: Direction::MinusX }
    );
    assert_eq!(
        face_of(0, 0, 0, Direction::PlusY),
        Quad { c0: v(1, 1, -1), c1: v(-1, 1, -1), c2: v(-1, 1, 1), c3: v(1, 1, 1), normal: Direction::PlusY }
    );
    assert_eq!(
        face_of(0, 0, 0, Direction::MinusY),
        Quad { c0: v(-1, -1, -1), c1: v(1, -1, -1), c2: v(1, -1, 1), c3: v(-1, -1, 1), normal: Direction::MinusY }
    );
    assert_eq!(
        face_of(0, 0, 0, Direction::PlusZ),
        Quad { c0: v(-1, -1, 1), c1: v(1, -1, 1), c2: v(1, 1, 1), c3: v(-1, 1, 1), normal: Direction::PlusZ }
    );
    assert_eq!(
        face_of(0, 0, 0, Direction::MinusZ),
        Quad { c0: v(-1, 1, -1), c1: v(1, 1, -1), c2: v(1, -1, -1), c3: v(-1, -1, -1), normal: Direction::MinusZ }
    );
}

#[test]
fn face_corners_move_with_the_block() {
    let q = face_of(3, 5, 7, Direction::PlusY);
    assert_eq!(q.c0, v(7, 11, 13));
    assert_eq!(q.c1, v(5, 11, 13));
    assert_eq!(q.c2, v(5, 11, 15));
    assert_eq!(q.c3, v(7, 11, 15));
}

#[test]
fn face_at_the_largest_coordinate_fits() {
    let m = 0x3fff_ffff;
    let q = face_of(m, m, m, Direction::PlusX);
    assert_eq!(q.c2, v(i32::MAX, i32::MAX, i32::MAX));
    assert_eq!(q.c0, v(i32::MAX, i32::MAX - 2, i32::MAX - 2));
}

fn cross(a: (i64, i64, i64), b: (i64, i64, i64)) -> (i64, i64, i64) {
    (a.1 * b.2 - a.2 * b.1, a.2 * b.0 - a.0 * b.2, a.0 * b.1 - a.1 * b.0)
}

fn diff(a: IVec3, b: IVec3) -> (i64, i64, i64) {
    ((a.x - b.x) as i64, (a.y - b.y) as i64, (a.z - b.z) as i64)
}

#[test]
fn every_face_is_a_unit_square_half_a_unit_from_the_centre() {
    for &(x, y, z) in &[(0usize, 0usize, 0usize), (4, 2, 9), (31, 255, 31)] {
        for d in ALL {
            let q = face_of(x, y, z, d);
            let n = d.normal();
            let centre = v(2 * x as i32, 2 * y as i32, 2 * z as i32);
            for c in [q.c0, q.c1, q.c2, q.c3] {
                let off = diff(c, centre);
                // One half unit along every axis, towards the outside along the normal.
                assert_eq!((off.0.abs(), off.1.abs(), off.2.abs()), (1, 1, 1));
                assert_eq!(
                    off.0 * n.x as i64 + off.1 * n.y as i64 + off.2 * n.z as i64,
                    1
                );
            }
            let u = diff(q.c1, q.c0);
            let w = diff(q.c3, q.c0);
            assert_eq!(u.0 * u.0 + u.1 * u.1 + u.2 * u.2, 4);
            assert_eq!(w.0 * w.0 + w.1 * w.1 + w.2 * w.2, 4);
            assert_eq!(u.0 * w.0 + u.1 * w.1 + u.2 * w.2, 0);
            assert_eq!(diff(q.c2, q.c0), (u.0 + w.0, u.1 + w.1, u.2 + w.2));
            // The corners turn anticlockwise round the normal.
            assert_eq!(cross(u, w), (4 * n.x as i64, 4 * n.y as i64, 4 * n.z as i64));
            assert_eq!(q.normal, d);
        }
    }
}

#[test]
fn generate_cube_appends_the_faces_in_the_given_order() {
    let mut faces = vec![face_of(9, 9, 9, Direction::PlusZ)];
    let vfaces = vec![Direction::MinusY, Direction::PlusX, Direction::MinusY];
    generate_cube(&mut faces, &vfaces, 1, 2, 3);
    assert_eq!(
        faces,
        vec![
            face_of(9, 9, 9, Direction::PlusZ),
            face_of(1, 2, 3, Direction::MinusY),
            face_of(1, 2, 3, Direction::PlusX),
            face_of(1, 2, 3, Direction::MinusY),
        ]
    );
}

#[test]
fn generate_cube_without_directions_appends_nothing() {
    let mut faces: Vec<Quad> = Vec::new();
    generate_cube(&mut faces, &Vec::new(), 1, 2, 3);
    assert!(faces.is_empty());
}

#[test]
fn lone_block_shows_all_six_faces_in_order() {
    let chunk = chunk_from(1, 1, vec![1]);
    assert_eq!(visible_faces(&chunk, &Neighbors::none(), 0, 0, 0), ALL.to_vec());
}

#[test]
fn air_block_and_outside_place_show_no_face() {
    let chunk = chunk_from(2, 2, vec![1, 1, 1, 1]);
    assert!(visible_faces(&chunk, &Neighbors::none(), 0, 1, 0).is_empty());
    assert!(visible_faces(&chunk, &Neighbors::none(), 2, 0, 0).is_empty());
    assert!(visible_faces(&chunk, &Neighbors::none(), 0, 2, 0).is_empty());
    assert!(visible_faces(&chunk, &Neighbors::none(), 0, 0, 7).is_empty());
}

#[test]
fn inner_block_of_a_solid_chunk_shows_no_face() {
    let chunk = chunk_from(3, 3, vec![3; 9]);
    assert!(visible_faces(&chunk, &Neighbors::none(), 1, 1, 1).is_empty());
    assert_eq!(
        visible_faces(&chunk, &Neighbors::none(), 1, 2, 1),
        vec![Direction::PlusY]
    );
    assert_eq!(
        visible_faces(&chunk, &Neighbors::none(), 0, 0, 2),
        vec![Direction::MinusX, Direction::MinusY, Direction::PlusZ]
    );
}

#[test]
fn face_next_to_air_in_the_chunk_is_seen() {
    // A floor one block thick with one pillar at (1, _, 1).
    let chunk = chunk_from(3, 3, vec![1, 1, 1, 1, 3, 1, 1, 1, 1]);
    assert_eq!(
        visible_faces(&chunk, &Neighbors::none(), 1, 1, 1),
        vec![Direction::PlusX, Direction::MinusX, Direction::PlusZ, Direction::MinusZ]
    );
    assert_eq!(
        visible_faces(&chunk, &Neighbors::none(), 1, 2, 1),
        vec![
            Direction::PlusX,
            Direction::MinusX,
            Direction::PlusY,
            Direction::PlusZ,
            Direction::MinusZ
        ]
    );
    assert_eq!(
        visible_faces(&chunk, &Neighbors::none(), 1, 0, 1),
        vec![Direction::MinusY]
    );
}

#[test]
fn side_face_looks_at_the_mirrored_block_of_the_neighbor() {
    let chunk = chunk_from(2, 2, vec![2; 4]);
    // Solid only in column (1, 0): seen from the chunk at its +X side that is
    // not the boundary column, from the chunk at its -X side it is.
    let other = chunk_from(2, 2, vec![0, 2, 0, 0]);
    let at_plus_x = Neighbors { plus_x: Some(&other), minus_x: None, plus_z: None, minus_z: None };
    assert!(is_exposed(&chunk, &at_plus_x, 1, 0, 0, Direction::PlusX));
    assert!(is_exposed(&chunk, &at_plus_x, 1, 1, 1, Direction::PlusX));
    let at_minus_x = Neighbors { plus_x: None, minus_x: Some(&other), plus_z: None, minus_z: None };
    assert!(!is_exposed(&chunk, &at_minus_x, 0, 0, 0, Direction::MinusX));
    assert!(!is_exposed(&chunk, &at_minus_x, 0, 1, 0, Direction::MinusX));
    assert!(is_exposed(&chunk, &at_minus_x, 0, 0, 1, Direction::MinusX));
    // Solid only in column (0, 1): the boundary column for a chunk at its +Z side.
    let third = chunk_from(2, 2, vec![0, 0, 2, 0]);
    let at_minus_z = Neighbors { plus_x: None, minus_x: None, plus_z: None, minus_z: Some(&third) };
    assert!(!is_exposed(&chunk, &at_minus_z, 0, 0, 0, Direction::MinusZ));
    assert!(is_exposed(&chunk, &at_minus_z, 1, 0, 0, Direction::MinusZ));
    let at_plus_z = Neighbors { plus_x: None, minus_x: None, plus_z: Some(&third), minus_z: None };
    assert!(is_exposed(&chunk, &at_plus_z, 0, 0, 1, Direction::PlusZ));
}

#[test]
fn top_and_bottom_of_the_chunk_are_always_open() {
    let chunk = chunk_from(1, 3, vec![3]);
    let below = chunk_from(1, 3, vec![3]);
    let nbrs = Neighbors {
        plus_x: Some(&below),
        minus_x: Some(&below),
        plus_z: Some(&below),
        minus_z: Some(&below),
    };
    assert!(is_exposed(&chunk, &nbrs, 0, 2, 0, Direction::PlusY));
    assert!(is_exposed(&chunk, &nbrs, 0, 0, 0, Direction::MinusY));
    assert!(!is_exposed(&chunk, &nbrs, 0, 1, 0, Direction::PlusY));
    assert!(!is_exposed(&chunk, &nbrs, 0, 1, 0, Direction::MinusY));
    assert_eq!(visible_faces(&chunk, &nbrs, 0, 2, 0), vec![Direction::PlusY]);
    assert_eq!(visible_faces(&chunk, &nbrs, 0, 0, 0), vec![Direction::MinusY]);
    assert!(visible_faces(&chunk, &nbrs, 0, 1, 0).is_empty());
}

#[test]
fn direction_index_and_normal() {
    for (i, d) in ALL.iter().enumerate() {
        assert_eq!(d.index(), i);
        assert_eq!(Direction::from_index(i), Some(*d));
    }
    assert_eq!(Direction::from_index(6), None);
    assert_eq!(Direction::from_index(usize::MAX), None);
    assert_eq!(Direction::PlusX.normal(), v(1, 0, 0));
    assert_eq!(Direction::MinusX.normal(), v(-1, 0, 0));
    assert_eq!(Direction::PlusY.normal(), v(0, 1, 0));
    assert_eq!(Direction::MinusY.normal(), v(0, -1, 0));
    assert_eq!(Direction::PlusZ.normal(), v(0, 0, 1));
    assert_eq!(Direction::MinusZ.normal(), v(0, 0, -1));
}
