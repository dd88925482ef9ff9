use std::cmp::Ordering;
use voxel_mesh::{
    can_merge, chunk_quads, emit_faces, face_of, group_by_normal, merge_faces, merge_pair,
    merge_pass, merge_sweep, normal_order, partial_cmp, Chunk, ChunkCoord, Dimensions, Direction,
    IVec3, MergeRule, Neighbors, Quad,
};

const ALL: [Direction; 6] = [
    Direction::PlusX,
    Direction::MinusX,
    Direction::PlusY,
    Direction::MinusY,
    Direction::PlusZ,
    Direction::MinusZ,
];

fn v(x: i32, y: i32, z: i32) -> IVec3 {
    IVec3::new(x, y, z)
}

/// A quad that faces +Z in the plane z = 1, from (x0, y0) to (x1, y1).
fn front(x0: i32, y0: i32, x1: i32, y1: i32) -> Quad {
    Quad {
        c0: v(x0, y0, 1),
        c1: v(x1, y0, 1),
        c2: v(x1, y1, 1),
        c3: v(x0, y1, 1),
        normal: Direction::PlusZ,
    }
}

fn length(a: IVec3, b: IVec3) -> i64 {
    ((a.x - b.x).abs() + (a.y - b.y).abs() + (a.z - b.z).abs()) as i64
}

/// Four times the area that the quads facing `d` cover.
fn area4(quads: &[Quad], d: Direction) -> i64 {
    quads
        .iter()
        .filter(|q| q.normal == d)
        .map(|q| length(q.c1, q.c0) * length(q.c3, q.c0))
        .sum()
}

fn chunk_from(width: i32, height: i32, surface: Vec<i32>) -> Chunk {
    let dims = Dimensions::new(width, height).unwrap();
    Chunk::new(0, dims, ChunkCoord { x: 0, z: 0 }, &surface).unwrap()
}

#[test]
fn first_rule_takes_the_quad_across_the_first_edge() {
    let a = face_of(1, 0, 0, Direction::PlusZ);
    let b = face_of(0, 0, 0, Direction::PlusZ);
    assert!(can_merge(MergeRule::First, &a, &b));
    assert!(!can_merge(MergeRule::First, &b, &a));
    assert!(!can_merge(MergeRule::Second, &a, &b));
    assert_eq!(merge_pair(MergeRule::First, &a, &b), front(-1, -1, 3, 1));
}

#[test]
fn second_rule_takes_the_quad_across_the_far_edge() {
    let a = face_of(0, 0, 0, Direction::PlusZ);
    let b = face_of(0, 1, 0, Direction::PlusZ);
    assert!(can_merge(MergeRule::Second, &a, &b));
    assert!(!can_merge(MergeRule::Second, &b, &a));
    assert!(!can_merge(MergeRule::First, &a, &b));
    assert_eq!(merge_pair(MergeRule::Second, &a, &b), front(-1, -1, 1, 3));
}

#[test]
fn quads_with_different_normals_never_merge() {
    let a = front(1, -1, 3, 1);
    let mut b = front(-1, -1, 1, 1);
    assert!(can_merge(MergeRule::First, &a, &b));
    b.normal = Direction::MinusZ;
    assert!(!can_merge(MergeRule::First, &a, &b));
    let c = front(-1, -1, 1, 1);
    let mut d = front(-1, 1, 1, 3);
    assert!(can_merge(MergeRule::Second, &c, &d));
    d.normal = Direction::PlusY;
    assert!(!can_merge(MergeRule::Second, &c, &d));
}

#[test]
fn quads_of_different_height_do_not_merge_along_the_row() {
    let a = front(1, -1, 3, 3);
    let b = front(-1, -1, 1, 1);
    assert!(!can_merge(MergeRule::First, &a, &b));
    assert!(!can_merge(MergeRule::First, &b, &a));
}

#[test]
fn sweep_merges_a_row_of_three() {
    let mut quads = vec![
        face_of(0, 0, 0, Direction::PlusZ),
        face_of(1, 0, 0, Direction::PlusZ),
        face_of(2, 0, 0, Direction::PlusZ),
    ];
    assert_eq!(merge_sweep(&mut quads, MergeRule::First), 2);
    assert_eq!(quads, vec![front(-1, -1, 5, 1)]);
    assert_eq!(merge_sweep(&mut quads, MergeRule::First), 0);
    assert_eq!(quads, vec![front(-1, -1, 5, 1)]);
}

#[test]
fn pass_on_an_empty_buffer_does_nothing() {
    let mut quads: Vec<Quad> = Vec::new();
    assert_eq!(merge_pass(&mut quads, MergeRule::First), 0);
    assert_eq!(merge_pass(&mut quads, MergeRule::Second), 0);
    assert_eq!(merge_faces(&mut quads), (0, 0));
    assert!(quads.is_empty());
}

#[test]
fn pass_leaves_quads_that_do_not_touch() {
    let start = vec![
        face_of(0, 0, 0, Direction::PlusZ),
        face_of(2, 0, 0, Direction::PlusZ),
        face_of(1, 0, 1, Direction::PlusZ),
        face_of(1, 0, 0, Direction::MinusZ),
    ];
    let mut quads = start.clone();
    assert_eq!(merge_pass(&mut quads, MergeRule::First), 0);
    assert_eq!(merge_pass(&mut quads, MergeRule::Second), 0);
    assert_eq!(quads, start);
}

#[test]
fn two_passes_merge_a_square_of_four_faces() {
    let mut quads = vec![
        face_of(0, 0, 0, Direction::PlusZ),
        face_of(1, 0, 0, Direction::PlusZ),
        face_of(0, 1, 0, Direction::PlusZ),
        face_of(1, 1, 0, Direction::PlusZ),
    ];
    assert_eq!(merge_pass(&mut quads, MergeRule::First), 2);
    assert_eq!(quads, vec![front(-1, -1, 3, 1), front(-1, 1, 3, 3)]);
    assert_eq!(merge_pass(&mut quads, MergeRule::Second), 1);
    assert_eq!(quads, vec![front(-1, -1, 3, 3)]);
}

#[test]
fn rows_of_different_length_stay_apart() {
    // Three faces in the lower row, two in the upper one.
    let mut quads = vec![
        face_of(0, 0, 0, Direction::PlusZ),
        face_of(1, 0, 0, Direction::PlusZ),
        face_of(2, 0, 0, Direction::PlusZ),
        face_of(0, 1, 0, Direction::PlusZ),
        face_of(1, 1, 0, Direction::PlusZ),
    ];
    assert_eq!(merge_faces(&mut quads), (3, 0));
    assert_eq!(quads.len(), 2);
    assert!(quads.contains(&front(-1, -1, 5, 1)));
    assert!(quads.contains(&front(-1, 1, 3, 3)));
}

#[test]
fn each_merge_takes_one_quad_and_no_area() {
    let chunk = chunk_from(4, 4, vec![1, 2, 3, 4, 1, 1, 3, 3, 0, 2, 2, 4, 4, 4, 0, 1]);
    let faces = emit_faces(&chunk, &Neighbors::none());
    let mut quads = faces.clone();
    group_by_normal(&mut quads);
    let (first, second) = merge_faces(&mut quads);
    assert!(first + second > 0);
    assert_eq!(quads.len() + first + second, faces.len());
    assert!(quads.len() <= faces.len());
    for d in ALL {
        assert_eq!(area4(&quads, d), area4(&faces, d));
        assert_eq!(area4(&faces, d), 4 * faces.iter().filter(|q| q.normal == d).count() as i64);
    }
    assert_eq!(chunk_quads(&chunk, &Neighbors::none()), quads);
}

#[test]
fn second_run_of_a_pass_makes_no_merge() {
    let chunk = chunk_from(4, 4, vec![1, 2, 3, 4, 1, 1, 3, 3, 0, 2, 2, 4, 4, 4, 0, 1]);
    for rule in [MergeRule::First, MergeRule::Second] {
        let mut quads = emit_faces(&chunk, &Neighbors::none());
        merge_pass(&mut quads, rule);
        let once = quads.clone();
        assert_eq!(merge_pass(&mut quads, rule), 0);
        assert_eq!(quads, once);
        assert_eq!(merge_sweep(&mut quads, rule), 0);
        assert_eq!(quads, once);
    }
}

#[test]
fn second_run_on_the_quads_of_a_chunk_makes_no_merge() {
    let chunk = chunk_from(4, 4, vec![1, 2, 3, 4, 1, 1, 3, 3, 0, 2, 2, 4, 4, 4, 0, 1]);
    let mut quads = chunk_quads(&chunk, &Neighbors::none());
    let once = quads.clone();
    assert_eq!(merge_faces(&mut quads), (0, 0));
    assert_eq!(quads, once);
}

#[test]
fn second_run_may_merge_quads_that_are_not_faces_of_blocks() {
    // Two squares above each other beside a quad that is two units high:
    // only the second pass brings the squares to the height of their
    // neighbour.
    let mut quads = vec![front(-1, -1, 1, 1), front(-1, 1, 1, 3), front(1, -1, 3, 3)];
    assert_eq!(merge_faces(&mut quads), (0, 1));
    assert_eq!(quads, vec![front(-1, -1, 1, 3), front(1, -1, 3, 3)]);
    assert_eq!(merge_faces(&mut quads), (1, 0));
    assert_eq!(quads, vec![front(-1, -1, 3, 3)]);
}

#[test]
fn vectors_compare_by_x_then_y_then_z() {
    assert_eq!(partial_cmp(&v(1, 2, 3), &v(1, 2, 3)), Some(Ordering::Equal));
    assert_eq!(partial_cmp(&v(0, 9, 9), &v(1, 0, 0)), Some(Ordering::Less));
    assert_eq!(partial_cmp(&v(1, 0, 0), &v(0, 9, 9)), Some(Ordering::Greater));
    assert_eq!(partial_cmp(&v(1, 1, 9), &v(1, 2, 0)), Some(Ordering::Less));
    assert_eq!(partial_cmp(&v(1, 2, 0), &v(1, 1, 9)), Some(Ordering::Greater));
    assert_eq!(partial_cmp(&v(1, 2, 3), &v(1, 2, 4)), Some(Ordering::Less));
    assert_eq!(partial_cmp(&v(1, 2, 4), &v(1, 2, 3)), Some(Ordering::Greater));
    assert_eq!(
        partial_cmp(&v(i32::MIN, 0, 0), &v(i32::MAX, 0, 0)),
        Some(Ordering::Less)
    );
}

#[test]
fn normals_come_in_the_order_of_their_coordinates() {
    let order = [
        Direction::MinusX,
        Direction::MinusY,
        Direction::MinusZ,
        Direction::PlusZ,
        Direction::PlusY,
        Direction::PlusX,
    ];
    for (i, a) in order.iter().enumerate() {
        for (j, b) in order.iter().enumerate() {
            let qa = face_of(0, 0, 0, *a);
            let qb = face_of(5, 5, 5, *b);
            assert_eq!(normal_order(&qa, &qb), i.cmp(&j));
        }
    }
}

#[test]
fn grouping_orders_by_normal_and_keeps_equal_normals_in_place() {
    let a = face_of(0, 0, 0, Direction::PlusX);
    let b = face_of(0, 0, 0, Direction::MinusX);
    let c = face_of(1, 1, 1, Direction::PlusX);
    let d = face_of(0, 0, 0, Direction::PlusY);
    let e = face_of(0, 0, 0, Direction::MinusZ);
    let f = face_of(0, 0, 0, Direction::PlusZ);
    let g = face_of(0, 0, 0, Direction::MinusY);
    let h = face_of(2, 2, 2, Direction::MinusX);
    let mut quads = vec![a, b, c, d, e, f, g, h];
    group_by_normal(&mut quads);
    assert_eq!(quads, vec![b, h, g, e, f, d, a, c]);
    group_by_normal(&mut quads);
    assert_eq!(quads, vec![b, h, g, e, f, d, a, c]);
}

#[test]
fn quads_of_a_chunk_stand_grouped_by_normal() {
    let chunk = chunk_from(3, 3, vec![1, 2, 3, 3, 2, 1, 0, 3, 0]);
    let quads = chunk_quads(&chunk, &Neighbors::none());
    for pair in quads.windows(2) {
        assert_ne!(normal_order(&pair[0], &pair[1]), Ordering::Greater);
    }
}
