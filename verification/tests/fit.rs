use shadow_fit::fit::{cut_corners, CutCorner, CORNER_COUNT};

fn projected(corner: usize) -> CutCorner {
    CutCorner::Projected { corner }
}

fn cut(corner: usize, neighbour: usize) -> CutCorner {
    CutCorner::Cut { corner, neighbour }
}

#[test]
fn view_volume_behind_the_plane_leaves_no_point() {
    assert_eq!(cut_corners(0xFF, 0x00), vec![]);
}

#[test]
fn view_volume_beyond_the_plane_is_projected_corner_by_corner() {
    let expected: Vec<CutCorner> = (0..CORNER_COUNT).map(projected).collect();
    assert_eq!(cut_corners(0x00, 0xFF), expected);
}

#[test]
fn corners_on_the_plane_are_projected_too() {
    let expected: Vec<CutCorner> = (0..CORNER_COUNT).map(projected).collect();
    assert_eq!(cut_corners(0x00, 0x00), expected);
}

#[test]
fn one_corner_behind_is_replaced_by_three_cuts() {
    assert_eq!(
        cut_corners(0b0000_0001, 0b1111_1110),
        vec![
            cut(0, 4),
            cut(0, 2),
            cut(0, 1),
            projected(1),
            projected(2),
            projected(3),
            projected(4),
            projected(5),
            projected(6),
            projected(7),
        ]
    );
}

#[test]
fn near_face_behind_is_cut_along_the_four_edges_to_the_far_face() {
    assert_eq!(
        cut_corners(0b0000_1111, 0b1111_0000),
        vec![
            cut(0, 4),
            cut(1, 5),
            cut(2, 6),
            cut(3, 7),
            projected(4),
            projected(5),
            projected(6),
            projected(7),
        ]
    );
}

#[test]
fn edge_to_a_corner_on_the_plane_is_not_cut() {
    // Corner 5 is behind; corner 1 lies on the plane, corners 4 and 7 beyond.
    assert_eq!(
        cut_corners(0b0010_0000, 0b1101_1101),
        vec![
            projected(0),
            projected(1),
            projected(2),
            projected(3),
            projected(4),
            cut(5, 7),
            cut(5, 4),
            projected(6),
            projected(7),
        ]
    );
}

#[test]
fn corner_behind_with_no_neighbour_beyond_contributes_nothing() {
    assert_eq!(cut_corners(0xFF, 0x00).len(), 0);
    assert_eq!(cut_corners(0b0111_1111, 0b0000_0000), vec![projected(7)]);
}

#[test]
fn alternate_corners_behind_give_the_longest_footprint() {
    // Corners 0, 3, 5 and 6 share no edge; each has three neighbours beyond.
    let footprint = cut_corners(0b0110_1001, 0b1001_0110);
    assert_eq!(footprint.len(), 16);
    assert_eq!(footprint[..4], [cut(0, 4), cut(0, 2), cut(0, 1), projected(1)]);
}

#[test]
fn corner_in_both_sets_counts_as_behind() {
    assert_eq!(cut_corners(0xFF, 0xFF).len(), 3 * CORNER_COUNT);
}

#[test]
fn plane_cuts_of_the_view_volume_give_at_most_ten_points() {
    // The depth on the near face is `c` in the middle and changes by `2 * a` across and by
    // `2 * b` upwards; the far face is the near face scaled by `far_num / far_den`; the plane
    // lies at depth `e`.
    for (far_num, far_den) in [(1i32, 1i32), (2, 1), (10, 1), (3, 2), (1, 3)] {
        for a in -3i32..=3 {
            for b in -3i32..=3 {
                for c in -4i32..=4 {
                    for e in -5i32..=5 {
                        let mut behind = 0u8;
                        let mut beyond = 0u8;
                        for corner in 0..CORNER_COUNT {
                            let across = if corner & 0b001 != 0 { a } else { -a };
                            let upwards = if corner & 0b010 != 0 { b } else { -b };
                            let on_near_face = across + upwards + c;
                            let depth = if corner & 0b100 != 0 {
                                far_num * on_near_face - far_den * e
                            } else {
                                on_near_face - e
                            };
                            if depth < 0 {
                                behind |= 1 << corner;
                            } else if depth > 0 {
                                beyond |= 1 << corner;
                            }
                        }
                        assert!(cut_corners(behind, beyond).len() <= 10);
                    }
                }
            }
        }
    }
}
