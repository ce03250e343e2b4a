use wfc_terrain::utility::GridPosVec;

#[test]
fn grid_pos_vec_moves_and_indexes() {
    let mut p = GridPosVec::new(3, 4);
    p.add_x(2);
    p.add_y(1);
    assert_eq!((p.x(), p.y()), (5, 5));
    p.subtract_x(7);
    assert_eq!(p.x(), 5);
    p.subtract_x(5);
    assert_eq!(p.x(), 0);
    p.subtract_y(2);
    assert_eq!(p.y(), 3);
    let size = GridPosVec::new(10, 10);
    assert_eq!(GridPosVec::new(3, 2).index(&size), 23);
    assert_eq!(GridPosVec::from_index(23, &size), GridPosVec::new(3, 2));
    assert_eq!(GridPosVec::new(3, 2).offset(-1, 4), GridPosVec::new(2, 6));
    assert_eq!(GridPosVec::new(0, 2).offset(-1, -3), GridPosVec::new(0, 2));
    assert!(GridPosVec::new(9, 9).in_bounds(&size));
    assert!(!GridPosVec::new(10, 0).in_bounds(&size));
}
