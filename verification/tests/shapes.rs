use rust_exercises::shapes::{
    cone_faces, cube_face_color, cube_faces, cylinder_faces, dodecahedron_face_color,
    dodecahedron_faces, geodesic_face_color, geodesic_mesh, grid_faces, icosahedron_faces, octahedron_faces,
    grid_face_cell, prism_faces, pyramid_faces, ring_side_count, subdivide_faces, ColorMode, PrimitiveType, Rgb, ShapeType,
};

#[test]
fn primitive_names() {
    let names: Vec<&str> = PrimitiveType::all().iter().map(|p| p.name()).collect();
    assert_eq!(
        names,
        vec!["Сфера", "Цилиндр", "Конус", "Тор", "Пирамида", "Призма", "Геодезическая"]
    );
    assert_eq!(ShapeType::Cube.name(), "Куб");
    assert_eq!(ColorMode::Height.name(), "По высоте");
}

#[test]
fn grid_of_two_by_one() {
    let f = grid_faces(2, 1);
    assert_eq!(f, vec![(0, 1, 3), (1, 4, 3), (1, 2, 4), (2, 5, 4)]);
}

#[test]
fn sphere_grid_counts_and_bounds() {
    let (segs, h) = (12, 8);
    let f = grid_faces(segs, h);
    assert_eq!(f.len(), 2 * segs * h);
    let n = (h + 1) * (segs + 1);
    assert!(f.iter().all(|t| t.0 < n && t.1 < n && t.2 < n));
}

#[test]
fn cylinder_and_cone_caps() {
    let f = cylinder_faces(3, 1);
    assert_eq!(f.len(), 6 + 3 + 3);
    assert_eq!(f[6], (8, 4, 5));
    assert_eq!(f[9], (9, 1, 0));
    let g = cone_faces(3, 1);
    assert_eq!(g.len(), 6 + 3);
    assert_eq!(g[6], (8, 1, 0));
}

#[test]
fn pyramid_and_prism_wrap_around() {
    let p = pyramid_faces(0);
    assert_eq!(p, vec![(0, 1, 4), (1, 2, 4), (2, 0, 4), (3, 1, 0), (3, 2, 1), (3, 0, 2)]);
    let q = prism_faces(3);
    assert_eq!(q.len(), 12);
    assert_eq!(q[4], (2, 0, 5));
    assert_eq!(q[5], (0, 3, 5));
    assert_eq!(q[6], (6, 0, 1));
    assert_eq!(q[11], (7, 3, 5));
}

#[test]
fn subdivision_splits_each_triangle_in_four() {
    let faces = vec![(0, 1, 2)];
    let (edges, out) = subdivide_faces(3, &faces);
    assert_eq!(edges, vec![(0, 1), (1, 2), (2, 0)]);
    assert_eq!(out, vec![(0, 3, 5), (1, 4, 3), (2, 5, 4), (3, 4, 5)]);
}

#[test]
fn geodesic_sphere_stays_well_formed() {
    let mut faces = icosahedron_faces();
    let mut n = 12;
    for _ in 0..3 {
        let (edges, out) = subdivide_faces(n, &faces);
        n += edges.len();
        faces = out;
    }
    assert_eq!(faces.len(), 20 * 64);
    assert_eq!(n, 12 + 3 * (20 + 80 + 320));
    assert!(faces.iter().all(|t| t.0 < n && t.1 < n && t.2 < n));
}

#[test]
fn solid_tables() {
    assert_eq!(icosahedron_faces().len(), 20);
    assert_eq!(cube_faces()[2], (0, 1, 5));
    assert_eq!(octahedron_faces().len(), 8);
    assert_eq!(dodecahedron_faces().len(), 10);
}

#[test]
fn face_colours() {
    assert_eq!(cube_face_color(0), Rgb { r: 255, g: 100, b: 100 });
    assert_eq!(cube_face_color(7), Rgb { r: 160, g: 160, b: 160 });
    assert_eq!(dodecahedron_face_color(7), Rgb { r: 150, g: 255, b: 200 });
    assert_eq!(geodesic_face_color((0, 1, 5)), Rgb { r: 236, g: 149, b: 142 });
}

#[test]
fn grid_cells_and_ring_sides() {
    assert_eq!(grid_face_cell(12, 0), (0, 0));
    assert_eq!(grid_face_cell(12, 25), (1, 0));
    assert_eq!(grid_face_cell(12, 23), (0, 11));
    assert_eq!(ring_side_count(1), 3);
    assert_eq!(ring_side_count(12), 12);
}

#[test]
fn geodesic_mesh_counts_for_each_round() {
    let expected = [(0usize, 20usize, 0usize), (1, 80, 60), (2, 320, 300), (3, 1280, 1260), (7, 1280, 1260)];
    for (h, faces, edges) in expected {
        let (e, f) = geodesic_mesh(h);
        assert_eq!(f.len(), faces);
        assert_eq!(e.len(), edges);
        let vertices = 12 + e.len();
        for &(a, b, c) in &f {
            assert!(a < vertices && b < vertices && c < vertices);
        }
        for (k, &(a, b)) in e.iter().enumerate() {
            assert!(a < 12 + k && b < 12 + k);
        }
    }
}

#[test]
fn geodesic_mesh_one_round_is_one_subdivision() {
    let (e, f) = geodesic_mesh(1);
    let (e1, f1) = subdivide_faces(12, &icosahedron_faces());
    assert_eq!(e, e1);
    assert_eq!(f, f1);
}
