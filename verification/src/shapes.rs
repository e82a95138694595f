use vstd::prelude::*;

verus! {

/// A triangle of a mesh: three indices into its vertex list.
pub type Tri = (usize, usize, usize);

/// A colour as red, green and blue components.
#[derive(PartialEq, Eq, Structural, Clone, Copy, Debug)]
pub struct Rgb {
    pub r: u8,
    pub g: u8,
    pub b: u8,
}

pub open spec fn rgb(r: u8, g: u8, b: u8) -> Rgb {
    Rgb { r, g, b }
}

/// The solids of the polyhedron viewer.
#[derive(PartialEq, Eq, Structural, Clone, Copy, Debug)]
pub enum ShapeType {
    Icosahedron,
    Cube,
    Octahedron,
    Dodecahedron,
}

impl ShapeType {
    /// The name shown in the shape menu.
    pub fn name(&self) -> (s: &'static str)
        ensures
            s@ == (match *self {
                ShapeType::Icosahedron => "Икосаэдр"@,
                ShapeType::Cube => "Куб"@,
                ShapeType::Octahedron => "Октаэдр"@,
                ShapeType::Dodecahedron => "Додекаэдр"@,
            }),
    {
        match self {
            ShapeType::Icosahedron => "Икосаэдр",
            ShapeType::Cube => "Куб",
            ShapeType::Octahedron => "Октаэдр",
            ShapeType::Dodecahedron => "Додекаэдр",
        }
    }
}

/// The primitives of the parametric builder.
#[derive(PartialEq, Eq, Structural, Clone, Copy, Debug)]
pub enum PrimitiveType {
    Sphere,
    Cylinder,
    Cone,
    Torus,
    Pyramid,
    Prism,
    Geodesic,
}

impl PrimitiveType {
    /// The name shown in the primitive menu.
    pub fn name(&self) -> (s: &'static str)
        ensures
            s@ == (match *self {
                PrimitiveType::Sphere => "Сфера"@,
                PrimitiveType::Cylinder => "Цилиндр"@,
                PrimitiveType::Cone => "Конус"@,
                PrimitiveType::Torus => "Тор"@,
                PrimitiveType::Pyramid => "Пирамида"@,
                PrimitiveType::Prism => "Призма"@,
                PrimitiveType::Geodesic => "Геодезическая"@,
            }),
    {
        match self {
            PrimitiveType::Sphere => "Сфера",
            PrimitiveType::Cylinder => "Цилиндр",
            PrimitiveType::Cone => "Конус",
            PrimitiveType::Torus => "Тор",
            PrimitiveType::Pyramid => "Пирамида",
            PrimitiveType::Prism => "Призма",
            PrimitiveType::Geodesic => "Геодезическая",
        }
    }

    /// All primitives, in menu order.
    pub fn all() -> (v: Vec<PrimitiveType>)
        ensures
            v@ == seq![
                PrimitiveType::Sphere,
                PrimitiveType::Cylinder,
                PrimitiveType::Cone,
                PrimitiveType::Torus,
                PrimitiveType::Pyramid,
                PrimitiveType::Prism,
                PrimitiveType::Geodesic,
            ],
    {
        let mut v = Vec::new();
        v.push(PrimitiveType::Sphere);
        v.push(PrimitiveType::Cylinder);
        v.push(PrimitiveType::Cone);
        v.push(PrimitiveType::Torus);
        v.push(PrimitiveType::Pyramid);
        v.push(PrimitiveType::Prism);
        v.push(PrimitiveType::Geodesic);
        assert(v@ =~= seq![
            PrimitiveType::Sphere,
            PrimitiveType::Cylinder,
            PrimitiveType::Cone,
            PrimitiveType::Torus,
            PrimitiveType::Pyramid,
            PrimitiveType::Prism,
            PrimitiveType::Geodesic,
        ]);
        v
    }
}

/// How the parametric builder colours faces.
#[derive(PartialEq, Eq, Structural, Clone, Copy, Debug)]
pub enum ColorMode {
    Solid,
    Rainbow,
    Height,
    Random,
}

impl ColorMode {
    /// The name shown in the colour menu.
    pub fn name(&self) -> (s: &'static str)
        ensures
            s@ == (match *self {
                ColorMode::Solid => "Сплошной"@,
                ColorMode::Rainbow => "Радуга"@,
                ColorMode::Height => "По высоте"@,
                ColorMode::Random => "Случайный"@,
            }),
    {
        match self {
            ColorMode::Solid => "Сплошной",
            ColorMode::Rainbow => "Радуга",
            ColorMode::Height => "По высоте",
            ColorMode::Random => "Случайный",
        }
    }
}

/// Every triangle of `faces` refers to one of the first `n` vertices.
pub open spec fn faces_within(faces: Seq<Tri>, n: int) -> bool {
    forall|k: int|
        0 <= k < faces.len() ==> (#[trigger] faces[k]).0 < n && faces[k].1 < n && faces[k].2 < n
}

/// The twenty triangles of the icosahedron over its twelve vertices.
pub open spec fn icosahedron_faces_spec() -> Seq<Tri> {
    seq![
        (0, 1, 5), (0, 5, 11), (0, 11, 10), (0, 10, 7), (0, 7, 1),
        (1, 7, 8), (1, 8, 9), (1, 9, 5), (5, 9, 4), (5, 4, 11),
        (11, 4, 2), (11, 2, 10), (10, 2, 6), (10, 6, 7), (7, 6, 8),
        (8, 6, 3), (8, 3, 9), (9, 3, 4), (4, 3, 2), (2, 3, 6),
    ]
}

pub fn icosahedron_faces() -> (f: Vec<Tri>)
    ensures
        f@ == icosahedron_faces_spec(),
        faces_within(f@, 12),
{
    let v = vec![
        (0, 1, 5), (0, 5, 11), (0, 11, 10), (0, 10, 7), (0, 7, 1),
        (1, 7, 8), (1, 8, 9), (1, 9, 5), (5, 9, 4), (5, 4, 11),
        (11, 4, 2), (11, 2, 10), (10, 2, 6), (10, 6, 7), (7, 6, 8),
        (8, 6, 3), (8, 3, 9), (9, 3, 4), (4, 3, 2), (2, 3, 6),
    ];
    assert(v@ =~= icosahedron_faces_spec());
    v
}

/// The six triangles of the cube over its eight vertices: the first three
/// corners of each square face.
pub open spec fn cube_faces_spec() -> Seq<Tri> {
    seq![(0, 1, 2), (4, 5, 6), (0, 1, 5), (2, 3, 7), (0, 3, 7), (1, 2, 6)]
}

pub fn cube_faces() -> (f: Vec<Tri>)
    ensures
        f@ == cube_faces_spec(),
        faces_within(f@, 8),
{
    let v = vec![(0, 1, 2), (4, 5, 6), (0, 1, 5), (2, 3, 7), (0, 3, 7), (1, 2, 6)];
    assert(v@ =~= cube_faces_spec());
    v
}

/// The corner of the cube with number `v`, as the viewer lays them out:
/// the signs of its x, y and z coordinates (-1 or 1); `(0, 0, 0)` for a
/// number that is no corner.
pub open spec fn cube_corner(v: usize) -> (int, int, int) {
    if v == 0 {
        (-1, -1, -1)
    } else if v == 1 {
        (1, -1, -1)
    } else if v == 2 {
        (1, 1, -1)
    } else if v == 3 {
        (-1, 1, -1)
    } else if v == 4 {
        (-1, -1, 1)
    } else if v == 5 {
        (1, -1, 1)
    } else if v == 6 {
        (1, 1, 1)
    } else if v == 7 {
        (-1, 1, 1)
    } else {
        (0, 0, 0)
    }
}

/// Whether corners `u` and `v` of the cube are joined by one of its edges:
/// they differ in exactly one coordinate.
pub open spec fn cube_edge(u: usize, v: usize) -> bool {
    let (a, b) = (cube_corner(u), cube_corner(v));
    u < 8 && v < 8 && ((a.0 != b.0) as int) + ((a.1 != b.1) as int) + ((a.2 != b.2) as int) == 1
}

/// The face of the cube that all three corners of `t` lie on, numbered
/// 0..6 as x = -1, x = 1, y = -1, y = 1, z = -1, z = 1; -1 when there is
/// none.
pub open spec fn cube_side_of(t: Tri) -> int {
    let (a, b, c) = (cube_corner(t.0), cube_corner(t.1), cube_corner(t.2));
    if t.0 >= 8 || t.1 >= 8 || t.2 >= 8 {
        -1
    } else if a.0 == b.0 && b.0 == c.0 {
        if a.0 < 0 {
            0
        } else {
            1
        }
    } else if a.1 == b.1 && b.1 == c.1 {
        if a.1 < 0 {
            2
        } else {
            3
        }
    } else if a.2 == b.2 && b.2 == c.2 {
        if a.2 < 0 {
            4
        } else {
            5
        }
    } else {
        -1
    }
}

/// Each of the cube's six triangles is the corner of one of its square
/// faces, the corner at the middle vertex, with two edges of the cube as
/// its sides, and no two of them lie on the same face: together they take
/// one corner of each of the six faces.
pub proof fn law_cube_triangles_on_faces()
    ensures
        cube_faces_spec().len() == 6,
        forall|i: int|
            0 <= i < 6 ==> 0 <= cube_side_of(#[trigger] cube_faces_spec()[i]) && cube_edge(
                cube_faces_spec()[i].0,
                cube_faces_spec()[i].1,
            ) && cube_edge(cube_faces_spec()[i].1, cube_faces_spec()[i].2),
        forall|i: int, j: int|
            0 <= i < j < 6 ==> cube_side_of(#[trigger] cube_faces_spec()[i]) != cube_side_of(
                #[trigger] cube_faces_spec()[j],
            ),
{
    let f = cube_faces_spec();
    let side = |i: int|
        if i == 0 {
            4int
        } else if i == 1 {
            5
        } else if i == 2 {
            2
        } else if i == 3 {
            3
        } else if i == 4 {
            0
        } else {
            1
        };
    assert forall|i: int| 0 <= i < 6 implies cube_side_of(#[trigger] f[i]) == side(i) && cube_edge(
        f[i].0,
        f[i].1,
    ) && cube_edge(f[i].1, f[i].2) by {
        if i == 0 {
        } else if i == 1 {
        } else if i == 2 {
        } else if i == 3 {
        } else if i == 4 {
        } else {
        }
    }
}

/// The eight triangles of the octahedron over its six vertices.
pub open spec fn octahedron_faces_spec() -> Seq<Tri> {
    seq![(0, 2, 4), (0, 4, 3), (0, 3, 5), (0, 5, 2), (1, 4, 2), (1, 3, 4), (1, 5, 3), (1, 2, 5)]
}

pub fn octahedron_faces() -> (f: Vec<Tri>)
    ensures
        f@ == octahedron_faces_spec(),
        faces_within(f@, 6),
{
    let v = vec![(0, 2, 4), (0, 4, 3), (0, 3, 5), (0, 5, 2), (1, 4, 2), (1, 3, 4), (1, 5, 3), (1, 2, 5)];
    assert(v@ =~= octahedron_faces_spec());
    v
}

/// The triangles drawn for the dodecahedron over its twenty vertices: the
/// first three corners of each of its first ten pentagons.
pub open spec fn dodecahedron_faces_spec() -> Seq<Tri> {
    seq![
        (0, 12, 13), (0, 8, 9), (0, 16, 17), (1, 17, 18), (2, 9, 10),
        (3, 10, 11), (4, 13, 5), (5, 19, 6), (6, 19, 18), (6, 16, 2),
    ]
}

pub fn dodecahedron_faces() -> (f: Vec<Tri>)
    ensures
        f@ == dodecahedron_faces_spec(),
        faces_within(f@, 20),
{
    let v = vec![
        (0, 12, 13), (0, 8, 9), (0, 16, 17), (1, 17, 18), (2, 9, 10),
        (3, 10, 11), (4, 13, 5), (5, 19, 6), (6, 19, 18), (6, 16, 2),
    ];
    assert(v@ =~= dodecahedron_faces_spec());
    v
}

/// Whether `x` is one of the corners of triangle `t`.
pub open spec fn is_corner(t: Tri, x: usize) -> bool {
    t.0 == x || t.1 == x || t.2 == x
}

/// Whether two triangles have the same three corners, in whatever order.
pub open spec fn same_corners(s: Tri, t: Tri) -> bool {
    is_corner(t, s.0) && is_corner(t, s.1) && is_corner(t, s.2) && is_corner(s, t.0) && is_corner(
        s,
        t.1,
    ) && is_corner(s, t.2)
}

/// Whether triangle `t`, read around its corners in order, goes from `u`
/// to `v` along one of its sides.
pub open spec fn has_edge(t: Tri, u: usize, v: usize) -> bool {
    (t.0 == u && t.1 == v) || (t.1 == u && t.2 == v) || (t.2 == u && t.0 == v)
}

/// How many of the first `k` triangles of `faces` go from `u` to `v` along
/// a side.
pub open spec fn edge_count_upto(faces: Seq<Tri>, k: int, u: usize, v: usize) -> nat
    decreases k,
{
    if k <= 0 {
        0
    } else {
        edge_count_upto(faces, k - 1, u, v) + if has_edge(faces[k - 1], u, v) {
            1nat
        } else {
            0nat
        }
    }
}

/// How many triangles of `faces` go from `u` to `v` along a side.
pub open spec fn edge_count(faces: Seq<Tri>, u: usize, v: usize) -> nat {
    edge_count_upto(faces, faces.len() as int, u, v)
}

/// How many of the first `k` triangles of `faces` have the corners of `t`.
pub open spec fn corner_count_upto(faces: Seq<Tri>, k: int, t: Tri) -> nat
    decreases k,
{
    if k <= 0 {
        0
    } else {
        corner_count_upto(faces, k - 1, t) + if same_corners(faces[k - 1], t) {
            1nat
        } else {
            0nat
        }
    }
}

/// How many triangles of `faces` have the corners of `t`.
pub open spec fn corner_count(faces: Seq<Tri>, t: Tri) -> nat {
    corner_count_upto(faces, faces.len() as int, t)
}

/// The triangles close up into a surface with no hole and no overlap: no
/// two have the same corners, and every side of a triangle is the side of
/// exactly one other, which runs along it the other way.
pub open spec fn closed_surface(faces: Seq<Tri>) -> bool {
    &&& forall|i: int, j: int|
        0 <= i < j < faces.len() ==> !same_corners(#[trigger] faces[i], #[trigger] faces[j])
    &&& forall|i: int, u: usize, v: usize|
        0 <= i < faces.len() && #[trigger] has_edge(faces[i], u, v) ==> edge_count(faces, u, v)
            == 1 && edge_count(faces, v, u) == 1
}

spec fn sides_paired(faces: Seq<Tri>, t: Tri) -> bool {
    &&& edge_count(faces, t.0, t.1) == 1 && edge_count(faces, t.1, t.0) == 1
    &&& edge_count(faces, t.1, t.2) == 1 && edge_count(faces, t.2, t.1) == 1
    &&& edge_count(faces, t.2, t.0) == 1 && edge_count(faces, t.0, t.2) == 1
}

spec fn unlike_earlier(faces: Seq<Tri>, i: int, j: nat) -> bool
    decreases j,
{
    j == 0 || (!same_corners(faces[j - 1], faces[i]) && unlike_earlier(faces, i, (j - 1) as nat))
}

spec fn distinct_upto(faces: Seq<Tri>, k: nat) -> bool
    decreases k,
{
    k == 0 || (distinct_upto(faces, (k - 1) as nat) && unlike_earlier(
        faces,
        k - 1,
        (k - 1) as nat,
    ))
}

proof fn lemma_closed_surface_by_count(faces: Seq<Tri>)
    requires
        forall|i: int| 0 <= i < faces.len() ==> sides_paired(faces, #[trigger] faces[i]),
        distinct_upto(faces, faces.len()),
    ensures
        closed_surface(faces),
{
    assert forall|i: int, j: int| 0 <= i < j < faces.len() implies !same_corners(
        #[trigger] faces[i],
        #[trigger] faces[j],
    ) by {
        lemma_distinct_upto(faces, faces.len(), j);
        lemma_unlike_earlier(faces, j, j as nat, i);
    }
}

proof fn lemma_distinct_upto(faces: Seq<Tri>, k: nat, j: int)
    requires
        distinct_upto(faces, k),
        0 <= j < k,
    ensures
        unlike_earlier(faces, j, j as nat),
    decreases k,
{
    if j < k - 1 {
        lemma_distinct_upto(faces, (k - 1) as nat, j);
    }
}

proof fn lemma_unlike_earlier(faces: Seq<Tri>, i: int, j: nat, m: int)
    requires
        unlike_earlier(faces, i, j),
        0 <= m < j,
    ensures
        !same_corners(faces[m], faces[i]),
    decreases j,
{
    if m < j - 1 {
        lemma_unlike_earlier(faces, i, (j - 1) as nat, m);
    }
}

proof fn lemma_icosahedron_sides_0()
    ensures
        forall|i: int| 0 <= i < 5 ==> sides_paired(icosahedron_faces_spec(), #[trigger] icosahedron_faces_spec()[i]),
{
    let f = icosahedron_faces_spec();
    reveal_with_fuel(edge_count_upto, 21);
    assert(sides_paired(f, f[0]));
    assert(sides_paired(f, f[1]));
    assert(sides_paired(f, f[2]));
    assert(sides_paired(f, f[3]));
    assert(sides_paired(f, f[4]));
    assert forall|i: int| 0 <= i < 5 implies sides_paired(f, #[trigger] f[i]) by {
        if i == 0 {
        } else if i == 1 {
        } else if i == 2 {
        } else if i == 3 {
        } else if i == 4 {
        }
    }
}

proof fn lemma_icosahedron_sides_1()
    ensures
        forall|i: int| 5 <= i < 10 ==> sides_paired(icosahedron_faces_spec(), #[trigger] icosahedron_faces_spec()[i]),
{
    let f = icosahedron_faces_spec();
    reveal_with_fuel(edge_count_upto, 21);
    assert(sides_paired(f, f[5]));
    assert(sides_paired(f, f[6]));
    assert(sides_paired(f, f[7]));
    assert(sides_paired(f, f[8]));
    assert(sides_paired(f, f[9]));
    assert forall|i: int| 5 <= i < 10 implies sides_paired(f, #[trigger] f[i]) by {
        if i == 5 {
        } else if i == 6 {
        } else if i == 7 {
        } else if i == 8 {
        } else if i == 9 {
        }
    }
}

proof fn lemma_icosahedron_sides_2()
    ensures
        forall|i: int| 10 <= i < 15 ==> sides_paired(icosahedron_faces_spec(), #[trigger] icosahedron_faces_spec()[i]),
{
    let f = icosahedron_faces_spec();
    reveal_with_fuel(edge_count_upto, 21);
    assert(sides_paired(f, f[10]));
    assert(sides_paired(f, f[11]));
    assert(sides_paired(f, f[12]));
    assert(sides_paired(f, f[13]));
    assert(sides_paired(f, f[14]));
    assert forall|i: int| 10 <= i < 15 implies sides_paired(f, #[trigger] f[i]) by {
        if i == 10 {
        } else if i == 11 {
        } else if i == 12 {
        } else if i == 13 {
        } else if i == 14 {
        }
    }
}

proof fn lemma_icosahedron_sides_3()
    ensures
        forall|i: int| 15 <= i < 20 ==> sides_paired(icosahedron_faces_spec(), #[trigger] icosahedron_faces_spec()[i]),
{
    let f = icosahedron_faces_spec();
    reveal_with_fuel(edge_count_upto, 21);
    assert(sides_paired(f, f[15]));
    assert(sides_paired(f, f[16]));
    assert(sides_paired(f, f[17]));
    assert(sides_paired(f, f[18]));
    assert(sides_paired(f, f[19]));
    assert forall|i: int| 15 <= i < 20 implies sides_paired(f, #[trigger] f[i]) by {
        if i == 15 {
        } else if i == 16 {
        } else if i == 17 {
        } else if i == 18 {
        } else if i == 19 {
        }
    }
}

proof fn lemma_octahedron_sides()
    ensures
        forall|i: int| 0 <= i < 8 ==> sides_paired(octahedron_faces_spec(), #[trigger] octahedron_faces_spec()[i]),
{
    let f = octahedron_faces_spec();
    reveal_with_fuel(edge_count_upto, 9);
    assert(sides_paired(f, f[0]));
    assert(sides_paired(f, f[1]));
    assert(sides_paired(f, f[2]));
    assert(sides_paired(f, f[3]));
    assert(sides_paired(f, f[4]));
    assert(sides_paired(f, f[5]));
    assert(sides_paired(f, f[6]));
    assert(sides_paired(f, f[7]));
    assert forall|i: int| 0 <= i < 8 implies sides_paired(f, #[trigger] f[i]) by {
        if i == 0 {
        } else if i == 1 {
        } else if i == 2 {
        } else if i == 3 {
        } else if i == 4 {
        } else if i == 5 {
        } else if i == 6 {
        } else if i == 7 {
        }
    }
}

proof fn lemma_icosahedron_distinct()
    ensures
        distinct_upto(icosahedron_faces_spec(), 20),
{
    reveal_with_fuel(distinct_upto, 21);
    reveal_with_fuel(unlike_earlier, 21);
}

/// The icosahedron's twenty triangles close up into its surface: no two
/// are alike and each of its thirty edges is shared by exactly two of them,
/// which run along it in opposite directions.
pub proof fn law_icosahedron_closed()
    ensures
        closed_surface(icosahedron_faces_spec()),
{
    let f = icosahedron_faces_spec();
    lemma_icosahedron_sides_0();
    lemma_icosahedron_sides_1();
    lemma_icosahedron_sides_2();
    lemma_icosahedron_sides_3();
    lemma_icosahedron_distinct();
    assert(f.len() == 20);
    lemma_closed_surface_by_count(f);
}

/// The octahedron's eight triangles close up into its surface: no two are
/// alike, each edge is shared by exactly two of them, running in opposite
/// directions, and each of the eight octants (one vertex of 0/1 on the x
/// axis, one of 2/3 on y, one of 4/5 on z) is covered by exactly one
/// triangle.
pub proof fn law_octahedron_closed()
    ensures
        closed_surface(octahedron_faces_spec()),
        forall|a: usize, b: usize, c: usize|
            a < 2 && 2 <= b < 4 && 4 <= c < 6 ==> #[trigger] corner_count(
                octahedron_faces_spec(),
                (a, b, c),
            ) == 1,
{
    let f = octahedron_faces_spec();
    reveal_with_fuel(edge_count_upto, 9);
    reveal_with_fuel(corner_count_upto, 9);
    reveal_with_fuel(distinct_upto, 9);
    reveal_with_fuel(unlike_earlier, 9);
    lemma_octahedron_sides();
    assert(distinct_upto(f, 8));
    lemma_closed_surface_by_count(f);
    assert forall|a: usize, b: usize, c: usize|
        a < 2 && 2 <= b < 4 && 4 <= c < 6 implies #[trigger] corner_count(f, (a, b, c)) == 1 by {
        assert(f.len() == 8);
    }
}

/// The colour of the cube's face number `i`.
pub fn cube_face_color(i: usize) -> (c: Rgb)
    ensures
        c == (if i == 0 {
            rgb(255, 100, 100)
        } else if i == 1 {
            rgb(100, 255, 100)
        } else if i == 2 {
            rgb(100, 100, 255)
        } else if i == 3 {
            rgb(255, 255, 100)
        } else if i == 4 {
            rgb(255, 100, 255)
        } else if i == 5 {
            rgb(100, 255, 255)
        } else {
            rgb(160, 160, 160)
        }),
{
    match i {
        0 => Rgb { r: 255, g: 100, b: 100 },
        1 => Rgb { r: 100, g: 255, b: 100 },
        2 => Rgb { r: 100, g: 100, b: 255 },
        3 => Rgb { r: 255, g: 255, b: 100 },
        4 => Rgb { r: 255, g: 100, b: 255 },
        5 => Rgb { r: 100, g: 255, b: 255 },
        _ => Rgb { r: 160, g: 160, b: 160 },
    }
}

/// The colour of the dodecahedron's face number `i`: six colours in turn.
pub fn dodecahedron_face_color(i: usize) -> (c: Rgb)
    ensures
        c == (if i % 6 == 0 {
            rgb(255, 200, 150)
        } else if i % 6 == 1 {
            rgb(150, 255, 200)
        } else if i % 6 == 2 {
            rgb(200, 150, 255)
        } else if i % 6 == 3 {
            rgb(255, 150, 200)
        } else if i % 6 == 4 {
            rgb(200, 255, 150)
        } else {
            rgb(150, 200, 255)
        }),
{
    match i % 6 {
        0 => Rgb { r: 255, g: 200, b: 150 },
        1 => Rgb { r: 150, g: 255, b: 200 },
        2 => Rgb { r: 200, g: 150, b: 255 },
        3 => Rgb { r: 255, g: 150, b: 200 },
        4 => Rgb { r: 200, g: 255, b: 150 },
        _ => Rgb { r: 150, g: 200, b: 255 },
    }
}

/// The colour of a geodesic triangle, mixed from its three corner indices.
pub open spec fn geodesic_color_spec(t: Tri) -> Rgb {
    rgb(
        (100 + (t.0 * 37 + t.1 * 71 + t.2 * 13) % 155) as u8,
        (100 + (t.0 * 53 + t.1 * 29 + t.2 * 97) % 155) as u8,
        (100 + (t.0 * 83 + t.1 * 47 + t.2 * 61) % 155) as u8,
    )
}

pub fn geodesic_face_color(t: Tri) -> (c: Rgb)
    requires
        t.0 * 37 + t.1 * 71 + t.2 * 13 <= usize::MAX,
        t.0 * 53 + t.1 * 29 + t.2 * 97 <= usize::MAX,
        t.0 * 83 + t.1 * 47 + t.2 * 61 <= usize::MAX,
    ensures
        c == geodesic_color_spec(t),
{
    let (a, b, d) = t;
    let r = 100 + (a * 37 + b * 71 + d * 13) % 155;
    let g = 100 + (a * 53 + b * 29 + d * 97) % 155;
    let bl = 100 + (a * 83 + b * 47 + d * 61) % 155;
    Rgb { r: r as u8, g: g as u8, b: bl as u8 }
}

/// Triangle number `k` of the side of a grid mesh with `segs` segments
/// around and rows of `segs + 1` vertices: each cell (row `j`, column `i`)
/// gives two triangles, (a, b, c) and (b, d, c), where a and b are
/// neighbours in row `j` and c and d the ones above them in row `j + 1`.
pub open spec fn grid_face(segs: int, k: int) -> Tri {
    let cell = k / 2;
    let j = cell / segs;
    let i = cell % segs;
    let a = j * (segs + 1) + i;
    let b = a + 1;
    let c = (j + 1) * (segs + 1) + i;
    let d = c + 1;
    if k % 2 == 0 {
        (a as usize, b as usize, c as usize)
    } else {
        (b as usize, d as usize, c as usize)
    }
}

/// All side triangles of a grid mesh, row by row.
pub open spec fn grid_faces_spec(segs: int, h_segs: int) -> Seq<Tri> {
    Seq::new((2 * segs * h_segs) as nat, |k: int| grid_face(segs, k))
}

proof fn lemma_grid_cell(segs: int, h: int, j: int, i: int)
    requires
        0 <= j < h,
        0 <= i < segs,
        (h + 1) * (segs + 1) <= usize::MAX,
    ensures
        (j * segs + i) / segs == j,
        (j * segs + i) % segs == i,
        (2 * (j * segs + i)) / 2 == j * segs + i,
        (2 * (j * segs + i)) % 2 == 0,
        (2 * (j * segs + i) + 1) / 2 == j * segs + i,
        (2 * (j * segs + i) + 1) % 2 == 1,
        0 <= j * (segs + 1) + i,
        (j + 1) * (segs + 1) + i + 1 < (h + 1) * (segs + 1),
        j * (segs + 1) + i + 1 < (j + 1) * (segs + 1) + i + 1,
        (j + 1) * (segs + 1) == j * (segs + 1) + segs + 1,
        j * segs + i + 1 <= h * segs,
        (j * segs + i + 1 == (j + 1) * segs) || (i + 1 < segs),
{
    vstd::arithmetic::div_mod::lemma_fundamental_div_mod_converse(j * segs + i, segs, j, i);
    vstd::arithmetic::div_mod::lemma_fundamental_div_mod_converse(2 * (j * segs + i), 2, j * segs + i, 0);
    vstd::arithmetic::div_mod::lemma_fundamental_div_mod_converse(2 * (j * segs + i) + 1, 2, j * segs + i, 1);
    assert((j + 1) * (segs + 1) + i + 1 < (h + 1) * (segs + 1)) by (nonlinear_arith)
        requires
            0 <= j < h,
            0 <= i < segs,
    ;
    assert(0 <= j * (segs + 1)) by (nonlinear_arith)
        requires
            0 <= j,
            0 <= segs,
    ;
    assert((j + 1) * (segs + 1) == j * (segs + 1) + segs + 1) by (nonlinear_arith);
    assert(j * segs + i + 1 <= h * segs) by (nonlinear_arith)
        requires
            0 <= j < h,
            0 <= i < segs,
    ;
    assert((j + 1) * segs == j * segs + segs) by (nonlinear_arith);
}

/// How the two triangles of cell (`j`, `i`) of a grid with `segs` cells a
/// row and `h_segs` rows sit in the grid of vertices, `segs + 1` a row,
/// where `a` is the cell's lower left vertex: the first runs along the
/// cell's bottom from `a` to `a + 1` and up its left side, the second runs
/// back along its top and up its right side, the two share the diagonal
/// between `a + 1` and the vertex above `a`, in opposite directions, and
/// the cell to the right and the cell above run the shared side back.
pub open spec fn grid_cell_sides(f: Seq<Tri>, segs: int, h_segs: int, j: int, i: int) -> bool {
    let k = j * segs + i;
    let a = j * (segs + 1) + i;
    let up = a + segs + 1;
    &&& has_edge(f[2 * k], a as usize, (a + 1) as usize)
    &&& has_edge(f[2 * k], up as usize, a as usize)
    &&& has_edge(f[2 * k + 1], (up + 1) as usize, up as usize)
    &&& has_edge(f[2 * k + 1], (a + 1) as usize, (up + 1) as usize)
    &&& has_edge(f[2 * k], (a + 1) as usize, up as usize)
    &&& has_edge(f[2 * k + 1], up as usize, (a + 1) as usize)
    &&& (i + 1 < segs ==> has_edge(f[2 * (k + 1)], (up + 1) as usize, (a + 1) as usize))
    &&& (j + 1 < h_segs ==> has_edge(f[2 * (k + segs)], up as usize, (up + 1) as usize))
}

/// The side grid is a seamless sheet of cells, two triangles each: every
/// cell is split along the same diagonal, and every side shared by two
/// cells or by the two halves of a cell is run once each way.
pub proof fn law_grid_cells(segs: int, h_segs: int)
    requires
        segs >= 1,
        h_segs >= 1,
        (h_segs + 1) * (segs + 1) <= usize::MAX,
    ensures
        grid_faces_spec(segs, h_segs).len() == 2 * segs * h_segs,
        forall|j: int, i: int|
            0 <= j < h_segs && 0 <= i < segs ==> #[trigger] grid_cell_sides(
                grid_faces_spec(segs, h_segs),
                segs,
                h_segs,
                j,
                i,
            ),
{
    let f = grid_faces_spec(segs, h_segs);
    assert forall|j: int, i: int| 0 <= j < h_segs && 0 <= i < segs implies #[trigger] grid_cell_sides(
        f,
        segs,
        h_segs,
        j,
        i,
    ) by {
        lemma_grid_cell(segs, h_segs, j, i);
        let k = j * segs + i;
        assert(0 <= k) by (nonlinear_arith)
            requires
                k == j * segs + i,
                0 <= j,
                0 <= i,
                segs >= 1,
        ;

        assert(2 * k + 1 < 2 * segs * h_segs) by (nonlinear_arith)
            requires
                k == j * segs + i,
                0 <= j < h_segs,
                0 <= i < segs,
        ;
        assert(f[2 * k] == grid_face(segs, 2 * k));
        assert(f[2 * k + 1] == grid_face(segs, 2 * k + 1));
        if i + 1 < segs {
            lemma_grid_cell(segs, h_segs, j, i + 1);
            assert(j * segs + (i + 1) == k + 1);
            assert(j * (segs + 1) + (i + 1) == j * (segs + 1) + i + 1);
            assert(2 * (k + 1) < 2 * segs * h_segs) by (nonlinear_arith)
                requires
                    k + 1 == j * segs + (i + 1),
                    0 <= j < h_segs,
                    0 <= i + 1 < segs,
            ;
            assert(f[2 * (k + 1)] == grid_face(segs, 2 * (k + 1)));
        }
        if j + 1 < h_segs {
            lemma_grid_cell(segs, h_segs, j + 1, i);
            assert((j + 1) * segs + i == k + segs) by (nonlinear_arith)
                requires
                    k == j * segs + i,
            ;
            assert((j + 2) * (segs + 1) == (j + 1) * (segs + 1) + segs + 1) by (nonlinear_arith);
            assert(2 * (k + segs) < 2 * segs * h_segs) by (nonlinear_arith)
                requires
                    k + segs == (j + 1) * segs + i,
                    0 <= j + 1 < h_segs,
                    0 <= i < segs,
            ;
            assert(f[2 * (k + segs)] == grid_face(segs, 2 * (k + segs)));
        }
    }
    assert(f.len() == 2 * segs * h_segs);
}

/// The cell (row, column) that side triangle `k` of a grid mesh with
/// `segs` segments around belongs to.
pub fn grid_face_cell(segs: usize, k: usize) -> (rc: (usize, usize))
    requires
        segs > 0,
    ensures
        rc == (((k / 2) / segs) as usize, ((k / 2) % segs) as usize),
{
    let cell = k / 2;
    (cell / segs, cell % segs)
}

/// The side triangles of a grid mesh with `segs` segments around and
/// `h_segs` rows of cells: two per cell, row by row.
pub fn grid_faces(segs: usize, h_segs: usize) -> (f: Vec<Tri>)
    requires
        (h_segs + 1) * (segs + 1) <= usize::MAX,
        2 * segs * h_segs <= usize::MAX,
    ensures
        f@ == grid_faces_spec(segs as int, h_segs as int),
        faces_within(f@, (h_segs + 1) * (segs + 1)),
{
    let ghost n = (h_segs + 1) * (segs + 1);
    let mut faces: Vec<Tri> = Vec::new();
    let mut j: usize = 0;
    while j < h_segs
        invariant
            j <= h_segs,
            n == (h_segs + 1) * (segs + 1),
            n <= usize::MAX,
            2 * segs * h_segs <= usize::MAX,
            faces@.len() == 2 * (j * segs),
            forall|k: int| 0 <= k < faces@.len() ==> #[trigger] faces@[k] == grid_face(segs as int, k),
            faces_within(faces@, n),
        decreases h_segs - j,
    {
        let mut i: usize = 0;
        while i < segs
            invariant
                j < h_segs,
                i <= segs,
                n == (h_segs + 1) * (segs + 1),
                n <= usize::MAX,
                2 * segs * h_segs <= usize::MAX,
                faces@.len() == 2 * (j * segs + i),
                forall|k: int|
                    0 <= k < faces@.len() ==> #[trigger] faces@[k] == grid_face(segs as int, k),
                faces_within(faces@, n),
            decreases segs - i,
        {
            proof {
                lemma_grid_cell(segs as int, h_segs as int, j as int, i as int);
                assert(2 * (j * segs + i + 1) <= 2 * segs * h_segs) by (nonlinear_arith)
                    requires
                        j * segs + i + 1 <= h_segs * segs,
                ;
            }
            let a = j * (segs + 1) + i;
            let b = a + 1;
            let c = (j + 1) * (segs + 1) + i;
            let d = c + 1;
            let ghost k0 = faces@.len() as int;
            faces.push((a, b, c));
            faces.push((b, d, c));
            assert(faces@[k0] == grid_face(segs as int, k0));
            assert(faces@[k0 + 1] == grid_face(segs as int, k0 + 1));
            i += 1;
        }
        proof {
            assert((j + 1) * segs == j * segs + segs) by (nonlinear_arith);
        }
        j += 1;
    }
    proof {
        assert(2 * (h_segs * segs) == 2 * segs * h_segs) by (nonlinear_arith);
        assert(faces@ =~= grid_faces_spec(segs as int, h_segs as int));
    }
    faces
}

/// Triangle `i` of a fan round `center` over the ring that starts at vertex
/// `start`: (center, start + i, start + i + 1), or the other way round when
/// `reversed`.
pub open spec fn cap_face(center: int, start: int, reversed: bool, i: int) -> Tri {
    if reversed {
        (center as usize, (start + i + 1) as usize, (start + i) as usize)
    } else {
        (center as usize, (start + i) as usize, (start + i + 1) as usize)
    }
}

pub open spec fn cap_faces_spec(center: int, start: int, segs: int, reversed: bool) -> Seq<Tri> {
    Seq::new(segs as nat, |i: int| cap_face(center, start, reversed, i))
}

/// Appends the `segs` triangles of a cap fan to `faces`.
fn push_cap(faces: &mut Vec<Tri>, center: usize, start: usize, segs: usize, reversed: bool)
    requires
        start + segs + 1 <= usize::MAX,
    ensures
        final(faces)@ == old(faces)@ + cap_faces_spec(center as int, start as int, segs as int, reversed),
{
    let ghost before = faces@;
    let mut i: usize = 0;
    while i < segs
        invariant
            i <= segs,
            start + segs + 1 <= usize::MAX,
            faces@ == before + cap_faces_spec(center as int, start as int, i as int, reversed),
        decreases segs - i,
    {
        let a = start + i;
        let b = start + i + 1;
        if reversed {
            faces.push((center, b, a));
        } else {
            faces.push((center, a, b));
        }
        i += 1;
        assert(faces@ =~= before + cap_faces_spec(center as int, start as int, i as int, reversed));
    }
}

/// The number of vertices of the side grid of a mesh.
pub open spec fn grid_vertex_count(segs: int, h_segs: int) -> int {
    (h_segs + 1) * (segs + 1)
}

/// The triangles of the cylinder: its side grid, then the top cap round
/// vertex `grid_vertex_count` over the last row, then the bottom cap,
/// reversed, round the next vertex over the first row.
pub open spec fn cylinder_faces_spec(segs: int, h_segs: int) -> Seq<Tri> {
    let n = grid_vertex_count(segs, h_segs);
    grid_faces_spec(segs, h_segs) + cap_faces_spec(n, h_segs * (segs + 1), segs, false)
        + cap_faces_spec(n + 1, 0, segs, true)
}

pub fn cylinder_faces(segs: usize, h_segs: usize) -> (f: Vec<Tri>)
    requires
        (h_segs + 1) * (segs + 1) + 2 <= usize::MAX,
        2 * segs * h_segs + 2 * segs <= usize::MAX,
    ensures
        f@ == cylinder_faces_spec(segs as int, h_segs as int),
        faces_within(f@, grid_vertex_count(segs as int, h_segs as int) + 2),
{
    let mut f = grid_faces(segs, h_segs);
    proof {
        assert((h_segs + 1) * (segs + 1) == h_segs * (segs + 1) + segs + 1) by (nonlinear_arith);
    }
    proof {
        assert((h_segs + 1) * (segs + 1) >= h_segs + 1) by (nonlinear_arith)
            requires
                h_segs >= 0,
                segs >= 0,
        ;
    }
    let rows = h_segs + 1;
    let cols = segs + 1;
    assert(rows * cols <= usize::MAX);
    let n = rows * cols;
    let top_start = h_segs * (segs + 1);
    push_cap(&mut f, n, top_start, segs, false);
    push_cap(&mut f, n + 1, 0, segs, true);
    f
}

/// The triangles of the cone: its side grid, then the bottom cap,
/// reversed, round vertex `grid_vertex_count` over the first row.
pub open spec fn cone_faces_spec(segs: int, h_segs: int) -> Seq<Tri> {
    grid_faces_spec(segs, h_segs) + cap_faces_spec(grid_vertex_count(segs, h_segs), 0, segs, true)
}

/// The `segs` triangles of `f` from index `first` on close the ring of
/// vertices `ring`, `ring + 1`, ..., `ring + segs` round `center`:
/// triangle `i` runs along the rim from `ring + i` to `ring + i + 1`
/// (the other way when `reversed`), has `center` as its third corner, and
/// the spoke to `ring + i + 1` that it shares with the next triangle is
/// run once each way.
pub open spec fn fan_closes(f: Seq<Tri>, first: int, center: int, ring: int, segs: int, reversed: bool) -> bool {
    forall|i: int|
        0 <= i < segs ==> {
            let (x, y) = ((ring + i) as usize, (ring + i + 1) as usize);
            let c = center as usize;
            if reversed {
                &&& has_edge(#[trigger] f[first + i], y, x)
                &&& has_edge(f[first + i], c, y)
                &&& (i + 1 < segs ==> has_edge(f[first + i + 1], y, c))
            } else {
                &&& has_edge(f[first + i], x, y)
                &&& has_edge(f[first + i], y, c)
                &&& (i + 1 < segs ==> has_edge(f[first + i + 1], c, y))
            }
        }
}

proof fn lemma_cap_fan(f: Seq<Tri>, first: int, center: int, ring: int, segs: int, reversed: bool)
    requires
        0 <= first,
        first + segs <= f.len(),
        0 <= center,
        0 <= ring,
        center + 1 <= usize::MAX,
        ring + segs + 1 <= usize::MAX,
        forall|i: int|
            0 <= i < segs ==> #[trigger] f[first + i] == cap_face(center, ring, reversed, i),
    ensures
        fan_closes(f, first, center, ring, segs, reversed),
{
    assert forall|i: int| 0 <= i < segs implies {
        let (x, y) = ((ring + i) as usize, (ring + i + 1) as usize);
        let c = center as usize;
        if reversed {
            &&& has_edge(#[trigger] f[first + i], y, x)
            &&& has_edge(f[first + i], c, y)
            &&& (i + 1 < segs ==> has_edge(f[first + i + 1], y, c))
        } else {
            &&& has_edge(f[first + i], x, y)
            &&& has_edge(f[first + i], y, c)
            &&& (i + 1 < segs ==> has_edge(f[first + i + 1], c, y))
        }
    } by {
        if i + 1 < segs {
            assert(f[first + (i + 1)] == cap_face(center, ring, reversed, i + 1));
        }
    }
}

/// The cylinder is closed at both ends: its top cap is a fan round vertex
/// `n = grid_vertex_count` that closes the grid's last row of vertices and
/// whose rim the top row of cells runs back, and its bottom cap a fan
/// round `n + 1`, turned the other way, that closes the first row and
/// whose rim the bottom row of cells runs back.
pub proof fn law_cylinder_closed_ends(segs: int, h_segs: int)
    requires
        segs >= 1,
        h_segs >= 1,
        (h_segs + 1) * (segs + 1) + 2 <= usize::MAX,
    ensures
        ({
            let f = cylinder_faces_spec(segs, h_segs);
            let g = 2 * segs * h_segs;
            let n = grid_vertex_count(segs, h_segs);
            let top = h_segs * (segs + 1);
            &&& f.len() == g + 2 * segs
            &&& fan_closes(f, g, n, top, segs, false)
            &&& fan_closes(f, g + segs, n + 1, 0, segs, true)
            &&& forall|i: int|
                0 <= i < segs ==> has_edge(
                    #[trigger] f[2 * ((h_segs - 1) * segs + i) + 1],
                    (top + i + 1) as usize,
                    (top + i) as usize,
                ) && has_edge(f[2 * i], i as usize, (i + 1) as usize)
        }),
{
    let grid = grid_faces_spec(segs, h_segs);
    let f = cylinder_faces_spec(segs, h_segs);
    let g = 2 * segs * h_segs;
    let n = grid_vertex_count(segs, h_segs);
    let top = h_segs * (segs + 1);
    assert(n == top + segs + 1) by (nonlinear_arith)
        requires
            n == (h_segs + 1) * (segs + 1),
            top == h_segs * (segs + 1),
    ;
    assert(0 <= top) by (nonlinear_arith)
        requires
            top == h_segs * (segs + 1),
            h_segs >= 1,
            segs >= 1,
    ;
    law_grid_cells(segs, h_segs);
    assert(grid.len() == g);
    assert forall|i: int| 0 <= i < segs implies #[trigger] f[g + i] == cap_face(n, top, false, i) by {
    }
    assert forall|i: int| 0 <= i < segs implies #[trigger] f[g + segs + i] == cap_face(
        n + 1,
        0,
        true,
        i,
    ) by {
    }
    lemma_cap_fan(f, g, n, top, segs, false);
    lemma_cap_fan(f, g + segs, n + 1, 0, segs, true);
    assert forall|i: int| 0 <= i < segs implies has_edge(
        #[trigger] f[2 * ((h_segs - 1) * segs + i) + 1],
        (top + i + 1) as usize,
        (top + i) as usize,
    ) && has_edge(f[2 * i], i as usize, (i + 1) as usize) by {
        assert(grid_cell_sides(grid, segs, h_segs, h_segs - 1, i));
        assert(grid_cell_sides(grid, segs, h_segs, 0, i));
        let k = (h_segs - 1) * segs + i;
        assert(2 * k + 1 < g) by (nonlinear_arith)
            requires
                k == (h_segs - 1) * segs + i,
                g == 2 * segs * h_segs,
                0 <= i < segs,
                h_segs >= 1,
        ;
        assert(0 <= k) by (nonlinear_arith)
            requires
                k == (h_segs - 1) * segs + i,
                0 <= i,
                h_segs >= 1,
                segs >= 1,
        ;
        assert((h_segs - 1) * (segs + 1) + i + segs + 1 == top + i) by (nonlinear_arith)
            requires
                top == h_segs * (segs + 1),
        ;
        assert(2 * i < g) by (nonlinear_arith)
            requires
                g == 2 * segs * h_segs,
                0 <= i < segs,
                h_segs >= 1,
        ;
        assert(f[2 * k + 1] == grid[2 * k + 1]);
        assert(f[2 * i] == grid[2 * i]);
        assert(0 * segs + i == i);
        assert(0 * (segs + 1) + i == i);
    }
}

/// The cone is closed at its foot: its bottom cap is a fan round vertex
/// `grid_vertex_count`, turned as the cylinder's bottom cap, that closes
/// the grid's first row of vertices, whose rim the bottom row of cells
/// runs back.
pub proof fn law_cone_closed_foot(segs: int, h_segs: int)
    requires
        segs >= 1,
        h_segs >= 1,
        (h_segs + 1) * (segs + 1) + 1 <= usize::MAX,
    ensures
        ({
            let f = cone_faces_spec(segs, h_segs);
            let g = 2 * segs * h_segs;
            &&& f.len() == g + segs
            &&& fan_closes(f, g, grid_vertex_count(segs, h_segs), 0, segs, true)
            &&& forall|i: int|
                0 <= i < segs ==> has_edge(#[trigger] f[2 * i], i as usize, (i + 1) as usize)
        }),
{
    let grid = grid_faces_spec(segs, h_segs);
    let f = cone_faces_spec(segs, h_segs);
    let g = 2 * segs * h_segs;
    let n = grid_vertex_count(segs, h_segs);
    assert(n >= segs + 1) by (nonlinear_arith)
        requires
            n == (h_segs + 1) * (segs + 1),
            h_segs >= 1,
            segs >= 1,
    ;
    law_grid_cells(segs, h_segs);
    assert(grid.len() == g);
    assert forall|i: int| 0 <= i < segs implies #[trigger] f[g + i] == cap_face(n, 0, true, i) by {
    }
    lemma_cap_fan(f, g, n, 0, segs, true);
    assert forall|i: int| 0 <= i < segs implies has_edge(
        #[trigger] f[2 * i],
        i as usize,
        (i + 1) as usize,
    ) by {
        assert(grid_cell_sides(grid, segs, h_segs, 0, i));
        assert(2 * i < g) by (nonlinear_arith)
            requires
                g == 2 * segs * h_segs,
                0 <= i < segs,
                h_segs >= 1,
        ;
        assert(f[2 * i] == grid[2 * i]);
        assert(0 * segs + i == i);
        assert(0 * (segs + 1) + i == i);
    }
}

pub fn cone_faces(segs: usize, h_segs: usize) -> (f: Vec<Tri>)
    requires
        (h_segs + 1) * (segs + 1) + 1 <= usize::MAX,
        2 * segs * h_segs + segs <= usize::MAX,
    ensures
        f@ == cone_faces_spec(segs as int, h_segs as int),
        faces_within(f@, grid_vertex_count(segs as int, h_segs as int) + 1),
{
    let mut f = grid_faces(segs, h_segs);
    proof {
        assert((h_segs + 1) * (segs + 1) >= segs + 1) by (nonlinear_arith)
            requires
                h_segs >= 0,
                segs >= 0,
        ;
    }
    proof {
        assert((h_segs + 1) * (segs + 1) >= h_segs + 1) by (nonlinear_arith)
            requires
                h_segs >= 0,
                segs >= 0,
        ;
    }
    let rows = h_segs + 1;
    let cols = segs + 1;
    assert(rows * cols <= usize::MAX);
    let n = rows * cols;
    push_cap(&mut f, n, 0, segs, true);
    f
}

/// The number of sides of a pyramid or prism built with `segments`: at
/// least three.
pub open spec fn ring_sides(segments: int) -> int {
    if segments < 3 {
        3
    } else {
        segments
    }
}

/// The triangles of the pyramid over `sides` base vertices, then the base
/// centre (vertex `sides`) and the apex (vertex `sides + 1`): first a side
/// triangle per edge of the base, then the base fan, reversed.
pub open spec fn pyramid_faces_spec(sides: int) -> Seq<Tri> {
    Seq::new(
        sides as nat,
        |i: int| (i as usize, ((i + 1) % sides) as usize, (sides + 1) as usize),
    ) + Seq::new(
        sides as nat,
        |i: int| (sides as usize, ((i + 1) % sides) as usize, i as usize),
    )
}

/// Every side of every triangle is run the other way by another triangle
/// of `faces`: the surface has no hole, and neighbouring triangles turn the
/// same way.
pub open spec fn sides_run_back(faces: Seq<Tri>) -> bool {
    forall|i: int, u: usize, v: usize|
        0 <= i < faces.len() && #[trigger] has_edge(faces[i], u, v) ==> exists|j: int|
            0 <= j < faces.len() && #[trigger] has_edge(faces[j], v, u)
}

proof fn lemma_next_on_ring(n: int, i: int)
    requires
        n >= 1,
        0 <= i < n,
    ensures
        (i + 1) % n == (if i + 1 < n {
            i + 1
        } else {
            0
        }),
{
    if i + 1 < n {
        vstd::arithmetic::div_mod::lemma_small_mod((i + 1) as nat, n as nat);
    } else {
        vstd::arithmetic::div_mod::lemma_mod_self_0(n);
    }
}

/// The pyramid over `sides >= 3` base vertices is a closed surface: every
/// side triangle `i` stands on the base edge from vertex `i` to the next
/// one round the ring and reaches the apex `sides + 1`; every base
/// triangle has the centre `sides` as a corner; and each side of each
/// triangle is run the other way by a neighbouring triangle.
pub proof fn law_pyramid_closed(n: int)
    requires
        3 <= n,
        2 * n + 2 <= usize::MAX,
    ensures
        pyramid_faces_spec(n).len() == 2 * n,
        forall|i: int|
            0 <= i < n ==> has_edge(#[trigger] pyramid_faces_spec(n)[i], i as usize, ((i + 1) % n) as usize)
                && is_corner(pyramid_faces_spec(n)[i], (n + 1) as usize),
        forall|k: int| n <= k < 2 * n ==> is_corner(#[trigger] pyramid_faces_spec(n)[k], n as usize),
        sides_run_back(pyramid_faces_spec(n)),
{
    let f = pyramid_faces_spec(n);
    let next = |i: int| if i + 1 < n { i + 1 } else { 0 };
    let prev = |i: int| if i == 0 { n - 1 } else { i - 1 };
    assert forall|i: int| 0 <= i < n implies #[trigger] f[i] == (
        i as usize,
        next(i) as usize,
        (n + 1) as usize,
    ) by {
        lemma_next_on_ring(n, i);
    }
    assert forall|k: int| n <= k < 2 * n implies #[trigger] f[k] == (
        n as usize,
        next(k - n) as usize,
        (k - n) as usize,
    ) by {
        lemma_next_on_ring(n, k - n);
    }
    assert forall|i: int, u: usize, v: usize|
        0 <= i < f.len() && #[trigger] has_edge(f[i], u, v) implies exists|j: int|
            0 <= j < f.len() && #[trigger] has_edge(f[j], v, u) by {
        if i < n {
            let b = next(i);
            let p = prev(i);
            assert(f[p] == (p as usize, next(p) as usize, (n + 1) as usize));
            assert(f[b] == (b as usize, next(b) as usize, (n + 1) as usize));
            assert(f[n + i] == (n as usize, b as usize, i as usize));
            if u == i && v == b {
                assert(has_edge(f[n + i], v, u));
            } else if u == b && v == n + 1 {
                assert(has_edge(f[b], v, u));
            } else {
                assert(has_edge(f[p], v, u));
            }
        } else {
            let i0 = i - n;
            let b = next(i0);
            let p = prev(i0);
            assert(f[i0] == (i0 as usize, b as usize, (n + 1) as usize));
            assert(f[n + b] == (n as usize, next(b) as usize, b as usize));
            assert(f[n + p] == (n as usize, next(p) as usize, p as usize));
            if u == n && v == b {
                assert(has_edge(f[n + b], v, u));
            } else if u == b && v == i0 {
                assert(has_edge(f[i0], v, u));
            } else {
                assert(has_edge(f[n + p], v, u));
            }
        }
    }
}

pub fn pyramid_faces(segments: usize) -> (f: Vec<Tri>)
    requires
        2 * segments + 2 <= usize::MAX,
    ensures
        f@ == pyramid_faces_spec(ring_sides(segments as int)),
        faces_within(f@, ring_sides(segments as int) + 2),
{
    let sides = if segments < 3 {
        3
    } else {
        segments
    };
    let mut f: Vec<Tri> = Vec::new();
    let mut i: usize = 0;
    while i < sides
        invariant
            sides == ring_sides(segments as int),
            2 * sides + 2 <= usize::MAX,
            i <= sides,
            f@ == Seq::new(
                i as nat,
                |k: int| (k as usize, ((k + 1) % (sides as int)) as usize, (sides + 1) as usize),
            ),
        decreases sides - i,
    {
        f.push((i, (i + 1) % sides, sides + 1));
        i += 1;
        assert(f@ =~= Seq::new(
            i as nat,
            |k: int| (k as usize, ((k + 1) % (sides as int)) as usize, (sides + 1) as usize),
        ));
    }
    let ghost lateral = f@;
    let mut i: usize = 0;
    while i < sides
        invariant
            sides == ring_sides(segments as int),
            2 * sides + 2 <= usize::MAX,
            i <= sides,
            f@ == lateral + Seq::new(
                i as nat,
                |k: int| (sides as usize, ((k + 1) % (sides as int)) as usize, k as usize),
            ),
        decreases sides - i,
    {
        f.push((sides, (i + 1) % sides, i));
        i += 1;
        assert(f@ =~= lateral + Seq::new(
            i as nat,
            |k: int| (sides as usize, ((k + 1) % (sides as int)) as usize, k as usize),
        ));
    }
    f
}

/// The number of sides of a pyramid or prism built with `segments`.
pub fn ring_side_count(segments: usize) -> (n: usize)
    ensures
        n == ring_sides(segments as int),
{
    if segments < 3 {
        3
    } else {
        segments
    }
}

/// Side triangle `k` of the prism over a bottom ring (vertices
/// `0..sides`) and a top ring (`sides..2 * sides`): two per edge.
pub open spec fn prism_side_face(sides: int, k: int) -> Tri {
    let i = k / 2;
    let a = i;
    let b = (i + 1) % sides;
    let c = sides + i;
    let d = sides + (i + 1) % sides;
    if k % 2 == 0 {
        (a as usize, b as usize, c as usize)
    } else {
        (b as usize, d as usize, c as usize)
    }
}

/// The triangles of the prism: the sides, then a fan round vertex
/// `2 * sides` over the first ring, then a fan round vertex
/// `2 * sides + 1` over the second ring, reversed.
pub open spec fn prism_faces_spec(sides: int) -> Seq<Tri> {
    Seq::new((2 * sides) as nat, |k: int| prism_side_face(sides, k)) + Seq::new(
        sides as nat,
        |i: int| ((2 * sides) as usize, i as usize, ((i + 1) % sides) as usize),
    ) + Seq::new(
        sides as nat,
        |i: int|
            ((2 * sides + 1) as usize, (sides + (i + 1) % sides) as usize, (sides + i) as usize),
    )
}

/// Every side of every triangle of `faces` is also a side of another
/// triangle: the surface has no hole.
pub open spec fn no_open_side(faces: Seq<Tri>) -> bool {
    forall|i: int, u: usize, v: usize|
        0 <= i < faces.len() && #[trigger] has_edge(faces[i], u, v) ==> exists|j: int|
            0 <= j < faces.len() && j != i && (#[trigger] has_edge(faces[j], u, v) || has_edge(
                faces[j],
                v,
                u,
            ))
}

proof fn lemma_prism_face(n: int, i: int)
    requires
        3 <= n,
        4 * n + 2 <= usize::MAX,
        0 <= i < n,
    ensures
        ({
            let f = prism_faces_spec(n);
            let b = if i + 1 < n {
                i + 1
            } else {
                0
            };
            &&& f.len() == 4 * n
            &&& f[2 * i] == (i as usize, b as usize, (n + i) as usize)
            &&& f[2 * i + 1] == (b as usize, (n + b) as usize, (n + i) as usize)
            &&& f[2 * n + i] == ((2 * n) as usize, i as usize, b as usize)
            &&& f[3 * n + i] == ((2 * n + 1) as usize, (n + b) as usize, (n + i) as usize)
        }),
{
    lemma_next_on_ring(n, i);
    vstd::arithmetic::div_mod::lemma_fundamental_div_mod_converse(2 * i, 2, i, 0);
    vstd::arithmetic::div_mod::lemma_fundamental_div_mod_converse(2 * i + 1, 2, i, 1);
}

/// The triangles of a prism over `n` vertices per ring that belong to edge
/// `i` of the first ring, from vertex `i` to the next one `b`: triangle
/// `2i` runs along that edge and reaches the vertex `n + i` above `i`,
/// triangle `2i + 1` runs along the edge from `n + b` to `n + i` and
/// reaches `b`, and the fan triangles `2n + i` and `3n + i` have the ring
/// centres `2n` and `2n + 1` as corners.
pub open spec fn prism_ring_edge_faces(f: Seq<Tri>, n: int, i: int) -> bool {
    let b = ((i + 1) % n) as usize;
    &&& has_edge(f[2 * i], i as usize, b)
    &&& is_corner(f[2 * i], (n + i) as usize)
    &&& has_edge(f[2 * i + 1], (n + b) as usize, (n + i) as usize)
    &&& is_corner(f[2 * i + 1], b)
    &&& is_corner(f[2 * n + i], (2 * n) as usize)
    &&& is_corner(f[3 * n + i], (2 * n + 1) as usize)
}

/// The prism over `sides >= 3` vertices per ring has no hole: the two
/// triangles `2i` and `2i + 1` make the side quad that stands on edge `i`
/// of the first ring (from vertex `i` to the next one) and share a
/// diagonal, the two fans close the rings round the centres `2 * sides`
/// and `2 * sides + 1`, and every side of every triangle is a side of
/// another one.
pub proof fn law_prism_closed(n: int)
    requires
        3 <= n,
        4 * n + 2 <= usize::MAX,
    ensures
        prism_faces_spec(n).len() == 4 * n,
        forall|i: int| 0 <= i < n ==> #[trigger] prism_ring_edge_faces(prism_faces_spec(n), n, i),
        no_open_side(prism_faces_spec(n)),
{
    let f = prism_faces_spec(n);
    assert forall|i: int| 0 <= i < n implies #[trigger] prism_ring_edge_faces(f, n, i) by {
        lemma_prism_face(n, i);
        lemma_next_on_ring(n, i);
    }
    assert forall|k: int, u: usize, v: usize|
        0 <= k < f.len() && #[trigger] has_edge(f[k], u, v) implies exists|j: int|
            0 <= j < f.len() && j != k && (#[trigger] has_edge(f[j], u, v) || has_edge(
                f[j],
                v,
                u,
            )) by {
        lemma_prism_face(n, 0);
        let j = lemma_prism_partner(n, k, u, v);
    }
}

proof fn lemma_prism_partner_low_side(n: int, i: int, u: usize, v: usize) -> (j: int)
    requires
        3 <= n,
        4 * n + 2 <= usize::MAX,
        0 <= i < n,
        has_edge(prism_faces_spec(n)[2 * i], u, v),
    ensures
        0 <= j < 4 * n,
        j != 2 * i,
        has_edge(prism_faces_spec(n)[j], u, v) || has_edge(prism_faces_spec(n)[j], v, u),
{
    let b = if i + 1 < n {
        i + 1
    } else {
        0
    };
    let p = if i == 0 {
        n - 1
    } else {
        i - 1
    };
    lemma_prism_face(n, i);
    lemma_prism_face(n, b);
    lemma_prism_face(n, p);
    lemma_next_on_ring(n, p);
    if u == i && v == b {
        2 * n + i
    } else if u == b && v == n + i {
        2 * i + 1
    } else {
        2 * p + 1
    }
}

proof fn lemma_prism_partner_high_side(n: int, i: int, u: usize, v: usize) -> (j: int)
    requires
        3 <= n,
        4 * n + 2 <= usize::MAX,
        0 <= i < n,
        has_edge(prism_faces_spec(n)[2 * i + 1], u, v),
    ensures
        0 <= j < 4 * n,
        j != 2 * i + 1,
        has_edge(prism_faces_spec(n)[j], u, v) || has_edge(prism_faces_spec(n)[j], v, u),
{
    let b = if i + 1 < n {
        i + 1
    } else {
        0
    };
    let p = if i == 0 {
        n - 1
    } else {
        i - 1
    };
    lemma_prism_face(n, i);
    lemma_prism_face(n, b);
    lemma_prism_face(n, p);
    lemma_next_on_ring(n, p);
    if u == b && v == n + b {
        2 * b
    } else if u == n + b && v == n + i {
        3 * n + i
    } else {
        2 * i
    }
}

proof fn lemma_prism_partner_first_fan(n: int, i: int, u: usize, v: usize) -> (j: int)
    requires
        3 <= n,
        4 * n + 2 <= usize::MAX,
        0 <= i < n,
        has_edge(prism_faces_spec(n)[2 * n + i], u, v),
    ensures
        0 <= j < 4 * n,
        j != 2 * n + i,
        has_edge(prism_faces_spec(n)[j], u, v) || has_edge(prism_faces_spec(n)[j], v, u),
{
    let b = if i + 1 < n {
        i + 1
    } else {
        0
    };
    let p = if i == 0 {
        n - 1
    } else {
        i - 1
    };
    lemma_prism_face(n, i);
    lemma_prism_face(n, b);
    lemma_prism_face(n, p);
    lemma_next_on_ring(n, p);
    if u == 2 * n && v == i {
        2 * n + p
    } else if u == i && v == b {
        2 * i
    } else {
        2 * n + b
    }
}

proof fn lemma_prism_partner_second_fan(n: int, i: int, u: usize, v: usize) -> (j: int)
    requires
        3 <= n,
        4 * n + 2 <= usize::MAX,
        0 <= i < n,
        has_edge(prism_faces_spec(n)[3 * n + i], u, v),
    ensures
        0 <= j < 4 * n,
        j != 3 * n + i,
        has_edge(prism_faces_spec(n)[j], u, v) || has_edge(prism_faces_spec(n)[j], v, u),
{
    let b = if i + 1 < n {
        i + 1
    } else {
        0
    };
    let p = if i == 0 {
        n - 1
    } else {
        i - 1
    };
    lemma_prism_face(n, i);
    lemma_prism_face(n, b);
    lemma_prism_face(n, p);
    lemma_next_on_ring(n, p);
    if u == 2 * n + 1 && v == n + b {
        3 * n + b
    } else if u == n + b && v == n + i {
        2 * i + 1
    } else {
        3 * n + p
    }
}

proof fn lemma_prism_partner(n: int, k: int, u: usize, v: usize) -> (j: int)
    requires
        3 <= n,
        4 * n + 2 <= usize::MAX,
        0 <= k < 4 * n,
        has_edge(prism_faces_spec(n)[k], u, v),
    ensures
        0 <= j < 4 * n,
        j != k,
        has_edge(prism_faces_spec(n)[j], u, v) || has_edge(prism_faces_spec(n)[j], v, u),
{
    if k < 2 * n {
        vstd::arithmetic::div_mod::lemma_fundamental_div_mod(k, 2);
        let i = k / 2;
        if k % 2 == 0 {
            lemma_prism_partner_low_side(n, i, u, v)
        } else {
            lemma_prism_partner_high_side(n, i, u, v)
        }
    } else if k < 3 * n {
        lemma_prism_partner_first_fan(n, k - 2 * n, u, v)
    } else {
        lemma_prism_partner_second_fan(n, k - 3 * n, u, v)
    }
}

pub fn prism_faces(segments: usize) -> (f: Vec<Tri>)
    requires
        4 * segments + 2 <= usize::MAX,
    ensures
        f@ == prism_faces_spec(ring_sides(segments as int)),
        faces_within(f@, 2 * ring_sides(segments as int) + 2),
{
    let sides = if segments < 3 {
        3
    } else {
        segments
    };
    let ghost s = sides as int;
    let mut f: Vec<Tri> = Vec::new();
    let mut i: usize = 0;
    while i < sides
        invariant
            sides == ring_sides(segments as int),
            s == sides,
            4 * sides + 2 <= usize::MAX,
            i <= sides,
            f@ == Seq::new((2 * i) as nat, |k: int| prism_side_face(s, k)),
        decreases sides - i,
    {
        let a = i;
        let b = (i + 1) % sides;
        let c = sides + i;
        let d = sides + (i + 1) % sides;
        proof {
            vstd::arithmetic::div_mod::lemma_fundamental_div_mod_converse(2 * i, 2, i as int, 0);
            vstd::arithmetic::div_mod::lemma_fundamental_div_mod_converse(2 * i + 1, 2, i as int, 1);
        }
        f.push((a, b, c));
        f.push((b, d, c));
        i += 1;
        assert(f@ =~= Seq::new((2 * i) as nat, |k: int| prism_side_face(s, k)));
    }
    let ghost sides_part = f@;
    let mut i: usize = 0;
    while i < sides
        invariant
            sides == ring_sides(segments as int),
            s == sides,
            4 * sides + 2 <= usize::MAX,
            i <= sides,
            f@ == sides_part + Seq::new(
                i as nat,
                |k: int| ((2 * s) as usize, k as usize, ((k + 1) % s) as usize),
            ),
        decreases sides - i,
    {
        f.push((2 * sides, i, (i + 1) % sides));
        i += 1;
        assert(f@ =~= sides_part + Seq::new(
            i as nat,
            |k: int| ((2 * s) as usize, k as usize, ((k + 1) % s) as usize),
        ));
    }
    let ghost with_top = f@;
    let mut i: usize = 0;
    while i < sides
        invariant
            sides == ring_sides(segments as int),
            s == sides,
            4 * sides + 2 <= usize::MAX,
            i <= sides,
            f@ == with_top + Seq::new(
                i as nat,
                |k: int| ((2 * s + 1) as usize, (s + (k + 1) % s) as usize, (s + k) as usize),
            ),
        decreases sides - i,
    {
        f.push((2 * sides + 1, sides + (i + 1) % sides, sides + i));
        i += 1;
        assert(f@ =~= with_top + Seq::new(
            i as nat,
            |k: int| ((2 * s + 1) as usize, (s + (k + 1) % s) as usize, (s + k) as usize),
        ));
    }
    proof {
        assert(f@ =~= prism_faces_spec(s));
    }
    f
}

/// The edge whose midpoint becomes new vertex `n + k` when the triangles
/// `faces` of a mesh with `n` vertices are subdivided: for each triangle
/// (a, b, c) in turn, the edges a-b, b-c and c-a.
pub open spec fn midpoint_edges_spec(faces: Seq<Tri>) -> Seq<(usize, usize)> {
    Seq::new(
        (3 * faces.len()) as nat,
        |k: int|
            {
                let t = faces[k / 3];
                if k % 3 == 0 {
                    (t.0, t.1)
                } else if k % 3 == 1 {
                    (t.1, t.2)
                } else {
                    (t.2, t.0)
                }
            },
    )
}

/// The triangles after subdividing `faces` of a mesh with `n` vertices:
/// triangle `f` = (a, b, c) with edge midpoints ab = n + 3f, bc = n + 3f + 1
/// and ca = n + 3f + 2 becomes (a, ab, ca), (b, bc, ab), (c, ca, bc) and
/// (ab, bc, ca).
pub open spec fn subdivided_faces_spec(n: int, faces: Seq<Tri>) -> Seq<Tri> {
    Seq::new(
        (4 * faces.len()) as nat,
        |k: int|
            {
                let f = k / 4;
                let t = faces[f];
                let ab = (n + 3 * f) as usize;
                let bc = (n + 3 * f + 1) as usize;
                let ca = (n + 3 * f + 2) as usize;
                if k % 4 == 0 {
                    (t.0, ab, ca)
                } else if k % 4 == 1 {
                    (t.1, bc, ab)
                } else if k % 4 == 2 {
                    (t.2, ca, bc)
                } else {
                    (ab, bc, ca)
                }
            },
    )
}

/// Splits every triangle of a mesh with `n` vertices into four: gives the
/// edges whose midpoints are to be added as new vertices, in order, and the
/// new triangles.
pub fn subdivide_faces(n: usize, faces: &Vec<Tri>) -> (r: (Vec<(usize, usize)>, Vec<Tri>))
    requires
        n + 3 * faces@.len() <= usize::MAX,
        4 * faces@.len() <= usize::MAX,
    ensures
        r.0@ == midpoint_edges_spec(faces@),
        r.1@ == subdivided_faces_spec(n as int, faces@),
        faces_within(faces@, n as int) ==> faces_within(r.1@, n + 3 * faces@.len()),
        faces_within(faces@, n as int) ==> forall|k: int|
            0 <= k < r.0@.len() ==> (#[trigger] r.0@[k]).0 < n && r.0@[k].1 < n,
{
    let mut edges: Vec<(usize, usize)> = Vec::new();
    let mut out: Vec<Tri> = Vec::new();
    let mut f: usize = 0;
    while f < faces.len()
        invariant
            n + 3 * faces@.len() <= usize::MAX,
            4 * faces@.len() <= usize::MAX,
            f <= faces@.len(),
            edges@ == midpoint_edges_spec(faces@.take(f as int)),
            out@ == subdivided_faces_spec(n as int, faces@.take(f as int)),
        decreases faces.len() - f,
    {
        let (a, b, c) = faces[f];
        let ab = n + 3 * f;
        let bc = ab + 1;
        let ca = ab + 2;
        edges.push((a, b));
        edges.push((b, c));
        edges.push((c, a));
        out.push((a, ab, ca));
        out.push((b, bc, ab));
        out.push((c, ca, bc));
        out.push((ab, bc, ca));
        proof {
            let t = faces@.take(f + 1);
            assert(t[f as int] == (a, b, c));
            assert forall|k: int| 0 <= k < 3 * f implies #[trigger] (k / 3) < f && t[k / 3]
                == faces@.take(f as int)[k / 3] by {
                vstd::arithmetic::div_mod::lemma_div_pos_is_pos(k, 3);
                vstd::arithmetic::div_mod::lemma_fundamental_div_mod(k, 3);
            }
            assert forall|k: int| 3 * f <= k < 3 * f + 3 implies #[trigger] (k / 3) == f && k % 3
                == k - 3 * f by {
                vstd::arithmetic::div_mod::lemma_fundamental_div_mod_converse(k, 3, f as int, k - 3 * f);
            }
            assert(edges@ =~= midpoint_edges_spec(t));
            assert forall|k: int| 0 <= k < 4 * f implies #[trigger] (k / 4) < f && t[k / 4]
                == faces@.take(f as int)[k / 4] by {
                vstd::arithmetic::div_mod::lemma_fundamental_div_mod(k, 4);
            }
            assert forall|k: int| 4 * f <= k < 4 * f + 4 implies #[trigger] (k / 4) == f && k % 4
                == k - 4 * f by {
                vstd::arithmetic::div_mod::lemma_fundamental_div_mod_converse(k, 4, f as int, k - 4 * f);
            }
            assert(out@ =~= subdivided_faces_spec(n as int, t));
        }
        f += 1;
    }
    proof {
        assert(faces@.take(faces@.len() as int) =~= faces@);
        if faces_within(faces@, n as int) {
            assert forall|k: int| 0 <= k < out@.len() implies (#[trigger] out@[k]).0 < n + 3
                * faces@.len() && out@[k].1 < n + 3 * faces@.len() && out@[k].2 < n + 3
                * faces@.len() by {
                vstd::arithmetic::div_mod::lemma_fundamental_div_mod(k, 4);
                let q = k / 4;
                assert(0 <= q < faces@.len()) by {
                    vstd::arithmetic::div_mod::lemma_div_pos_is_pos(k, 4);
                }
                assert(faces@[q].0 < n);
            }
            assert forall|k: int| 0 <= k < edges@.len() implies (#[trigger] edges@[k]).0 < n
                && edges@[k].1 < n by {
                vstd::arithmetic::div_mod::lemma_fundamental_div_mod(k, 3);
                let q = k / 3;
                assert(0 <= q < faces@.len()) by {
                    vstd::arithmetic::div_mod::lemma_div_pos_is_pos(k, 3);
                }
                assert(faces@[q].0 < n);
            }
        }
    }
    (edges, out)
}

/// Subdivision keeps a mesh well formed: if every triangle refers to one
/// of the `n` vertices, every new triangle refers to one of the
/// `n + 3 * faces.len()` vertices after the midpoints are added, and there
/// are four times as many triangles.
pub proof fn law_subdivision_well_formed(n: int, faces: Seq<Tri>)
    requires
        n >= 0,
        faces_within(faces, n),
        n + 3 * faces.len() <= usize::MAX,
    ensures
        faces_within(subdivided_faces_spec(n, faces), n + 3 * faces.len()),
        subdivided_faces_spec(n, faces).len() == 4 * faces.len(),
        midpoint_edges_spec(faces).len() == 3 * faces.len(),
{
    let out = subdivided_faces_spec(n, faces);
    assert forall|k: int| 0 <= k < out.len() implies (#[trigger] out[k]).0 < n + 3 * faces.len()
        && out[k].1 < n + 3 * faces.len() && out[k].2 < n + 3 * faces.len() by {
        vstd::arithmetic::div_mod::lemma_fundamental_div_mod(k, 4);
        let q = k / 4;
        assert(0 <= q < faces.len()) by {
            vstd::arithmetic::div_mod::lemma_div_pos_is_pos(k, 4);
        }
        assert(faces[q].0 < n);
    }
}

/// Vertex `x` of the subdivided mesh is the midpoint made for the edge from
/// `u` to `v`: `edges` lists, for each new vertex `n + j` in turn, the edge
/// it halves.
pub open spec fn is_midpoint_of(edges: Seq<(usize, usize)>, n: int, x: usize, u: usize, v: usize) -> bool {
    n <= x < n + edges.len() && edges[x - n] == (u, v)
}

/// Each triangle (a, b, c) is split by the midpoints of its own three
/// edges: its first three new triangles keep one corner each, (a, ab, ca),
/// (b, bc, ab) and (c, ca, bc), and the fourth is (ab, bc, ca), where ab,
/// bc and ca are the new vertices made for the edges a-b, b-c and c-a of
/// that same triangle; the four share those three midpoints.
pub proof fn law_subdivision_uses_own_midpoints(n: int, faces: Seq<Tri>, f: int)
    requires
        n >= 0,
        n + 3 * faces.len() <= usize::MAX,
        0 <= f < faces.len(),
    ensures
        ({
            let e = midpoint_edges_spec(faces);
            let out = subdivided_faces_spec(n, faces);
            let (a, b, c) = faces[f];
            let (c0, ab, ca) = out[4 * f];
            let (c1, bc, ab1) = out[4 * f + 1];
            let (c2, ca2, bc2) = out[4 * f + 2];
            &&& c0 == a && c1 == b && c2 == c
            &&& is_midpoint_of(e, n, ab, a, b)
            &&& is_midpoint_of(e, n, bc, b, c)
            &&& is_midpoint_of(e, n, ca, c, a)
            &&& ab1 == ab && ca2 == ca && bc2 == bc
            &&& out[4 * f + 3] == (ab, bc, ca)
            &&& ab != bc && bc != ca && ca != ab
        }),
{
    let e = midpoint_edges_spec(faces);
    let out = subdivided_faces_spec(n, faces);
    assert forall|i: int| 0 <= i < 4 implies (#[trigger] (4 * f + i)) / 4 == f && (4 * f + i) % 4
        == i by {
        vstd::arithmetic::div_mod::lemma_fundamental_div_mod_converse(4 * f + i, 4, f, i);
    }
    assert forall|i: int| 0 <= i < 3 implies (#[trigger] (3 * f + i)) / 3 == f && (3 * f + i) % 3
        == i by {
        vstd::arithmetic::div_mod::lemma_fundamental_div_mod_converse(3 * f + i, 3, f, i);
    }
    assert(out[4 * f] == out[4 * f + 0]);
    assert(e[3 * f] == e[3 * f + 0]);
}

/// 4 to the power `k`.
pub open spec fn pow4(k: nat) -> nat
    decreases k,
{
    if k == 0 {
        1
    } else {
        4 * pow4((k - 1) as nat)
    }
}

/// The midpoint edges added so far and the triangles after `k` rounds of
/// subdividing the icosahedron (12 vertices): each round adds the midpoint
/// edges of its triangles, as new vertices after all earlier ones, and
/// splits every triangle in four.
pub open spec fn geodesic_rounds(k: nat) -> (Seq<(usize, usize)>, Seq<Tri>)
    decreases k,
{
    if k == 0 {
        (Seq::empty(), icosahedron_faces_spec())
    } else {
        let (e, f) = geodesic_rounds((k - 1) as nat);
        (e + midpoint_edges_spec(f), subdivided_faces_spec(12 + e.len() as int, f))
    }
}

/// The midpoint edges are well ordered: the edge that makes vertex
/// `12 + j` joins two earlier vertices.
pub open spec fn edges_precede(e: Seq<(usize, usize)>) -> bool {
    forall|j: int| 0 <= j < e.len() ==> (#[trigger] e[j]).0 < 12 + j && e[j].1 < 12 + j
}

/// After `k` rounds of subdivision the geodesic sphere has `20 * 4^k`
/// triangles and `12 + 20 * (4^k - 1)` vertices (12, 72, 312, 1272 for
/// k = 0..3); every triangle refers to one of them and every midpoint edge
/// joins vertices made before it.
pub proof fn law_geodesic_counts(k: nat)
    requires
        20 * pow4(k) <= usize::MAX,
    ensures
        geodesic_rounds(k).1.len() == 20 * pow4(k),
        geodesic_rounds(k).0.len() == 20 * (pow4(k) - 1),
        faces_within(geodesic_rounds(k).1, 12 + geodesic_rounds(k).0.len() as int),
        edges_precede(geodesic_rounds(k).0),
    decreases k,
{
    if k == 0 {
        assert(icosahedron_faces_spec().len() == 20);
        assert(faces_within(icosahedron_faces_spec(), 12));
    } else {
        let k1 = (k - 1) as nat;
        assert(pow4(k) == 4 * pow4(k1));
        law_geodesic_counts(k1);
        let (e, f) = geodesic_rounds(k1);
        let n = 12 + e.len() as int;
        law_subdivision_well_formed(n, f);
        let m = midpoint_edges_spec(f);
        let e2 = e + m;
        assert forall|j: int| 0 <= j < e2.len() implies (#[trigger] e2[j]).0 < 12 + j && e2[j].1 < 12
            + j by {
            if j >= e.len() {
                let q = j - e.len();
                vstd::arithmetic::div_mod::lemma_fundamental_div_mod(q, 3);
                assert(0 <= q / 3 < f.len()) by {
                    vstd::arithmetic::div_mod::lemma_div_pos_is_pos(q, 3);
                }
                assert(e2[j] == m[q]);
                assert(f[q / 3].0 < n && f[q / 3].1 < n && f[q / 3].2 < n);
            } else {
                assert(e2[j] == e[j]);
            }
        }
    }
}

/// The midpoint edges, in the order their vertices are added, and the
/// triangles of the geodesic sphere subdivided `min(height_segments, 3)`
/// times.
pub fn geodesic_mesh(height_segments: usize) -> (r: (Vec<(usize, usize)>, Vec<Tri>))
    ensures
        (r.0@, r.1@) == geodesic_rounds(if height_segments < 3 {
            height_segments as nat
        } else {
            3
        }),
        r.1@.len() == 20 * pow4(if height_segments < 3 {
            height_segments as nat
        } else {
            3
        }),
        faces_within(r.1@, 12 + r.0@.len() as int),
        edges_precede(r.0@),
{
    let rounds: usize = if height_segments < 3 {
        height_segments
    } else {
        3
    };
    proof {
        reveal_with_fuel(pow4, 4);
        assert(pow4(3) == 64);
    }
    let mut edges: Vec<(usize, usize)> = Vec::new();
    let mut faces = icosahedron_faces();
    let mut r: usize = 0;
    while r < rounds
        invariant
            rounds <= 3,
            r <= rounds,
            (edges@, faces@) == geodesic_rounds(r as nat),
        decreases rounds - r,
    {
        proof {
            reveal_with_fuel(pow4, 4);
            law_geodesic_counts(r as nat);
        }
        let n = 12 + edges.len();
        let (mut new_edges, new_faces) = subdivide_faces(n, &faces);
        edges.append(&mut new_edges);
        faces = new_faces;
        r += 1;
    }
    proof {
        reveal_with_fuel(pow4, 4);
        law_geodesic_counts(rounds as nat);
    }
    (edges, faces)
}

} // verus!
