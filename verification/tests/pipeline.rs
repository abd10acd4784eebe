// The transform pipeline itself is floating-point work that lives in the
// driver, not in the library; these tests mirror the driver's arithmetic
// (model, view, projection, the y/6 screen step) and feed the projected
// points into the library's verified rasterizer.

use nalgebra::{Matrix4, Point3, Vector3, Vector4};
use termframe::screen::{Colour, Screen};
use termframe::structures::Mesh;

const BG: Colour = Colour::Rgb(0, 0, 0);

fn translation_from(pos: &Vector4<f64>) -> Matrix4<f64> {
    Matrix4::new(
        1.0, 0.0, 0.0, pos[0], 0.0, 1.0, 0.0, pos[1], 0.0, 0.0, 1.0, pos[2], 0.0, 0.0, 0.0, 1.0,
    )
}

fn scaling_from(s: f64) -> Matrix4<f64> {
    Matrix4::new(
        s, 0.0, 0.0, 0.0, 0.0, s, 0.0, 0.0, 0.0, 0.0, s, 0.0, 0.0, 0.0, 0.0, 1.0,
    )
}

fn mvp_for(width: usize, height: usize, eye: Vector3<f64>, target: Vector3<f64>) -> Matrix4<f64> {
    let model = translation_from(&Vector4::new(0.0, 0.0, 0.0, 1.0))
        * Matrix4::from_euler_angles(0.0, 0.0, 0.0)
        * scaling_from(1.0);
    let view = Matrix4::face_towards(&Point3::from(eye), &Point3::from(target), &Vector3::y());
    let projection =
        Matrix4::new_perspective(width as f64 / height as f64, 3.14 / 4.0, 1.0, 100.0);
    projection * view * model
}

fn project(mvp: &Matrix4<f64>, v: &Vector4<f64>) -> (f64, f64) {
    let p = mvp * v;
    (p[0], p[1] / 6.0)
}

#[test]
fn mvp_and_projection_are_reproducible_bit_for_bit() {
    let eye = Vector3::new(0.0, 0.0, 0.0);
    let target = Vector3::new(0.0, 0.0, -1.0);
    let a = mvp_for(20, 10, eye, target);
    let b = mvp_for(20, 10, eye, target);
    for i in 0..4 {
        for j in 0..4 {
            assert_eq!(a[(i, j)].to_bits(), b[(i, j)].to_bits());
        }
    }
    let v = Vector4::new(-3.0, 4.0, -10.0, 1.0);
    let (x1, y1) = project(&a, &v);
    let (x2, y2) = project(&b, &v);
    assert_eq!(x1.to_bits(), x2.to_bits());
    assert_eq!(y1.to_bits(), y2.to_bits());
}

#[test]
fn single_triangle_mesh_renders_a_connected_outline() {
    // A right triangle in a plane parallel to XY, with a dummy normal.
    let lines: Vec<String> = [
        "o tri",
        "v -3 4 -10",
        "v -12 4 -10",
        "v -3 20 -10",
        "vn 0 0 1",
        "f 1//1 2//1 3//1",
    ]
    .iter()
    .map(|s| s.to_string())
    .collect();
    let mesh = Mesh::from_lines(&lines).unwrap();
    assert_eq!(mesh.vertices.len(), 3);
    assert_eq!(mesh.faces.len(), 1);

    let mut s = Screen::from(20, 10);
    // Camera at the origin looking straight down -z at the triangle.
    let mvp = mvp_for(
        s.width,
        s.height,
        Vector3::new(0.0, 0.0, 0.0),
        Vector3::new(0.0, 0.0, -1.0),
    );

    let mut pts = [(0i32, 0i32); 3];
    for (k, &ix) in mesh.faces[0].vertices.iter().enumerate() {
        let c = &mesh.vertices[ix];
        let v = Vector4::new(
            c.x.parse::<f64>().unwrap(),
            c.y.parse::<f64>().unwrap(),
            c.z.parse::<f64>().unwrap(),
            1.0,
        );
        let (px, py) = project(&mvp, &v);
        pts[k] = (px as i32, py as i32);
        // The projected vertices fall within the canvas bounds.
        assert!(0 <= pts[k].0 && pts[k].0 < s.width as i32, "{:?}", pts[k]);
        assert!(0 <= pts[k].1 && pts[k].1 < s.height as i32, "{:?}", pts[k]);
    }

    s.triangle(pts[0], pts[1], pts[2], Colour::Rgb(255, 255, 255), false);

    let lit: Vec<(usize, usize)> = (0..s.height)
        .flat_map(|y| (0..s.width).map(move |x| (x, y)))
        .filter(|&(x, y)| s.screen[s.width * y + x] != BG)
        .collect();
    // The three corners are drawn, the edges connect them, and the shape
    // is an outline, not a filled triangle.
    for p in pts {
        assert!(lit.contains(&(p.0 as usize, p.1 as usize)), "{:?} {:?}", p, lit);
    }
    assert!(lit.len() >= 20);
    assert!(lit.len() < s.width * s.height / 2);
    // Every lit pixel has a lit neighbour: the outline is connected.
    for &(x, y) in &lit {
        let has_neighbour = lit.iter().any(|&(a, b)| {
            (a, b) != (x, y) && a.abs_diff(x) <= 1 && b.abs_diff(y) <= 1
        });
        assert!(has_neighbour, "isolated pixel {:?}", (x, y));
    }
}
