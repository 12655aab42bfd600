//! The library at work in a whole renderer: the arithmetic is done here, in
//! single precision, and every decision is the library's.

use std::f32::consts::{FRAC_PI_2, FRAC_PI_4, PI, SQRT_2};

use rosemary_renderer::types::camera::Camera;
use rosemary_renderer::types::canvas::Canvas;
use rosemary_renderer::types::colour::Colour;
use rosemary_renderer::types::intersection::{Intersection, IntersectionComps};
use rosemary_renderer::types::light::PointLight;
use rosemary_renderer::types::material::{Material, Terms};
use rosemary_renderer::types::matrix::Axis;
use rosemary_renderer::types::ray::Ray;
use rosemary_renderer::types::sphere::{Roots, Sphere};
use rosemary_renderer::types::world::World;
use rosemary_renderer::{Matrix, Scalar, Tuple};

const EPSILON: f32 = 0.0001;

fn s(x: f32) -> Scalar {
    Scalar::from_bits(x.to_bits())
}

fn f(x: Scalar) -> f32 {
    f32::from_bits(x.to_bits())
}

fn close(a: f32, b: f32) -> bool {
    (a - b).abs() < EPSILON
}

// ---- tuples

fn tuple(x: f32, y: f32, z: f32, w: f32) -> Tuple {
    Tuple::new(s(x), s(y), s(z), s(w))
}

fn point(x: f32, y: f32, z: f32) -> Tuple {
    Tuple::point(s(x), s(y), s(z))
}

fn vector(x: f32, y: f32, z: f32) -> Tuple {
    Tuple::vector(s(x), s(y), s(z))
}

fn same(a: Tuple, b: Tuple) -> bool {
    close(f(a.x), f(b.x)) && close(f(a.y), f(b.y)) && close(f(a.z), f(b.z)) && close(f(a.w), f(b.w))
}

fn plus(a: Tuple, b: Tuple) -> Tuple {
    tuple(f(a.x) + f(b.x), f(a.y) + f(b.y), f(a.z) + f(b.z), f(a.w) + f(b.w))
}

fn minus(a: Tuple, b: Tuple) -> Tuple {
    tuple(f(a.x) - f(b.x), f(a.y) - f(b.y), f(a.z) - f(b.z), f(a.w) - f(b.w))
}

fn scaled(a: Tuple, k: f32) -> Tuple {
    tuple(f(a.x) * k, f(a.y) * k, f(a.z) * k, f(a.w) * k)
}

fn divided(a: Tuple, k: f32) -> Tuple {
    tuple(f(a.x) / k, f(a.y) / k, f(a.z) / k, f(a.w) / k)
}

fn inner(a: Tuple, b: Tuple) -> f32 {
    f(a.x) * f(b.x) + f(a.y) * f(b.y) + f(a.z) * f(b.z) + f(a.w) * f(b.w)
}

fn outer(a: Tuple, b: Tuple) -> Tuple {
    vector(
        f(a.y) * f(b.z) - f(a.z) * f(b.y),
        f(a.z) * f(b.x) - f(a.x) * f(b.z),
        f(a.x) * f(b.y) - f(a.y) * f(b.x),
    )
}

fn length(a: Tuple) -> f32 {
    (f(a.x).powi(2) + f(a.y).powi(2) + f(a.z).powi(2) + f(a.w).powi(2)).sqrt()
}

fn unit(a: Tuple) -> Tuple {
    divided(a, length(a))
}

fn reflect(a: Tuple, normal: Tuple) -> Tuple {
    minus(a, scaled(normal, 2.0 * inner(a, normal)))
}

// ---- colours

fn colour(r: f32, g: f32, b: f32) -> Colour {
    Colour::new(s(r), s(g), s(b))
}

fn same_colour(a: Colour, b: Colour) -> bool {
    close(f(a.r), f(b.r)) && close(f(a.g), f(b.g)) && close(f(a.b), f(b.b))
}

fn sum(a: Colour, b: Colour) -> Colour {
    colour(f(a.r) + f(b.r), f(a.g) + f(b.g), f(a.b) + f(b.b))
}

fn less(a: Colour, b: Colour) -> Colour {
    colour(f(a.r) - f(b.r), f(a.g) - f(b.g), f(a.b) - f(b.b))
}

fn blend(a: Colour, b: Colour) -> Colour {
    colour(f(a.r) * f(b.r), f(a.g) * f(b.g), f(a.b) * f(b.b))
}

fn dimmed(a: Colour, k: f32) -> Colour {
    colour(f(a.r) * k, f(a.g) * k, f(a.b) * k)
}

// ---- matrices

fn m4(v: [f32; 16]) -> Matrix {
    Matrix::new_4x4(v.map(s))
}

fn m3(v: [f32; 9]) -> Matrix {
    Matrix::new_3x3(v.map(s))
}

fn m2(v: [f32; 4]) -> Matrix {
    Matrix::new_2x2(v.map(s))
}

fn at(m: &Matrix, r: usize, c: usize) -> f32 {
    f(m.index((r, c)))
}

fn same_matrix(a: &Matrix, b: &Matrix) -> bool {
    if a.size() != b.size() {
        return false;
    }
    let n = a.size();
    (0..n).all(|r| (0..n).all(|c| close(at(a, r, c), at(b, r, c))))
}

fn product(a: &Matrix, b: &Matrix) -> Matrix {
    assert_eq!(a.size(), b.size());
    let n = a.size();
    let mut result = Matrix::default(n);
    for row in 0..n {
        for col in 0..n {
            let mut entry = 0.0;
            for k in 0..n {
                entry += at(a, row, k) * at(b, k, col);
            }
            result.set((row, col), s(entry));
        }
    }
    result
}

fn apply(m: &Matrix, p: Tuple) -> Tuple {
    assert_eq!(m.size(), 4);
    let row = |r: usize| {
        at(m, r, 0) * f(p.x) + at(m, r, 1) * f(p.y) + at(m, r, 2) * f(p.z) + at(m, r, 3) * f(p.w)
    };
    tuple(row(0), row(1), row(2), row(3))
}

fn minor_of(m: &Matrix, row: usize, col: usize) -> f32 {
    det(&m.submatrix(row, col))
}

fn cofactor_of(m: &Matrix, row: usize, col: usize) -> f32 {
    f(Matrix::calc_cofactor(s(minor_of(m, row, col)), row, col))
}

fn det(m: &Matrix) -> f32 {
    if m.size() == 2 {
        return at(m, 0, 0) * at(m, 1, 1) - at(m, 0, 1) * at(m, 1, 0);
    }
    let mut result = 0.0;
    for i in 0..m.size() {
        result += at(m, 0, i) * cofactor_of(m, 0, i);
    }
    result
}

fn invert(m: &Matrix) -> Option<Matrix> {
    let det = det(m);
    if !Matrix::invertible(s(det)) {
        return None;
    }
    let n = m.size();
    assert!(n >= 3);
    let mut minors = Matrix::default(n);
    for row in 0..n {
        for col in 0..n {
            minors.set((row, col), s(minor_of(m, row, col)));
        }
    }
    let cofactors = Matrix::cofactor_array(&minors);
    let mut result = Matrix::default(n);
    for row in 0..n {
        for col in 0..n {
            result.set((row, col), s(at(&cofactors, row, col) / det));
        }
    }
    Some(result)
}

fn translation(x: f32, y: f32, z: f32) -> Matrix {
    Matrix::translation(s(x), s(y), s(z))
}

fn scaling(x: f32, y: f32, z: f32) -> Matrix {
    Matrix::scaling(s(x), s(y), s(z))
}

fn shearing(xy: f32, xz: f32, yx: f32, yz: f32, zx: f32, zy: f32) -> Matrix {
    Matrix::shearing(s(xy), s(xz), s(yx), s(yz), s(zx), s(zy))
}

fn rotation_x(ang: f32) -> Matrix {
    Matrix::rotation_x(s(ang.cos()), s(ang.sin()))
}

fn rotation_y(ang: f32) -> Matrix {
    Matrix::rotation_y(s(ang.cos()), s(ang.sin()))
}

fn rotation_z(ang: f32) -> Matrix {
    Matrix::rotation_z(s(ang.cos()), s(ang.sin()))
}

fn rotation(axis: Axis, ang: f32) -> Matrix {
    Matrix::rotation(axis, s(ang.cos()), s(ang.sin()))
}

fn view(from: Tuple, to: Tuple, up: Tuple) -> Matrix {
    assert!(from.is_point());
    assert!(to.is_point());
    assert!(up.is_vector());
    let forward = unit(minus(to, from));
    let left = outer(forward, unit(up));
    let true_up = outer(left, forward);
    let back = from.neg();
    product(
        &Matrix::orientation(left, true_up, forward),
        &Matrix::translation(back.x, back.y, back.z),
    )
}

// ---- rays and spheres

fn ray(origin: Tuple, direction: Tuple) -> Ray {
    assert!(origin.is_point(), "Origin must be a point");
    assert!(direction.is_vector(), "Direction must be a vector");
    Ray::new(origin, direction)
}

fn place(r: &Ray, distance: f32) -> Tuple {
    plus(r.origin, scaled(r.direction, distance))
}

fn carry(r: &Ray, m: &Matrix) -> Ray {
    Ray { origin: apply(m, r.origin), direction: apply(m, r.direction) }
}

fn sphere(transform: Matrix, material: Material) -> Sphere {
    let back = invert(&transform).unwrap();
    Sphere::new(transform, back, material)
}

fn solve(sphere: &Sphere, r: &Ray) -> Roots {
    let r = carry(r, &sphere.transform_inverse());
    let sphere_ray_vec = minus(r.origin, point(0.0, 0.0, 0.0));
    let a = inner(r.direction, r.direction);
    let b = 2.0 * inner(r.direction, sphere_ray_vec);
    let c = inner(sphere_ray_vec, sphere_ray_vec) - 1.0;
    let discriminant = b.powi(2) - 4.0 * a * c;
    Roots {
        discriminant: s(discriminant),
        t1: s((-b - discriminant.sqrt()) / (2.0 * a)),
        t2: s((-b + discriminant.sqrt()) / (2.0 * a)),
    }
}

fn normal_at(sphere: &Sphere, p: Tuple) -> Tuple {
    assert!(p.is_point());
    let p = apply(&sphere.transform_inverse(), p);
    let mut n = minus(p, point(0.0, 0.0, 0.0));
    n = apply(&sphere.transform_inverse().transpose(), n);
    n.w = Scalar::zero();
    unit(n)
}

// ---- worlds

fn intersect(world: &World, r: &Ray) -> Vec<Intersection> {
    let roots: Vec<Roots> = world.objects.iter().map(|o| solve(o, r)).collect();
    assert!(World::comparable(&roots));
    world.intersect(&roots)
}

fn shadowed(world: &World, p: Tuple) -> bool {
    assert!(p.is_point());
    let to_light = minus(world.light.unwrap().pos, p);
    let distance = length(to_light);
    let r = ray(p, unit(to_light));
    let roots: Vec<Roots> = world.objects.iter().map(|o| solve(o, &r)).collect();
    assert!(World::comparable(&roots));
    world.is_shadowed(&roots, s(distance))
}

fn comps(inter: &Intersection, r: &Ray, objects: &[Sphere]) -> IntersectionComps {
    let p = place(r, f(inter.t));
    let eye = r.direction.neg();
    let outward = normal_at(&objects[inter.obj], p);
    let (n, inside) = IntersectionComps::facing(outward, s(inner(outward, eye)));
    IntersectionComps {
        t: inter.t,
        obj: inter.obj,
        point: p,
        over_point: plus(p, scaled(n, EPSILON * 20.0)),
        eye,
        normal: n,
        inside,
    }
}

fn shade(
    material: &Material,
    pos: Tuple,
    light: &PointLight,
    eye: Tuple,
    n: Tuple,
    shadow: bool,
) -> Colour {
    assert!(pos.is_point());
    assert!(eye.is_vector());
    assert!(n.is_vector());
    let col = blend(material.colour, light.intensity);
    let light_vec = unit(minus(light.pos, pos));
    let ambient = dimmed(col, f(material.ambient));
    let light_dot_norm = inner(light_vec, n);
    let reflect_dot_eye = inner(reflect(light_vec, n).neg(), eye);
    match Material::terms(s(light_dot_norm), s(reflect_dot_eye), shadow) {
        Terms::Ambient => ambient,
        Terms::AmbientDiffuse => {
            let diffuse = dimmed(dimmed(col, f(material.diffuse)), light_dot_norm);
            sum(sum(ambient, diffuse), Colour::black())
        }
        Terms::AmbientDiffuseSpecular => {
            let diffuse = dimmed(dimmed(col, f(material.diffuse)), light_dot_norm);
            let factor = reflect_dot_eye.powf(f(material.shininess));
            let specular = dimmed(dimmed(light.intensity, f(material.specular)), factor);
            sum(sum(ambient, diffuse), specular)
        }
    }
}

fn shade_hit(world: &World, c: &IntersectionComps) -> Colour {
    shade(
        &world.objects[c.obj].material,
        c.over_point,
        &world.light.unwrap(),
        c.eye,
        c.normal,
        shadowed(world, c.over_point),
    )
}

fn colour_at(world: &World, r: &Ray) -> Colour {
    let roots: Vec<Roots> = world.objects.iter().map(|o| solve(o, r)).collect();
    assert!(World::comparable(&roots));
    match world.hit(&roots) {
        Some(hit) => shade_hit(world, &comps(&hit, r, &world.objects)),
        None => Colour::black(),
    }
}

// ---- cameras

fn camera(hsize: f32, vsize: f32, fov: f32, transform: Matrix) -> Camera {
    let half_view = (fov / 2.0).tan();
    let aspect = hsize / vsize;
    let (half_width, half_height) = if s(aspect).ge(Scalar::one()) {
        (half_view, half_view / aspect)
    } else {
        (half_view * aspect, half_view)
    };
    let pixel_size = (half_width * 2.0) / hsize;
    Camera::new(
        hsize as usize,
        vsize as usize,
        s(fov),
        transform,
        s(pixel_size),
        s(half_width),
        s(half_height),
    )
}

fn pixel_ray(c: &Camera, x: f32, y: f32) -> Ray {
    let xoffset = (x + 0.5) * f(c.pixel_size);
    let yoffset = (y + 0.5) * f(c.pixel_size);
    let world_x = f(c.half_width) - xoffset;
    let world_y = f(c.half_height) - yoffset;
    let inv_transform = invert(&c.transform).unwrap();
    let pixel = apply(&inv_transform, point(world_x, world_y, -1.0));
    let origin = apply(&inv_transform, point(0.0, 0.0, 0.0));
    ray(origin, unit(minus(pixel, origin)))
}

fn picture(c: &Camera, world: &World) -> Canvas {
    c.render(|x, y| colour_at(world, &pixel_ray(c, x as f32, y as f32)))
}

// ---- tuples and colours at work

#[test]
fn tuple_equal() {
    let tuple1 = tuple(4.3, -4.2, 3.1, 1.0);
    let tuple2 = tuple(4.3, -4.2, 3.1, 1.0);
    assert!(same(tuple1, tuple2));

    let tuple1 = tuple(3.3, -2.2, 0.1, 0.0);
    let tuple2 = tuple(4.3, -4.2, 3.1, 1.0);
    assert!(!same(tuple1, tuple2));
}

#[test]
fn tuple_add() {
    let tuple1 = tuple(3.0, -2.0, 5.0, 1.0);
    let tuple2 = tuple(-2.0, 3.0, 1.0, 0.0);
    let result = tuple(1.0, 1.0, 6.0, 1.0);
    assert!(same(plus(tuple1, tuple2), result));
    // a point and a direction give a point, two directions a direction
    assert!(plus(tuple1, tuple2).is_point());
    assert!(plus(tuple2, tuple2).is_vector());
    assert!(plus(vector(1.0, 2.0, 3.0), vector(1.0, 2.0, 3.0).neg()).is_vector());
}

#[test]
fn tuple_sub() {
    let tuple1 = point(3.0, 2.0, 1.0);
    let tuple2 = point(5.0, 6.0, 7.0);
    assert!(same(minus(tuple1, tuple2), vector(-2.0, -4.0, -6.0)));
    assert!(minus(tuple1, tuple2).is_vector());

    let tuple1 = point(3.0, 2.0, 1.0);
    let tuple2 = vector(5.0, 6.0, 7.0);
    assert!(same(minus(tuple1, tuple2), point(-2.0, -4.0, -6.0)));
    assert!(minus(tuple1, tuple2).is_point());

    let tuple1 = vector(3.0, 2.0, 1.0);
    let tuple2 = vector(5.0, 6.0, 7.0);
    assert!(same(minus(tuple1, tuple2), vector(-2.0, -4.0, -6.0)));
    assert!(minus(tuple1, tuple2).is_vector());

    let tuple1 = vector(0.0, 0.0, 0.0);
    let tuple2 = vector(1.0, -2.0, 3.0);
    assert!(same(minus(tuple1, tuple2), vector(-1.0, 2.0, -3.0)));
}

#[test]
fn tuple_mul_scalar() {
    let t = tuple(1.0, -2.0, 3.0, -4.0);
    assert!(same(scaled(t, 3.5), tuple(3.5, -7.0, 10.5, -14.0)));
    assert!(same(scaled(t, 0.5), tuple(0.5, -1.0, 1.5, -2.0)));
}

#[test]
fn div_scalar() {
    let t = tuple(1.0, -2.0, 3.0, -4.0);
    assert!(same(divided(t, 2.0), tuple(0.5, -1.0, 1.5, -2.0)));
}

#[test]
fn magnitude() {
    assert_eq!(length(vector(1.0, 0.0, 0.0)), 1.0);
    assert_eq!(length(vector(0.0, 1.0, 0.0)), 1.0);
    assert_eq!(length(vector(0.0, 0.0, 1.0)), 1.0);
    assert_eq!(length(vector(1.0, 2.0, 3.0)), 14.0_f32.sqrt());
    assert_eq!(length(vector(-1.0, -2.0, -3.0)), 14.0_f32.sqrt());
}

#[test]
fn norm() {
    let v = vector(4.0, 0.0, 0.0);
    assert!(same(unit(v), vector(1.0, 0.0, 0.0)));

    let v = vector(1.0, 2.0, 3.0);
    assert!(same(unit(v), vector(0.26726, 0.53452, 0.80178)));
    assert!(close(length(unit(v)), 1.0));
    assert!(unit(v).is_vector());
}

#[test]
fn dot() {
    let vector1 = vector(1.0, 2.0, 3.0);
    let vector2 = vector(2.0, 3.0, 4.0);
    assert_eq!(inner(vector1, vector2), 20.0);
}

#[test]
fn cross() {
    let vector1 = vector(1.0, 2.0, 3.0);
    let vector2 = vector(2.0, 3.0, 4.0);
    assert!(same(outer(vector1, vector2), vector(-1.0, 2.0, -1.0)));
    assert!(same(outer(vector2, vector1), vector(1.0, -2.0, 1.0)));
    assert!(outer(vector1, vector2).is_vector());
}

#[test]
fn colour_equal() {
    let col1 = colour(-0.5, 0.4, 1.7);
    let col2 = colour(-0.5, 0.4, 1.7);
    assert!(same_colour(col1, col2));

    let col1 = colour(-0.5, 0.4, 1.7);
    let col2 = colour(0.5, 7.4, -8.7);
    assert!(!same_colour(col1, col2));
}

#[test]
fn colour_add() {
    let col1 = colour(0.9, 0.6, 0.75);
    let col2 = colour(0.7, 0.1, 0.25);
    assert!(same_colour(sum(col1, col2), colour(1.6, 0.7, 1.0)));
}

#[test]
fn colour_sub() {
    let col1 = colour(0.9, 0.6, 0.75);
    let col2 = colour(0.7, 0.1, 0.25);
    assert!(same_colour(less(col1, col2), colour(0.2, 0.5, 0.5)));
}

#[test]
fn colour_mul_scalar() {
    let col1 = colour(0.9, 0.6, 0.75);
    let col2 = colour(0.7, 0.1, 0.25);
    assert!(same_colour(less(col1, col2), colour(0.2, 0.5, 0.5)));
}

#[test]
fn mul_blend() {
    let col1 = colour(1.0, 0.2, 0.4);
    let col2 = colour(0.9, 1.0, 0.1);
    assert!(same_colour(blend(col1, col2), colour(0.9, 0.2, 0.04)));
}

// ---- matrices at work

#[test]
fn eq() {
    let matrix1 = m4([
        1.0, 2.0, 3.0, 4.0,
        5.0, 6.0, 7.0, 8.0,
        9.0, 8.0, 7.0, 7.0,
        5.0, 4.0, 3.0, 2.0,
    ]);
    let matrix2 = m4([
        1.0, 2.0, 3.0, 4.0,
        5.0, 6.0, 7.0, 8.0,
        9.0, 8.0, 7.0, 7.0,
        5.0, 4.0, 3.0, 2.0,
    ]);
    assert!(same_matrix(&matrix1, &matrix2));

    let matrix2 = m4([
        2.0, 3.0, 4.0, 5.0,
        6.0, 7.0, 8.0, 9.0,
        8.0, 7.0, 6.0, 5.0,
        4.0, 3.0, 2.0, 1.0,
    ]);
    assert!(!same_matrix(&matrix1, &matrix2));
}

#[test]
fn mul() {
    let matrix1 = m4([
        1.0, 2.0, 3.0, 4.0,
        5.0, 6.0, 7.0, 8.0,
        9.0, 8.0, 7.0, 6.0,
        5.0, 4.0, 3.0, 2.0,
    ]);
    let matrix2 = m4([
        -2.0, 1.0, 2.0, 3.0,
        3.0, 2.0, 1.0, -1.0,
        4.0, 3.0, 6.0, 5.0,
        1.0, 2.0, 7.0, 8.0,
    ]);
    let result = m4([
        20.0, 22.0, 50.0, 48.0,
        44.0, 54.0, 114.0, 108.0,
        40.0, 58.0, 110.0, 102.0,
        16.0, 26.0, 46.0, 42.0,
    ]);
    assert!(same_matrix(&product(&matrix1, &matrix2), &result));

    let matrix = m4([
        1.0, 2.0, 3.0, 4.0,
        2.0, 4.0, 4.0, 2.0,
        8.0, 6.0, 4.0, 1.0,
        0.0, 0.0, 0.0, 1.0,
    ]);
    let t = tuple(1.0, 2.0, 3.0, 1.0);
    assert!(same(apply(&matrix, t), tuple(18.0, 24.0, 33.0, 1.0)));
}


#[test]
fn identity() {
    let matrix = m4([
        0.0, 1.0, 2.0, 4.0,
        1.0, 2.0, 4.0, 8.0,
        2.0, 4.0, 8.0, 16.0,
        4.0, 8.0, 16.0, 32.0,
    ]);
    let t = tuple(1.0, 2.0, 3.0, 4.0);
    assert!(same_matrix(&product(&Matrix::identity(4), &matrix), &matrix));
    assert!(same(apply(&Matrix::identity(4), t), t));
}

#[test]
fn determinant() {
    let matrix = m2([
        1.0, 5.0,
        -3.0, 2.0,
    ]);
    assert_eq!(det(&matrix), 17.0);

    let matrix = m3([
        1.0, 2.0, 6.0,
        -5.0, 8.0, -4.0,
        2.0, 6.0, 4.0,
    ]);
    assert_eq!(cofactor_of(&matrix, 0, 0), 56.0);
    assert_eq!(cofactor_of(&matrix, 0, 1), 12.0);
    assert_eq!(cofactor_of(&matrix, 0, 2), -46.0);
    assert_eq!(det(&matrix), -196.0);

    let matrix = m4([
        -2.0, -8.0, 3.0, 5.0,
        -3.0, 1.0, 7.0, 3.0,
        1.0, 2.0, -9.0, 6.0,
        -6.0, 7.0, 7.0, -9.0,
    ]);
    assert_eq!(cofactor_of(&matrix, 0, 0), 690.0);
    assert_eq!(cofactor_of(&matrix, 0, 1), 447.0);
    assert_eq!(cofactor_of(&matrix, 0, 2), 210.0);
    assert_eq!(cofactor_of(&matrix, 0, 3), 51.0);
    assert_eq!(det(&matrix), -4071.0);
}

#[test]
fn minor() {
    let matrix = m3([
        3.0, 5.0, 0.0,
        2.0, -1.0, -7.0,
        6.0, -1.0, 5.0,
    ]);
    let sub = matrix.submatrix(1, 0);
    assert_eq!(det(&sub), 25.0);
    assert_eq!(minor_of(&matrix, 1, 0), 25.0);
    // the minor that is left of the first and the last row
    assert_eq!(minor_of(&matrix, 1, 2), 3.0 * -1.0 - 5.0 * 6.0);
}

#[test]
fn cofactor() {
    let matrix = m3([
        3.0, 5.0, 0.0,
        2.0, -1.0, -7.0,
        6.0, -1.0, 5.0,
    ]);
    assert_eq!(minor_of(&matrix, 0, 0), -12.0);
    assert_eq!(cofactor_of(&matrix, 0, 0), -12.0);
    assert_eq!(minor_of(&matrix, 1, 0), 25.0);
    assert_eq!(cofactor_of(&matrix, 1, 0), -25.0);
}

#[test]
fn inverse() {
    let matrix = m4([
        6.0, 4.0, 4.0, 4.0,
        5.0, 5.0, 7.0, 6.0,
        4.0, -9.0, 3.0, -7.0,
        9.0, 1.0, 7.0, -6.0,
    ]);
    assert_eq!(det(&matrix), -2120.0);
    assert!(Matrix::invertible(s(det(&matrix))));

    let matrix = m4([
        -4.0, 2.0, -2.0, -3.0,
        9.0, 6.0, 2.0, 6.0,
        0.0, -5.0, 1.0, -5.0,
        0.0, 0.0, 0.0, 0.0,
    ]);
    assert_eq!(det(&matrix), 0.0);
    assert!(!Matrix::invertible(s(det(&matrix))));
    assert!(invert(&matrix).is_none());

    let matrix = m4([
        -5.0, 2.0, 6.0, -8.0,
        1.0, -5.0, 1.0, 8.0,
        7.0, 7.0, -6.0, -7.0,
        1.0, -3.0, 7.0, 4.0,
    ]);
    let inverted = invert(&matrix).unwrap();
    let expected = m4([
        0.21805, 0.45113, 0.24060, -0.04511,
        -0.80827, -1.45677, -0.44361, 0.52068,
        -0.07895, -0.22368, -0.05263, 0.19737,
        -0.52256, -0.81391, -0.30075, 0.30639,
    ]);

    assert_eq!(det(&matrix), 532.0);
    assert_eq!(cofactor_of(&matrix, 2, 3), -160.0);
    assert_eq!(at(&inverted, 3, 2), -160.0 / 532.0);
    assert_eq!(cofactor_of(&matrix, 3, 2), 105.0);
    assert_eq!(at(&inverted, 2, 3), 105.0 / 532.0);
    assert!(same_matrix(&inverted, &expected));

    let matrix = m4([
        8.0, -5.0, 9.0, 2.0,
        7.0, 5.0, 6.0, 1.0,
        -6.0, 0.0, 9.0, 6.0,
        -3.0, 0.0, -9.0, -4.0,
    ]);
    let expected = m4([
        -0.15385, -0.15385, -0.28205, -0.53846,
        -0.07692, 0.12308, 0.02564, 0.03077,
        0.35897, 0.35897, 0.43590, 0.92308,
        -0.69231, -0.69231, -0.76923, -1.92308,
    ]);
    assert!(same_matrix(&invert(&matrix).unwrap(), &expected));

    let matrix = m4([
        9.0, 3.0, 0.0, 9.0,
        -5.0, -2.0, -6.0, -3.0,
        -4.0, 9.0, 6.0, 4.0,
        -7.0, 6.0, 6.0, 2.0,
    ]);
    let expected = m4([
        -0.04074, -0.07778, 0.14444, -0.22222,
        -0.07778, 0.03333, 0.36667, -0.33333,
        -0.02901, -0.14630, -0.10926, 0.12963,
        0.17778, 0.06667, -0.26667, 0.33333,
    ]);
    assert!(same_matrix(&invert(&matrix).unwrap(), &expected));

    let mat1 = m4([
        3.0, -9.0, 7.0, 3.0,
        3.0, -8.0, 2.0, -9.0,
        -4.0, 4.0, 4.0, 1.0,
        -6.0, 5.0, -1.0, 1.0,
    ]);
    let mat2 = m4([
        8.0, 2.0, 2.0, 2.0,
        3.0, -1.0, 7.0, 0.0,
        7.0, 0.0, 5.0, 4.0,
        6.0, -2.0, 0.0, 5.0,
    ]);
    let mat3 = product(&mat1, &mat2);
    assert!(same_matrix(&product(&mat3, &invert(&mat2).unwrap()), &mat1));
}

#[test]
fn inverse_undoes_and_is_undone() {
    let matrix = m4([
        8.0, -5.0, 9.0, 2.0,
        7.0, 5.0, 6.0, 1.0,
        -6.0, 0.0, 9.0, 6.0,
        -3.0, 0.0, -9.0, -4.0,
    ]);
    let back = invert(&matrix).unwrap();
    assert!(same_matrix(&invert(&back).unwrap(), &matrix));
    assert!(same_matrix(&product(&matrix, &back), &Matrix::identity(4)));
    let three = m3([
        2.0, 0.0, 1.0,
        1.0, 3.0, 0.0,
        0.0, 1.0, 4.0,
    ]);
    let back = invert(&three).unwrap();
    assert_eq!(back.size(), 3);
    let id3 = m3([1.0, 0.0, 0.0, 0.0, 1.0, 0.0, 0.0, 0.0, 1.0]);
    assert!(same_matrix(&product(&three, &back), &id3));
}

#[test]
fn combined_tranform() {
    let p = point(1.0, 0.0, 1.0);
    let rot = rotation_x(FRAC_PI_2);
    let scale = scaling(5.0, 5.0, 5.0);
    let translation = translation(10.0, 5.0, 7.0);

    let turned = apply(&rot, p);
    let grown = apply(&scale, turned);
    let moved = apply(&translation, grown);

    assert!(same(turned, point(1.0, -1.0, 0.0)));
    assert!(same(grown, point(5.0, -5.0, 0.0)));
    assert!(same(moved, point(15.0, 0.0, 7.0)));

    let transformation = product(&product(&translation, &scale), &rot);
    assert!(same(apply(&transformation, p), point(15.0, 0.0, 7.0)));

    // each step is put in front of what is there
    let transformation =
        product(&translation, &product(&scale, &product(&rot, &Matrix::identity(4))));
    assert!(same(apply(&transformation, p), point(15.0, 0.0, 7.0)));
}

#[test]
fn translate() {
    let transform = translation(5.0, -3.0, 2.0);
    let p = point(-3.0, 4.0, 5.0);
    assert!(same(apply(&transform, p), point(2.0, 1.0, 7.0)));

    let transform = invert(&translation(5.0, -3.0, 2.0)).unwrap();
    let p = point(-3.0, 4.0, 5.0);
    assert!(same(apply(&transform, p), point(-8.0, 7.0, 3.0)));

    let transform = translation(5.0, -3.0, 2.0);
    let v = vector(-3.0, 4.0, 5.0);
    assert!(same(apply(&transform, v), vector(-3.0, 4.0, 5.0)));
}

#[test]
fn scale() {
    let transform = scaling(2.0, 3.0, 4.0);
    let p = point(-4.0, 6.0, 8.0);
    assert!(same(apply(&transform, p), point(-8.0, 18.0, 32.0)));

    let transform = scaling(2.0, 3.0, 4.0);
    let p = vector(-4.0, 6.0, 8.0);
    assert!(same(apply(&transform, p), vector(-8.0, 18.0, 32.0)));

    let transform = invert(&scaling(2.0, 3.0, 4.0)).unwrap();
    let p = vector(-4.0, 6.0, 8.0);
    assert!(same(apply(&transform, p), vector(-2.0, 2.0, 2.0)));

    let transform = invert(&scaling(-1.0, 1.0, 1.0)).unwrap();
    let p = vector(2.0, 3.0, 4.0);
    assert!(same(apply(&transform, p), vector(-2.0, 3.0, 4.0)));
}

#[test]
fn rotate() {
    let half_quarter = rotation_x(FRAC_PI_4);
    let full_quarter = rotation_x(FRAC_PI_2);
    let p = point(0.0, 1.0, 0.0);
    assert!(same(apply(&half_quarter, p), point(0.0, SQRT_2 / 2.0, SQRT_2 / 2.0)));
    assert!(same(apply(&full_quarter, p), point(0.0, 0.0, 1.0)));
    assert!(same(
        apply(&invert(&half_quarter).unwrap(), p),
        point(0.0, SQRT_2 / 2.0, -SQRT_2 / 2.0)
    ));

    let full_quarter = rotation(Axis::X, FRAC_PI_2);
    assert!(same(apply(&full_quarter, p), point(0.0, 0.0, 1.0)));

    let half_quarter = rotation_y(FRAC_PI_4);
    let full_quarter = rotation_y(FRAC_PI_2);
    let p = point(0.0, 0.0, 1.0);
    assert!(same(apply(&half_quarter, p), point(SQRT_2 / 2.0, 0.0, SQRT_2 / 2.0)));
    assert!(same(apply(&full_quarter, p), point(1.0, 0.0, 0.0)));

    let full_quarter = rotation(Axis::Y, FRAC_PI_2);
    assert!(same(apply(&full_quarter, p), point(1.0, 0.0, 0.0)));

    let half_quarter = rotation_z(FRAC_PI_4);
    let full_quarter = rotation_z(FRAC_PI_2);
    let p = point(0.0, 1.0, 0.0);
    assert!(same(apply(&half_quarter, p), point(-SQRT_2 / 2.0, SQRT_2 / 2.0, 0.0)));
    assert!(same(apply(&full_quarter, p), point(-1.0, 0.0, 0.0)));

    let full_quarter = rotation(Axis::Z, FRAC_PI_2);
    assert!(same(apply(&full_quarter, p), point(-1.0, 0.0, 0.0)));
}

#[test]
fn shear() {
    let p = point(2.0, 3.0, 4.0);

    let shear = shearing(1.0, 0.0, 0.0, 0.0, 0.0, 0.0);
    assert!(same(apply(&shear, p), point(5.0, 3.0, 4.0)));

    let shear = shearing(0.0, 1.0, 0.0, 0.0, 0.0, 0.0);
    assert!(same(apply(&shear, p), point(6.0, 3.0, 4.0)));

    let shear = shearing(0.0, 0.0, 1.0, 0.0, 0.0, 0.0);
    assert!(same(apply(&shear, p), point(2.0, 5.0, 4.0)));

    let shear = shearing(0.0, 0.0, 0.0, 1.0, 0.0, 0.0);
    assert!(same(apply(&shear, p), point(2.0, 7.0, 4.0)));

    let shear = shearing(0.0, 0.0, 0.0, 0.0, 1.0, 0.0);
    assert!(same(apply(&shear, p), point(2.0, 3.0, 6.0)));

    let shear = shearing(0.0, 0.0, 0.0, 0.0, 0.0, 1.0);
    assert!(same(apply(&shear, p), point(2.0, 3.0, 7.0)));

    let shear = shearing(2.0, 0.0, 0.0, 0.0, 0.0, 1.0);
    assert!(same(apply(&shear, p), point(8.0, 3.0, 7.0)));
}

#[test]
fn view_transform() {
    // default orientation is no change
    let t = view(point(0.0, 0.0, 0.0), point(0.0, 0.0, -1.0), vector(0.0, 1.0, 0.0));
    assert!(same_matrix(&t, &Matrix::identity(4)));

    // looking backwards reflects
    let t = view(point(0.0, 0.0, 0.0), point(0.0, 0.0, 1.0), vector(0.0, 1.0, 0.0));
    assert!(same_matrix(&t, &scaling(-1.0, 1.0, -1.0)));

    // we move the world, not the eye
    let t = view(point(0.0, 0.0, 8.0), point(0.0, 0.0, 0.0), vector(0.0, 1.0, 0.0));
    assert!(same_matrix(&t, &translation(0.0, 0.0, -8.0)));

    // some random numbers
    let t = view(point(1.0, 3.0, 2.0), point(4.0, -2.0, 8.0), vector(1.0, 1.0, 0.0));
    assert!(same_matrix(
        &t,
        &m4([
            -0.50709, 0.50709, 0.67612, -2.36643,
            0.76772, 0.60609, 0.12122, -2.82843,
            -0.35857, 0.59761, -0.71714, 0.0,
            0.0, 0.0, 0.0, 1.0,
        ])
    ));
}

// ---- rays and spheres

#[test]
fn position() {
    let r = ray(point(2.0, 3.0, 4.0), vector(1.0, 0.0, 0.0));
    assert!(same(place(&r, 0.0), point(2.0, 3.0, 4.0)));
    assert!(same(place(&r, 1.0), point(3.0, 3.0, 4.0)));
    assert!(same(place(&r, -1.0), point(1.0, 3.0, 4.0)));
    assert!(same(place(&r, 2.5), point(4.5, 3.0, 4.0)));
}

#[test]
fn transform() {
    let r = ray(point(1.0, 2.0, 3.0), vector(0.0, 1.0, 0.0));
    let transformed = carry(&r, &translation(3.0, 4.0, 5.0));
    assert!(same(transformed.origin, point(4.0, 6.0, 8.0)));
    assert!(same(transformed.direction, vector(0.0, 1.0, 0.0)));

    let transformed = carry(&r, &scaling(2.0, 3.0, 4.0));
    assert!(same(transformed.origin, point(2.0, 6.0, 12.0)));
    assert!(same(transformed.direction, vector(0.0, 3.0, 0.0)));
}

#[test]
fn sphere_intersect() {
    let ts = |sphere: &Sphere, r: &Ray| -> Vec<(f32, usize)> {
        Sphere::intersect(0, solve(sphere, r)).iter().map(|i| (f(i.t), i.obj)).collect()
    };

    let r = ray(point(0.0, 0.0, -5.0), vector(0.0, 0.0, 1.0));
    assert_eq!(ts(&Sphere::default(), &r), vec![(4.0, 0), (6.0, 0)]);

    let r = ray(point(0.0, 1.0, -5.0), vector(0.0, 0.0, 1.0));
    assert_eq!(ts(&Sphere::default(), &r), vec![(5.0, 0), (5.0, 0)]);

    let r = ray(point(0.0, 2.0, -5.0), vector(0.0, 0.0, 1.0));
    assert_eq!(ts(&Sphere::default(), &r), vec![]);

    let r = ray(point(0.0, 0.0, 0.0), vector(0.0, 0.0, 1.0));
    assert_eq!(ts(&Sphere::default(), &r), vec![(-1.0, 0), (1.0, 0)]);

    let r = ray(point(0.0, 0.0, 5.0), vector(0.0, 0.0, 1.0));
    assert_eq!(ts(&Sphere::default(), &r), vec![(-6.0, 0), (-4.0, 0)]);

    let r = ray(point(0.0, 0.0, -5.0), vector(0.0, 0.0, 1.0));
    let scaled_up = sphere(scaling(2.0, 2.0, 2.0), Material::default());
    assert_eq!(ts(&scaled_up, &r), vec![(3.0, 0), (7.0, 0)]);

    let r = ray(point(0.0, 0.0, -5.0), vector(0.0, 0.0, 1.0));
    let moved = sphere(translation(5.0, 0.0, 0.0), Material::default());
    assert_eq!(ts(&moved, &r), vec![]);
}

#[test]
fn normal() {
    let round = Sphere::default();
    assert!(same(normal_at(&round, point(1.0, 0.0, 0.0)), vector(1.0, 0.0, 0.0)));
    assert!(same(normal_at(&round, point(0.0, 1.0, 0.0)), vector(0.0, 1.0, 0.0)));
    assert!(same(normal_at(&round, point(0.0, 0.0, 1.0)), vector(0.0, 0.0, 1.0)));

    let root_3_over_3 = 3.0_f32.sqrt() / 3.0;
    let n = normal_at(&round, point(root_3_over_3, root_3_over_3, root_3_over_3));
    assert!(same(n, vector(root_3_over_3, root_3_over_3, root_3_over_3)));
    assert!(same(n, unit(n)));
    assert!(n.is_vector());

    let moved = sphere(translation(0.0, 1.0, 0.0), Material::default());
    assert!(same(normal_at(&moved, point(0.0, 1.70711, -0.70711)), vector(0.0, 0.70711, -0.70711)));

    let squashed = sphere(
        product(&scaling(1.0, 0.5, 1.0), &rotation_z(PI / 5.0)),
        Material::default(),
    );
    assert!(same(
        normal_at(&squashed, point(0.0, SQRT_2 / 2.0, -SQRT_2 / 2.0)),
        vector(0.0, 0.97014, -0.24254)
    ));
}

// ---- intersections

#[test]
fn comps_outisde() {
    let r = ray(point(0.0, 0.0, -5.0), vector(0.0, 0.0, 1.0));
    let objects = vec![Sphere::default()];
    let i = Intersection::new(s(4.0), 0);
    let c = comps(&i, &r, &objects);
    assert_eq!(f(c.t), f(i.t));
    assert!(objects[c.obj].same_surface(&objects[0]));
    assert!(same(c.point, point(0.0, 0.0, -1.0)));
    assert!(same(c.eye, vector(0.0, 0.0, -1.0)));
    assert!(same(c.normal, vector(0.0, 0.0, -1.0)));
    assert_eq!(c.inside, false);
}

#[test]
fn comps_inside() {
    let r = ray(point(0.0, 0.0, 0.0), vector(0.0, 0.0, 1.0));
    let objects = vec![Sphere::default()];
    let i = Intersection::new(s(1.0), 0);
    let c = comps(&i, &r, &objects);
    assert_eq!(f(c.t), f(i.t));
    assert!(objects[c.obj].same_surface(&objects[0]));
    assert!(same(c.point, point(0.0, 0.0, 1.0)));
    assert!(same(c.eye, vector(0.0, 0.0, -1.0)));
    // would have been (0, 0, 1) from outside
    assert!(same(c.normal, vector(0.0, 0.0, -1.0)));
    assert_eq!(c.inside, true);
}

#[test]
fn shadow_compensation() {
    let r = ray(point(0.0, 0.0, -5.0), vector(0.0, 0.0, 1.0));
    let objects = vec![sphere(translation(0.0, 0.0, 1.0), Material::default())];
    let i = Intersection::new(s(5.0), 0);
    let c = comps(&i, &r, &objects);
    assert!(f(c.over_point.z) < -EPSILON / 2.0);
    assert!(f(c.point.z) > f(c.over_point.z));
}

// ---- shading

#[test]
fn lighting() {
    let material = Material::default();
    let pos = point(0.0, 0.0, 0.0);
    let col = colour(1.0, 1.0, 1.0);

    // Eye directly between light and surface
    // Full ambient, diffuse and specular (0.1 + 0.9 + 0.9 = 1.9)
    let eye = vector(0.0, 0.0, -1.0);
    let n = vector(0.0, 0.0, -1.0);
    let light = PointLight::new(col, point(0.0, 0.0, -10.0));
    let result = shade(&material, pos, &light, eye, n, false);
    assert!(same_colour(result, colour(1.9, 1.9, 1.9)));

    // Eye between light and surface at 45deg angle off norm
    // Full ambient, diffuse (0.1 + 0.9 = 1.0), no specular
    let eye = vector(0.0, SQRT_2 / 2.0, -SQRT_2 / 2.0);
    let light = PointLight::new(col, point(0.0, 0.0, -10.0));
    let result = shade(&material, pos, &light, eye, n, false);
    assert!(same_colour(result, colour(1.0, 1.0, 1.0)));

    // Eye directly opposite surface with light at 45deg angle off norm
    // Full ambient, some diffuse (0.1 + 0.9 * sqrt(2)/2 = 0.7364), no specular
    let eye = vector(0.0, 0.0, -1.0);
    let light = PointLight::new(col, point(0.0, 10.0, -10.0));
    let result = shade(&material, pos, &light, eye, n, false);
    assert!(same_colour(result, colour(0.7364, 0.7364, 0.7364)));

    // Light at 45deg angle off norm and eye directly in reflection path
    // Full ambient, full specular some diffuse (0.1 + 0.9 * sqrt(2)/2 + 0.9 = 1.6364)
    let eye = vector(0.0, -SQRT_2 / 2.0, -SQRT_2 / 2.0);
    let light = PointLight::new(col, point(0.0, 10.0, -10.0));
    let result = shade(&material, pos, &light, eye, n, false);
    assert!(same_colour(result, colour(1.6364, 1.6364, 1.6364)));

    // Light behind surface: only ambient
    let eye = vector(0.0, 0.0, -1.0);
    let light = PointLight::new(col, point(0.0, 0.0, 10.0));
    let result = shade(&material, pos, &light, eye, n, false);
    assert!(same_colour(result, colour(0.1, 0.1, 0.1)));

    // In shadow: only ambient
    let light = PointLight::new(col, point(0.0, 0.0, -10.0));
    let result = shade(&material, pos, &light, eye, n, true);
    assert!(same_colour(result, colour(0.1, 0.1, 0.1)));
}

// ---- worlds

#[test]
fn world_intersect() {
    let w = World::default();
    let r = ray(point(0.0, 0.0, -5.0), vector(0.0, 0.0, 1.0));
    let inters = intersect(&w, &r);

    assert_eq!(inters.len(), 4);
    assert_eq!(f(inters[0].t), 4.0);
    assert_eq!(f(inters[1].t), 4.5);
    assert_eq!(f(inters[2].t), 5.5);
    assert_eq!(f(inters[3].t), 6.0);
    let objs: Vec<usize> = inters.iter().map(|i| i.obj).collect();
    assert_eq!(objs, vec![0, 1, 1, 0]);
}

#[test]
fn shade_hit_outside() {
    let w = World::default();
    let r = ray(point(0.0, 0.0, -5.0), vector(0.0, 0.0, 1.0));
    let inter = Intersection::new(s(4.0), 0);
    let c = comps(&inter, &r, &w.objects);
    let result = shade_hit(&w, &c);
    assert!(same_colour(result, colour(0.38066, 0.47583, 0.2855)));
}

#[test]
fn shading_inside_at_the_raw_point() {
    let mut w = World::default();
    w.light = Some(PointLight::new(colour(1.0, 1.0, 1.0), point(0.0, 0.25, 0.0)));

    let r = ray(point(0.0, 0.0, 0.0), vector(0.0, 0.0, 1.0));
    let inter = Intersection::new(s(0.5), 1);
    let c = comps(&inter, &r, &w.objects);
    assert!(c.inside);
    assert!(!shadowed(&w, c.over_point));
    // at the point itself; lifted off the surface it is a little darker
    let light = w.light.unwrap();
    let at_point = shade(&w.objects[1].material, c.point, &light, c.eye, c.normal, false);
    assert!(same_colour(at_point, colour(0.90498, 0.90498, 0.90498)));
    let lifted = shade_hit(&w, &c);
    assert!(f(lifted.r) < f(at_point.r) && f(lifted.r) > 0.904);
}

#[test]
fn colour_at_miss() {
    let w = World::default();
    let r = ray(point(0.0, 0.0, -5.0), vector(0.0, 1.0, 0.0));
    let c = colour_at(&w, &r);
    assert!(same_colour(c, colour(0.0, 0.0, 0.0)));
}

#[test]
fn colour_at_hit() {
    let w = World::default();
    let r = ray(point(0.0, 0.0, -5.0), vector(0.0, 0.0, 1.0));
    let c = colour_at(&w, &r);
    assert!(same_colour(c, colour(0.38066, 0.47583, 0.2855)));
}

#[test]
fn colour_at_complex_hit() {
    let mut w = World::default();
    w.objects[0].material.ambient = s(1.0);
    w.objects[1].material.ambient = s(1.0);

    let r = ray(point(0.0, 0.0, 0.75), vector(0.0, 0.0, -1.0));
    let c = colour_at(&w, &r);
    assert!(same_colour(c, w.objects[1].material.colour));
}

#[test]
fn is_shadowed() {
    let w = World::default();
    let p = point(0.0, 10.0, 0.0);
    assert_eq!(shadowed(&w, p), false); // nothing colinear

    let p = point(10.0, -10.0, 10.0);
    assert_eq!(shadowed(&w, p), true); // far side

    let p = point(-20.0, 20.0, -20.0);
    assert_eq!(shadowed(&w, p), false); // between object behind light

    let p = point(-2.0, 2.0, -2.0);
    assert_eq!(shadowed(&w, p), false); // object behind point
}

#[test]
fn shade_hit_shadow() {
    let s2 = sphere(translation(0.0, 0.0, 10.0), Material::default());
    let w = World::new(
        vec![Sphere::default(), s2],
        Some(PointLight::new(colour(1.0, 1.0, 1.0), point(0.0, 0.0, -10.0))),
    );
    let r = ray(point(0.0, 0.0, 5.0), vector(0.0, 0.0, 1.0));
    let inter = Intersection::new(s(4.0), 1);
    let c = comps(&inter, &r, &w.objects);
    let result = shade_hit(&w, &c);
    assert!(same_colour(result, colour(0.1, 0.1, 0.1)));
}

// ---- cameras

#[test]
fn pixel_size() {
    let c = camera(200.0, 125.0, PI / 2.0, Matrix::identity(4));
    assert!(close(f(c.pixel_size), 0.01));
    let c = camera(125.0, 200.0, PI / 2.0, Matrix::identity(4));
    assert!(close(f(c.pixel_size), 0.01));
}

#[test]
fn ray_for_pixel() {
    let c = camera(201.0, 101.0, PI / 2.0, Matrix::identity(4));
    let r = pixel_ray(&c, 100.0, 50.0);
    assert!(same(r.origin, point(0.0, 0.0, 0.0)));
    assert!(same(r.direction, vector(0.0, 0.0, -1.0)));

    let r = pixel_ray(&c, 0.0, 0.0);
    assert!(same(r.origin, point(0.0, 0.0, 0.0)));
    assert!(same(r.direction, vector(0.66519, 0.33259, -0.66851)));

    let c = camera(
        201.0,
        101.0,
        PI / 2.0,
        product(&rotation_y(PI / 4.0), &translation(0.0, -2.0, 5.0)),
    );
    let r = pixel_ray(&c, 100.0, 50.0);
    assert!(same(r.origin, point(0.0, 2.0, -5.0)));
    assert!(same(r.direction, vector(SQRT_2 / 2.0, 0.0, -SQRT_2 / 2.0)));
}

#[test]
fn render() {
    let w = World::default();
    let from = point(0.0, 0.0, -5.0);
    let to = point(0.0, 0.0, 0.0);
    let up = vector(0.0, 1.0, 0.0);
    let c = camera(11.0, 11.0, PI / 2.0, view(from, to, up));
    let image = picture(&c, &w);
    assert_eq!((image.width(), image.height()), (11, 11));
    assert!(same_colour(image.index((5, 5)), colour(0.38066, 0.47583, 0.28550)));
}
