use shadow_fit::fit::compute_camera_fit_on_light_plane;
use shadow_fit::math::{Affine3, Rotor, Scale2, Scale3, Vector2, Vector3};
use shadow_fit::scalar::{Fun, Op, Rel, Scalars};
use shadow_fit::scene::{Camera, Instance, Light};

type Floats = Scalars<f32, fn(Op, f32, f32) -> f32, fn(Fun, f32) -> f32, fn(Rel, f32, f32) -> bool>;

fn float_arith(op: Op, x: f32, y: f32) -> f32 {
    match op {
        Op::Add => x + y,
        Op::Sub => x - y,
        Op::Mul => x * y,
        Op::Div => x / y,
        Op::Min => f32::min(x, y),
        Op::Max => f32::max(x, y),
    }
}

fn float_fun(f: Fun, x: f32) -> f32 {
    match f {
        Fun::Neg => -x,
        Fun::Sqrt => x.sqrt(),
        Fun::Sin => x.sin(),
        Fun::Cos => x.cos(),
    }
}

fn float_rel(r: Rel, x: f32, y: f32) -> bool {
    match r {
        Rel::Less => x < y,
        Rel::AtMost => x <= y,
        Rel::Equal => x == y,
        Rel::Before => x.total_cmp(&y) == std::cmp::Ordering::Less,
    }
}

fn floats() -> Floats {
    Scalars { zero: 0.0, one: 1.0, arith: float_arith, fun: float_fun, rel: float_rel }
}

fn entries(a: &Affine3<f32>) -> [f32; 12] {
    [a.xx, a.yx, a.zx, a._x, a.xy, a.yy, a.zy, a._y, a.xz, a.yz, a.zz, a._z]
}

fn close(a: &Affine3<f32>, b: &Affine3<f32>) -> bool {
    entries(a).iter().zip(entries(b).iter()).all(|(x, y)| (x - y).abs() <= 1e-5 * (1.0 + y.abs()))
}

fn camera(translation: Vector3<f32>, z_to_x: f32, xz_to_y: f32) -> Camera<f32> {
    let mut camera = Camera {
        translation,
        forward: Vector3::new(0.0, 0.0, 1.0),
        z_to_x,
        xz_to_y,
        near_z: 1.0,
        far_z: 10.0,
        width: 2.0,
        height: 2.0,
    };
    camera.update_forward(&floats());
    camera
}

fn light(z: f32) -> Light<f32> {
    Light { translation: Vector3::new(0.0, 0.0, z), near_z: 4.0, width: 1.0, height: 1.0 }
}

fn fit_of(camera: &Camera<f32>, light: &Light<f32>) -> Option<(Vector2<f32>, Scale2<f32>)> {
    let f = floats();
    compute_camera_fit_on_light_plane(
        &camera.compute_model(&f),
        camera.far_z,
        camera.near_z,
        camera.width,
        camera.height,
        &light.compute_view(&f),
        light.near_z,
        light.width,
        light.height,
        &f,
    )
}

#[test]
fn forward_follows_the_angle_of_the_camera() {
    let c = camera(Vector3::new(0.0, 0.0, 0.0), 0.0, 0.0);
    assert_eq!(c.forward, Vector3::new(0.0, 0.0, 1.0));
    let c = camera(Vector3::new(0.0, 0.0, 0.0), std::f32::consts::FRAC_PI_2, 0.0);
    assert!((c.forward.x - 1.0).abs() < 1e-6 && c.forward.z.abs() < 1e-6);
}

#[test]
fn light_view_undoes_the_translation_of_the_light() {
    let f = floats();
    let l =
        Light { translation: Vector3::new(1.0, -2.0, 3.0), near_z: 4.0, width: 1.0, height: 1.0 };
    let view = l.compute_view(&f);
    assert_eq!(l.translation.apply(&view, &f), Vector3::new(0.0, 0.0, 0.0));
    assert_eq!(Vector3::new(2.0, 2.0, 2.0).apply(&view, &f), Vector3::new(1.0, 4.0, -1.0));
}

#[test]
fn camera_view_undoes_the_camera_model_up_to_the_projection() {
    let f = floats();
    let c = camera(Vector3::new(0.5, -1.0, 2.0), 0.7, -0.3);
    let model = c.compute_model(&f);
    let view = c.compute_view(&f);
    let mut projection = Affine3::identity(&f);
    projection.scale(&Scale3::new(2.0 * c.near_z / c.width, 2.0 * c.near_z / c.height, 1.0), &f);
    assert!(close(&model.compose(&view, &f), &projection));
}

#[test]
fn instance_model_is_built_from_scale_rotor_and_translation() {
    let f = floats();
    let instance = Instance {
        translation: Vector3::new(1.0, 2.0, 3.0),
        rotation: Rotor::identity(&f),
        scale: Scale3::new(2.0, 3.0, 4.0),
    };
    let model = instance.compute_model(&f);
    assert_eq!(Vector3::new(1.0, 1.0, 1.0).apply(&model, &f), Vector3::new(3.0, 5.0, 7.0));
}

#[test]
fn view_volume_behind_the_near_plane_of_the_light_has_no_fit() {
    // The light stands far beyond everything that the camera sees.
    let c = camera(Vector3::new(0.0, 0.0, -1.5), 0.0, 0.0);
    assert_eq!(fit_of(&c, &light(20.0)), None);
}

#[test]
fn view_volume_beside_the_frame_of_the_light_has_no_fit() {
    let c = camera(Vector3::new(50.0, 0.0, 0.0), 0.0, 0.0);
    assert_eq!(fit_of(&c, &light(-4.0)), None);
}

#[test]
fn footprint_that_covers_the_frame_fits_the_whole_frame() {
    // Camera and light look the same way from the same axis.
    let c = camera(Vector3::new(0.0, 0.0, -1.5), 0.0, 0.0);
    let l = light(-5.0);
    let fit = fit_of(&c, &l);
    assert_eq!(fit, Some((Vector2::new(0.5, 0.5), Scale2::new(1.0, 1.0))));
    // Such a fit is undone by the step back to the middle of the frame.
    let f = floats();
    assert_eq!(l.compute_projected_view(fit, &f), l.compute_projected_view(None, &f));
}

#[test]
fn footprint_within_the_frame_is_fitted_to_the_frame() {
    // Far from the light the footprint is small: the light sees the far face of the view
    // volume at a tenth of its size, 0.3686636 to each side.
    let c = camera(Vector3::new(0.0, 0.0, -1.5), 0.0, 0.0);
    let l = light(-100.0);
    let (trans, scale) = fit_of(&c, &l).unwrap();
    let half = 10.0 * 4.0 / 108.5;
    assert!((trans.x - half).abs() < 1e-6 && (trans.y - half).abs() < 1e-6);
    assert!((scale.x - 1.0 / (2.0 * half)).abs() < 1e-5 && scale.x == scale.y);
}

#[test]
fn footprint_in_a_corner_of_the_frame_is_fitted_to_the_frame() {
    let c = Camera {
        translation: Vector3::new(0.0, 0.0, 0.0),
        forward: Vector3::new(0.0, 0.0, 1.0),
        z_to_x: 0.0,
        xz_to_y: 0.0,
        near_z: 1.0,
        far_z: 2.0,
        width: 0.5,
        height: 0.5,
    };
    let l =
        Light { translation: Vector3::new(-0.5, -0.5, 0.0), near_z: 1.0, width: 2.0, height: 2.0 };
    // Seen from the light the near face is the square from 0.25 to 0.75 on the plane and the
    // far face projects to the square from 0 to 0.5: the footprint reaches from 0 to 0.75.
    let (trans, scale) = fit_of(&c, &l).unwrap();
    assert_eq!(trans, Vector2::new(0.0, 0.0));
    assert_eq!(scale, Scale2::new(2.0 / 0.75, 2.0 / 0.75));
    let f = floats();
    let view = l.compute_projected_view(Some((trans, scale)), &f);
    // The corners of the footprint go to the corners of the projected frame.
    let low = Vector3::new(-0.5, -0.5, 1.0).apply(&view, &f);
    let high = Vector3::new(0.25, 0.25, 1.0).apply(&view, &f);
    assert!((low.x + 1.0).abs() < 1e-6 && (low.y + 1.0).abs() < 1e-6);
    assert!((high.x - 1.0).abs() < 1e-6 && (high.y - 1.0).abs() < 1e-6);
}

#[test]
fn projected_view_without_a_fit_is_the_view_under_the_projection() {
    let f = floats();
    let l =
        Light { translation: Vector3::new(1.0, 2.0, 3.0), near_z: 4.0, width: 2.0, height: 8.0 };
    let view = l.compute_projected_view(None, &f);
    assert_eq!(Vector3::new(2.0, 4.0, 5.0).apply(&view, &f), Vector3::new(4.0, 2.0, 2.0));
}

/// The fit computed step by step on plain floats.
fn fit_by_hand(
    camera_model: &Affine3<f32>,
    camera: &Camera<f32>,
    light_view: &Affine3<f32>,
    light: &Light<f32>,
) -> Option<((f32, f32), (f32, f32))> {
    let f = floats();
    let near_right = camera.width / 2.0;
    let near_top = camera.height / 2.0;
    let factor = camera.far_z / camera.near_z;
    let far_right = near_right * factor;
    let far_bottom = -near_top * factor;
    let affine = camera_model.compose(light_view, &f);
    let corners: Vec<Vector3<f32>> = [
        (-near_right, -near_top, camera.near_z),
        (near_right, -near_top, camera.near_z),
        (-near_right, near_top, camera.near_z),
        (near_right, near_top, camera.near_z),
        (-far_right, far_bottom, camera.far_z),
        (far_right, far_bottom, camera.far_z),
        (-far_right, -far_bottom, camera.far_z),
        (far_right, -far_bottom, camera.far_z),
    ]
    .iter()
    .map(|&(x, y, z)| Vector3::new(x, y, z).apply(&affine, &f))
    .collect();
    let mut points: Vec<(f32, f32)> = Vec::new();
    for i in 0..8 {
        let corner = corners[i];
        if corner.z < light.near_z {
            for axis in [0b100, 0b010, 0b001] {
                let other = corners[i ^ axis];
                if other.z > light.near_z {
                    let t = (light.near_z - corner.z) / (other.z - corner.z);
                    points.push((
                        (other.x - corner.x) * t + corner.x,
                        (other.y - corner.y) * t + corner.y,
                    ));
                }
            }
        } else {
            let k = light.near_z / corner.z;
            points.push((corner.x * k, corner.y * k));
        }
    }
    if points.is_empty() {
        return None;
    }
    let (mut max, mut min) = (points[0], points[0]);
    for point in points.iter() {
        if point.0 > max.0 {
            max.0 = point.0;
        } else if point.0 < min.0 {
            min.0 = point.0;
        }
        if point.1 > max.1 {
            max.1 = point.1;
        } else if point.1 < min.1 {
            min.1 = point.1;
        }
    }
    let (right, top) = (light.width / 2.0, light.height / 2.0);
    if max.0 <= -right || max.1 <= -top || right <= min.0 || top <= min.1 {
        return None;
    }
    let (max, min) = (
        (f32::min(max.0, right), f32::min(max.1, top)),
        (f32::max(min.0, -right), f32::max(min.1, -top)),
    );
    Some(((-min.0, -min.1), (light.width / (max.0 - min.0), light.height / (max.1 - min.1))))
}

#[test]
fn fit_follows_its_steps_for_cameras_all_around_the_light() {
    let f = floats();
    let mut fits = 0;
    let mut misses = 0;
    for yaw in -6..=6 {
        for pitch in -2..=2 {
            for (x, z) in [(0.0f32, -1.5f32), (0.4, 2.0), (-0.7, -6.0), (3.0, 1.0), (0.0, 7.5)] {
                let c = camera(Vector3::new(x, 0.2, z), yaw as f32 * 0.5, pitch as f32 * 0.4);
                for l in [light(-5.0), light(0.0), light(-100.0), light(6.0)] {
                    let expected = fit_by_hand(&c.compute_model(&f), &c, &l.compute_view(&f), &l);
                    let fit = fit_of(&c, &l).map(|(t, s)| ((t.x, t.y), (s.x, s.y)));
                    assert_eq!(fit, expected);
                    if fit.is_some() {
                        fits += 1;
                    } else {
                        misses += 1;
                    }
                }
            }
        }
    }
    assert!(fits > 100 && misses > 100);
}
