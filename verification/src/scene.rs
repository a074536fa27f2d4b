//! The poses of the scene: a camera, a light and the instances that are
//! drawn, each with the map that takes it to the world or the world to it.

use vstd::prelude::*;
use crate::algebra::{
    is_angle, is_opposite_angle, lemma_compose_associative, lemma_compose_identity,
    lemma_steps_compose, lemma_turn_and_turn_back, scaling_of, translation_of,
};
use crate::math::{Affine3, BiVector3, Rotor, Scale2, Scale3, Vector2, Vector3};
use crate::scalar::{is_exact, Fun, Model, Op, Rel, Scalars};

verus! {

/// A camera that looks along its `z` axis.
#[derive(Clone, Copy, Debug, PartialEq)]
pub struct Camera<T> {
    pub translation: Vector3<T>,
    /// The `z` axis rotated in the `xz` plane by `z_to_x`.
    pub forward: Vector3<T>,
    /// Angle from the local `z` axis to the local `x` axis.
    pub z_to_x: T,
    /// Angle from the local `xz` plane to the local `y` axis.
    pub xz_to_y: T,
    /// The eye is `near_z` behind the projection plane; nothing nearer is
    /// drawn.
    pub near_z: T,
    pub far_z: T,
    pub width: T,
    pub height: T,
}

/// A light that shines along the `z` axis through a frame of `width` by
/// `height` at `near_z`.
#[derive(Clone, Copy, Debug, PartialEq)]
pub struct Light<T> {
    pub translation: Vector3<T>,
    pub near_z: T,
    pub width: T,
    pub height: T,
}

/// One thing that is drawn.
#[derive(Clone, Copy, Debug, PartialEq)]
pub struct Instance<T> {
    pub translation: Vector3<T>,
    pub rotation: Rotor<T>,
    pub scale: Scale3<T>,
}

impl<T: Copy> Light<T> {
    /// The map from the world to the light: the light's translation undone.
    pub open spec fn view_of(self, m: Model<T>) -> Affine3<T> {
        Affine3::identity_of(m).translate_of(self.translation.negated_of(m), m)
    }

    /// The map from the world to the light.
    pub fn compute_view<A, U, C>(&self, s: &Scalars<T, A, U, C>) -> (view: Affine3<T>) where
        A: Fn(Op, T, T) -> T,
        U: Fn(Fun, T) -> T,
        C: Fn(Rel, T, T) -> bool,

        requires
            s.askable(),
        ensures
            forall|m: Model<T>| #[trigger] s.answer_by(m) ==> view == self.view_of(m),
    {
        let mut view = Affine3::identity(s);
        view.translate(&self.translation.negated(s), s);
        view
    }
}

impl<T: Copy> Light<T> {
    /// The scale of the light's projection: its frame becomes the square
    /// from minus one to one.
    pub open spec fn projection_of(self, m: Model<T>) -> Scale3<T> {
        Scale3 {
            x: m.div(m.mul(m.two(), self.near_z), self.width),
            y: m.div(m.mul(m.two(), self.near_z), self.height),
            z: m.one,
        }
    }

    /// The step that puts the origin of a fitted frame back to the middle
    /// of the light's frame.
    pub open spec fn recentre_of(self, m: Model<T>) -> Vector3<T> {
        Vector3 {
            x: m.div(m.neg(self.width), m.two()),
            y: m.div(m.neg(self.height), m.two()),
            z: m.zero,
        }
    }

    /// `view` fitted by `fit`: moved by its translation, scaled by its
    /// scale and put back to the middle of the frame.
    pub open spec fn fitted_of(
        self,
        view: Affine3<T>,
        fit: (Vector2<T>, Scale2<T>),
        m: Model<T>,
    ) -> Affine3<T> {
        view.translate_of(Vector3 { x: fit.0.x, y: fit.0.y, z: m.zero }, m).scale_of(
            Scale3 { x: fit.1.x, y: fit.1.y, z: m.one },
            m,
        ).translate_of(self.recentre_of(m), m)
    }

    /// The map from the world to the light's projection plane: the light's
    /// view, fitted where there is a fit, under the scale of the
    /// projection.
    pub open spec fn projected_view_of(
        self,
        fit: Option<(Vector2<T>, Scale2<T>)>,
        m: Model<T>,
    ) -> Affine3<T> {
        match fit {
            Some(fit) => self.fitted_of(self.view_of(m), fit, m),
            None => self.view_of(m),
        }.scale_of(self.projection_of(m), m)
    }

    /// The map from the world to the light's projection plane, fitted by
    /// `fit` where there is one.
    pub fn compute_projected_view<A, U, C>(
        &self,
        fit: Option<(Vector2<T>, Scale2<T>)>,
        s: &Scalars<T, A, U, C>,
    ) -> (view: Affine3<T>) where
        A: Fn(Op, T, T) -> T,
        U: Fn(Fun, T) -> T,
        C: Fn(Rel, T, T) -> bool,

        requires
            s.askable(),
        ensures
            forall|m: Model<T>| #[trigger]
                s.answer_by(m) ==> view == self.projected_view_of(fit, m),
    {
        let two = s.two();
        let mut view = self.compute_view(s);
        match fit {
            Some((trans, scale)) => {
                view.translate(&Vector3::new(trans.x, trans.y, s.zero), s).scale(
                    &Scale3::new(scale.x, scale.y, s.one),
                    s,
                ).translate(
                    &Vector3::new(
                        s.quotient(s.negated(self.width), two),
                        s.quotient(s.negated(self.height), two),
                        s.zero,
                    ),
                    s,
                );
            },
            None => {},
        }
        view.scale(
            &Scale3::new(
                s.quotient(s.product(two, self.near_z), self.width),
                s.quotient(s.product(two, self.near_z), self.height),
                s.one,
            ),
            s,
        );
        view
    }
}

/// The view of a light takes the light's place to the origin and moves
/// every point as it moves that one.
pub proof fn lemma_light_view(light: Light<int>, point: Vector3<int>, m: Model<int>)
    requires
        is_exact(m),
    ensures
        light.translation.apply_of(light.view_of(m), m) == Vector3::identity_of(m),
        point.apply_of(light.view_of(m), m) == point.minus_of(light.translation, m),
{
    let view = light.view_of(m);
    assert(view == (Affine3 {
        _x: -light.translation.x,
        _y: -light.translation.y,
        _z: -light.translation.z,
        ..Affine3::identity_of(m)
    }));
    assert(point.x * 1 == point.x && point.y * 1 == point.y && point.z * 1 == point.z);
    assert(point.x * 0 == 0 && point.y * 0 == 0 && point.z * 0 == 0);
}

/// A fit that takes the light's frame to itself leaves the view as it is:
/// a scale of one, and a translation that the step back to the middle of
/// the frame undoes.
pub proof fn lemma_fit_to_the_whole_frame(
    light: Light<int>,
    fit: (Vector2<int>, Scale2<int>),
    m: Model<int>,
)
    requires
        is_exact(m),
        fit.1.x == 1 && fit.1.y == 1,
        fit.0.x + light.recentre_of(m).x == 0,
        fit.0.y + light.recentre_of(m).y == 0,
    ensures
        light.projected_view_of(Some(fit), m) == light.projected_view_of(None, m),
{
    let view = light.view_of(m);
    let moved = view.translate_of(Vector3 { x: fit.0.x, y: fit.0.y, z: 0int }, m);
    let scaled = moved.scale_of(Scale3 { x: 1int, y: 1int, z: 1int }, m);
    assert(scaled == moved) by {
        assert(moved.xx * 1 == moved.xx && moved._x * 1 == moved._x);
    }
    assert(light.fitted_of(view, fit, m) == view);
}

impl<T: Copy> Instance<T> {
    /// The map from the instance to the world.
    pub open spec fn model_of(self, m: Model<T>) -> Affine3<T> {
        Affine3::from_of(self.scale, self.rotation, self.translation, m)
    }

    /// The map from the instance to the world.
    pub fn compute_model<A, U, C>(&self, s: &Scalars<T, A, U, C>) -> (model: Affine3<T>) where
        A: Fn(Op, T, T) -> T,
        U: Fn(Fun, T) -> T,
        C: Fn(Rel, T, T) -> bool,

        requires
            s.askable(),
        ensures
            forall|m: Model<T>| #[trigger] s.answer_by(m) ==> model == self.model_of(m),
    {
        Affine3::from(self.scale, self.rotation, self.translation, s)
    }
}

impl<T: Copy> Camera<T> {
    /// The plane in which the camera looks up and down: `forward` wedged
    /// with the `y` axis.
    pub open spec fn pitch_plane_of(self, m: Model<T>) -> BiVector3<T> {
        self.forward.wedge_of(Vector3 { x: m.zero, y: m.one, z: m.zero }, m)
    }

    /// The plane in which the camera looks left and right.
    pub open spec fn yaw_plane_of(m: Model<T>) -> BiVector3<T> {
        BiVector3 { xy: m.zero, yz: m.zero, zx: m.one }
    }

    /// `self` with `forward` turned to the angle `z_to_x`.
    pub open spec fn update_forward_of(self, m: Model<T>) -> Self {
        Camera {
            forward: Vector3 { x: m.sin(self.z_to_x), y: self.forward.y, z: m.cos(self.z_to_x) },
            ..self
        }
    }

    /// Turns `forward` to the angle `z_to_x`.
    pub fn update_forward<A, U, C>(&mut self, s: &Scalars<T, A, U, C>) where
        A: Fn(Op, T, T) -> T,
        U: Fn(Fun, T) -> T,
        C: Fn(Rel, T, T) -> bool,

        requires
            s.askable(),
        ensures
            forall|m: Model<T>| #[trigger]
                s.answer_by(m) ==> *final(self) == old(self).update_forward_of(m),
    {
        self.forward.z = s.cos(self.z_to_x);
        self.forward.x = s.sin(self.z_to_x);
    }

    /// The map from the camera to the world: turned left or right, then up
    /// or down, then moved to the camera's place.
    pub open spec fn model_of(self, m: Model<T>) -> Affine3<T> {
        Affine3::identity_of(m).rotate_of(self.z_to_x, Self::yaw_plane_of(m), m).rotate_of(
            self.xz_to_y,
            self.pitch_plane_of(m),
            m,
        ).translate_of(self.translation, m)
    }

    /// The map from the camera to the world.
    pub fn compute_model<A, U, C>(&self, s: &Scalars<T, A, U, C>) -> (model: Affine3<T>) where
        A: Fn(Op, T, T) -> T,
        U: Fn(Fun, T) -> T,
        C: Fn(Rel, T, T) -> bool,

        requires
            s.askable(),
        ensures
            forall|m: Model<T>| #[trigger] s.answer_by(m) ==> model == self.model_of(m),
    {
        let plane = self.forward.wedge(&Vector3::new(s.zero, s.one, s.zero), s);
        let mut model = Affine3::identity(s);
        model.rotate(self.z_to_x, &BiVector3::new(s.zero, s.zero, s.one), s).rotate(
            self.xz_to_y,
            &plane,
            s,
        ).translate(&self.translation, s);
        model
    }

    /// The scale of the projection: the near rectangle becomes the square
    /// from minus one to one.
    pub open spec fn projection_of(self, m: Model<T>) -> Scale3<T> {
        Scale3 {
            x: m.div(m.mul(m.two(), self.near_z), self.width),
            y: m.div(m.mul(m.two(), self.near_z), self.height),
            z: m.one,
        }
    }

    /// The map from the world to the camera's projection plane: the model
    /// undone, by the negated steps in reverse order, and then the scale of
    /// the projection.
    pub open spec fn view_of(self, m: Model<T>) -> Affine3<T> {
        Affine3::identity_of(m).translate_of(self.translation.negated_of(m), m).rotate_of(
            m.neg(self.xz_to_y),
            self.pitch_plane_of(m),
            m,
        ).rotate_of(m.neg(self.z_to_x), Self::yaw_plane_of(m), m).scale_of(
            self.projection_of(m),
            m,
        )
    }

    /// The map from the world to the camera's projection plane.
    pub fn compute_view<A, U, C>(&self, s: &Scalars<T, A, U, C>) -> (view: Affine3<T>) where
        A: Fn(Op, T, T) -> T,
        U: Fn(Fun, T) -> T,
        C: Fn(Rel, T, T) -> bool,

        requires
            s.askable(),
        ensures
            forall|m: Model<T>| #[trigger] s.answer_by(m) ==> view == self.view_of(m),
    {
        let plane = self.forward.wedge(&Vector3::new(s.zero, s.one, s.zero), s);
        let two = s.two();
        let projection = Scale3::new(
            s.quotient(s.product(two, self.near_z), self.width),
            s.quotient(s.product(two, self.near_z), self.height),
            s.one,
        );
        let mut view = Affine3::identity(s);
        view.translate(&self.translation.negated(s), s).rotate(
            s.negated(self.xz_to_y),
            &plane,
            s,
        ).rotate(s.negated(self.z_to_x), &BiVector3::new(s.zero, s.zero, s.one), s).scale(
            &projection,
            s,
        );
        view
    }
}

/// The view of a camera undoes its model and then projects: a point taken
/// from the camera to the world and back by the view is where it was, but
/// for the scale of the projection. It holds of a camera whose `forward`
/// is up to date, and because the view scales last.
pub proof fn lemma_camera_view_undoes_model(camera: Camera<int>, m: Model<int>)
    requires
        is_exact(m),
        camera.update_forward_of(m) == camera,
        is_angle(camera.z_to_x, m),
        is_angle(camera.xz_to_y, m),
        is_opposite_angle(camera.z_to_x, m.neg(camera.z_to_x), m),
        is_opposite_angle(camera.xz_to_y, m.neg(camera.xz_to_y), m),
    ensures
        camera.model_of(m).compose_of(camera.view_of(m), m) == scaling_of(
            camera.projection_of(m),
            m,
        ),
{
    let unit = Affine3::identity_of(m);
    let yaw = Camera::yaw_plane_of(m);
    let pitch = camera.pitch_plane_of(m);
    let place = camera.translation;
    let scale = camera.projection_of(m);
    let turn_yaw = Affine3::turn_of(camera.z_to_x, yaw, m);
    let turn_pitch = Affine3::turn_of(camera.xz_to_y, pitch, m);
    let back_yaw = Affine3::turn_of(m.neg(camera.z_to_x), yaw, m);
    let back_pitch = Affine3::turn_of(m.neg(camera.xz_to_y), pitch, m);
    let forth = translation_of(place, m);
    let back = translation_of(place.negated_of(m), m);
    let scaling = scaling_of(scale, m);
    assert(pitch.xy == camera.forward.x && pitch.yz == -camera.forward.z && pitch.zx == 0);
    assert((-camera.forward.z) * (-camera.forward.z) == camera.forward.z * camera.forward.z)
        by (nonlinear_arith);
    lemma_turn_and_turn_back(camera.z_to_x, m.neg(camera.z_to_x), yaw, m);
    lemma_turn_and_turn_back(camera.xz_to_y, m.neg(camera.xz_to_y), pitch, m);
    assert(forth.compose_of(back, m) == unit);

    // The model and the view as compositions of their steps.
    let turned = turn_yaw.compose_of(turn_pitch, m);
    let model = camera.model_of(m);
    lemma_compose_identity(turn_yaw, m);
    lemma_steps_compose(unit, scale, place, camera.z_to_x, yaw, m);
    lemma_steps_compose(turn_yaw, scale, place, camera.xz_to_y, pitch, m);
    lemma_steps_compose(turned, scale, place, camera.xz_to_y, pitch, m);
    assert(model == turned.compose_of(forth, m));
    let unturned = back.compose_of(back_pitch, m);
    let returned = unturned.compose_of(back_yaw, m);
    let view = camera.view_of(m);
    lemma_steps_compose(back, scale, place, m.neg(camera.xz_to_y), pitch, m);
    lemma_steps_compose(unturned, scale, place, m.neg(camera.z_to_x), yaw, m);
    lemma_steps_compose(returned, scale, place, camera.z_to_x, yaw, m);
    assert(view == returned.compose_of(scaling, m));

    // The steps of the view undo those of the model from the last to the
    // first.
    lemma_compose_associative(turned, forth, back, m);
    lemma_compose_identity(turned, m);
    assert(model.compose_of(back, m) == turned);
    lemma_compose_associative(model, back, back_pitch, m);
    lemma_compose_associative(turn_yaw, turn_pitch, back_pitch, m);
    assert(model.compose_of(unturned, m) == turn_yaw);
    lemma_compose_associative(model, unturned, back_yaw, m);
    assert(model.compose_of(returned, m) == unit);
    lemma_compose_associative(model, returned, scaling, m);
    lemma_compose_identity(scaling, m);
}

} // verus!
