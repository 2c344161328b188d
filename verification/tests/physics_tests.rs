use body_dynamics::algebra::{Inertia, Point, Rotation, VectorSpace};
use body_dynamics::changelog::{Change, ChangeLog, Component};
use body_dynamics::physics::{
    commit, commit_logged, sum_forces, Force, NextFrame, Particle, Pose, RigidBody, Velocity,
};
use body_dynamics::plane::{Point2, Rotation2, Vector2};
use body_dynamics::{BodyPose, Real};

type Pose2 = BodyPose<Point2, Rotation2>;

fn whole(n: i64) -> Real {
    Real::from_int(n)
}

fn vec2(x: i64, y: i64) -> Vector2 {
    Vector2::new(whole(x), whole(y))
}

fn point2(x: i64, y: i64) -> Point2 {
    Point2::new(whole(x), whole(y))
}

fn at_rest() -> Velocity<Vector2, Real> {
    Velocity::rest()
}

#[test]
fn a_body_at_rest_has_zero_rates() {
    let rest: Velocity<Vector2, Real> = Velocity::rest();
    assert_eq!(rest.linear, <Vector2 as VectorSpace>::zero());
    assert_eq!(rest.linear, Vector2::new(Real::zero(), Real::zero()));
    assert_eq!(rest.angular, Real::zero());
}

#[test]
fn particle_of_mass_two_under_one_force() {
    let mut body: Particle<Vector2, Real> = Particle::new(whole(2));
    body.apply(Force::Linear(vec2(3, 4)));
    let pose = Pose2::new(point2(10, 20), Rotation2::identity());
    let velocity = at_rest();
    let mut next: Option<NextFrame<Pose2, Vector2, Real>> = None;
    body.integrate(&velocity, &pose, whole(1), &mut next);
    let frame = next.unwrap();
    assert_eq!(frame.velocity.linear, Vector2::new(Real::new(3, 2), whole(2)));
    assert_eq!(frame.velocity.angular, Real::zero());
    assert_eq!(*frame.transform.position(), Point2::new(Real::new(23, 2), whole(22)));
    assert_eq!(*frame.transform.rotation(), Rotation2::identity());
    // the committed state has not moved
    assert_eq!(*pose.position(), point2(10, 20));
    assert_eq!(velocity, at_rest());
}

#[test]
fn the_step_length_scales_acceleration_and_motion() {
    let mut body: Particle<Vector2, Real> = Particle::new(whole(2));
    body.apply(Force::Linear(vec2(8, 0)));
    let pose = Pose2::new(point2(0, 0), Rotation2::identity());
    let velocity = Velocity { linear: vec2(1, 1), angular: Real::zero() };
    let mut next = None;
    body.integrate(&velocity, &pose, Real::new(1, 2), &mut next);
    let frame = next.unwrap();
    // acceleration 4, over half a unit of time: 1 + 2 = 3
    assert_eq!(frame.velocity.linear, vec2(3, 1));
    // the position moves with the new velocity: 3 * 1/2, 1 * 1/2
    assert_eq!(*frame.transform.position(), Point2::new(Real::new(3, 2), Real::new(1, 2)));
}

#[test]
fn forces_add_up_and_torques_do_not_move_a_particle() {
    let mut body: Particle<Vector2, Real> = Particle::new(whole(1));
    body.apply(Force::Linear(vec2(1, 0)));
    body.apply(Force::Angular(whole(5)));
    body.apply(Force::Linear(vec2(2, -1)));
    let sums = sum_forces(body.forces());
    assert_eq!(sums.0, vec2(3, -1));
    assert_eq!(sums.1, whole(5));
    let pose = Pose2::new(point2(0, 0), Rotation2::identity());
    let mut next = None;
    body.integrate(&at_rest(), &pose, whole(1), &mut next);
    let frame = next.unwrap();
    assert_eq!(frame.velocity.linear, vec2(3, -1));
    assert_eq!(frame.velocity.angular, Real::zero());
    assert_eq!(*frame.transform.rotation(), Rotation2::identity());
}

#[test]
fn integration_drains_the_forces() {
    let mut body: Particle<Vector2, Real> = Particle::new(whole(3));
    for i in 0..5 {
        body.apply(Force::Linear(vec2(i, 1)));
    }
    assert_eq!(body.forces().len(), 5);
    let pose = Pose2::new(point2(0, 0), Rotation2::identity());
    let mut next = None;
    body.integrate(&at_rest(), &pose, whole(1), &mut next);
    assert_eq!(body.forces().len(), 0);
    // and with nothing pending as well
    body.integrate(&at_rest(), &pose, whole(1), &mut next);
    assert_eq!(body.forces().len(), 0);
    let mut rigid: RigidBody<Vector2, Real, Real> = RigidBody::new(whole(3), whole(2));
    rigid.apply(Force::Angular(whole(1)));
    rigid.apply(Force::Linear(vec2(1, 1)));
    let mut staged = None;
    rigid.integrate(&at_rest(), &pose, whole(1), &mut staged);
    assert_eq!(rigid.forces().len(), 0);
}

#[test]
fn rest_stays_at_rest() {
    let mut body: Particle<Vector2, Real> = Particle::new(whole(7));
    let turned = Rotation2::half_tangent(Real::new(1, 2));
    let mut pose = Pose2::new(point2(-3, 9), turned);
    let mut velocity = at_rest();
    let mut next = None;
    body.integrate(&velocity, &pose, Real::new(1, 60), &mut next);
    commit(&mut pose, &mut velocity, &mut next);
    assert_eq!(*pose.position(), point2(-3, 9));
    assert_eq!(*pose.rotation(), turned);
    assert_eq!(velocity, at_rest());

    let mut rigid: RigidBody<Vector2, Real, Real> = RigidBody::new(whole(7), whole(5));
    let mut staged = None;
    rigid.integrate(&velocity, &pose, Real::new(1, 60), &mut staged);
    commit(&mut pose, &mut velocity, &mut staged);
    assert_eq!(*pose.position(), point2(-3, 9));
    assert_eq!(*pose.rotation(), turned);
    assert_eq!(velocity, at_rest());
}

#[test]
fn an_immovable_rigid_body_ignores_every_force() {
    let mut body: RigidBody<Vector2, Real, Real> = RigidBody::immovable();
    assert_eq!(body.inverse_mass(), Real::zero());
    assert_eq!(*body.inverse_inertia_tensor(), Real::zero());
    body.apply(Force::Linear(vec2(100, -50)));
    body.apply(Force::Angular(whole(1000)));
    body.apply(Force::Linear(Vector2::new(Real::infinite(), whole(1))));
    let rotation = Rotation2::half_tangent(whole(2));
    let mut pose = Pose2::new(point2(4, 5), rotation);
    let mut velocity = at_rest();
    let mut next = None;
    body.integrate(&velocity, &pose, whole(1), &mut next);
    commit(&mut pose, &mut velocity, &mut next);
    assert_eq!(*pose.position(), point2(4, 5));
    assert_eq!(*pose.rotation(), rotation);
    assert_eq!(velocity, at_rest());
    assert_eq!(body.forces().len(), 0);
}

#[test]
fn an_immovable_particle_keeps_its_velocity() {
    let mut body: Particle<Vector2, Real> = Particle::immovable();
    assert!(!body.mass().is_finite());
    assert_eq!(body.inverse_mass(), Real::zero());
    body.apply(Force::Linear(vec2(9, 9)));
    let pose = Pose2::new(point2(0, 0), Rotation2::identity());
    let velocity = Velocity { linear: vec2(1, 2), angular: Real::zero() };
    let mut next = None;
    body.integrate(&velocity, &pose, whole(2), &mut next);
    let frame = next.unwrap();
    assert_eq!(frame.velocity, velocity);
    // it drifts on with the velocity it had
    assert_eq!(*frame.transform.position(), point2(2, 4));
}

#[test]
fn a_torque_turns_a_rigid_body() {
    // inertia 2, torque 4: angular acceleration 2; over one unit of time
    // the angular rate is 2, the half tangent 1: a quarter turn
    let mut body: RigidBody<Vector2, Real, Real> = RigidBody::new(whole(1), whole(2));
    assert_eq!(*body.inertia_tensor(), whole(2));
    assert_eq!(*body.inverse_inertia_tensor(), Real::new(1, 2));
    body.apply(Force::Angular(whole(4)));
    let pose = Pose2::new(point2(0, 0), Rotation2::identity());
    let mut next = None;
    body.integrate(&at_rest(), &pose, whole(1), &mut next);
    let frame = next.unwrap();
    assert_eq!(frame.velocity.angular, whole(2));
    assert_eq!(frame.transform.rotation().cos(), Real::zero());
    assert_eq!(frame.transform.rotation().sin(), Real::one());
    assert_eq!(frame.transform.inverse_rotation().sin(), whole(-1));
}

#[test]
fn mass_and_inverse_mass_multiply_to_one() {
    for m in [Real::new(2, 1), Real::new(3, 7), Real::new(1, 1000), Real::from_int(123456789)] {
        let body: Particle<Vector2, Real> = Particle::new(m);
        assert_eq!(body.mass(), m);
        assert_eq!(body.mass().times(&body.inverse_mass()), Real::one());
        let rigid: RigidBody<Vector2, Real, Real> = RigidBody::new(m, whole(1));
        assert_eq!(rigid.mass().times(&rigid.inverse_mass()), Real::one());
    }
}

#[test]
fn applying_a_force_appends_it() {
    let mut body: Particle<Vector2, Real> = Particle::new(whole(1));
    assert!(body.forces().is_empty());
    body.apply(Force::Linear(vec2(1, 2)));
    body.apply(Force::Angular(whole(3)));
    assert_eq!(body.forces().len(), 2);
    assert_eq!(body.forces()[0], Force::Linear(vec2(1, 2)));
    assert_eq!(body.forces()[1], Force::Angular(whole(3)));
    assert_eq!(body.mass(), whole(1));
}

#[test]
fn set_rotation_renews_the_inverse_and_marks_dirty() {
    let mut pose = Pose2::new(point2(0, 0), Rotation2::identity());
    pose.clear();
    assert!(!pose.dirty());
    let r = Rotation2::half_tangent(Real::new(1, 3));
    pose.set_rotation(r);
    assert!(pose.dirty());
    assert_eq!(*pose.rotation(), r);
    assert_eq!(*pose.inverse_rotation(), r.invert());
    assert_eq!(r.followed_by(pose.inverse_rotation()), Rotation2::identity());
    assert_eq!(*pose.position(), point2(0, 0));
}

#[test]
fn set_position_marks_dirty_and_leaves_the_rotation() {
    let r = Rotation2::half_tangent(whole(3));
    let mut pose = Pose2::new(point2(0, 0), r);
    assert!(pose.dirty());
    pose.clear();
    pose.set_position(point2(1, 2));
    assert!(pose.dirty());
    assert_eq!(*pose.position(), point2(1, 2));
    assert_eq!(*pose.rotation(), r);
    assert_eq!(*pose.inverse_rotation(), r.invert());
}

#[test]
fn dirty_stays_until_cleared() {
    let mut body: Particle<Vector2, Real> = Particle::new(whole(1));
    let mut pose = Pose2::new(point2(0, 0), Rotation2::identity());
    pose.clear();
    let mut velocity = Velocity { linear: vec2(1, 0), angular: Real::zero() };
    let mut next = None;
    body.integrate(&velocity, &pose, whole(1), &mut next);
    // staging does not touch the committed pose
    assert!(!pose.dirty());
    commit(&mut pose, &mut velocity, &mut next);
    assert!(pose.dirty());
    // reading, applying forces and integrating again leave the flag set
    let _ = pose.position();
    let _ = pose.rotation();
    let _ = pose.inverse_rotation();
    body.apply(Force::Linear(vec2(1, 1)));
    body.integrate(&velocity, &pose, whole(1), &mut next);
    assert!(pose.dirty());
    pose.clear();
    assert!(!pose.dirty());
}

#[test]
fn commit_moves_the_staged_frame_into_the_committed_state() {
    let mut body: Particle<Vector2, Real> = Particle::new(whole(1));
    body.apply(Force::Linear(vec2(2, 0)));
    let mut pose = Pose2::new(point2(1, 1), Rotation2::identity());
    let mut velocity = Velocity { linear: vec2(0, 1), angular: whole(2) };
    let mut next = None;
    body.integrate(&velocity, &pose, whole(1), &mut next);
    commit(&mut pose, &mut velocity, &mut next);
    assert_eq!(velocity.linear, vec2(2, 1));
    assert_eq!(velocity.angular, whole(2));
    assert_eq!(*pose.position(), point2(3, 2));
    // angular rate 2 over one unit of time: half tangent 1, a quarter turn
    assert_eq!(pose.rotation().cos(), Real::zero());
    assert_eq!(pose.rotation().sin(), Real::one());
    assert_eq!(*pose.inverse_rotation(), pose.rotation().invert());
    // the staged frame is still there to be read
    let frame = next.unwrap();
    assert_eq!(*frame.transform.position(), point2(3, 2));
    assert_eq!(frame.velocity, velocity);
}

#[test]
fn commit_without_a_staged_frame_seeds_one() {
    let r = Rotation2::half_tangent(whole(1));
    let mut pose = Pose2::new(point2(6, 7), r);
    pose.clear();
    let before = pose;
    let mut velocity = Velocity { linear: vec2(1, 2), angular: whole(3) };
    let mut next: Option<NextFrame<Pose2, Vector2, Real>> = None;
    commit(&mut pose, &mut velocity, &mut next);
    assert_eq!(*pose.position(), point2(6, 7));
    assert_eq!(*pose.rotation(), r);
    assert_eq!(velocity, Velocity { linear: vec2(1, 2), angular: whole(3) });
    assert!(pose.dirty());
    assert_eq!(next, Some(NextFrame { transform: before, velocity }));
}

#[test]
fn integration_overwrites_an_older_staged_frame() {
    let mut body: Particle<Vector2, Real> = Particle::new(whole(1));
    let pose = Pose2::new(point2(0, 0), Rotation2::identity());
    let stale = NextFrame {
        transform: Pose2::new(point2(99, 99), Rotation2::half_tangent(whole(5))),
        velocity: Velocity { linear: vec2(9, 9), angular: whole(9) },
    };
    let mut next = Some(stale);
    let velocity = Velocity { linear: vec2(1, 0), angular: Real::zero() };
    body.integrate(&velocity, &pose, whole(1), &mut next);
    let frame = next.unwrap();
    assert_eq!(frame.velocity, velocity);
    assert_eq!(*frame.transform.position(), point2(1, 0));
    assert_eq!(*frame.transform.rotation(), Rotation2::identity());
    assert_eq!(*frame.transform.inverse_rotation(), Rotation2::identity());
    assert!(frame.transform.dirty());
}

#[test]
fn vectors_add_and_scale_by_component() {
    let a = Vector2::new(Real::new(1, 2), whole(3));
    let b = Vector2::new(Real::new(1, 3), whole(-3));
    assert_eq!(a.plus(&b), Vector2::new(Real::new(5, 6), Real::zero()));
    assert_eq!(a.scaled(&whole(4)), vec2(2, 12));
    assert_eq!(a.scaled(&Real::zero()), <Vector2 as VectorSpace>::zero());
    assert_eq!(point2(1, 1).moved(&vec2(2, -5)), point2(3, -4));
}

#[test]
fn scalar_inertia_inverts_and_applies() {
    let i = Real::new(5, 2);
    assert_eq!(Inertia::invert(&i), Real::new(2, 5));
    assert_eq!(Inertia::applied(&i, &whole(4)), whole(10));
    assert_eq!(<Real as Inertia>::zero(), Real::zero());
    assert_eq!(Inertia::applied(&Real::zero(), &Real::infinite()), Real::zero());
}

#[test]
fn half_tangents_give_points_of_the_unit_circle() {
    for (n, d) in [(0, 1), (1, 1), (1, 2), (-3, 4), (7, 5), (1000, 3), (-1, 1000)] {
        let r = Rotation2::half_tangent(Real::new(n, d));
        assert!(r.is_finite());
        let norm = r.cos().times(&r.cos()).plus(&r.sin().times(&r.sin()));
        assert_eq!(norm, Real::one());
    }
    let r = Rotation2::half_tangent(Real::new(1, 2));
    assert_eq!(r.cos(), Real::new(3, 5));
    assert_eq!(r.sin(), Real::new(4, 5));
}

#[test]
fn rotations_compose_and_invert() {
    let a = Rotation2::half_tangent(Real::new(1, 2));
    let b = Rotation2::half_tangent(Real::new(1, 3));
    let ab = a.followed_by(&b);
    // (3/5 + 4/5 i) (4/5 + 3/5 i) = i
    assert_eq!(ab.cos(), Real::zero());
    assert_eq!(ab.sin(), Real::one());
    assert_eq!(ab.followed_by(&ab.invert()), Rotation2::identity());
    assert_eq!(a.invert().invert(), a);
    assert_eq!(a.followed_by(&Rotation2::identity()), a);
    assert_eq!(a.invert().sin(), Real::new(-4, 5));
}

#[test]
fn turning_by_nothing_changes_nothing() {
    let a = Rotation2::half_tangent(Real::new(2, 7));
    assert_eq!(a.turned(&Real::zero()), a);
    // an angular displacement of 2 has the half tangent 1
    let quarter = Rotation2::identity().turned(&whole(2));
    assert_eq!(quarter.cos(), Real::zero());
    assert_eq!(quarter.sin(), Real::one());
}

#[test]
fn a_rotation_out_of_range_is_not_finite() {
    let huge = Rotation2::half_tangent(Real::from_int(4_000_000_000));
    assert!(!huge.is_finite());
    assert!(!huge.followed_by(&Rotation2::identity()).is_finite());
    assert!(!Rotation2::half_tangent(Real::infinite()).is_finite());
}

#[test]
fn without_a_step_nothing_moves() {
    let mut body: Particle<Vector2, Real> = Particle::new(whole(2));
    let mut pose = Pose2::new(point2(1, 2), Rotation2::identity());
    pose.clear();
    let velocity = Velocity { linear: vec2(5, 5), angular: whole(1) };
    body.apply(Force::Linear(vec2(100, 100)));
    body.apply(Force::Angular(whole(7)));
    assert_eq!(*pose.position(), point2(1, 2));
    assert_eq!(*pose.rotation(), Rotation2::identity());
    assert!(!pose.dirty());
    assert_eq!(velocity, Velocity { linear: vec2(5, 5), angular: whole(1) });
    assert_eq!(body.forces().len(), 2);
}

#[test]
fn the_order_of_the_forces_does_not_change_the_sums() {
    let a = Force::Linear(Vector2::new(Real::new(1, 3), whole(2)));
    let b = Force::Angular(Real::new(5, 7));
    let c = Force::Linear(Vector2::new(Real::new(1, 6), whole(-9)));
    let d = Force::Angular(Real::new(-2, 7));
    let one_way: Vec<Force<Vector2, Real>> = vec![a, b, c, d];
    let other_way: Vec<Force<Vector2, Real>> = vec![d, c, b, a];
    let swapped: Vec<Force<Vector2, Real>> = vec![a, c, b, d];
    let sums = sum_forces(&one_way);
    assert_eq!(sums.0, Vector2::new(Real::new(1, 2), whole(-7)));
    assert_eq!(sums.1, Real::new(3, 7));
    assert_eq!(sum_forces(&other_way), sums);
    assert_eq!(sum_forces(&swapped), sums);
    let none: Vec<Force<Vector2, Real>> = vec![];
    assert_eq!(sum_forces(&none), (<Vector2 as VectorSpace>::zero(), Real::zero()));
}

#[test]
fn a_rigid_body_answers_force_and_torque_at_once() {
    let mut body: RigidBody<Vector2, Real, Real> = RigidBody::new(whole(4), Real::new(1, 2));
    body.apply(Force::Linear(vec2(8, -4)));
    body.apply(Force::Angular(whole(1)));
    let pose = Pose2::new(point2(0, 0), Rotation2::identity());
    let velocity = Velocity { linear: vec2(1, 1), angular: Real::zero() };
    let mut next = None;
    body.integrate(&velocity, &pose, Real::new(1, 2), &mut next);
    let frame = next.unwrap();
    // linear: 1 + (8/4)/2 = 2, 1 + (-4/4)/2 = 1/2
    assert_eq!(frame.velocity.linear, Vector2::new(whole(2), Real::new(1, 2)));
    // angular: 0 + (1 * 2)/2 = 1
    assert_eq!(frame.velocity.angular, Real::one());
    // position: the new velocity over half a unit of time
    assert_eq!(*frame.transform.position(), Point2::new(Real::one(), Real::new(1, 4)));
    // rotation: angular displacement 1/2, half tangent 1/4
    assert_eq!(*frame.transform.rotation(), Rotation2::half_tangent(Real::new(1, 4)));
    assert_eq!(frame.transform.rotation().cos(), Real::new(15, 17));
    assert_eq!(frame.transform.rotation().sin(), Real::new(8, 17));
}

#[test]
fn a_new_pose_holds_the_inverse_of_its_rotation() {
    let r = Rotation2::half_tangent(Real::new(2, 3));
    let pose = Pose2::new(point2(0, 0), r);
    assert!(pose.dirty());
    assert_eq!(pose.inverse_rotation().cos(), r.cos());
    assert_eq!(pose.inverse_rotation().sin(), r.sin().negated());
}

#[test]
fn logged_steps_tell_the_log_what_they_touched() {
    let mut log = ChangeLog::new();
    let mut body: Particle<Vector2, Real> = Particle::new(whole(1));
    let mut rigid: RigidBody<Vector2, Real, Real> = RigidBody::new(whole(1), whole(1));
    let mut pose = Pose2::new(point2(0, 0), Rotation2::identity());
    let mut velocity = Velocity { linear: vec2(1, 0), angular: Real::zero() };
    let mut next = None;
    let mut other_pose = Pose2::new(point2(5, 5), Rotation2::identity());
    let mut other_velocity = at_rest();
    let mut other_next = None;

    // frame 1: body 3 integrates and commits, body 4 commits without a staged frame
    body.apply(Force::Linear(vec2(1, 1)));
    body.integrate_logged(3, &velocity, &pose, whole(1), &mut next, &mut log);
    assert_eq!(body.forces().len(), 0);
    assert_eq!(next.unwrap().velocity.linear, vec2(2, 1));
    commit_logged(3, &mut pose, &mut velocity, &mut next, &mut log);
    assert_eq!(*pose.position(), point2(2, 1));
    commit_logged(4, &mut other_pose, &mut other_velocity, &mut other_next, &mut log);
    assert_eq!(*other_pose.position(), point2(5, 5));
    assert!(other_next.is_some());
    assert!(log.advance());

    // frame 2: body 4 integrates as a rigid body
    rigid.integrate_logged(4, &other_velocity, &other_pose, whole(1), &mut other_next, &mut log);

    let pose_of = |frame, body| Change { frame, body, component: Component::Pose };
    let next_of = |frame, body| Change { frame, body, component: Component::NextFrame };
    assert_eq!(
        log.changes_since(0),
        vec![next_of(1, 3), pose_of(1, 3), pose_of(1, 4), next_of(1, 4), next_of(2, 4)]
    );
    assert_eq!(log.changes_since(1), vec![next_of(2, 4)]);

    // the plain steps do the same to the bodies
    let mut plain_pose = Pose2::new(point2(5, 5), Rotation2::identity());
    let mut plain_velocity = at_rest();
    let mut plain_next = None;
    commit(&mut plain_pose, &mut plain_velocity, &mut plain_next);
    assert_eq!(plain_pose, other_pose);
}
