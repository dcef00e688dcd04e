use physical_world::entity::Entity;
use physical_world::rational::Rat;
use physical_world::shape::{Shape, Sphere};
use physical_world::state::State;
use physical_world::vector::Vec3;
use physical_world::geometry::{
    applies_force_in_direction, are_touching, get_force_in_direction, get_velocity_diff_after_collision, moves_towards, relatively_moves_towards,
};

fn rat(n: i64, d: i64) -> Rat {
    Rat::new(n, d)
}

fn vec3(x: Rat, y: Rat, z: Rat) -> Vec3 {
    Vec3::new(x, y, z)
}

#[test]
fn test_move_towards0() {
        let e0 = Entity::new(
            "e0",
            State::new(
                vec3(rat(0, 1), rat(0, 1), rat(0, 1)),
                vec3(rat(0, 1), rat(0, 1), rat(0, 1)),
                vec3(rat(0, 1), rat(0, 1), rat(0, 1)),
                rat(0, 1),
                Shape::Sphere( Sphere { radius: rat(1, 1) } ),
            ),
        );
        let e1 = Entity::new(
            "e0",
            State::new(
                vec3(rat(1, 1), rat(0, 1), rat(0, 1)),
                vec3(rat(10, 1), rat(0, 1), rat(0, 1)),
                vec3(rat(0, 1), rat(0, 1), rat(0, 1)),
                rat(0, 1),
                Shape::Sphere( Sphere { radius: rat(1, 1) } ),
            ),
        );
        assert!(moves_towards(&e0, &e1) == false);
    }

#[test]
fn test_move_towards1() {
        let e0 = Entity::new(
            "e0",
            State::new(
                vec3(rat(0, 1), rat(0, 1), rat(0, 1)),
                vec3(rat(10, 1), rat(0, 1), rat(0, 1)),
                vec3(rat(0, 1), rat(0, 1), rat(0, 1)),
                rat(0, 1),
                Shape::Sphere( Sphere { radius: rat(1, 1) } ),
            ),
        );
        let e1 = Entity::new(
            "e1",
            State::new(
                vec3(rat(1, 1), rat(0, 1), rat(0, 1)),
                vec3(rat(0, 1), rat(0, 1), rat(0, 1)),
                vec3(rat(0, 1), rat(0, 1), rat(0, 1)),
                rat(0, 1),
                Shape::Sphere( Sphere { radius: rat(1, 1) } ),
            ),
        );
        assert!(moves_towards(&e0, &e1) == true);
    }

#[test]
fn test_move_towards2() {
        let e0 = Entity::new(
            "e0",
            State::new(
                vec3(rat(0, 1), rat(0, 1), rat(0, 1)),
                vec3(rat(10, 1), rat(0, 1), rat(0, 1)),
                vec3(rat(0, 1), rat(0, 1), rat(0, 1)),
                rat(0, 1),
                Shape::Sphere( Sphere { radius: rat(1, 1) } ),
            ),
        );
        let e1 = Entity::new(
            "e1",
            State::new(
                vec3(rat(1, 1), rat(0, 1), rat(0, 1)),
                vec3(rat(10, 1), rat(0, 1), rat(0, 1)),
                vec3(rat(0, 1), rat(0, 1), rat(0, 1)),
                rat(0, 1),
                Shape::Sphere( Sphere { radius: rat(1, 1) } ),
            ),
        );
        assert!(moves_towards(&e0, &e1) == false);
    }

#[test]
fn test_move_towards3() {
        let e0 = Entity::new(
            "e0",
            State::new(
                vec3(rat(0, 1), rat(0, 1), rat(0, 1)),
                vec3(rat(5, 1), rat(0, 1), rat(0, 1)),
                vec3(rat(0, 1), rat(0, 1), rat(0, 1)),
                rat(0, 1),
                Shape::Sphere( Sphere { radius: rat(1, 1) } ),
            ),
        );
        let e1 = Entity::new(
            "e1",
            State::new(
                vec3(rat(1, 1), rat(0, 1), rat(0, 1)),
                vec3(rat(10, 1), rat(0, 1), rat(0, 1)),
                vec3(rat(0, 1), rat(0, 1), rat(0, 1)),
                rat(0, 1),
                Shape::Sphere( Sphere { radius: rat(1, 1) } ),
            ),
        );
        assert!(moves_towards(&e0, &e1) == false);
    }

#[test]
fn test_move_towards4() {
        let e0 = Entity::new(
            "e0",
            State::new(
                vec3(rat(0, 1), rat(0, 1), rat(0, 1)),
                vec3(rat(10, 1), rat(0, 1), rat(0, 1)),
                vec3(rat(0, 1), rat(0, 1), rat(0, 1)),
                rat(0, 1),
                Shape::Sphere( Sphere { radius: rat(1, 1) } ),
            ),
        );
        let e1 = Entity::new(
            "e1",
            State::new(
                vec3(rat(1, 1), rat(0, 1), rat(0, 1)),
                vec3(rat(5, 1), rat(0, 1), rat(0, 1)),
                vec3(rat(0, 1), rat(0, 1), rat(0, 1)),
                rat(0, 1),
                Shape::Sphere( Sphere { radius: rat(1, 1) } ),
            ),
        );
        assert!(moves_towards(&e0, &e1) == true);
    }

fn touch_case(
    loc0: Vec3,
    radius0: Rat,
    loc1: Vec3,
    radius1: Rat,
    expected_result: bool,
) {
    let e0 = Entity::new(
        "test entity 0",
        State::new(
            loc0,
            vec3(rat(0, 1), rat(0, 1), rat(0, 1)),
            vec3(rat(0, 1), rat(0, 1), rat(0, 1)),
            rat(0, 1),
            Shape::Sphere(Sphere { radius: radius0 }),
        ),
    );
    let e1 = Entity::new(
        "test entity 1",
        State::new(
            loc1,
            vec3(rat(0, 1), rat(0, 1), rat(0, 1)),
            vec3(rat(0, 1), rat(0, 1), rat(0, 1)),
            rat(0, 1),
            Shape::Sphere(Sphere { radius: radius1 }),
        ),
    );
    let res0 = are_touching(&e0, &e1);
    let res1 = are_touching(&e1, &e0);
    assert!(res0 == expected_result && res1 == expected_result);
}

#[test]
fn test_are_touching() {


        touch_case(
            vec3(rat(1, 1), rat(0, 1), rat(0, 1)),
            rat(1, 1),
            vec3(rat(-1, 1), rat(0, 1), rat(0, 1)),
            rat(1, 1),
            true,
        );
        touch_case(
            vec3(rat(9, 10), rat(0, 1), rat(0, 1)),
            rat(1, 1),
            vec3(rat(-9, 10), rat(0, 1), rat(0, 1)),
            rat(1, 1),
            true,
        );
        touch_case(
            vec3(rat(-11, 10), rat(0, 1), rat(0, 1)),
            rat(1, 1),
            vec3(rat(11, 10), rat(0, 1), rat(0, 1)),
            rat(1, 1),
            false,
        );
        touch_case(
            vec3(rat(1, 1), rat(1, 1), rat(1, 1)),
            rat(1, 1),
            vec3(rat(0, 1), rat(0, 1), rat(0, 1)),
            rat(1, 1),
            true,
        );
        touch_case(
            vec3(rat(-1, 1), rat(-1, 1), rat(-1, 1)),
            rat(1, 1),
            vec3(rat(0, 1), rat(0, 1), rat(0, 1)),
            rat(1, 1),
            true,
        );
        touch_case(
            vec3(rat(0, 1), rat(0, 1), rat(0, 1)),
            rat(1, 1),
            vec3(rat(0, 1), rat(0, 1), rat(0, 1)),
            rat(1, 1),
            true,
        );
        touch_case(
            vec3(rat(1, 1), rat(1, 1), rat(1, 1)),
            rat(1, 1),
            vec3(rat(1, 1), rat(1, 1), rat(1, 1)),
            rat(1, 1),
            true,
        );
        touch_case(
            vec3(rat(-1, 1), rat(-1, 1), rat(-1, 1)),
            rat(1, 1),
            vec3(rat(-1, 1), rat(-1, 1), rat(-1, 1)),
            rat(1, 1),
            true,
        );
        touch_case(
            vec3(rat(1, 2), rat(1, 2), rat(1, 2)),
            rat(1, 1),
            vec3(rat(-1, 2), rat(-1, 2), rat(-1, 2)),
            rat(1, 1),
            true,
        );
        touch_case(
            vec3(rat(0, 1), rat(0, 1), rat(0, 1)),
            rat(1, 1),
            vec3(rat(-1, 2), rat(-1, 2), rat(-1, 2)),
            rat(1, 1),
            true,
        );
        touch_case(
            vec3(rat(1, 1), rat(1, 1), rat(1, 1)),
            rat(1, 1),
            vec3(rat(-2, 1), rat(-5, 2), rat(-5, 2)),
            rat(1, 1),
            false,
        );
        touch_case(
            vec3(rat(-110, 1), rat(70, 1), rat(-80, 1)),
            rat(1, 1),
            vec3(rat(-2, 1), rat(-5, 2), rat(-5, 2)),
            rat(1, 1),
            false,
        );
    }

fn relmove_case(
    loc0: Vec3,
    vel0: Vec3,
    loc1: Vec3,
    vel1: Vec3,
    expected_result: bool,
) {
    let e0 = Entity::new(
        "test entity 0",
        State::new(
            loc0,
            vel0,
            vec3(rat(0, 1), rat(0, 1), rat(0, 1)),
            rat(0, 1),
            Shape::Absent,
        ),
    );
    let e1 = Entity::new(
        "test entity 1",
        State::new(
            loc1,
            vel1,
            vec3(rat(0, 1), rat(0, 1), rat(0, 1)),
            rat(0, 1),
            Shape::Absent,
        ),
    );
    let res0 = relatively_moves_towards(&e0, &e1);
    let res1 = relatively_moves_towards(&e1, &e0);
    assert!(res0 == expected_result && res1 == expected_result);
}

#[test]
fn test_relatively_moves_towards() {

        relmove_case(
            vec3(rat(0, 1), rat(0, 1), rat(0, 1)),
            vec3(rat(1, 1), rat(1, 1), rat(1, 1)),
            vec3(rat(1, 1), rat(1, 1), rat(1, 1)),
            vec3(rat(0, 1), rat(0, 1), rat(0, 1)),
            true,
        );
        relmove_case(
            vec3(rat(0, 1), rat(0, 1), rat(0, 1)),
            vec3(rat(1, 1), rat(1, 1), rat(1, 1)),
            vec3(rat(1, 1), rat(1, 1), rat(1, 1)),
            vec3(rat(1, 1), rat(1, 1), rat(1, 1)),
            false,
        );
        relmove_case(
            vec3(rat(0, 1), rat(0, 1), rat(0, 1)),
            vec3(rat(11, 10), rat(11, 10), rat(11, 10)),
            vec3(rat(1, 1), rat(1, 1), rat(1, 1)),
            vec3(rat(1, 1), rat(1, 1), rat(1, 1)),
            true,
        );
        relmove_case(
            vec3(rat(0, 1), rat(0, 1), rat(0, 1)),
            vec3(rat(1, 1), rat(1, 1), rat(1, 1)),
            vec3(rat(1, 1), rat(1, 1), rat(1, 1)),
            vec3(rat(11, 10), rat(11, 10), rat(11, 10)),
            false,
        );
        relmove_case(
            vec3(rat(0, 1), rat(0, 1), rat(0, 1)),
            vec3(rat(1, 1), rat(1, 1), rat(1, 1)).neg(),
            vec3(rat(1, 1), rat(1, 1), rat(1, 1)).neg(),
            vec3(rat(0, 1), rat(0, 1), rat(0, 1)),
            true,
        );
        relmove_case(
            vec3(rat(0, 1), rat(0, 1), rat(0, 1)),
            vec3(rat(1, 1), rat(1, 1), rat(1, 1)).neg(),
            vec3(rat(1, 1), rat(1, 1), rat(1, 1)).neg(),
            vec3(rat(1, 1), rat(1, 1), rat(1, 1)).neg(),
            false,
        );
        relmove_case(
            vec3(rat(0, 1), rat(0, 1), rat(0, 1)),
            vec3(rat(11, 10), rat(11, 10), rat(11, 10)).neg(),
            vec3(rat(1, 1), rat(1, 1), rat(1, 1)).neg(),
            vec3(rat(1, 1), rat(1, 1), rat(1, 1)).neg(),
            true,
        );
        relmove_case(
            vec3(rat(0, 1), rat(0, 1), rat(0, 1)),
            vec3(rat(1, 1), rat(1, 1), rat(1, 1)).neg(),
            vec3(rat(1, 1), rat(1, 1), rat(1, 1)).neg(),
            vec3(rat(11, 10), rat(11, 10), rat(11, 10)).neg(),
            false,
        );
        relmove_case(
            vec3(rat(0, 1), rat(0, 1), rat(0, 1)),
            vec3(rat(1, 1), rat(1, 1), rat(1, 1)).neg(),
            vec3(rat(1, 1), rat(1, 1), rat(1, 1)),
            vec3(rat(0, 1), rat(0, 1), rat(0, 1)),
            false,
        );
        relmove_case(
            vec3(rat(0, 1), rat(0, 1), rat(0, 1)),
            vec3(rat(1, 1), rat(1, 1), rat(1, 1)).neg(),
            vec3(rat(1, 1), rat(1, 1), rat(1, 1)).neg(),
            vec3(rat(1, 1), rat(1, 1), rat(1, 1)),
            true,
        );
        relmove_case(
            vec3(rat(0, 1), rat(0, 1), rat(0, 1)),
            vec3(rat(11, 10), rat(11, 10), rat(11, 10)).neg(),
            vec3(rat(1, 1), rat(1, 1), rat(1, 1)),
            vec3(rat(1, 1), rat(1, 1), rat(1, 1)).neg(),
            false,
        );
        relmove_case(
            vec3(rat(0, 1), rat(0, 1), rat(0, 1)),
            vec3(rat(1, 1), rat(1, 1), rat(1, 1)).neg(),
            vec3(rat(1, 1), rat(1, 1), rat(1, 1)).neg(),
            vec3(rat(11, 10), rat(11, 10), rat(11, 10)),
            true,
        );
        relmove_case(
            vec3(rat(0, 1), rat(0, 1), rat(0, 1)),
            vec3(rat(1, 1), rat(1, 1), rat(1, 1)),
            vec3(rat(1, 1), rat(0, 1), rat(0, 1)),
            vec3(rat(0, 1), rat(0, 1), rat(0, 1)),
            true,
        );
        relmove_case(
            vec3(rat(0, 1), rat(0, 1), rat(0, 1)),
            vec3(rat(1, 1), rat(1, 1), rat(1, 1)).neg(),
            vec3(rat(1, 1), rat(0, 1), rat(0, 1)),
            vec3(rat(0, 1), rat(0, 1), rat(0, 1)),
            false,
        );
        relmove_case(
            vec3(rat(0, 1), rat(0, 1), rat(0, 1)),
            vec3(rat(1, 1), rat(1, 1), rat(1, 1)),
            vec3(rat(1, 1), rat(0, 1), rat(0, 1)).neg(),
            vec3(rat(0, 1), rat(0, 1), rat(0, 1)),
            false,
        );
        relmove_case(
            vec3(rat(0, 1), rat(0, 1), rat(0, 1)),
            vec3(rat(1, 1), rat(1, 1), rat(1, 1)).neg(),
            vec3(rat(1, 1), rat(0, 1), rat(0, 1)).neg(),
            vec3(rat(0, 1), rat(0, 1), rat(0, 1)),
            true,
        );
        relmove_case(
            vec3(rat(0, 1), rat(0, 1), rat(0, 1)),
            vec3(rat(0, 1), rat(0, 1), rat(0, 1)),
            vec3(rat(1, 1), rat(0, 1), rat(0, 1)),
            vec3(rat(0, 1), rat(0, 1), rat(0, 1)),
            false,
        );
        relmove_case(
            vec3(rat(0, 1), rat(0, 1), rat(0, 1)),
            vec3(rat(0, 1), rat(0, 1), rat(0, 1)),
            vec3(rat(1, 1), rat(0, 1), rat(0, 1)).neg(),
            vec3(rat(0, 1), rat(0, 1), rat(0, 1)),
            false,
        );
    }

fn applies_case(
    loc0: Vec3,
    force0: Vec3,
    loc1: Vec3,
    expected_result: bool,
) {
    let e0 = Entity::new(
        "test entity 0",
        State::new(
            loc0,
            vec3(rat(0, 1), rat(0, 1), rat(0, 1)),
            force0,
            rat(0, 1),
            Shape::Absent,
        ),
    );
    let e1 = Entity::new(
        "test entity 1",
        State::new(
            loc1,
            vec3(rat(0, 1), rat(0, 1), rat(0, 1)),
            vec3(rat(0, 1), rat(0, 1), rat(0, 1)),
            rat(0, 1),
            Shape::Absent,
        ),
    );
    let res = applies_force_in_direction(&e0, &e1);
    assert!(res == expected_result);
}

#[test]
fn test_applies_force_in_direction() {

        applies_case(
            vec3(rat(0, 1), rat(0, 1), rat(0, 1)),
            vec3(rat(1, 1), rat(1, 1), rat(1, 1)),
            vec3(rat(1, 1), rat(1, 1), rat(1, 1)),
            true,
        );
        applies_case(
            vec3(rat(0, 1), rat(0, 1), rat(0, 1)),
            vec3(rat(1, 1), rat(1, 1), rat(1, 1)).neg(),
            vec3(rat(1, 1), rat(1, 1), rat(1, 1)),
            false,
        );
        applies_case(
            vec3(rat(0, 1), rat(0, 1), rat(0, 1)),
            vec3(rat(1, 1), rat(1, 1), rat(1, 1)),
            vec3(rat(1, 1), rat(1, 1), rat(1, 1)).neg(),
            false,
        );
        applies_case(
            vec3(rat(0, 1), rat(0, 1), rat(0, 1)),
            vec3(rat(1, 1), rat(1, 1), rat(1, 1)),
            vec3(rat(1, 1), rat(0, 1), rat(0, 1)),
            true,
        );
        applies_case(
            vec3(rat(0, 1), rat(0, 1), rat(0, 1)),
            vec3(rat(1, 1), rat(0, 1), rat(0, 1)),
            vec3(rat(1, 1), rat(1, 1), rat(1, 1)),
            true,
        );
        applies_case(
            vec3(rat(0, 1), rat(0, 1), rat(0, 1)),
            vec3(rat(1, 1), rat(1, 1), rat(1, 1)).neg(),
            vec3(rat(1, 1), rat(0, 1), rat(0, 1)).neg(),
            true,
        );
        applies_case(
            vec3(rat(0, 1), rat(0, 1), rat(0, 1)),
            vec3(rat(1, 1), rat(0, 1), rat(0, 1)).neg(),
            vec3(rat(1, 1), rat(1, 1), rat(1, 1)).neg(),
            true,
        );
        applies_case(
            vec3(rat(0, 1), rat(0, 1), rat(0, 1)),
            vec3(rat(1, 1), rat(0, 1), rat(0, 1)).neg(),
            vec3(rat(1, 1), rat(1, 1), rat(1, 1)),
            false,
        );
        applies_case(
            vec3(rat(0, 1), rat(0, 1), rat(0, 1)),
            vec3(rat(1, 1), rat(0, 1), rat(0, 1)),
            vec3(rat(1, 1), rat(1, 1), rat(1, 1)).neg(),
            false,
        );
        applies_case(
            vec3(rat(0, 1), rat(0, 1), rat(0, 1)),
            vec3(rat(0, 1), rat(0, 1), rat(0, 1)),
            vec3(rat(1, 1), rat(1, 1), rat(1, 1)).neg(),
            false,
        );
        applies_case(
            vec3(rat(0, 1), rat(0, 1), rat(0, 1)),
            vec3(rat(0, 1), rat(0, 1), rat(0, 1)),
            vec3(rat(1, 1), rat(1, 1), rat(1, 1)),
            false,
        );
    }

fn forcedir_case(
    loc0: Vec3,
    force0: Vec3,
    loc1: Vec3,
    expected_result: Vec3,
) {
    let e0 = Entity::new(
        "test entity 0",
        State::new(
            loc0,
            vec3(rat(0, 1), rat(0, 1), rat(0, 1)),
            force0,
            rat(0, 1),
            Shape::Sphere(Sphere {
                radius: rat(2, 1),
            }),
        ),
    );
    let e1 = Entity::new(
        "test entity 1",
        State::new(
            loc1,
            vec3(rat(0, 1), rat(0, 1), rat(0, 1)),
            vec3(rat(0, 1), rat(0, 1), rat(0, 1)),
            rat(0, 1),
            Shape::Sphere(Sphere {
                radius: rat(2, 1),
            }),
        ),
    );
    let res = get_force_in_direction(&e0, &e1);
    let diff = res.sub(&expected_result);
    assert!(diff.norm2().is_zero());
}

#[test]
fn test_get_force_in_direction() {

        forcedir_case(
            vec3(rat(0, 1), rat(0, 1), rat(0, 1)),
            vec3(rat(0, 1), rat(0, 1), rat(0, 1)),
            vec3(rat(1, 1), rat(1, 1), rat(1, 1)),
            vec3(rat(0, 1), rat(0, 1), rat(0, 1)),
        );
        forcedir_case(
            vec3(rat(0, 1), rat(0, 1), rat(0, 1)),
            vec3(rat(1, 1), rat(1, 1), rat(1, 1)),
            vec3(rat(1, 1), rat(1, 1), rat(1, 1)),
            vec3(rat(1, 1), rat(1, 1), rat(1, 1)),
        );
        forcedir_case(
            vec3(rat(0, 1), rat(0, 1), rat(0, 1)),
            vec3(rat(0, 1), rat(0, 1), rat(0, 1)),
            vec3(rat(1, 1), rat(1, 1), rat(1, 1)).neg(),
            vec3(rat(0, 1), rat(0, 1), rat(0, 1)),
        );
        forcedir_case(
            vec3(rat(0, 1), rat(0, 1), rat(0, 1)),
            vec3(rat(1, 1), rat(1, 1), rat(1, 1)).neg(),
            vec3(rat(1, 1), rat(1, 1), rat(1, 1)).neg(),
            vec3(rat(1, 1), rat(1, 1), rat(1, 1)).neg(),
        );
        forcedir_case(
            vec3(rat(0, 1), rat(0, 1), rat(0, 1)),
            vec3(rat(1, 1), rat(1, 1), rat(1, 1)),
            vec3(rat(1, 1), rat(0, 1), rat(0, 1)),
            vec3(rat(1, 1), rat(0, 1), rat(0, 1)),
        );
        forcedir_case(
            vec3(rat(0, 1), rat(0, 1), rat(0, 1)),
            vec3(rat(1, 1), rat(1, 1), rat(1, 1)),
            vec3(rat(0, 1), rat(1, 1), rat(0, 1)),
            vec3(rat(0, 1), rat(1, 1), rat(0, 1)),
        );
        forcedir_case(
            vec3(rat(0, 1), rat(0, 1), rat(0, 1)),
            vec3(rat(1, 1), rat(1, 1), rat(1, 1)),
            vec3(rat(0, 1), rat(0, 1), rat(1, 1)),
            vec3(rat(0, 1), rat(0, 1), rat(1, 1)),
        );
        forcedir_case(
            vec3(rat(0, 1), rat(0, 1), rat(0, 1)),
            vec3(rat(1, 1), rat(1, 1), rat(1, 1)),
            vec3(rat(0, 1), rat(1, 1), rat(1, 1)),
            vec3(rat(0, 1), rat(1, 1), rat(1, 1)),
        );
        forcedir_case(
            vec3(rat(0, 1), rat(0, 1), rat(0, 1)),
            vec3(rat(1, 1), rat(1, 1), rat(1, 1)),
            vec3(rat(5, 2), rat(5, 2), rat(5, 2)),
            vec3(rat(0, 1), rat(0, 1), rat(0, 1)),
        );
        forcedir_case(
            vec3(rat(0, 1), rat(0, 1), rat(0, 1)),
            vec3(rat(1, 1), rat(1, 1), rat(1, 1)),
            vec3(rat(3, 2), rat(3, 2), rat(3, 2)),
            vec3(rat(1, 1), rat(1, 1), rat(1, 1)),
        );
        forcedir_case(
            vec3(rat(0, 1), rat(0, 1), rat(0, 1)),
            vec3(rat(1, 1), rat(1, 1), rat(1, 1)),
            vec3(rat(0, 1), rat(2, 1), rat(2, 1)),
            vec3(rat(0, 1), rat(1, 1), rat(1, 1)),
        );
        forcedir_case(
            vec3(rat(0, 1), rat(0, 1), rat(0, 1)),
            vec3(rat(1, 1), rat(1, 1), rat(1, 1)),
            vec3(rat(10, 1), rat(2, 1), rat(2, 1)),
            vec3(rat(0, 1), rat(0, 1), rat(0, 1)),
        );
        forcedir_case(
            vec3(rat(0, 1), rat(0, 1), rat(0, 1)),
            vec3(rat(1, 1), rat(1, 1), rat(1, 1)).neg(),
            vec3(rat(0, 1), rat(2, 1), rat(2, 1)).neg(),
            vec3(rat(0, 1), rat(1, 1), rat(1, 1)).neg(),
        );
        forcedir_case(
            vec3(rat(0, 1), rat(0, 1), rat(0, 1)),
            vec3(rat(1, 1), rat(1, 1), rat(1, 1)).neg(),
            vec3(rat(0, 1), rat(2, 1), rat(2, 1)),
            vec3(rat(0, 1), rat(0, 1), rat(0, 1)),
        );
        forcedir_case(
            vec3(rat(0, 1), rat(0, 1), rat(0, 1)),
            vec3(rat(1, 1), rat(1, 1), rat(1, 1)).neg(),
            vec3(rat(0, 1), rat(-2, 1), rat(2, 1)),
            vec3(rat(0, 1), rat(0, 1), rat(0, 1)),
        );
        forcedir_case(
            vec3(rat(0, 1), rat(0, 1), rat(0, 1)),
            vec3(rat(-1, 1), rat(1, 1), rat(1, 1)),
            vec3(rat(0, 1), rat(3, 2), rat(3, 2)),
            vec3(rat(0, 1), rat(1, 1), rat(1, 1)),
        );
        forcedir_case(
            vec3(rat(0, 1), rat(0, 1), rat(0, 1)),
            vec3(rat(1, 1), rat(1, 1), rat(1, 1)),
            vec3(rat(1, 1), rat(0, 1), rat(0, 1)).neg(),
            vec3(rat(0, 1), rat(0, 1), rat(0, 1)),
        );
        let loc0 = vec3(rat(0, 1), rat(0, 1), rat(0, 1));
        let force0 = vec3(rat(1, 1), rat(1, 1), rat(1, 1));
        let loc1 = vec3(rat(0, 1), rat(1, 1), rat(2, 1));
        let toward = loc1.sub(&loc0);
        let expected_force = toward.scale(&force0.dot(&toward).div(&toward.norm2()));
        forcedir_case(loc0, force0, loc1, expected_force);
        let loc0 = vec3(rat(0, 1), rat(0, 1), rat(0, 1));
        let force0 = vec3(rat(1, 1), rat(1, 1), rat(1, 1)).neg();
        let loc1 = vec3(rat(0, 1), rat(1, 1), rat(2, 1)).neg();
        let toward = loc1.sub(&loc0);
        let expected_force = toward.scale(&force0.dot(&toward).div(&toward.norm2()));
        forcedir_case(loc0, force0, loc1, expected_force);
        let loc0 = vec3(rat(0, 1), rat(0, 1), rat(0, 1));
        let force0 = vec3(rat(-1, 1), rat(1, 1), rat(-2, 1)).neg();
        let loc1 = vec3(rat(-1, 1), rat(23, 10), rat(-1, 1)).neg();
        let toward = loc1.sub(&loc0);
        let expected_force = toward.scale(&force0.dot(&toward).div(&toward.norm2()));
        forcedir_case(loc0, force0, loc1, expected_force);
    }

fn collision_case(
    loc0: Vec3,
    vel0: Vec3,
    mass0: Rat,
    loc1: Vec3,
    vel1: Vec3,
    mass1: Rat,
    expected_result: Vec3,
) {
    let e0 = Entity::new(
        "test entity 0",
        State::new(
            loc0,
            vel0,
            vec3(rat(0, 1), rat(0, 1), rat(0, 1)),
            mass0,
            Shape::Sphere(Sphere {
                radius: rat(1, 1),
            }),
        ),
    );
    let e1 = Entity::new(
        "test entity 1",
        State::new(
            loc1,
            vel1,
            vec3(rat(0, 1), rat(0, 1), rat(0, 1)),
            mass1,
            Shape::Sphere(Sphere {
                radius: rat(1, 1),
            }),
        ),
    );
    let res = get_velocity_diff_after_collision(&e0, &e1);
    let diff = res.sub(&expected_result);
    assert!(diff.norm2().is_zero());
}

#[test]
fn test_get_velocity_diff_after_collision() {

        collision_case(
            vec3(rat(0, 1), rat(0, 1), rat(0, 1)),
            vec3(rat(0, 1), rat(0, 1), rat(0, 1)),
            rat(10, 1),
            vec3(rat(1, 1), rat(1, 1), rat(1, 1)),
            vec3(rat(0, 1), rat(0, 1), rat(0, 1)),
            rat(10, 1),
            vec3(rat(0, 1), rat(0, 1), rat(0, 1)),
        );
        collision_case(
            vec3(rat(0, 1), rat(0, 1), rat(0, 1)),
            vec3(rat(1, 1), rat(1, 1), rat(1, 1)),
            rat(10, 1),
            vec3(rat(10, 1), rat(10, 1), rat(10, 1)),
            vec3(rat(0, 1), rat(0, 1), rat(0, 1)),
            rat(10, 1),
            vec3(rat(0, 1), rat(0, 1), rat(0, 1)),
        );
        collision_case(
            vec3(rat(0, 1), rat(0, 1), rat(0, 1)),
            vec3(rat(1, 1), rat(1, 1), rat(1, 1)),
            rat(10, 1),
            vec3(rat(1, 1), rat(1, 1), rat(1, 1)),
            vec3(rat(0, 1), rat(0, 1), rat(0, 1)),
            rat(10, 1),
            vec3(rat(1, 1), rat(1, 1), rat(1, 1)),
        );
        collision_case(
            vec3(rat(1, 1), rat(1, 1), rat(1, 1)),
            vec3(rat(0, 1), rat(0, 1), rat(0, 1)),
            rat(10, 1),
            vec3(rat(0, 1), rat(0, 1), rat(0, 1)),
            vec3(rat(1, 1), rat(1, 1), rat(1, 1)),
            rat(10, 1),
            vec3(rat(-1, 1), rat(-1, 1), rat(-1, 1)),
        );
        collision_case(
            vec3(rat(0, 1), rat(0, 1), rat(0, 1)),
            vec3(rat(1, 1), rat(1, 1), rat(1, 1)),
            rat(10, 1),
            vec3(rat(1, 1), rat(1, 1), rat(1, 1)),
            vec3(rat(-1, 1), rat(-1, 1), rat(-1, 1)),
            rat(10, 1),
            vec3(rat(2, 1), rat(2, 1), rat(2, 1)),
        );
        collision_case(
            vec3(rat(1, 1), rat(1, 1), rat(1, 1)),
            vec3(rat(-1, 1), rat(-1, 1), rat(-1, 1)),
            rat(10, 1),
            vec3(rat(0, 1), rat(0, 1), rat(0, 1)),
            vec3(rat(1, 1), rat(1, 1), rat(1, 1)),
            rat(10, 1),
            vec3(rat(-2, 1), rat(-2, 1), rat(-2, 1)),
        );
        collision_case(
            vec3(rat(0, 1), rat(0, 1), rat(0, 1)),
            vec3(rat(2, 1), rat(2, 1), rat(2, 1)),
            rat(10, 1),
            vec3(rat(1, 1), rat(1, 1), rat(1, 1)),
            vec3(rat(-1, 1), rat(-1, 1), rat(-1, 1)),
            rat(10, 1),
            vec3(rat(3, 1), rat(3, 1), rat(3, 1)),
        );
        collision_case(
            vec3(rat(1, 1), rat(1, 1), rat(1, 1)),
            vec3(rat(-1, 1), rat(-1, 1), rat(-1, 1)),
            rat(10, 1),
            vec3(rat(0, 1), rat(0, 1), rat(0, 1)),
            vec3(rat(2, 1), rat(2, 1), rat(2, 1)),
            rat(10, 1),
            vec3(rat(-3, 1), rat(-3, 1), rat(-3, 1)),
        );
        collision_case(
            vec3(rat(0, 1), rat(0, 1), rat(0, 1)),
            vec3(rat(1, 1), rat(0, 1), rat(0, 1)),
            rat(30, 1),
            vec3(rat(1, 1), rat(0, 1), rat(0, 1)),
            vec3(rat(0, 1), rat(0, 1), rat(0, 1)),
            rat(10, 1),
            vec3(rat(3, 2), rat(0, 1), rat(0, 1)),
        );
        collision_case(
            vec3(rat(1, 1), rat(0, 1), rat(0, 1)),
            vec3(rat(0, 1), rat(0, 1), rat(0, 1)),
            rat(10, 1),
            vec3(rat(0, 1), rat(0, 1), rat(0, 1)),
            vec3(rat(1, 1), rat(0, 1), rat(0, 1)),
            rat(30, 1),
            vec3(rat(-1, 2), rat(0, 1), rat(0, 1)),
        );
    }

#[test]
fn test_get_normal_force() {}

#[test]
fn test_get_gravity_pull() {}

