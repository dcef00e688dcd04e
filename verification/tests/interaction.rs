use physical_world::contact_forces::ContactForces;
use physical_world::elastic_collision::ElasticCollision;
use physical_world::entity::Entity;
use physical_world::propagation::Interaction;
use physical_world::rational::Rat;
use physical_world::shape::{Shape, Sphere};
use physical_world::state::State;
use physical_world::state_influence::StateInfluence;
use physical_world::vector::Vec3;

fn rat(n: i64, d: i64) -> Rat {
    Rat::new(n, d)
}

fn vec3(x: Rat, y: Rat, z: Rat) -> Vec3 {
    Vec3::new(x, y, z)
}

#[test]
fn force_transmission_0() {
        let world = vec![
            Entity::new(
                "e0",
                State::new(
                    vec3(rat(0, 1), rat(0, 1), rat(0, 1)),
                    vec3(rat(10, 1), rat(0, 1), rat(0, 1)),
                    vec3(rat(10, 1), rat(0, 1), rat(0, 1)),
                    rat(10, 1),
                    Shape::Sphere(Sphere {
                        radius: rat(1, 1),
                    }),
                ),
            ),
            Entity::new(
                "e1",
                State::new(
                    vec3(rat(2, 1), rat(0, 1), rat(0, 1)),
                    vec3(rat(0, 1), rat(0, 1), rat(0, 1)),
                    vec3(rat(0, 1), rat(0, 1), rat(0, 1)),
                    rat(10, 1),
                    Shape::Sphere(Sphere {
                        radius: rat(1, 1),
                    }),
                ),
            ),
            Entity::new(
                "e2",
                State::new(
                    vec3(rat(4, 1), rat(0, 1), rat(0, 1)),
                    vec3(rat(0, 1), rat(0, 1), rat(0, 1)),
                    vec3(rat(0, 1), rat(0, 1), rat(0, 1)),
                    rat(10, 1),
                    Shape::Sphere(Sphere {
                        radius: rat(1, 1),
                    }),
                ),
            ),
        ];
        let interaction = Interaction::ContactForces(ContactForces);
        let mut expected_influences = vec![
            StateInfluence::force_influence(
                "e0",
                "e0",
                "e0",
                interaction.get_identifier(),
                vec3(rat(-10, 1), rat(0, 1), rat(0, 1)),
            ),
            StateInfluence::force_influence(
                "e0",
                "e2",
                "e2",
                interaction.get_identifier(),
                vec3(rat(10, 1), rat(0, 1), rat(0, 1)),
            ),
        ];
        let res_influences = interaction.get_influences(&world, &rat(1, 1)).unwrap();
        for res_influence in &res_influences {
            match expected_influences
                .iter()
                .position(|inf| res_influence == inf)
            {
                Some(index) => {
                    expected_influences.remove(index);
                }
                None => panic!("not in expected influences"),
            };
        }
        assert!(expected_influences.is_empty());
    }

#[test]
fn force_transmission_1() {
        let world = vec![
            Entity::new(
                "e0",
                State::new(
                    vec3(rat(0, 1), rat(0, 1), rat(0, 1)),
                    vec3(rat(10, 1), rat(0, 1), rat(0, 1)),
                    vec3(rat(10, 1), rat(0, 1), rat(0, 1)),
                    rat(10, 1),
                    Shape::Sphere(Sphere {
                        radius: rat(1, 1),
                    }),
                ),
            ),
            Entity::new(
                "e1",
                State::new(
                    vec3(rat(2, 1), rat(0, 1), rat(0, 1)),
                    vec3(rat(0, 1), rat(0, 1), rat(0, 1)),
                    vec3(rat(0, 1), rat(0, 1), rat(0, 1)),
                    rat(10, 1),
                    Shape::Sphere(Sphere {
                        radius: rat(1, 1),
                    }),
                ),
            ),
            Entity::new(
                "e2",
                State::new(
                    vec3(rat(4, 1), rat(0, 1), rat(0, 1)),
                    vec3(rat(-10, 1), rat(0, 1), rat(0, 1)),
                    vec3(rat(-10, 1), rat(0, 1), rat(0, 1)),
                    rat(10, 1),
                    Shape::Sphere(Sphere {
                        radius: rat(1, 1),
                    }),
                ),
            ),
        ];
        let interaction = Interaction::ContactForces(ContactForces);
        let mut expected_influences = vec![
            StateInfluence::force_influence(
                "e0",
                "e0",
                "e0",
                interaction.get_identifier(),
                vec3(rat(-10, 1), rat(0, 1), rat(0, 1)),
            ),
            StateInfluence::force_influence(
                "e0",
                "e2",
                "e2",
                interaction.get_identifier(),
                vec3(rat(10, 1), rat(0, 1), rat(0, 1)),
            ),
            StateInfluence::force_influence(
                "e2",
                "e2",
                "e2",
                interaction.get_identifier(),
                vec3(rat(10, 1), rat(0, 1), rat(0, 1)),
            ),
            StateInfluence::force_influence(
                "e2",
                "e0",
                "e0",
                interaction.get_identifier(),
                vec3(rat(-10, 1), rat(0, 1), rat(0, 1)),
            ),
        ];
        let res_influences = interaction.get_influences(&world, &rat(1, 1)).unwrap();
        for res_influence in &res_influences {
            match expected_influences
                .iter()
                .position(|inf| res_influence == inf)
            {
                Some(index) => {
                    expected_influences.remove(index);
                }
                None => panic!("not in expected influences"),
            };
        }
        assert!(expected_influences.is_empty());
    }

#[test]
fn force_transmission_2() {
        let world = vec![
            Entity::new(
                "e0",
                State::new(
                    vec3(rat(0, 1), rat(0, 1), rat(0, 1)),
                    vec3(rat(0, 1), rat(0, 1), rat(0, 1)),
                    vec3(rat(10, 1), rat(0, 1), rat(0, 1)),
                    rat(10, 1),
                    Shape::Sphere(Sphere {
                        radius: rat(1, 1),
                    }),
                ),
            ),
            Entity::new(
                "e1",
                State::new(
                    vec3(rat(2, 1), rat(0, 1), rat(0, 1)),
                    vec3(rat(0, 1), rat(0, 1), rat(0, 1)),
                    vec3(rat(0, 1), rat(0, 1), rat(0, 1)),
                    rat(10, 1),
                    Shape::Sphere(Sphere {
                        radius: rat(1, 1),
                    }),
                ),
            ),
            Entity::new(
                "e2",
                State::new(
                    vec3(rat(4, 1), rat(0, 1), rat(0, 1)),
                    vec3(rat(0, 1), rat(0, 1), rat(0, 1)),
                    vec3(rat(-10, 1), rat(0, 1), rat(0, 1)),
                    rat(10, 1),
                    Shape::Sphere(Sphere {
                        radius: rat(1, 1),
                    }),
                ),
            ),
        ];
        let interaction = Interaction::ContactForces(ContactForces);
        let mut expected_influences = vec![
            StateInfluence::force_influence(
                "e0",
                "e0",
                "e0",
                interaction.get_identifier(),
                vec3(rat(-10, 1), rat(0, 1), rat(0, 1)),
            ),
            StateInfluence::force_influence(
                "e0",
                "e2",
                "e2",
                interaction.get_identifier(),
                vec3(rat(10, 1), rat(0, 1), rat(0, 1)),
            ),
            StateInfluence::force_influence(
                "e2",
                "e2",
                "e2",
                interaction.get_identifier(),
                vec3(rat(10, 1), rat(0, 1), rat(0, 1)),
            ),
            StateInfluence::force_influence(
                "e2",
                "e0",
                "e0",
                interaction.get_identifier(),
                vec3(rat(-10, 1), rat(0, 1), rat(0, 1)),
            ),
        ];
        let res_influences = interaction.get_influences(&world, &rat(1, 1)).unwrap();
        for res_influence in &res_influences {
            match expected_influences
                .iter()
                .position(|inf| res_influence == inf)
            {
                Some(index) => {
                    expected_influences.remove(index);
                }
                None => panic!("not in expected influences"),
            };
        }
        assert!(expected_influences.is_empty());
    }

#[test]
fn momentum_transmission_0() {
        let world = vec![
            Entity::new(
                "e0",
                State::new(
                    vec3(rat(0, 1), rat(0, 1), rat(0, 1)),
                    vec3(rat(10, 1), rat(0, 1), rat(0, 1)),
                    vec3(rat(10, 1), rat(0, 1), rat(0, 1)),
                    rat(10, 1),
                    Shape::Sphere(Sphere {
                        radius: rat(1, 1),
                    }),
                ),
            ),
            Entity::new(
                "e1",
                State::new(
                    vec3(rat(2, 1), rat(0, 1), rat(0, 1)),
                    vec3(rat(0, 1), rat(0, 1), rat(0, 1)),
                    vec3(rat(0, 1), rat(0, 1), rat(0, 1)),
                    rat(10, 1),
                    Shape::Sphere(Sphere {
                        radius: rat(1, 1),
                    }),
                ),
            ),
            Entity::new(
                "e2",
                State::new(
                    vec3(rat(4, 1), rat(0, 1), rat(0, 1)),
                    vec3(rat(0, 1), rat(0, 1), rat(0, 1)),
                    vec3(rat(0, 1), rat(0, 1), rat(0, 1)),
                    rat(10, 1),
                    Shape::Sphere(Sphere {
                        radius: rat(1, 1),
                    }),
                ),
            ),
        ];
        let interaction = Interaction::ElasticCollision(ElasticCollision);
        let mut expected_influences = vec![
            StateInfluence::force_influence(
                "e0",
                "e0",
                "e0",
                interaction.get_identifier(),
                vec3(rat(-100, 1), rat(0, 1), rat(0, 1)),
            ),
            StateInfluence::force_influence(
                "e0",
                "e2",
                "e2",
                interaction.get_identifier(),
                vec3(rat(100, 1), rat(0, 1), rat(0, 1)),
            ),
        ];
        let res_influences = interaction.get_influences(&world, &rat(1, 1)).unwrap();
        for res_influence in &res_influences {
            match expected_influences
                .iter()
                .position(|inf| res_influence == inf)
            {
                Some(index) => {
                    expected_influences.remove(index);
                }
                None => panic!("not in expected influences"),
            };
        }
        assert!(expected_influences.is_empty());
    }

#[test]
fn momentum_transmission_1() {
        let world = vec![
            Entity::new(
                "e0",
                State::new(
                    vec3(rat(0, 1), rat(0, 1), rat(0, 1)),
                    vec3(rat(10, 1), rat(0, 1), rat(0, 1)),
                    vec3(rat(10, 1), rat(0, 1), rat(0, 1)),
                    rat(10, 1),
                    Shape::Sphere(Sphere {
                        radius: rat(1, 1),
                    }),
                ),
            ),
            Entity::new(
                "e1",
                State::new(
                    vec3(rat(2, 1), rat(0, 1), rat(0, 1)),
                    vec3(rat(0, 1), rat(0, 1), rat(0, 1)),
                    vec3(rat(0, 1), rat(0, 1), rat(0, 1)),
                    rat(10, 1),
                    Shape::Sphere(Sphere {
                        radius: rat(1, 1),
                    }),
                ),
            ),
            Entity::new(
                "e2",
                State::new(
                    vec3(rat(4, 1), rat(0, 1), rat(0, 1)),
                    vec3(rat(-10, 1), rat(0, 1), rat(0, 1)),
                    vec3(rat(-10, 1), rat(0, 1), rat(0, 1)),
                    rat(10, 1),
                    Shape::Sphere(Sphere {
                        radius: rat(1, 1),
                    }),
                ),
            ),
        ];
        let interaction = Interaction::ElasticCollision(ElasticCollision);
        let mut expected_influences = vec![
            StateInfluence::force_influence(
                "e0",
                "e2",
                "e2",
                interaction.get_identifier(),
                vec3(rat(100, 1), rat(0, 1), rat(0, 1)),
            ),
            StateInfluence::force_influence(
                "e0",
                "e0",
                "e0",
                interaction.get_identifier(),
                vec3(rat(-100, 1), rat(0, 1), rat(0, 1)),
            ),
            StateInfluence::force_influence(
                "e2",
                "e0",
                "e0",
                interaction.get_identifier(),
                vec3(rat(-100, 1), rat(0, 1), rat(0, 1)),
            ),
            StateInfluence::force_influence(
                "e2",
                "e2",
                "e2",
                interaction.get_identifier(),
                vec3(rat(100, 1), rat(0, 1), rat(0, 1)),
            ),
        ];
        let res_influences = interaction.get_influences(&world, &rat(1, 1)).unwrap();
        for res_influence in &res_influences {
            match expected_influences
                .iter()
                .position(|inf| res_influence == inf)
            {
                Some(index) => {
                    expected_influences.remove(index);
                }
                None => panic!("not in expected influences"),
            };
        }
        assert!(expected_influences.is_empty());
    }

#[test]
fn momentum_transmission_2() {
        let world = vec![
            Entity::new(
                "e0",
                State::new(
                    vec3(rat(0, 1), rat(0, 1), rat(0, 1)),
                    vec3(rat(10, 1), rat(0, 1), rat(0, 1)),
                    vec3(rat(10, 1), rat(0, 1), rat(0, 1)),
                    rat(10, 1),
                    Shape::Sphere(Sphere {
                        radius: rat(1, 1),
                    }),
                ),
            ),
            Entity::new(
                "e1",
                State::new(
                    vec3(rat(2, 1), rat(0, 1), rat(0, 1)),
                    vec3(rat(-10, 1), rat(0, 1), rat(0, 1)),
                    vec3(rat(-10, 1), rat(0, 1), rat(0, 1)),
                    rat(10, 1),
                    Shape::Sphere(Sphere {
                        radius: rat(1, 1),
                    }),
                ),
            ),
        ];
        let interaction = Interaction::ElasticCollision(ElasticCollision);
        let mut expected_influences = vec![
            StateInfluence::force_influence(
                "e0",
                "e1",
                "e1",
                interaction.get_identifier(),
                vec3(rat(100, 1), rat(0, 1), rat(0, 1)),
            ),
            StateInfluence::force_influence(
                "e0",
                "e0",
                "e0",
                interaction.get_identifier(),
                vec3(rat(-100, 1), rat(0, 1), rat(0, 1)),
            ),
            StateInfluence::force_influence(
                "e1",
                "e0",
                "e0",
                interaction.get_identifier(),
                vec3(rat(-100, 1), rat(0, 1), rat(0, 1)),
            ),
            StateInfluence::force_influence(
                "e1",
                "e1",
                "e1",
                interaction.get_identifier(),
                vec3(rat(100, 1), rat(0, 1), rat(0, 1)),
            ),
        ];
        let res_influences = interaction.get_influences(&world, &rat(1, 1)).unwrap();
        for res_influence in &res_influences {
            match expected_influences
                .iter()
                .position(|inf| res_influence == inf)
            {
                Some(index) => {
                    expected_influences.remove(index);
                }
                None => panic!("not in expected influences"),
            };
        }
        assert!(expected_influences.is_empty());
    }

#[test]
fn momentum_transmission_3() {
        let world = vec![
            Entity::new(
                "e0",
                State::new(
                    vec3(rat(0, 1), rat(0, 1), rat(0, 1)),
                    vec3(rat(10, 1), rat(0, 1), rat(0, 1)),
                    vec3(rat(0, 1), rat(0, 1), rat(0, 1)),
                    rat(10, 1),
                    Shape::Sphere(Sphere {
                        radius: rat(1, 1),
                    }),
                ),
            ),
            Entity::new(
                "e1",
                State::new(
                    vec3(rat(2, 1), rat(0, 1), rat(0, 1)),
                    vec3(rat(5, 1), rat(0, 1), rat(0, 1)),
                    vec3(rat(0, 1), rat(0, 1), rat(0, 1)),
                    rat(10, 1),
                    Shape::Sphere(Sphere {
                        radius: rat(1, 1),
                    }),
                ),
            ),
        ];
        let interaction = Interaction::ElasticCollision(ElasticCollision);
        let mut expected_influences = vec![
            StateInfluence::force_influence(
                "e0",
                "e1",
                "e1",
                interaction.get_identifier(),
                vec3(rat(50, 1), rat(0, 1), rat(0, 1)),
            ),
            StateInfluence::force_influence(
                "e0",
                "e0",
                "e0",
                interaction.get_identifier(),
                vec3(rat(-50, 1), rat(0, 1), rat(0, 1)),
            ),
        ];
        let res_influences = interaction.get_influences(&world, &rat(1, 1)).unwrap();
        for res_influence in &res_influences {
            match expected_influences
                .iter()
                .position(|inf| res_influence == inf)
            {
                Some(index) => {
                    expected_influences.remove(index);
                }
                None => panic!("not in expected influences"),
            };
        }
        assert!(expected_influences.is_empty());
    }

#[test]
fn force_momentum_transmission_0() {
        let world = vec![
            Entity::new(
                "e0",
                State::new(
                    vec3(rat(0, 1), rat(0, 1), rat(0, 1)),
                    vec3(rat(10, 1), rat(0, 1), rat(0, 1)),
                    vec3(rat(10, 1), rat(0, 1), rat(0, 1)),
                    rat(10, 1),
                    Shape::Sphere(Sphere {
                        radius: rat(1, 1),
                    }),
                ),
            ),
            Entity::new(
                "e1",
                State::new(
                    vec3(rat(2, 1), rat(0, 1), rat(0, 1)),
                    vec3(rat(0, 1), rat(0, 1), rat(0, 1)),
                    vec3(rat(0, 1), rat(0, 1), rat(0, 1)),
                    rat(10, 1),
                    Shape::Sphere(Sphere {
                        radius: rat(1, 1),
                    }),
                ),
            ),
            Entity::new(
                "e2",
                State::new(
                    vec3(rat(4, 1), rat(0, 1), rat(0, 1)),
                    vec3(rat(0, 1), rat(0, 1), rat(0, 1)),
                    vec3(rat(0, 1), rat(0, 1), rat(0, 1)),
                    rat(10, 1),
                    Shape::Sphere(Sphere {
                        radius: rat(1, 1),
                    }),
                ),
            ),
        ];
        let ec = Interaction::ElasticCollision(ElasticCollision);
        let cf = Interaction::ContactForces(ContactForces);
        let mut expected_influences = vec![
            StateInfluence::force_influence(
                "e0",
                "e0",
                "e0",
                ec.get_identifier(),
                vec3(rat(-100, 1), rat(0, 1), rat(0, 1)),
            ),
            StateInfluence::force_influence(
                "e0",
                "e0",
                "e0",
                cf.get_identifier(),
                vec3(rat(-10, 1), rat(0, 1), rat(0, 1)),
            ),
            StateInfluence::force_influence(
                "e0",
                "e2",
                "e2",
                ec.get_identifier(),
                vec3(rat(100, 1), rat(0, 1), rat(0, 1)),
            ),

            StateInfluence::force_influence(
                "e0",
                "e2",
                "e2",
                cf.get_identifier(),
                vec3(rat(10, 1), rat(0, 1), rat(0, 1)),
            ),
        ];
        let mut res_influences = cf.get_influences(&world, &rat(1, 1)).unwrap();
        res_influences.extend(ec.get_influences(&world, &rat(1, 1)).unwrap());
        for res_influence in &res_influences {
            match expected_influences
                .iter()
                .position(|inf| res_influence == inf)
            {
                Some(index) => {
                    expected_influences.remove(index);
                }
                None => panic!("not in expected influences"),
            };
        }
        assert!(expected_influences.is_empty());
    }

#[test]
fn force_momentum_transmission_1() {
        let world = vec![
            Entity::new(
                "e0",
                State::new(
                    vec3(rat(0, 1), rat(0, 1), rat(0, 1)),
                    vec3(rat(10, 1), rat(0, 1), rat(0, 1)),
                    vec3(rat(10, 1), rat(0, 1), rat(0, 1)),
                    rat(10, 1),
                    Shape::Sphere(Sphere {
                        radius: rat(1, 1),
                    }),
                ),
            ),
            Entity::new(
                "e1",
                State::new(
                    vec3(rat(2, 1), rat(0, 1), rat(0, 1)),
                    vec3(rat(0, 1), rat(0, 1), rat(0, 1)),
                    vec3(rat(0, 1), rat(0, 1), rat(0, 1)),
                    rat(10, 1),
                    Shape::Sphere(Sphere {
                        radius: rat(1, 1),
                    }),
                ),
            ),
        ];
        let ec = Interaction::ElasticCollision(ElasticCollision);
        let cf = Interaction::ContactForces(ContactForces);
        let mut expected_influences = vec![
            StateInfluence::force_influence(
                "e0",
                "e0",
                "e0",
                ec.get_identifier(),
                vec3(rat(-100, 1), rat(0, 1), rat(0, 1)),
            ),
            StateInfluence::force_influence(
                "e0",
                "e1",
                "e1",
                ec.get_identifier(),
                vec3(rat(100, 1), rat(0, 1), rat(0, 1)),
            ),
            StateInfluence::force_influence(
                "e0",
                "e0",
                "e0",
                cf.get_identifier(),
                vec3(rat(-10, 1), rat(0, 1), rat(0, 1)),
            ),
            StateInfluence::force_influence(
                "e0",
                "e1",
                "e1",
                cf.get_identifier(),
                vec3(rat(10, 1), rat(0, 1), rat(0, 1)),
            ),
        ];
        let mut res_influences = cf.get_influences(&world, &rat(1, 1)).unwrap();
        res_influences.extend(ec.get_influences(&world, &rat(1, 1)).unwrap());
        for res_influence in &res_influences {
            match expected_influences
                .iter()
                .position(|inf| res_influence == inf)
            {
                Some(index) => {
                    expected_influences.remove(index);
                }
                None => panic!("not in expected influences"),
            };
        }
        assert!(expected_influences.is_empty());
    }

#[test]
fn force_momentum_transmission_2() {
        let world = vec![
            Entity::new(
                "e0",
                State::new(
                    vec3(rat(0, 1), rat(0, 1), rat(0, 1)),
                    vec3(rat(10, 1), rat(0, 1), rat(0, 1)),
                    vec3(rat(10, 1), rat(0, 1), rat(0, 1)),
                    rat(10, 1),
                    Shape::Sphere(Sphere {
                        radius: rat(1, 1),
                    }),
                ),
            ),
            Entity::new(
                "e1",
                State::new(
                    vec3(rat(2, 1), rat(0, 1), rat(0, 1)),
                    vec3(rat(-10, 1), rat(0, 1), rat(0, 1)),
                    vec3(rat(-10, 1), rat(0, 1), rat(0, 1)),
                    rat(10, 1),
                    Shape::Sphere(Sphere {
                        radius: rat(1, 1),
                    }),
                ),
            ),
        ];
        let ec = Interaction::ElasticCollision(ElasticCollision);
        let cf = Interaction::ContactForces(ContactForces);
        let mut expected_influences = vec![
            StateInfluence::force_influence(
                "e0",
                "e0",
                "e0",
                ec.get_identifier(),
                vec3(rat(-100, 1), rat(0, 1), rat(0, 1)),
            ),
            StateInfluence::force_influence(
                "e0",
                "e1",
                "e1",
                ec.get_identifier(),
                vec3(rat(100, 1), rat(0, 1), rat(0, 1)),
            ),
            StateInfluence::force_influence(
                "e0",
                "e0",
                "e0",
                cf.get_identifier(),
                vec3(rat(-10, 1), rat(0, 1), rat(0, 1)),
            ),
            StateInfluence::force_influence(
                "e0",
                "e1",
                "e1",
                cf.get_identifier(),
                vec3(rat(10, 1), rat(0, 1), rat(0, 1)),
            ),
            StateInfluence::force_influence(
                "e1",
                "e1",
                "e1",
                ec.get_identifier(),
                vec3(rat(100, 1), rat(0, 1), rat(0, 1)),
            ),
            StateInfluence::force_influence(
                "e1",
                "e0",
                "e0",
                ec.get_identifier(),
                vec3(rat(-100, 1), rat(0, 1), rat(0, 1)),
            ),
            StateInfluence::force_influence(
                "e1",
                "e1",
                "e1",
                cf.get_identifier(),
                vec3(rat(10, 1), rat(0, 1), rat(0, 1)),
            ),
            StateInfluence::force_influence(
                "e1",
                "e0",
                "e0",
                cf.get_identifier(),
                vec3(rat(-10, 1), rat(0, 1), rat(0, 1)),
            ),
        ];
        let mut res_influences = cf.get_influences(&world, &rat(1, 1)).unwrap();
        res_influences.extend(ec.get_influences(&world, &rat(1, 1)).unwrap());
        for res_influence in &res_influences {
            match expected_influences
                .iter()
                .position(|inf| res_influence == inf)
            {
                Some(index) => {
                    expected_influences.remove(index);
                }
                None => panic!("not in expected influences"),
            };
        }
        assert!(expected_influences.is_empty());
    }

