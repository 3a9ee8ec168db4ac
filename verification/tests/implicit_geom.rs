use nphysics::object::implicit_geom::DefaultGeom;

#[derive(Debug, PartialEq)]
struct Ball(u32);

#[derive(Debug, PartialEq)]
struct Plane(i8);

type Geom = DefaultGeom<Plane, Ball, Vec<Ball>, String>;

#[test]
fn ball_is_found_again() {
    let geom = Geom::new_ball(Ball(7));
    assert!(matches!(geom, DefaultGeom::Ball(_)));
    assert_eq!(*geom.ball(), Ball(7));
}

#[test]
fn plane_is_found_again() {
    let geom = Geom::new_plane(Plane(-1));
    assert!(matches!(geom, DefaultGeom::Plane(_)));
    assert_eq!(*geom.plane(), Plane(-1));
}

#[test]
fn implicit_is_found_again() {
    let geom = Geom::new_implicit(String::from("cone"));
    assert!(matches!(geom, DefaultGeom::Implicit(_)));
    assert_eq!(geom.implicit(), "cone");
}

#[test]
fn compound_is_found_again() {
    let geom = Geom::new_compound(vec![Ball(1), Ball(2)]);
    assert!(matches!(geom, DefaultGeom::Compound(_)));
    assert_eq!(*geom.compound(), vec![Ball(1), Ball(2)]);
}
