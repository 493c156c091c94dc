use unit2::collision::{
    contact_key, gather_contacts, rect_displacement, rect_touching, restitute, ColliderID, Contact, Mobile, Wall,
};
use unit2::types::Rect;

fn r(x: i32, y: i32, w: u16, h: u16) -> Rect {
    Rect { x, y, w, h }
}

#[test]
fn touching_counts_shared_edges() {
    assert!(rect_touching(r(0, 0, 10, 10), r(10, 0, 5, 5)));
    assert!(rect_touching(r(0, 0, 10, 10), r(5, 5, 10, 10)));
    assert!(!rect_touching(r(0, 0, 10, 10), r(11, 0, 5, 5)));
    assert!(!rect_touching(r(0, 0, 10, 10), r(0, -6, 5, 5)));
}

#[test]
fn displacement_is_overlap_per_axis() {
    assert_eq!(rect_displacement(r(0, 0, 10, 10), r(5, 8, 10, 10)), Some((5, 2)));
    assert_eq!(rect_displacement(r(0, 0, 10, 10), r(10, 0, 5, 5)), Some((0, 5)));
    assert_eq!(rect_displacement(r(0, 0, 10, 10), r(20, 0, 5, 5)), None);
}

#[test]
fn mobile_update_moves_by_velocity() {
    let mut m = Mobile::new(r(1, 2, 3, 4), 5, -6);
    m.update();
    assert_eq!(m.rect, r(6, -4, 3, 4));
    assert_eq!((m.vx, m.vy), (5, -6));
}

#[test]
fn rect_translate_adds_offsets() {
    let mut a = r(1, 1, 2, 2);
    a.translate(-3, 4);
    assert_eq!(a, r(-2, 5, 2, 2));
}

#[test]
fn gather_orders_mobile_pairs_then_walls() {
    let walls = vec![Wall { rect: r(0, 20, 100, 10) }];
    let mobs = vec![
        Mobile::new(r(0, 0, 10, 10), 0, 0),
        Mobile::new(r(8, 0, 10, 10), 0, 0),
        Mobile::new(r(50, 15, 10, 10), 0, 0),
    ];
    let mut out = Vec::new();
    gather_contacts(&walls, &mobs, &mut out);
    assert_eq!(
        out,
        vec![
            Contact { a: ColliderID::Dynamic(0), b: ColliderID::Dynamic(1), mtv: (2, 0) },
            Contact { a: ColliderID::Dynamic(2), b: ColliderID::Static(0), mtv: (0, 5) },
        ]
    );
}

#[test]
fn contact_key_orders_deeper_first() {
    let shallow = Contact { a: ColliderID::Dynamic(0), b: ColliderID::Static(0), mtv: (1, 0) };
    let deep = Contact { a: ColliderID::Dynamic(0), b: ColliderID::Static(0), mtv: (0, 3) };
    assert_eq!(contact_key(&deep), -9);
    assert!(contact_key(&deep) < contact_key(&shallow));
}

#[test]
fn restitute_pushes_out_of_walls_deepest_first() {
    let walls = vec![Wall { rect: r(0, 20, 100, 10) }, Wall { rect: r(40, 0, 10, 100) }];
    let mut mobs = vec![Mobile::new(r(30, 15, 12, 10), 3, 4)];
    let mut contacts = vec![
        Contact { a: ColliderID::Dynamic(0), b: ColliderID::Static(1), mtv: (2, 0) },
        Contact { a: ColliderID::Dynamic(0), b: ColliderID::Static(0), mtv: (0, 5) },
    ];
    restitute(&walls, &mut mobs, &mut contacts);
    assert_eq!(contacts[0].mtv, (0, 5));
    assert_eq!(contacts[1].mtv, (2, 0));
    // Above the floor: pushed up by 5; left of the pillar: pushed left by 2.
    assert_eq!(mobs[0].rect, r(28, 10, 12, 10));
    assert_eq!((mobs[0].vx, mobs[0].vy), (0, 0));
}

#[test]
fn restitute_stops_at_mobile_pair() {
    let walls = vec![Wall { rect: r(0, 20, 100, 10) }];
    let mut mobs = vec![Mobile::new(r(0, 15, 10, 10), 1, 1), Mobile::new(r(5, 15, 10, 10), 0, 0)];
    let mut contacts = vec![
        Contact { a: ColliderID::Dynamic(0), b: ColliderID::Dynamic(1), mtv: (5, 0) },
        Contact { a: ColliderID::Dynamic(0), b: ColliderID::Static(0), mtv: (0, 1) },
    ];
    restitute(&walls, &mut mobs, &mut contacts);
    assert_eq!(mobs[0].rect, r(0, 15, 10, 10));
    assert_eq!((mobs[0].vx, mobs[0].vy), (1, 1));
}
