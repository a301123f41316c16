use rust2genshin::game::{
    unbox, Box as GameBox, CharacterDownEvent, Config, CoordinateSystem, DownCause, ElementType, Entity,
    EntityKind, Faction, FollowType, Guid, Player, Prefab, SettlementStatus, I32,
};

#[test]
fn identifiers_keep_their_number() {
    assert_eq!(Guid::new(5).get(), 5);
    assert_eq!(Faction::new(-2).get(), -2);
    assert_eq!(Config::new(7).get(), 7);
    assert_eq!(Prefab::new(1).get(), 1);
}

#[test]
fn entity_and_player_views_round_trip() {
    let e = Entity(42);
    assert_eq!(e.as_player().as_entity(), e);
    let p = Player(7);
    assert_eq!(p.as_entity().as_player(), p);
    assert_eq!(e.as_player(), Player(42));
}

#[test]
fn enum_numbers() {
    assert_eq!(DownCause::System.code(), 1605);
    assert_eq!(DownCause::Abnormal.code(), 1607);
    assert_eq!(SettlementStatus::Escape.code(), 2);
    assert_eq!(EntityKind::Creation.code(), 1405);
    assert_eq!(ElementType::Physical.code(), 1508);
    assert_eq!(ElementType::Pyro.code(), 1501);
    assert_eq!(CoordinateSystem::Local.code(), 1);
    assert_eq!(FollowType::Animation.code(), 2);
}

#[test]
fn events_hold_their_fields() {
    let ev = CharacterDownEvent { character: Entity(1), cause: DownCause::Normal, source: None };
    assert_eq!(ev.cause.code(), 1606);
    assert_eq!(ev.character, Entity(1));
}

#[test]
fn shifts() {
    assert_eq!((-8i32).ushr(1), 0x7FFF_FFFC);
    assert_eq!(16i32.ushr(2), 4);
    for x in [-1i32, -8, -9, i32::MIN, 0, 1, 77, i32::MAX] {
        for s in 0..32 {
            assert_eq!(x.shr(s), x >> s, "{x} >> {s}");
        }
    }
}

#[test]
fn powers() {
    assert_eq!(2i32.ipow(10), 1024);
    assert_eq!((-3i32).ipow(3), -27);
    assert_eq!(5i32.ipow(0), 1);
    assert_eq!((-2i32).ipow(31), i32::MIN);
    assert_eq!(0i32.ipow(5), 0);
}

#[test]
fn boxes_hold_their_value() {
    let mut b = GameBox::new(3u8);
    assert_eq!(*b.borrow().as_ref(), 3);
    {
        let mut r = b.borrow_mut();
        *r.as_mut() = 9;
        assert_eq!(*r.as_ref(), 9);
    }
    assert_eq!(unbox(b), 9);
    assert_eq!(GameBox::into_inner(GameBox::new(5i32)), 5);
}
