use rogue_core::ecs::World;
use rogue_core::gamelog::GameLog;

fn s(t: &str) -> String {
    t.to_string()
}

#[test]
fn ids_start_at_one_and_increase() {
    let mut w: World<i64, i64> = World::new();
    let a = w.add_entity(vec![]);
    let b = w.add_entity(vec![]);
    w.delete_entity(b);
    let c = w.add_entity(vec![]);
    assert_eq!(a, 1);
    assert_eq!(b, 2);
    assert_eq!(c, 3);
}

#[test]
fn no_types_lists_every_live_entity() {
    let mut w: World<i64, i64> = World::new();
    let a = w.add_entity(vec![(s("Pos"), 1)]);
    let b = w.add_entity(vec![]);
    let c = w.add_entity(vec![(s("Hp"), 5)]);
    w.delete_entity(b);
    assert_eq!(w.get_entities(&vec![]), vec![a, c]);
    w.delete_entity(a);
    w.delete_entity(c);
    assert_eq!(w.get_entities(&vec![]), Vec::<i32>::new());
}

#[test]
fn get_entities_needs_every_type() {
    let mut w: World<i64, i64> = World::new();
    let a = w.add_entity(vec![(s("Pos"), 1), (s("Hp"), 2)]);
    let _b = w.add_entity(vec![(s("Pos"), 3)]);
    let c = w.add_entity(vec![(s("Hp"), 4), (s("Pos"), 5)]);
    assert_eq!(w.get_entities(&vec![s("Pos"), s("Hp")]), vec![a, c]);
    assert_eq!(w.get_entities(&vec![s("Name")]), Vec::<i32>::new());
}

#[test]
fn duplicate_types_keep_the_last() {
    let mut w: World<i64, i64> = World::new();
    let a = w.add_entity(vec![(s("Pos"), 1), (s("Pos"), 2)]);
    assert_eq!(w.get_component(a, &s("Pos")), Some(&2));
}

#[test]
fn add_components_last_write_wins() {
    let mut w: World<i64, i64> = World::new();
    let mut log = GameLog::new();
    let a = w.add_entity(vec![(s("Pos"), 1)]);
    w.add_components(a, vec![(s("Pos"), 7), (s("Hp"), 3)], &mut log);
    assert_eq!(w.get_component(a, &s("Pos")), Some(&7));
    w.add_components(a, vec![(s("Pos"), 9)], &mut log);
    assert_eq!(w.get_component(a, &s("Pos")), Some(&9));
    assert_eq!(w.get_component(a, &s("Hp")), Some(&3));
    assert!(log.get_messages().is_empty());
}

#[test]
fn add_components_to_missing_entity_logs() {
    let mut w: World<i64, i64> = World::new();
    let mut log = GameLog::new();
    let a = w.add_entity(vec![]);
    w.delete_entity(a);
    w.add_components(a, vec![(s("Pos"), 1)], &mut log);
    assert_eq!(w.get_component(a, &s("Pos")), None);
    assert_eq!(
        log.get_messages(),
        vec![s("Could not add components - entity 1 does not exist")]
    );
}

#[test]
fn get_component_absent_cases() {
    let mut w: World<i64, i64> = World::new();
    let a = w.add_entity(vec![(s("Pos"), 1)]);
    assert_eq!(w.get_component(a, &s("Hp")), None);
    assert_eq!(w.get_component(42, &s("Pos")), None);
}

#[test]
fn get_components_keeps_order_and_gaps() {
    let mut w: World<i64, i64> = World::new();
    let a = w.add_entity(vec![(s("Pos"), 1), (s("Hp"), 2)]);
    assert_eq!(
        w.get_components(a, &vec![s("Hp"), s("Name"), s("Pos")]),
        vec![Some(&2), None, Some(&1)]
    );
}

#[test]
fn query_rows_are_complete() {
    let mut w: World<i64, i64> = World::new();
    let a = w.add_entity(vec![(s("Pos"), 1), (s("Hp"), 2)]);
    let _b = w.add_entity(vec![(s("Pos"), 3)]);
    let c = w.add_entity(vec![(s("Hp"), 4), (s("Pos"), 5)]);
    let types = vec![s("Hp"), s("Pos")];
    let rows = w.query(&types);
    assert_eq!(rows, vec![(a, vec![&2, &1]), (c, vec![&4, &5])]);
    let ids: Vec<i32> = rows.iter().map(|r| r.0).collect();
    assert_eq!(ids, w.get_entities(&types));
}

#[test]
fn remove_component_only_touches_one() {
    let mut w: World<i64, i64> = World::new();
    let a = w.add_entity(vec![(s("Pos"), 1), (s("Hp"), 2)]);
    w.remove_component(a, &s("Pos"));
    assert_eq!(w.get_component(a, &s("Pos")), None);
    assert_eq!(w.get_component(a, &s("Hp")), Some(&2));
    w.remove_component(99, &s("Hp"));
    w.remove_component(a, &s("Name"));
    assert_eq!(w.get_component(a, &s("Hp")), Some(&2));
}

#[test]
fn clear_component_everywhere() {
    let mut w: World<i64, i64> = World::new();
    let a = w.add_entity(vec![(s("Pos"), 1), (s("Hp"), 2)]);
    let b = w.add_entity(vec![(s("Hp"), 3)]);
    let c = w.add_entity(vec![(s("Pos"), 4)]);
    w.clear_component(&s("Pos"));
    assert_eq!(w.get_entities(&vec![s("Pos")]), Vec::<i32>::new());
    assert_eq!(w.get_component(a, &s("Hp")), Some(&2));
    assert_eq!(w.get_component(b, &s("Hp")), Some(&3));
    assert_eq!(w.get_entities(&vec![]), vec![a, b, c]);
}

#[test]
fn delete_keeps_resources() {
    let mut w: World<i64, String> = World::new();
    w.save(s("turn"), s("one"));
    let a = w.add_entity(vec![(s("Pos"), 1)]);
    w.delete_entity(a);
    assert_eq!(w.get_component(a, &s("Pos")), None);
    assert_eq!(w.fetch(&s("turn")), Some(&s("one")));
}

#[test]
fn save_overwrites_and_fetch_missing_is_none() {
    let mut w: World<i64, i64> = World::new();
    assert_eq!(w.fetch(&s("player")), None);
    w.save(s("player"), 1);
    w.save(s("player"), 2);
    assert_eq!(w.fetch(&s("player")), Some(&2));
}
