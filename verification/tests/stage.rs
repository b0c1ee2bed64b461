// Each system of a schedule is replayed here as the calls that it makes on the
// world, at the stage that the world is set to.

use bevy_ecs::component::ComponentId;
use bevy_ecs::stage::{Stage, StageMarker};
use bevy_ecs::world::{StageError, World};

fn a() -> ComponentId {
    ComponentId::new(0)
}

fn b() -> ComponentId {
    ComponentId::new(1)
}

fn value_component() -> ComponentId {
    ComponentId::new(2)
}

fn none() -> Vec<ComponentId> {
    Vec::new()
}

#[test]
fn test_can_remove_component_from_same_stage() {
    let mut world = World::new();
    let start_stage = Stage::new(1);
    world.set_stage(start_stage);
    let entity = world.spawn_empty();
    world.insert(entity, a(), 0).unwrap();
    // remove_a
    for e in world.query(&vec![a()], &none()) {
        world.remove(e, a()).unwrap();
    }
    assert_eq!(world.get(entity, a()), None);
}

#[test]
fn test_can_modify_component_from_same_stage() {
    let mut world = World::new();
    let start_stage = Stage::new(1);
    world.set_stage(start_stage);
    let entity = world.spawn_empty();
    world.insert(entity, a(), 0).unwrap();
    // modify_a
    for e in world.query(&vec![a()], &none()) {
        world.set_value(e, a(), 0).unwrap();
    }
    assert_eq!(world.get(entity, a()), Some(0));
}

#[test]
fn simple_stage_test() {
    let mut world = World::new();
    let entity = world.spawn_empty();
    world.insert(entity, a(), 0).unwrap();
    world.insert(entity, b(), 0).unwrap();
    let another_entity = world.spawn_empty();
    world.insert(another_entity, a(), 0).unwrap();
    let b_only = world.spawn_empty();
    world.insert(b_only, b(), 0).unwrap();

    fn t1(world: &World) {
        let stage = world.stage();
        println!("running t1 at stage {:?}", stage);
        let res = (
            world.query(&vec![a()], &none()).len(),
            world.query(&vec![b()], &none()).len(),
            world.query(&vec![a(), b()], &none()).len(),
        );
        assert_eq!(res, (2, 2, 1));
    }

    fn t2(world: &mut World) {
        let stage = world.stage();
        println!("Running t2 at stage {:?}", stage);
        let qa = world.query(&vec![a()], &vec![b()]);
        let Some(first) = qa.first() else {
            // this is second tick
            return;
        };
        world.insert(*first, b(), 0).unwrap();
        let res = qa.len();
        assert_eq!(res, 1);
    }

    fn t3(world: &World) {
        let stage = world.stage();
        println!("running t3 at stage {:?}", stage);
        let res = world.query(&vec![b()], &none()).len();
        assert_eq!(res, 3);
    }

    let mut run_once = || {
        let start_stage = Stage::new(1);
        world.set_stage(start_stage.next());
        t1(&world);
        world.set_stage(start_stage.next().next());
        t2(&mut world);
        world.set_stage(start_stage.next().next().next());
        t3(&world);
    };
    run_once();
    // even at second run we still see consistent counts,
    // because a system at stage N only sees changes up to stage N
    run_once();
}

#[test]
fn insert_order_visibility() {
    // in first run, insert A at stage 2, and verify A isn't present before that.
    // in second run, insert A at stage 1, and verify A is present.
    let mut world = World::new();

    // add at stage 2
    world.set_stage(Stage::new(2));
    {
        let stage = world.stage();
        println!("Running stage2_without_a at stage {:?}", stage);
        let count = world.query(&vec![a()], &none()).len();
        assert_eq!(count, 0);
        let e = world.spawn_empty();
        world.insert(e, a(), 0).unwrap();
    }

    // at stage 1, assert A is not present yet, then insert A
    world.set_stage(Stage::new(1));
    {
        let stage = world.stage();
        assert_eq!(world.query(&vec![a()], &none()).len(), 0);
        println!("Running stage1_insert_a at stage {:?}", stage);
        let e = world.spawn_empty();
        world.insert(e, a(), 0).unwrap();
    }

    // at stage 3, verify both inserts of A are visible, total 2 A's, add again
    world.set_stage(Stage::new(3));
    {
        let stage = world.stage();
        println!("Running stage2_with_a at stage {:?}", stage);
        let count = world.query(&vec![a()], &none()).len();
        let e = world.spawn_empty();
        world.insert(e, a(), 0).unwrap();
        assert_eq!(count, 2);
    }

    // at stage 2, verify we see 2 A's
    world.set_stage(Stage::new(2));
    {
        let stage = world.stage();
        println!("Running check_at_stage_2 at stage {:?}", stage);
        let count = world.query(&vec![a()], &none()).len();
        assert_eq!(count, 2);
    }

    world.set_stage(Stage::new(3));
    {
        let stage = world.stage();
        println!("Running final_check at stage {:?}", stage);
        let count = world.query(&vec![a()], &none()).len();
        assert_eq!(count, 3);
    }
}

#[test]
fn insert_overwrite_later_stage() {
    let mut world = World::new();
    let entity = world.spawn_empty();
    world.insert(entity, a(), 0).unwrap();

    // insert_a_at_stage_2
    world.set_stage(Stage::new(2));
    {
        let found = world.query(&vec![a()], &vec![value_component()]);
        let entity = found[0];
        world.insert(entity, value_component(), 10).unwrap();
    }

    // insert_a_at_stage_1
    world.set_stage(Stage::new(1));
    {
        let found = world.query(&vec![a()], &vec![value_component()]);
        let entity = found[0];
        world.insert(entity, value_component(), 0).unwrap();
    }

    // check_value_component
    world.set_stage(Stage::new(3));
    {
        let stage = world.stage();
        println!("Running check_value_component at stage {:?}", stage);
        let found = world.query(&vec![value_component()], &none());
        let value_comp = world.get(found[0], value_component()).unwrap();
        // the insert at stage 1 overrides the one at stage 2
        assert_eq!(value_comp, 0);
    }

    // assert_is_gone
    world.set_stage(Stage::new(2));
    {
        assert!(world.query(&vec![a()], &vec![value_component()]).first().is_none());
    }

    let ccount = world.component_count(entity);
    assert_eq!(ccount, 2); // A and ValueComponent
}

#[test]
fn change_at_later_stage_is_not_detected() {
    let mut world = World::new();
    let entity = world.spawn_empty();
    world.insert(entity, a(), 0).unwrap();

    // insert_value_component_at_stage_2
    world.set_stage(Stage::new(2));
    {
        let found = world.query(&vec![a()], &vec![value_component()]);
        let entity = found[0];
        world.insert(entity, value_component(), 10).unwrap();
    }

    // check_change_detection: a fresh system sees as changed every value
    // component that its stage sees
    world.set_stage(Stage::new(3));
    {
        let stage = world.stage();
        assert_eq!(world.query(&vec![value_component()], &none()).len(), 1, "at stage {:?}", stage);
    }

    // check_no_change_detection
    world.set_stage(Stage::new(1));
    {
        let stage = world.stage();
        assert_eq!(world.query(&vec![value_component()], &none()).len(), 0, "at stage {:?}", stage);
    }
}

#[test]
fn component_removal_at_later_stage_not_detected() {
    let mut world = World::new();
    world.set_stage(Stage::new(2));
    let entity = world.spawn_empty();
    world.insert(entity, a(), 0).unwrap();
    world.insert(entity, value_component(), 5).unwrap();

    // remove_value_component_at_stage_2
    world.set_stage(Stage::new(2));
    {
        let found = world.query(&vec![a(), value_component()], &none());
        let entity = found[0];
        world.remove(entity, value_component()).unwrap();
    }

    // check_removal_detection
    world.set_stage(Stage::new(3));
    {
        let stage = world.stage();
        assert_eq!(world.removed_count(value_component()), 1, "at stage {:?}", stage);
    }

    // check_no_removal_detection
    world.set_stage(Stage::new(1));
    {
        let stage = world.stage();
        assert_eq!(world.removed_count(value_component()), 0, "at stage {:?}", stage);
    }
}

#[test]
fn test_staged_commands() {
    let mut world = World::new();
    struct M;
    let marker = StageMarker::<M>::new(Stage::new(1));

    // insert_a_at_stage_m: commands applied at the stage of the marker
    {
        let entity = world.spawn_empty();
        world.insert_at(marker.stage, entity, a(), 0).unwrap();
    }

    // count_a_at_0
    world.set_stage(Stage::new(0));
    {
        let stage = world.stage();
        assert_eq!(world.query(&vec![a()], &none()).len(), 0, "at stage {:?}", stage);
    }

    // count_a_at_1
    world.set_stage(Stage::new(1));
    {
        let stage = world.stage();
        assert_eq!(world.query(&vec![a()], &none()).len(), 1, "at stage {:?}", stage);
    }
}

#[test]
fn move_to_stage() {
    let mut world = World::new();
    let entity = world.spawn_empty();
    world.insert(entity, a(), 0).unwrap();
    // changes all data from stage 0 to stage 2;
    // the new stage must be empty, otherwise we cannot merge safely
    world.rewrite_all_stage(Stage::new(0), Stage::new(2)).unwrap();

    // check_at_stage_1
    world.set_stage(Stage::new(1));
    {
        let stage = world.stage();
        assert_eq!(world.query(&vec![a()], &none()).len(), 0, "at stage {:?}", stage);
    }

    // check_at_stage_2
    world.set_stage(Stage::new(2));
    {
        let stage = world.stage();
        assert_eq!(world.query(&vec![a()], &none()).len(), 1, "at stage {:?}", stage);
    }
}

#[test]
fn removing_component_from_previous_stage_is_refused() {
    let mut world = World::new();
    let start_stage = Stage::new(1);
    world.set_stage(start_stage);
    let entity = world.spawn_empty();
    world.insert(entity, a(), 0).unwrap();
    world.set_stage(start_stage.next());
    assert_eq!(world.remove(entity, a()), Err(StageError::AddedAtEarlierStage));
    assert_eq!(world.get(entity, a()), Some(0));
    assert_eq!(world.removed_count(a()), 0);
}

#[test]
fn modifying_component_from_previous_stage_is_refused() {
    let mut world = World::new();
    let start_stage = Stage::new(1);
    world.set_stage(start_stage);
    let entity = world.spawn_empty();
    world.insert(entity, a(), 7).unwrap();
    world.set_stage(start_stage.next());
    assert_eq!(world.set_value(entity, a(), 8), Err(StageError::AddedAtEarlierStage));
    assert_eq!(world.insert(entity, a(), 8), Err(StageError::AddedAtEarlierStage));
    assert_eq!(world.get(entity, a()), Some(7));
}

#[test]
fn modifying_component_from_later_stage_is_refused() {
    let mut world = World::new();
    let start_stage = Stage::new(1);
    world.set_stage(start_stage);
    let entity = world.spawn_empty();
    world.insert(entity, a(), 7).unwrap();
    world.set_stage(Stage::new(0));
    assert_eq!(world.set_value(entity, a(), 8), Err(StageError::AddedAtLaterStage));
    assert_eq!(world.get(entity, a()), None);
    // nothing that stage 0 sees is there to remove
    assert_eq!(world.remove(entity, a()), Ok(None));
    world.set_stage(start_stage);
    assert_eq!(world.get(entity, a()), Some(7));
}

#[test]
fn unknown_entity_and_missing_component_are_refused() {
    let mut world = World::new();
    let entity = world.spawn_empty();
    assert_eq!(world.set_value(entity, a(), 1), Err(StageError::MissingComponent));
    assert_eq!(world.remove(entity, a()), Ok(None));
    let mut other = World::new();
    other.spawn_empty();
    let stranger = other.spawn_empty();
    assert_eq!(world.insert(stranger, a(), 1), Err(StageError::NoSuchEntity));
    assert_eq!(world.remove(stranger, a()), Err(StageError::NoSuchEntity));
    assert_eq!(world.set_value(stranger, a(), 1), Err(StageError::NoSuchEntity));
    assert_eq!(world.get(stranger, a()), None);
}

#[test]
fn rewrite_into_occupied_stage_is_refused() {
    let mut world = World::new();
    let first = world.spawn_empty();
    world.insert(first, a(), 1).unwrap();
    world.set_stage(Stage::new(2));
    let second = world.spawn_empty();
    world.insert(second, a(), 2).unwrap();
    assert_eq!(
        world.rewrite_all_stage(Stage::new(0), Stage::new(2)),
        Err(StageError::TargetStageNotEmpty)
    );
    world.set_stage(Stage::new(1));
    assert_eq!(world.get(first, a()), Some(1));
    assert_eq!(world.get(second, a()), None);
    // a stage merged into itself stays as it is
    assert_eq!(world.rewrite_all_stage(Stage::new(0), Stage::new(0)), Ok(()));
    assert_eq!(world.get(first, a()), Some(1));
}

#[test]
fn rewrite_there_and_back_restores_the_world() {
    let mut world = World::new();
    let entity = world.spawn_empty();
    world.insert(entity, a(), 3).unwrap();
    world.rewrite_all_stage(Stage::new(0), Stage::new(5)).unwrap();
    assert_eq!(world.get(entity, a()), None);
    world.rewrite_all_stage(Stage::new(5), Stage::new(0)).unwrap();
    assert_eq!(world.get(entity, a()), Some(3));
}

#[test]
fn write_is_read_at_its_stage_and_later_only() {
    let mut world = World::new();
    let entity = world.spawn_empty();
    world.insert_at(Stage::new(4), entity, b(), 42).unwrap();
    for (stage, expected) in [(0, None), (3, None), (4, Some(42)), (9, Some(42))] {
        world.set_stage(Stage::new(stage));
        assert_eq!(world.get(entity, b()), expected);
    }
}

#[test]
fn removal_is_seen_from_its_stage_on() {
    let mut world = World::new();
    world.set_stage(Stage::new(3));
    let entity = world.spawn_empty();
    world.insert(entity, a(), 1).unwrap();
    world.insert(entity, b(), 2).unwrap();
    assert_eq!(world.remove(entity, a()), Ok(Some(1)));
    assert_eq!(world.get(entity, a()), None);
    assert_eq!(world.removed_count(a()), 1);
    assert_eq!(world.removed_count(b()), 0);
    world.set_stage(Stage::new(2));
    assert_eq!(world.removed_count(a()), 0);
    assert_eq!(world.component_count(entity), 1);
}

#[test]
fn query_lists_entities_in_spawn_order() {
    let mut world = World::new();
    let first = world.spawn_empty();
    let second = world.spawn_empty();
    let third = world.spawn_empty();
    world.insert(third, a(), 0).unwrap();
    world.insert(first, a(), 0).unwrap();
    world.insert(second, b(), 0).unwrap();
    assert_eq!(world.query(&vec![a()], &none()), vec![first, third]);
    assert_eq!(world.query(&none(), &vec![a()]), vec![second]);
    assert_eq!(world.query(&none(), &none()), vec![first, second, third]);
    assert_eq!((first.index(), second.index(), third.index()), (0, 1, 2));
}
