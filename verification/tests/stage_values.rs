use bevy_ecs::component::ComponentId;
use bevy_ecs::stage::{Stage, StageComponentId, StageMarker};
use bevy_ecs::storage::SparseSetIndex;

#[test]
fn stage_new_get_set_next() {
    let mut stage = Stage::new(1);
    assert_eq!(stage.get(), 1);
    assert_eq!(stage.next().get(), 2);
    assert_eq!(stage.next().next().next(), Stage::new(4));
    stage.set(9);
    assert_eq!(stage, Stage::new(9));
    assert!(Stage::new(1) < Stage::new(1).next());
}

#[test]
fn default_and_last_stage() {
    assert_eq!(Stage::default(), Stage::new(0));
    assert_eq!(Stage::last().get(), u16::MAX);
    assert_eq!(Stage::new(u16::MAX - 1).next(), Stage::last());
}

#[test]
fn sparse_set_index_of_stage() {
    let stage = Stage::new(300);
    assert_eq!(stage.sparse_set_index(), 300);
    assert_eq!(Stage::get_sparse_set_index(stage.sparse_set_index()), stage);
    assert_eq!(Stage::get_sparse_set_index(65535), Stage::last());
    // positions past the last stage wrap around
    assert_eq!(Stage::get_sparse_set_index(70000), Stage::new(4464));
}

#[test]
fn component_at_stage() {
    let component = ComponentId::new(7);
    assert_eq!(component.index(), 7);
    let id = component.at_stage(Stage::new(3));
    assert_eq!(id.component_id, component);
    assert_eq!(id.stage, Stage::new(3));
    assert_eq!(id, StageComponentId::new(component, Stage::new(3)));
    assert!(id < component.at_stage(Stage::new(4)));
}

#[test]
fn stage_marker_holds_its_stage() {
    struct Marked;
    let marker = StageMarker::<Marked>::new(Stage::new(5));
    let copy = marker.clone();
    assert_eq!(marker.stage, Stage::new(5));
    assert_eq!(copy.stage, Stage::new(5));
}

#[test]
fn ids_order_by_component_then_stage() {
    let first = ComponentId::new(2).at_stage(Stage::new(9));
    let second = ComponentId::new(3).at_stage(Stage::new(1));
    let third = ComponentId::new(3).at_stage(Stage::new(1).next());
    assert!(first < second);
    assert!(second < third);
    assert!(ComponentId::new(2) < ComponentId::new(3));
    assert_eq!(second.partial_cmp(&second), Some(std::cmp::Ordering::Equal));
    assert!(Stage::new(1).sparse_set_index() < Stage::new(1).next().sparse_set_index());
}

#[test]
fn stages_follow_one_another_from_the_first() {
    let mut stage = Stage::default();
    for n in 0..u16::MAX {
        assert_eq!(stage, Stage::new(n));
        let next = stage.next();
        assert!(stage < next);
        stage = next;
    }
    assert_eq!(stage, Stage::last());
}
