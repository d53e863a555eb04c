use std::collections::HashSet;

use anthill_ecs::query::not::Not;
use anthill_ecs::query::query::{union_into, IQuery};
use anthill_ecs::types::component_id::ComponentId;

fn components(ids: &[u128]) -> HashSet<u128> {
    ids.iter().copied().collect()
}

fn not(uuid: u128) -> Not {
    Not::new(ComponentId::new(uuid, format!("Component{uuid}")))
}

#[test]
fn not_passes_without_the_component() {
    let mut q = not(5);
    assert!(q.check(&components(&[1, 2])));
    assert!(!q.check(&components(&[1, 5])));
    assert!(q.check(&components(&[])));
    assert!(q.get_dependencies().is_empty());
}

#[test]
fn unit_query_passes_everything() {
    let mut q = ();
    assert!(q.check(&components(&[])));
    assert!(q.check(&components(&[1, 2])));
    assert!(q.get_dependencies().is_empty());
}

#[test]
fn tuple_queries_pass_when_every_part_passes() {
    let mut q1 = (not(1),);
    assert!(!q1.check(&components(&[1])));
    assert!(q1.check(&components(&[2])));

    let mut q2 = (not(1), not(2));
    assert!(q2.check(&components(&[3])));
    assert!(!q2.check(&components(&[1, 3])));
    assert!(!q2.check(&components(&[2, 3])));

    let mut q3 = (not(1), not(2), not(3));
    assert!(q3.check(&components(&[4, 5])));
    assert!(!q3.check(&components(&[3])));

    let mut q4 = (not(1), not(2), not(3), (not(4),));
    assert!(q4.check(&components(&[5])));
    assert!(!q4.check(&components(&[4])));
    assert!(!q4.check(&components(&[1, 4])));
}

#[test]
fn tuple_dependencies_gather_the_parts() {
    assert!((not(1),).get_dependencies().is_empty());
    assert!((not(1), ()).get_dependencies().is_empty());
    assert!((not(1), not(2), not(3)).get_dependencies().is_empty());
    assert!((not(1), not(2), (), not(3)).get_dependencies().is_empty());
}

#[test]
fn union_into_adds_every_element() {
    let mut deps = components(&[1, 2]);
    union_into(&mut deps, &components(&[2, 3, 4]));
    assert_eq!(deps, components(&[1, 2, 3, 4]));
    let mut empty = components(&[]);
    union_into(&mut empty, &components(&[]));
    assert!(empty.is_empty());
}

#[test]
fn component_ids_are_equal_by_uuid() {
    let mut bytes = [0u8; 16];
    bytes[15] = 3;
    let id = ComponentId::from(bytes, "Velocity".to_string());
    assert_eq!(id.uuid(), 3);
    assert_eq!(id, ComponentId::new(3, "Other".to_string()));
    assert_eq!(id.type_info(), "Velocity".to_string());
}

#[test]
fn component_ids_are_ordered_by_uuid() {
    assert!(ComponentId::new(1, "Zed".to_string()) < ComponentId::new(2, "Abe".to_string()));
    assert_eq!(
        ComponentId::new(3, "A".to_string()).partial_cmp(&ComponentId::new(3, "B".to_string())),
        Some(std::cmp::Ordering::Equal)
    );
}
