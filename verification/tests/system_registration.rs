use anthill_ecs::system::system::SystemFabricError;
use anthill_ecs::system::systems_configuration_flow_manager::{
    SystemAddLinkError, SystemRegistrationError, SystemsFlowConfigurationManager,
};
use anthill_ecs::types::system_id::SystemId;

fn uuid_bytes(last: u8) -> [u8; 16] {
    let mut bytes = [0u8; 16];
    bytes[15] = last;
    bytes
}

fn system(last: u8, name: &str) -> SystemId {
    SystemId::from(uuid_bytes(last), name.to_string())
}

#[test]
fn registration_single_ok() {
    let mut sm = SystemsFlowConfigurationManager::default();
    sm.register(system(1, "SystemA")).unwrap();
}

#[test]
fn registration_id_dublicate_err() {
    let mut sm = SystemsFlowConfigurationManager::default();
    sm.register(system(1, "SystemA")).unwrap();
    assert_eq!(
        sm.register(system(1, "SystemB")),
        Err(SystemRegistrationError::SystemAlreadyExists(
            sm.system_node(&system(1, "SystemA")).unwrap().system_id().clone()
        ))
    );
}

#[test]
fn build_world_system_manager_ok() {
    let mut sm = SystemsFlowConfigurationManager::default();
    let system_a_id = sm.register(system(1, "SystemA")).unwrap();
    let system_c_id = sm.register(system(3, "SystemC")).unwrap();
    let system_b_id = sm.register(system(2, "SystemB")).unwrap();
    let system_d_id = sm.register(system(4, "SystemD")).unwrap();

    sm.add_link(&system_a_id, &system_c_id).unwrap();
    sm.add_link(&system_a_id, &system_b_id).unwrap();
    sm.add_link(&system_c_id, &system_d_id).unwrap();
    sm.add_link(&system_b_id, &system_d_id).unwrap();

    let expected = vec![
        (system_d_id.clone(), Ok(())),
        (system_a_id.clone(), Ok(())),
        (system_b_id.clone(), Ok(())),
        (system_c_id.clone(), Ok(())),
    ];
    let res = sm.build_world_systems_manager(&expected);

    println!("{res:#?}");
    assert!(res.not_found_systems().is_empty());
    assert!(res.systems_with_build_error().is_empty());
    for id in [&system_a_id, &system_b_id, &system_c_id, &system_d_id] {
        assert_eq!(res.system_node(id).unwrap().system_id(), id);
    }
    let mut d_waits: Vec<u128> = res.prev_systems(&system_d_id).iter().map(|id| id.uuid()).collect();
    d_waits.sort();
    assert_eq!(d_waits, vec![2, 3]);
    assert!(res.prev_systems(&system_a_id).is_empty());
    assert_eq!(res.prev_systems(&system_b_id), vec![system_a_id.clone()]);
    assert_eq!(res.prev_systems(&system_c_id), vec![system_a_id.clone()]);
}

#[test]
fn system_id_reads_uuid_bytes_big_endian() {
    assert_eq!(system(1, "A").uuid(), 1);
    let mut bytes = [0u8; 16];
    bytes[0] = 1;
    assert_eq!(SystemId::from(bytes, "B".to_string()).uuid(), 1u128 << 120);
    let bytes: [u8; 16] = [0x12, 0x34, 0, 0, 0, 0, 0, 0, 0, 0, 0, 0, 0, 0, 0xab, 0xcd];
    assert_eq!(SystemId::from(bytes, "C".to_string()).uuid(), 0x1234_0000_0000_0000_0000_0000_0000_abcd);
}

#[test]
fn system_ids_are_equal_by_uuid() {
    assert_eq!(SystemId::new(7, "First".to_string()), SystemId::new(7, "Second".to_string()));
    assert_ne!(SystemId::new(7, "Same".to_string()), SystemId::new(8, "Same".to_string()));
    assert_eq!(SystemId::new(7, "First".to_string()).type_info(), "First".to_string());
}

#[test]
fn system_node_of_unregistered_is_none() {
    let mut sm = SystemsFlowConfigurationManager::default();
    assert!(sm.system_node(&system(1, "A")).is_none());
    sm.register(system(1, "A")).unwrap();
    assert!(sm.system_node(&system(2, "B")).is_none());
    assert_eq!(sm.system_count(), 1);
}

#[test]
fn add_link_from_not_found() {
    let mut sm = SystemsFlowConfigurationManager::default();
    let b = sm.register(system(2, "B")).unwrap();
    assert_eq!(
        sm.add_link(&system(1, "A"), &b),
        Err(SystemAddLinkError::SystemFromConfigurationNotFound(system(1, "A")))
    );
    assert_eq!(sm.link_count(), 0);
}

#[test]
fn add_link_to_not_found() {
    let mut sm = SystemsFlowConfigurationManager::default();
    let a = sm.register(system(1, "A")).unwrap();
    assert_eq!(
        sm.add_link(&a, &system(2, "B")),
        Err(SystemAddLinkError::SystemToConfigurationNotFound(system(2, "B")))
    );
    // Both missing: the source is reported first.
    assert_eq!(
        sm.add_link(&system(3, "C"), &system(4, "D")),
        Err(SystemAddLinkError::SystemFromConfigurationNotFound(system(3, "C")))
    );
}

#[test]
fn add_link_cycle_is_refused_and_leaves_links() {
    let mut sm = SystemsFlowConfigurationManager::default();
    let a = sm.register(system(1, "A")).unwrap();
    let b = sm.register(system(2, "B")).unwrap();
    let c = sm.register(system(3, "C")).unwrap();
    sm.add_link(&a, &b).unwrap();
    sm.add_link(&b, &c).unwrap();
    assert_eq!(sm.add_link(&c, &a), Err(SystemAddLinkError::Cycle(c.clone(), a.clone())));
    assert_eq!(sm.link_count(), 2);
    assert_eq!(sm.add_link(&a, &a), Err(SystemAddLinkError::Cycle(a.clone(), a.clone())));
    assert_eq!(sm.link_count(), 2);
    // A link that closes no cycle is still accepted afterwards.
    assert_eq!(sm.add_link(&a, &c), Ok(()));
    assert_eq!(sm.link_count(), 3);
}

#[test]
fn add_link_twice_adds_a_parallel_link() {
    let mut sm = SystemsFlowConfigurationManager::default();
    let a = sm.register(system(1, "A")).unwrap();
    let b = sm.register(system(2, "B")).unwrap();
    assert_eq!(sm.add_link(&a, &b), Ok(()));
    assert_eq!(sm.add_link(&a, &b), Ok(()));
    assert_eq!(sm.link_count(), 2);
    assert_eq!(sm.add_link(&b, &a), Err(SystemAddLinkError::Cycle(b.clone(), a.clone())));
    let chain = sm.build_world_systems_manager(&vec![(a.clone(), Ok(())), (b.clone(), Ok(()))]);
    assert_eq!(chain.prev_systems(&b), vec![a.clone(), a.clone()]);
}

#[test]
fn build_world_records_missing_and_failed_systems() {
    let mut sm = SystemsFlowConfigurationManager::default();
    let a = sm.register(system(1, "A")).unwrap();
    let b = sm.register(system(2, "B")).unwrap();
    let c = sm.register(system(3, "C")).unwrap();
    sm.add_link(&a, &b).unwrap();
    sm.add_link(&b, &c).unwrap();
    let missing_x = system(9, "X");
    let missing_y = system(8, "Y");
    let expected = vec![
        (missing_x.clone(), Err(SystemFabricError::Other("never read".to_string()))),
        (a.clone(), Ok(())),
        (b.clone(), Err(SystemFabricError::Other("b failed".to_string()))),
        (missing_y.clone(), Ok(())),
        (c.clone(), Ok(())),
    ];
    let chain = sm.build_world_systems_manager(&expected);
    assert_eq!(chain.not_found_systems(), &vec![missing_x.clone(), missing_y.clone()]);
    let errors = chain.systems_with_build_error();
    assert_eq!(errors.len(), 1);
    assert_eq!(
        errors.get(&2),
        Some(&(b.clone(), SystemFabricError::Other("b failed".to_string())))
    );
    assert!(chain.system_node(&a).is_some());
    assert!(chain.system_node(&b).is_none());
    assert!(chain.system_node(&c).is_some());
    // `b` is not in the world, so `c` waits for nothing there.
    assert!(chain.prev_systems(&c).is_empty());
    assert!(chain.prev_systems(&a).is_empty());
}

#[test]
fn build_world_of_no_systems_is_empty() {
    let mut sm = SystemsFlowConfigurationManager::default();
    sm.register(system(1, "A")).unwrap();
    let chain = sm.build_world_systems_manager(&vec![]);
    assert!(chain.not_found_systems().is_empty());
    assert!(chain.systems_with_build_error().is_empty());
    assert!(chain.system_node(&system(1, "A")).is_none());
}

#[test]
fn fabric_error_clones_equal() {
    let e = SystemFabricError::Other("boom".to_string());
    assert_eq!(e.clone(), e);
}

#[test]
fn system_ids_are_ordered_by_uuid() {
    assert!(SystemId::new(1, "Zed".to_string()) < SystemId::new(2, "Abe".to_string()));
    assert_eq!(
        SystemId::new(3, "A".to_string()).partial_cmp(&SystemId::new(3, "B".to_string())),
        Some(std::cmp::Ordering::Equal)
    );
    assert!(SystemId::new(9, "A".to_string()) > SystemId::new(8, "A".to_string()));
}

#[test]
fn build_world_keeps_the_first_built_id_of_a_uuid() {
    let mut sm = SystemsFlowConfigurationManager::default();
    let a = sm.register(system(1, "A")).unwrap();
    let b = sm.register(system(2, "B")).unwrap();
    sm.add_link(&a, &b).unwrap();
    let expected = vec![
        (system(1, "FirstA"), Err(SystemFabricError::Other("first".to_string()))),
        (system(1, "SecondA"), Ok(())),
        (system(1, "ThirdA"), Ok(())),
        (b.clone(), Ok(())),
        (system(2, "LaterB"), Err(SystemFabricError::Other("later".to_string()))),
    ];
    let chain = sm.build_world_systems_manager(&expected);
    let node = chain.system_node(&a).unwrap();
    assert_eq!(node.system_id().type_info(), "SecondA".to_string());
    assert_eq!(chain.prev_systems(&b).len(), 1);
    let errors = chain.systems_with_build_error();
    assert_eq!(errors.len(), 2);
    assert_eq!(errors.get(&1).unwrap().1, SystemFabricError::Other("first".to_string()));
    assert_eq!(errors.get(&2).unwrap().0.type_info(), "LaterB".to_string());
}
