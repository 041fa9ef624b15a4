use crabuv::check::Check;
use crabuv::resource::{resource_of_token, token, Resource, ResourceKind, ResourceMap, NULL_ID};
use crabuv::timers::{Timer, TimerKind};

fn timer(callback: u64) -> Timer {
    Timer { id: callback, delay: 1, callback, kind: TimerKind::Timeout }
}

#[test]
fn map_stores_and_gives_back() {
    let mut map = ResourceMap::new();
    assert!(map.is_empty());
    assert_eq!(map.len(), 0);
    let first = map.insert(Resource::Timer(timer(1)));
    let second = map.insert(Resource::Check(Check { id: 2, callback: 2 }));
    assert_ne!(first, second);
    assert_eq!(map.len(), 2);
    assert!(!map.is_empty());
    assert_eq!(map.get(first), Some(&Resource::Timer(timer(1))));
    assert_eq!(map.get(second).map(|resource| resource.kind()), Some(ResourceKind::Check));
    assert_eq!(map.remove(first), Some(Resource::Timer(timer(1))));
    assert_eq!(map.remove(first), None);
    assert_eq!(map.get(first), None);
    assert_eq!(map.len(), 1);
}

#[test]
fn map_changes_in_place() {
    let mut map = ResourceMap::new();
    let id = map.insert(Resource::Timer(timer(1)));
    if let Some(timer) = map.get_mut_as::<Timer>(id) {
        timer.delay = 99;
    }
    assert_eq!(map.get_as::<Timer>(id).map(|timer| timer.delay), Some(99));
    *map.get_mut(id).unwrap() = Resource::Timer(timer(5));
    assert_eq!(map.get(id), Some(&Resource::Timer(timer(5))));
}

#[test]
fn map_casts_only_to_the_right_type() {
    let mut map = ResourceMap::new();
    let id = map.insert(Resource::Timer(timer(1)));
    assert!(map.get_as::<Timer>(id).is_some());
    assert!(map.get_as::<Check>(id).is_none());
    assert!(map.get_mut_as::<Check>(id).is_none());
}

#[test]
fn null_and_foreign_numbers_name_nothing() {
    let mut map = ResourceMap::new();
    let id = map.insert(Resource::Timer(timer(1)));
    assert_ne!(id, NULL_ID);
    assert_eq!(map.get(NULL_ID), None);
    assert_eq!(map.get(0), None);
    assert_eq!(map.get(7), None);
    assert_eq!(map.remove(0), None);
    assert!(map.get_mut(3).is_none());
}

#[test]
fn identifiers_are_not_reused() {
    let mut map = ResourceMap::new();
    let mut issued = Vec::new();
    for round in 0..300 {
        let first = map.insert(Resource::Timer(timer(1)));
        let second = map.insert(Resource::Timer(timer(2)));
        assert!(!issued.contains(&first));
        assert!(!issued.contains(&second));
        assert_ne!(first, second);
        issued.push(first);
        issued.push(second);
        map.remove(first);
        if round % 3 == 0 {
            map.remove(second);
            assert_eq!(map.get(second), None);
        }
        assert_eq!(map.get(first), None);
    }
}

#[test]
fn token_leads_back_to_its_resource() {
    let mut map = ResourceMap::new();
    for i in 0..10 {
        let id = map.insert(Resource::Timer(timer(i)));
        assert_eq!(resource_of_token(token(id)), id);
        assert!(token(id) > 1);
        map.remove(id);
    }
}

#[test]
fn any_number_is_completed_to_a_key() {
    assert_eq!(resource_of_token(5), 0x1_0000_0005);
    assert_eq!(resource_of_token(0x3_0000_0005), 0x3_0000_0005);
    assert_eq!(resource_of_token(0x2_0000_0005), 0x3_0000_0005);
}
