use vrp_pragmatic::fleet::{Driver, Fleet, Vehicle, VehicleDetail};
use vrp_pragmatic::tags::{DimenValue, TagMap};

fn vehicle(id: &str, type_id: &str, details: usize) -> Vehicle {
    let mut dimens = TagMap::new();
    dimens.set("id".to_string(), DimenValue::Text(id.to_string()));
    dimens.set("type_id".to_string(), DimenValue::Text(type_id.to_string()));
    Vehicle {
        profile: 0,
        dimens,
        details: (0..details)
            .map(|i| VehicleDetail { start: Some(i), end: Some(i), time: Some((0, 1000)) })
            .collect(),
    }
}

fn type_key(v: &Vehicle) -> u64 {
    match v.dimens.get_text("type_id") {
        Ok(Some(t)) if t == "small" => 1,
        Ok(Some(_)) => 2,
        _ => 0,
    }
}

#[test]
fn fleet_groups_combinations_by_key() {
    let fleet = Fleet::new(
        vec![Driver { dimens: TagMap::new() }],
        vec![vehicle("v1", "small", 1), vehicle("v2", "small", 1), vehicle("v3", "large", 1)],
        |_d: &Driver, v: &Vehicle, _k: &VehicleDetail| type_key(v),
    );

    assert_eq!(fleet.actors.len(), 2);
    assert_eq!(fleet.actor_keys, vec![1, 2]);
    assert_eq!(fleet.actors[0].id, 0);
    assert_eq!(fleet.actors[0].vehicle, 0);
    assert_eq!(fleet.actors[1].id, 1);
    assert_eq!(fleet.actors[1].vehicle, 2);
}

#[test]
fn fleet_without_grouping_has_actor_per_combination() {
    let fleet = Fleet::new(
        vec![Driver { dimens: TagMap::new() }, Driver { dimens: TagMap::new() }],
        vec![vehicle("v1", "small", 2), vehicle("v2", "small", 1)],
        |d: &Driver, v: &Vehicle, k: &VehicleDetail| {
            let _ = d;
            (type_key(v) * 100) + k.start.unwrap_or(0) as u64
        },
    );
    assert_eq!(fleet.actors.len(), 2);

    let fleet = Fleet::new(vec![Driver { dimens: TagMap::new() }], vec![vehicle("v1", "a", 3)], |_d, _v, k| {
        k.start.unwrap_or(0) as u64
    });
    assert_eq!(fleet.actors.len(), 3);
    let details: Vec<usize> = fleet.actors.iter().map(|a| a.detail).collect();
    assert_eq!(details, vec![0, 1, 2]);
}

#[test]
fn empty_fleet_has_no_actors() {
    let fleet = Fleet::new(vec![], vec![vehicle("v1", "a", 1)], |_d: &Driver, _v: &Vehicle, _k: &VehicleDetail| 0);
    assert!(fleet.actors.is_empty());
    assert!(fleet.actor_keys.is_empty());
}
