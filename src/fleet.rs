use vstd::prelude::*;
use crate::models::Actor;
use crate::tags::Dimensions;

verus! {

/// A driver and its tags.
pub struct Driver {
    pub dimens: Dimensions,
}

/// One valid start, end and operating time window of a vehicle.
pub struct VehicleDetail {
    pub start: Option<usize>,
    pub end: Option<usize>,
    pub time: Option<(i64, i64)>,
}

/// A vehicle: its routing profile, its tags, and the configurations it can
/// operate in.
pub struct Vehicle {
    pub profile: usize,
    pub dimens: Dimensions,
    pub details: Vec<VehicleDetail>,
}

/// All drivers and vehicles, and the actors built from them. Actor `i` has
/// id `i` and stands for every combination whose group key is `actor_keys[i]`.
pub struct Fleet {
    pub drivers: Vec<Driver>,
    pub vehicles: Vec<Vehicle>,
    pub actors: Vec<Actor>,
    pub actor_keys: Vec<u64>,
}

/// Driver `d`, vehicle `v` and detail `k` of that vehicle exist.
pub open spec fn is_combination(drivers: Seq<Driver>, vehicles: Seq<Vehicle>, d: int, v: int, k: int) -> bool {
    0 <= d < drivers.len() && 0 <= v < vehicles.len() && 0 <= k < vehicles[v].details@.len()
}

/// Some actor has a key that the grouping function gave the combination.
pub open spec fn covered<F: Fn(&Driver, &Vehicle, &VehicleDetail) -> u64>(
    group_key: F,
    drivers: Seq<Driver>,
    vehicles: Seq<Vehicle>,
    keys: Seq<u64>,
    d: int,
    v: int,
    k: int,
) -> bool {
    exists|i: int|
        0 <= i < keys.len() && group_key.ensures(
            (&drivers[d], &vehicles[v], &vehicles[v].details@[k]),
            #[trigger] keys[i],
        )
}

/// The combination comes before driver `d`, vehicle `v` and detail `k` in
/// the order in which the fleet visits them.
pub open spec fn visited_before(d2: int, v2: int, k2: int, d: int, v: int, k: int) -> bool {
    d2 < d || (d2 == d && v2 < v) || (d2 == d && v2 == v && k2 < k)
}

/// The actors are numbered in order, have unique keys, and each is a
/// combination that the grouping function gave its key.
pub open spec fn actors_ok<F: Fn(&Driver, &Vehicle, &VehicleDetail) -> u64>(
    group_key: F,
    drivers: Seq<Driver>,
    vehicles: Seq<Vehicle>,
    actors: Seq<Actor>,
    keys: Seq<u64>,
) -> bool {
    &&& actors.len() == keys.len()
    &&& forall|i: int| 0 <= i < actors.len() ==> (#[trigger] actors[i]).id == i
    &&& forall|i: int, j: int| 0 <= i < j < keys.len() ==> #[trigger] keys[i] != #[trigger] keys[j]
    &&& forall|i: int|
        0 <= i < actors.len() ==> is_combination(
            drivers,
            vehicles,
            (#[trigger] actors[i]).driver as int,
            actors[i].vehicle as int,
            actors[i].detail as int,
        ) && group_key.ensures(
            (
                &drivers[actors[i].driver as int],
                &vehicles[actors[i].vehicle as int],
                &vehicles[actors[i].vehicle as int].details@[actors[i].detail as int],
            ),
            keys[i],
        )
}

fn find_key(keys: &Vec<u64>, key: u64) -> (r: Option<usize>)
    ensures
        match r {
            Some(i) => i < keys@.len() && keys@[i as int] == key,
            None => forall|i: int| 0 <= i < keys@.len() ==> keys@[i] != key,
        },
{
    let mut i: usize = 0;
    while i < keys.len()
        invariant
            i <= keys@.len(),
            forall|j: int| 0 <= j < i ==> keys@[j] != key,
        decreases keys@.len() - i,
    {
        if keys[i] == key {
            return Some(i);
        }
        i = i + 1;
    }
    None
}

impl Fleet {
    /// Builds the fleet. Every combination of driver, vehicle and vehicle
    /// detail gets a key from `group_key`; combinations with one key share one
    /// actor, the first such combination in driver, vehicle, detail order.
    pub fn new<F: Fn(&Driver, &Vehicle, &VehicleDetail) -> u64>(
        drivers: Vec<Driver>,
        vehicles: Vec<Vehicle>,
        group_key: F,
    ) -> (r: Fleet)
        requires
            forall|d: &Driver, v: &Vehicle, k: &VehicleDetail| group_key.requires((d, v, k)),
        ensures
            r.drivers == drivers,
            r.vehicles == vehicles,
            actors_ok(group_key, drivers@, vehicles@, r.actors@, r.actor_keys@),
            forall|d: int, v: int, k: int|
                is_combination(drivers@, vehicles@, d, v, k) ==> covered(
                    group_key,
                    drivers@,
                    vehicles@,
                    r.actor_keys@,
                    d,
                    v,
                    k,
                ),
    {
        let mut actors: Vec<Actor> = Vec::new();
        let mut keys: Vec<u64> = Vec::new();
        let mut d: usize = 0;
        while d < drivers.len()
            invariant
                d <= drivers@.len(),
                forall|d: &Driver, v: &Vehicle, k: &VehicleDetail| group_key.requires((d, v, k)),
                actors_ok(group_key, drivers@, vehicles@, actors@, keys@),
                forall|d2: int, v2: int, k2: int|
                    is_combination(drivers@, vehicles@, d2, v2, k2) && d2 < d ==> covered(
                        group_key,
                        drivers@,
                        vehicles@,
                        keys@,
                        d2,
                        v2,
                        k2,
                    ),
            decreases drivers@.len() - d,
        {
            let mut v: usize = 0;
            while v < vehicles.len()
                invariant
                    d < drivers@.len(),
                    v <= vehicles@.len(),
                    forall|d: &Driver, v: &Vehicle, k: &VehicleDetail| group_key.requires((d, v, k)),
                    actors_ok(group_key, drivers@, vehicles@, actors@, keys@),
                    forall|d2: int, v2: int, k2: int|
                        is_combination(drivers@, vehicles@, d2, v2, k2) && visited_before(
                            d2,
                            v2,
                            k2,
                            d as int,
                            v as int,
                            0,
                        ) ==> covered(group_key, drivers@, vehicles@, keys@, d2, v2, k2),
                decreases vehicles@.len() - v,
            {
                let mut k: usize = 0;
                while k < vehicles[v].details.len()
                    invariant
                        d < drivers@.len(),
                        v < vehicles@.len(),
                        k <= vehicles@[v as int].details@.len(),
                        forall|d: &Driver, v: &Vehicle, k: &VehicleDetail| group_key.requires((d, v, k)),
                        actors_ok(group_key, drivers@, vehicles@, actors@, keys@),
                        forall|d2: int, v2: int, k2: int|
                            is_combination(drivers@, vehicles@, d2, v2, k2) && visited_before(
                                d2,
                                v2,
                                k2,
                                d as int,
                                v as int,
                                k as int,
                            ) ==> covered(group_key, drivers@, vehicles@, keys@, d2, v2, k2),
                    decreases vehicles@[v as int].details@.len() - k,
                {
                    let key = group_key(&drivers[d], &vehicles[v], &vehicles[v].details[k]);
                    let ghost mut at: int = 0;
                    match find_key(&keys, key) {
                        Some(i) => {
                            proof {
                                at = i as int;
                            }
                        },
                        None => {
                            let ghost old_keys = keys@;
                            let ghost old_actors = actors@;
                            let id = actors.len();
                            actors.push(Actor { id, vehicle: v, driver: d, detail: k });
                            keys.push(key);
                            proof {
                                assert forall|d2: int, v2: int, k2: int|
                                    is_combination(drivers@, vehicles@, d2, v2, k2)
                                        && visited_before(
                                        d2,
                                        v2,
                                        k2,
                                        d as int,
                                        v as int,
                                        k as int,
                                    ) implies covered(
                                    group_key,
                                    drivers@,
                                    vehicles@,
                                    keys@,
                                    d2,
                                    v2,
                                    k2,
                                ) by {
                                    assert(covered(
                                        group_key,
                                        drivers@,
                                        vehicles@,
                                        old_keys,
                                        d2,
                                        v2,
                                        k2,
                                    ));
                                    let i = choose|i: int|
                                        0 <= i < old_keys.len() && group_key.ensures(
                                            (
                                                &drivers@[d2],
                                                &vehicles@[v2],
                                                &vehicles@[v2].details@[k2],
                                            ),
                                            #[trigger] old_keys[i],
                                        );
                                    assert(keys@[i] == old_keys[i]);
                                }
                                assert forall|i: int| 0 <= i < actors@.len() implies is_combination(
                                    drivers@,
                                    vehicles@,
                                    (#[trigger] actors@[i]).driver as int,
                                    actors@[i].vehicle as int,
                                    actors@[i].detail as int,
                                ) && group_key.ensures(
                                    (
                                        &drivers@[actors@[i].driver as int],
                                        &vehicles@[actors@[i].vehicle as int],
                                        &vehicles@[actors@[i].vehicle as int].details@[actors@[i].detail as int],
                                    ),
                                    keys@[i],
                                ) by {
                                    if i < old_actors.len() {
                                        assert(actors@[i] == old_actors[i]);
                                        assert(keys@[i] == old_keys[i]);
                                    }
                                }
                                at = old_keys.len() as int;
                            }
                        },
                    }
                    proof {
                        assert(0 <= at < keys@.len() && keys@[at] == key);
                        assert forall|d2: int, v2: int, k2: int|
                            is_combination(drivers@, vehicles@, d2, v2, k2) && visited_before(
                                d2,
                                v2,
                                k2,
                                d as int,
                                v as int,
                                k + 1,
                            ) implies covered(group_key, drivers@, vehicles@, keys@, d2, v2, k2) by {
                            if d2 == d && v2 == v && k2 == k {
                                assert(group_key.ensures(
                                    (&drivers@[d2], &vehicles@[v2], &vehicles@[v2].details@[k2]),
                                    keys@[at],
                                ));
                            } else {
                                assert(visited_before(d2, v2, k2, d as int, v as int, k as int));
                            }
                        }
                    }
                    k = k + 1;
                }
                assert forall|d2: int, v2: int, k2: int|
                    is_combination(drivers@, vehicles@, d2, v2, k2) && visited_before(
                        d2,
                        v2,
                        k2,
                        d as int,
                        v + 1,
                        0,
                    ) implies covered(group_key, drivers@, vehicles@, keys@, d2, v2, k2) by {
                    assert(visited_before(d2, v2, k2, d as int, v as int, k as int));
                }
                v = v + 1;
            }
            assert forall|d2: int, v2: int, k2: int|
                is_combination(drivers@, vehicles@, d2, v2, k2) && d2 < d + 1 implies covered(
                group_key,
                drivers@,
                vehicles@,
                keys@,
                d2,
                v2,
                k2,
            ) by {
                assert(visited_before(d2, v2, k2, d as int, v as int, 0));
            }
            d = d + 1;
        }
        Fleet { drivers, vehicles, actors, actor_keys: keys }
    }
}

} // verus!
