//! Audio I/O device bookkeeping and the initial graph configuration.
use crate::edge::EntityId;
use vstd::prelude::*;

verus! {

/// Information about an audio input or output device.
#[derive(Debug)]
pub struct DeviceInfo {
    /// The device's name.
    pub name: String,
    /// The number of channels the device expects.
    pub num_channels: u16,
    /// Whether this device is the default selection.
    pub is_default: bool,
}

/// Information about an audio input device.
pub type InputDeviceInfo = DeviceInfo;

/// Information about an audio output device.
pub type OutputDeviceInfo = DeviceInfo;

/// Two device records describe the same device state.
pub open spec fn same_device(a: DeviceInfo, b: DeviceInfo) -> bool {
    &&& a.name@ == b.name@
    &&& a.num_channels == b.num_channels
    &&& a.is_default == b.is_default
}

impl Clone for DeviceInfo {
    fn clone(&self) -> (c: Self)
        ensures
            c == *self,
    {
        DeviceInfo { name: self.name.clone(), num_channels: self.num_channels, is_default: self.is_default }
    }
}

impl DeviceInfo {
    /// Whether both records describe the same device state.
    pub fn same_as(&self, other: &DeviceInfo) -> (b: bool)
        ensures
            b == same_device(*self, *other),
    {
        self.name == other.name && self.num_channels == other.num_channels && self.is_default
            == other.is_default
    }
}

/// What to do with the device entities after the devices are fetched.
#[derive(Debug)]
pub enum DeviceAction {
    /// The device's entity is out of date: insert this record.
    Update { entity: EntityId, info: DeviceInfo },
    /// A new device: spawn an entity for it.
    Spawn { info: DeviceInfo },
    /// The device is no longer available: despawn its entity.
    Despawn { entity: EntityId },
}

/// The first known entity whose device has this name.
pub open spec fn first_named(known: Seq<(EntityId, DeviceInfo)>, name: Seq<char>) -> Option<
    (EntityId, DeviceInfo),
>
    decreases known.len(),
{
    if known.len() == 0 {
        None
    } else if known[0].1.name@ == name {
        Some(known[0])
    } else {
        first_named(known.drop_first(), name)
    }
}

/// Some available device has this name.
pub open spec fn has_named(available: Seq<DeviceInfo>, name: Seq<char>) -> bool {
    exists|i: int| 0 <= i < available.len() && #[trigger] available[i].name@ == name
}

/// The actions for the available devices, in order: a device matched by
/// name to a known entity is updated if it changed; an unmatched one is
/// spawned.
pub open spec fn arrival_actions(known: Seq<(EntityId, DeviceInfo)>, available: Seq<DeviceInfo>) -> Seq<
    DeviceAction,
>
    decreases available.len(),
{
    if available.len() == 0 {
        Seq::empty()
    } else {
        let rest = arrival_actions(known, available.drop_last());
        let d = available.last();
        match first_named(known, d.name@) {
            Some((e, old)) => if same_device(old, d) {
                rest
            } else {
                rest.push(DeviceAction::Update { entity: e, info: d })
            },
            None => rest.push(DeviceAction::Spawn { info: d }),
        }
    }
}

/// The despawns for the known entities whose device is gone, in order.
pub open spec fn departure_actions(known: Seq<(EntityId, DeviceInfo)>, available: Seq<DeviceInfo>) -> Seq<
    DeviceAction,
>
    decreases known.len(),
{
    if known.len() == 0 {
        Seq::empty()
    } else {
        let rest = departure_actions(known.drop_last(), available);
        if has_named(available, known.last().1.name@) {
            rest
        } else {
            rest.push(DeviceAction::Despawn { entity: known.last().0 })
        }
    }
}

/// The first known entry whose device has this name.
fn find_named(known: &[(EntityId, DeviceInfo)], name: &String) -> (r: Option<usize>)
    ensures
        match first_named(known@, name@) {
            Some(entry) => r matches Some(i) && i < known@.len() && known@[i as int] == entry,
            None => r is None,
        },
{
    let mut k: usize = 0;
    proof {
        assert(known@.skip(0) =~= known@);
    }
    while k < known.len()
        invariant
            k <= known@.len(),
            first_named(known@, name@) == first_named(known@.skip(k as int), name@),
        decreases known@.len() - k,
    {
        proof {
            assert(known@.skip(k as int).drop_first() =~= known@.skip(k + 1));
            assert(known@.skip(k as int)[0] == known@[k as int]);
        }
        if known[k].1.name == *name {
            return Some(k);
        }
        k = k + 1;
    }
    None
}

/// Whether some available device has this name.
fn any_named(available: &[DeviceInfo], name: &String) -> (b: bool)
    ensures
        b == has_named(available@, name@),
{
    let mut k: usize = 0;
    while k < available.len()
        invariant
            k <= available@.len(),
            forall|i: int| 0 <= i < k ==> available@[i].name@ != name@,
        decreases available@.len() - k,
    {
        if available[k].name == *name {
            return true;
        }
        k = k + 1;
    }
    false
}

/// Reconcile the device entities with the devices now available.
///
/// First, for each available device in order: if an entity of the same
/// name exists and its record differs, that entity gets the new record;
/// if none exists, a new entity is spawned. Then each known entity whose
/// device name is no longer available is despawned.
pub fn reconcile_devices(known: &[(EntityId, DeviceInfo)], available: &[DeviceInfo]) -> (actions: Vec<
    DeviceAction,
>)
    ensures
        actions@ == arrival_actions(known@, available@) + departure_actions(known@, available@),
        forall|k: int, i: int|
            0 <= k < available@.len() && is_first_named(known@, i, available@[k].name@) && record_changed(
                known@[i].1,
                available@[k],
            ) ==> #[trigger] actions@.contains(
                DeviceAction::Update { entity: known@[i].0, info: available@[k] },
            ),
        forall|k: int|
            0 <= k < available@.len() && no_known_named(known@, available@[k].name@)
                ==> #[trigger] actions@.contains(DeviceAction::Spawn { info: available@[k] }),
        forall|i: int|
            0 <= i < known@.len() && no_device_named(available@, known@[i].1.name@)
                ==> #[trigger] actions@.contains(DeviceAction::Despawn { entity: known@[i].0 }),
        forall|p: int|
            0 <= p < actions@.len() ==> justified_arrival(known@, available@, #[trigger] actions@[p])
                || justified_departure(known@, available@, actions@[p]),
        forall|p: int, q: int|
            0 <= p < q < actions@.len() && #[trigger] actions@[p] is Despawn ==> #[trigger] actions@[q] is Despawn,
        actions@.len() <= available@.len() + known@.len(),
{
    let mut actions: Vec<DeviceAction> = Vec::new();
    let mut k: usize = 0;
    while k < available.len()
        invariant
            k <= available@.len(),
            actions@ == arrival_actions(known@, available@.subrange(0, k as int)),
        decreases available@.len() - k,
    {
        let d = &available[k];
        proof {
            assert(available@.subrange(0, k + 1).drop_last() =~= available@.subrange(0, k as int));
            assert(available@.subrange(0, k + 1).last() == available@[k as int]);
        }
        match find_named(known, &d.name) {
            Some(i) => {
                if !known[i].1.same_as(d) {
                    actions.push(DeviceAction::Update { entity: known[i].0, info: d.clone() });
                }
            },
            None => {
                actions.push(DeviceAction::Spawn { info: d.clone() });
            },
        }
        k = k + 1;
    }
    proof {
        assert(available@.subrange(0, available@.len() as int) =~= available@);
    }
    let ghost arrivals = actions@;
    let mut j: usize = 0;
    while j < known.len()
        invariant
            j <= known@.len(),
            actions@ == arrivals + departure_actions(known@.subrange(0, j as int), available@),
        decreases known@.len() - j,
    {
        proof {
            assert(known@.subrange(0, j + 1).drop_last() =~= known@.subrange(0, j as int));
            assert(known@.subrange(0, j + 1).last() == known@[j as int]);
        }
        if !any_named(available, &known[j].1.name) {
            actions.push(DeviceAction::Despawn { entity: known[j].0 });
            proof {
                assert(actions@ =~= arrivals + departure_actions(known@.subrange(0, j + 1), available@));
            }
        }
        j = j + 1;
    }
    proof {
        assert(known@.subrange(0, known@.len() as int) =~= known@);
        lemma_reconcile(known@, available@);
    }
    actions
}

/// The device name to select when restarting the stream.
///
/// A selected device that is no longer available is replaced by the
/// default device, if there is one, or else by no explicit selection.
/// Any other selection is kept.
pub open spec fn reselected(current: Option<String>, available: Seq<DeviceInfo>) -> Option<Seq<char>> {
    match current {
        Some(name) => if has_named(available, name@) {
            Some(name@)
        } else {
            match first_default(available) {
                Some(i) => Some(available[i].name@),
                None => None,
            }
        },
        None => None,
    }
}

/// The index of the first default device.
pub open spec fn first_default(available: Seq<DeviceInfo>) -> Option<int>
    decreases available.len(),
{
    if available.len() == 0 {
        None
    } else if available[0].is_default {
        Some(0)
    } else {
        match first_default(available.drop_first()) {
            Some(i) => Some(i + 1),
            None => None,
        }
    }
}

/// Choose the device to use after a restart request.
pub fn reselect_device(current: Option<String>, available: &[DeviceInfo]) -> (r: Option<String>)
    ensures
        match r {
            Some(n) => reselected(current, available@) == Some(n@),
            None => reselected(current, available@) is None,
        },
        current is None ==> r is None,
        current matches Some(n) ==> ((exists|i: int| 0 <= i < available@.len() && available@[i].name@ == n@)
            ==> (r matches Some(m) && m@ == n@)),
        current matches Some(n) ==> (no_device_named(available@, n@) ==> forall|j: int|
            #[trigger] is_first_default(available@, j) ==> (r matches Some(m) && m@ == available@[j].name@)),
        current matches Some(n) ==> (no_device_named(available@, n@) && (forall|j: int|
            0 <= j < available@.len() ==> !available@[j].is_default) ==> r is None),
{
    proof {
        lemma_reselect(current, available@);
    }
    match current {
        None => None,
        Some(name) => {
            if any_named(available, &name) {
                return Some(name);
            }
            let mut k: usize = 0;
            while k < available.len()
                invariant
                    k <= available@.len(),
                    current == Some(name),
                    !has_named(available@, name@),
                    forall|i: int| 0 <= i < k ==> !available@[i].is_default,
                decreases available@.len() - k,
            {
                if available[k].is_default {
                    proof {
                        lemma_first_default(available@, k as int);
                    }
                    let chosen = available[k].name.clone();
                    proof {
                        assert(chosen == available@[k as int].name);
                        assert(reselected(current, available@) == Some(available@[k as int].name@));
                    }
                    return Some(chosen);
                }
                k = k + 1;
            }
            proof {
                lemma_no_default(available@);
            }
            None
        },
    }
}

/// Device `j` is the first available device flagged as default.
pub open spec fn is_first_default(available: Seq<DeviceInfo>, j: int) -> bool {
    &&& 0 <= j < available.len()
    &&& available[j].is_default
    &&& forall|i: int| 0 <= i < j ==> !available[i].is_default
}

/// Restarting the stream keeps no explicit selection as it is, keeps a
/// selected device that is still available (at any position), and
/// otherwise selects the first default device, or nothing if no device
/// is flagged as default.
pub proof fn lemma_reselect(current: Option<String>, available: Seq<DeviceInfo>)
    ensures
        current is None ==> reselected(current, available) is None,
        current matches Some(n) ==> ((exists|i: int| 0 <= i < available.len() && available[i].name@ == n@)
            ==> reselected(current, available) == Some(n@)),
        current matches Some(n) ==> (no_device_named(available, n@) ==> forall|j: int|
            #[trigger] is_first_default(available, j) ==> reselected(current, available) == Some(
                available[j].name@,
            )),
        current matches Some(n) ==> (no_device_named(available, n@) && (forall|j: int|
            0 <= j < available.len() ==> !available[j].is_default) ==> reselected(current, available) is None),
{
    if let Some(n) = current {
        if exists|i: int| 0 <= i < available.len() && available[i].name@ == n@ {
            let i = choose|i: int| 0 <= i < available.len() && available[i].name@ == n@;
            assert(has_named(available, n@)) by {
                assert(available[i].name@ == n@);
            }
        }
        if no_device_named(available, n@) {
            assert(!has_named(available, n@));
            assert forall|j: int| #[trigger] is_first_default(available, j) implies reselected(current, available)
                == Some(available[j].name@) by {
                lemma_first_default(available, j);
            }
            if forall|j: int| 0 <= j < available.len() ==> !available[j].is_default {
                lemma_no_default(available);
            }
        }
    }
}

/// The first default device is the first index with the flag set.
proof fn lemma_first_default(s: Seq<DeviceInfo>, k: int)
    requires
        0 <= k < s.len(),
        s[k].is_default,
        forall|i: int| 0 <= i < k ==> !s[i].is_default,
    ensures
        first_default(s) == Some(k),
    decreases s.len(),
{
    if k > 0 {
        lemma_first_default(s.drop_first(), k - 1);
    }
}

/// Without a flagged device there is no default.
proof fn lemma_no_default(s: Seq<DeviceInfo>)
    requires
        forall|i: int| 0 <= i < s.len() ==> !s[i].is_default,
    ensures
        first_default(s) is None,
    decreases s.len(),
{
    if s.len() > 0 {
        lemma_no_default(s.drop_first());
    }
}

/// Entry `i` holds the first known entity whose device has this name.
pub open spec fn is_first_named(known: Seq<(EntityId, DeviceInfo)>, i: int, name: Seq<char>) -> bool {
    &&& 0 <= i < known.len()
    &&& known[i].1.name@ == name
    &&& forall|j: int| 0 <= j < i ==> known[j].1.name@ != name
}

/// No known entity's device has this name.
pub open spec fn no_known_named(known: Seq<(EntityId, DeviceInfo)>, name: Seq<char>) -> bool {
    forall|i: int| 0 <= i < known.len() ==> known[i].1.name@ != name
}

/// No device of the list has this name.
pub open spec fn no_device_named(devices: Seq<DeviceInfo>, name: Seq<char>) -> bool {
    forall|i: int| 0 <= i < devices.len() ==> devices[i].name@ != name
}

/// The two records differ in at least one field.
pub open spec fn record_changed(old: DeviceInfo, new: DeviceInfo) -> bool {
    ||| old.name@ != new.name@
    ||| old.num_channels != new.num_channels
    ||| old.is_default != new.is_default
}

/// The first entry of a given name is found, if there is one.
proof fn lemma_first_named(known: Seq<(EntityId, DeviceInfo)>, name: Seq<char>)
    ensures
        first_named(known, name) is None <==> no_known_named(known, name),
        first_named(known, name) matches Some(x) ==> exists|i: int|
            #[trigger] is_first_named(known, i, name) && known[i] == x,
    decreases known.len(),
{
    if known.len() > 0 {
        let rest = known.drop_first();
        lemma_first_named(rest, name);
        if known[0].1.name@ == name {
            assert(is_first_named(known, 0, name));
        } else {
            if first_named(rest, name) is None {
                assert forall|i: int| 0 <= i < known.len() implies known[i].1.name@ != name by {
                    if i > 0 {
                        assert(known[i] == rest[i - 1]);
                    }
                }
            } else {
                let x = first_named(rest, name)->0;
                let i = choose|i: int| #[trigger] is_first_named(rest, i, name) && rest[i] == x;
                assert forall|j: int| 0 <= j < i + 1 implies known[j].1.name@ != name by {
                    if j > 0 {
                        assert(known[j] == rest[j - 1]);
                    }
                }
                assert(is_first_named(known, i + 1, name));
                assert(!no_known_named(known, name)) by {
                    assert(known[i + 1].1.name@ == name);
                }
            }
        }
    }
}

/// Only one entry is the first of a name.
proof fn lemma_first_named_unique(known: Seq<(EntityId, DeviceInfo)>, i: int, j: int, name: Seq<char>)
    requires
        is_first_named(known, i, name),
        is_first_named(known, j, name),
    ensures
        i == j,
{
}

/// What an action produced for the available devices stands for: an
/// update of the first entity of the device's name, whose record
/// changed, or the spawn of a device no entity has.
pub open spec fn justified_arrival(
    known: Seq<(EntityId, DeviceInfo)>,
    available: Seq<DeviceInfo>,
    a: DeviceAction,
) -> bool {
    match a {
        DeviceAction::Update { entity, info } => exists|k: int, i: int|
            0 <= k < available.len() && info == #[trigger] available[k] && #[trigger] is_first_named(
                known,
                i,
                info.name@,
            ) && known[i].0 == entity && record_changed(known[i].1, info),
        DeviceAction::Spawn { info } => exists|k: int|
            0 <= k < available.len() && info == #[trigger] available[k] && no_known_named(
                known,
                info.name@,
            ),
        DeviceAction::Despawn { .. } => false,
    }
}

/// What an action produced for the known entities stands for: the
/// despawn of an entity whose device name no available device has.
pub open spec fn justified_departure(
    known: Seq<(EntityId, DeviceInfo)>,
    available: Seq<DeviceInfo>,
    a: DeviceAction,
) -> bool {
    match a {
        DeviceAction::Despawn { entity } => exists|i: int|
            0 <= i < known.len() && #[trigger] known[i].0 == entity && no_device_named(
                available,
                known[i].1.name@,
            ),
        _ => false,
    }
}

proof fn lemma_arrivals(known: Seq<(EntityId, DeviceInfo)>, available: Seq<DeviceInfo>)
    ensures
        forall|k: int, i: int|
            0 <= k < available.len() && is_first_named(known, i, available[k].name@) && record_changed(
                known[i].1,
                available[k],
            ) ==> #[trigger] arrival_actions(known, available).contains(
                DeviceAction::Update { entity: known[i].0, info: available[k] },
            ),
        forall|k: int|
            0 <= k < available.len() && no_known_named(known, available[k].name@)
                ==> #[trigger] arrival_actions(known, available).contains(
                DeviceAction::Spawn { info: available[k] },
            ),
        forall|a: DeviceAction| #[trigger]
            arrival_actions(known, available).contains(a) ==> justified_arrival(known, available, a),
    decreases available.len(),
{
    if available.len() > 0 {
        let rest_av = available.drop_last();
        lemma_arrivals(known, rest_av);
        let rest = arrival_actions(known, rest_av);
        let res = arrival_actions(known, available);
        let last = available.len() - 1;
        let d = available[last];
        assert(d == available.last());
        lemma_first_named(known, d.name@);
        assert forall|x: DeviceAction| rest.contains(x) implies res.contains(x) by {
            let p = choose|p: int| 0 <= p < rest.len() && rest[p] == x;
            assert(res[p] == x);
        }
        assert forall|k: int, i: int|
            0 <= k < available.len() && is_first_named(known, i, available[k].name@) && record_changed(
                known[i].1,
                available[k],
            ) implies #[trigger] res.contains(DeviceAction::Update { entity: known[i].0, info: available[k] }) by {
            if k < last {
                assert(rest_av[k] == available[k]);
                assert(rest.contains(DeviceAction::Update { entity: known[i].0, info: rest_av[k] }));
            } else {
                let x = first_named(known, d.name@)->0;
                let i2 = choose|i2: int| #[trigger] is_first_named(known, i2, d.name@) && known[i2] == x;
                lemma_first_named_unique(known, i, i2, d.name@);
                assert(res[res.len() - 1] == DeviceAction::Update { entity: known[i].0, info: d });
            }
        }
        assert forall|k: int|
            0 <= k < available.len() && no_known_named(known, available[k].name@) implies #[trigger] res.contains(
                DeviceAction::Spawn { info: available[k] },
            ) by {
            if k < last {
                assert(rest_av[k] == available[k]);
                assert(rest.contains(DeviceAction::Spawn { info: rest_av[k] }));
            } else {
                assert(res[res.len() - 1] == DeviceAction::Spawn { info: d });
            }
        }
        assert forall|a: DeviceAction| #[trigger] res.contains(a) implies justified_arrival(known, available, a) by {
            let p = choose|p: int| 0 <= p < res.len() && res[p] == a;
            if p < rest.len() && res[p] == rest[p] {
                assert(rest.contains(a));
                assert(justified_arrival(known, rest_av, a));
                match a {
                    DeviceAction::Update { entity, info } => {
                        let (k, i) = choose|k: int, i: int|
                            0 <= k < rest_av.len() && info == #[trigger] rest_av[k] && #[trigger] is_first_named(
                                known,
                                i,
                                info.name@,
                            ) && known[i].0 == entity && record_changed(known[i].1, info);
                        assert(available[k] == rest_av[k]);
                        assert(justified_arrival(known, available, a));
                    },
                    DeviceAction::Spawn { info } => {
                        let k = choose|k: int|
                            0 <= k < rest_av.len() && info == #[trigger] rest_av[k] && no_known_named(
                                known,
                                info.name@,
                            );
                        assert(available[k] == rest_av[k]);
                    },
                    DeviceAction::Despawn { .. } => {},
                }
            } else {
                assert(p == rest.len());
                match first_named(known, d.name@) {
                    Some(x) => {
                        let i = choose|i: int| #[trigger] is_first_named(known, i, d.name@) && known[i] == x;
                        assert(!same_device(x.1, d));
                        assert(a == DeviceAction::Update { entity: x.0, info: d });
                        assert(record_changed(known[i].1, d));
                        assert(d == available[last]);
                        assert(is_first_named(known, i, d.name@));
                        if let DeviceAction::Update { entity, info } = a {
                            assert(info == d && entity == x.0);
                            assert(is_first_named(known, i, info.name@));
                            assert(info == available[last]);
                        }
                        assert(justified_arrival(known, available, a));
                    },
                    None => {
                        assert(a == DeviceAction::Spawn { info: d });
                        assert(d == available[last]);
                        assert(no_known_named(known, d.name@));
                        assert(justified_arrival(known, available, a));
                    },
                }
            }
        }
    }
}

proof fn lemma_departures(known: Seq<(EntityId, DeviceInfo)>, available: Seq<DeviceInfo>)
    ensures
        forall|i: int|
            0 <= i < known.len() && no_device_named(available, known[i].1.name@)
                ==> #[trigger] departure_actions(known, available).contains(
                DeviceAction::Despawn { entity: known[i].0 },
            ),
        forall|a: DeviceAction| #[trigger]
            departure_actions(known, available).contains(a) ==> justified_departure(known, available, a),
    decreases known.len(),
{
    if known.len() > 0 {
        let rest_k = known.drop_last();
        lemma_departures(rest_k, available);
        let rest = departure_actions(rest_k, available);
        let res = departure_actions(known, available);
        let last = known.len() - 1;
        assert(known.last() == known[last]);
        assert(has_named(available, known[last].1.name@) <==> !no_device_named(available, known[last].1.name@));
        assert forall|x: DeviceAction| rest.contains(x) implies res.contains(x) by {
            let p = choose|p: int| 0 <= p < rest.len() && rest[p] == x;
            assert(res[p] == x);
        }
        assert forall|i: int|
            0 <= i < known.len() && no_device_named(available, known[i].1.name@) implies #[trigger] res.contains(
                DeviceAction::Despawn { entity: known[i].0 },
            ) by {
            if i < last {
                assert(rest_k[i] == known[i]);
                assert(rest.contains(DeviceAction::Despawn { entity: rest_k[i].0 }));
            } else {
                assert(res[res.len() - 1] == DeviceAction::Despawn { entity: known[i].0 });
            }
        }
        assert forall|a: DeviceAction| #[trigger] res.contains(a) implies justified_departure(known, available, a) by {
            let p = choose|p: int| 0 <= p < res.len() && res[p] == a;
            if p < rest.len() && res[p] == rest[p] {
                assert(rest.contains(a));
                assert(justified_departure(rest_k, available, a));
                if let DeviceAction::Despawn { entity } = a {
                    let i = choose|i: int|
                        0 <= i < rest_k.len() && #[trigger] rest_k[i].0 == entity && no_device_named(
                            available,
                            rest_k[i].1.name@,
                        );
                    assert(known[i] == rest_k[i]);
                }
            } else {
                assert(known[last].0 == known[last].0);
            }
        }
    }
}

/// Each available device yields at most one action, and each known
/// entity at most one.
proof fn lemma_action_counts(known: Seq<(EntityId, DeviceInfo)>, available: Seq<DeviceInfo>)
    ensures
        arrival_actions(known, available).len() <= available.len(),
        departure_actions(known, available).len() <= known.len(),
    decreases available.len() + known.len(),
{
    if available.len() > 0 {
        lemma_action_counts(known, available.drop_last());
    }
    if known.len() > 0 {
        lemma_action_counts(known.drop_last(), available);
    }
}

/// Reconciling the device entities with the available devices:
/// - every entity that is the first of its device's name and whose
///   record differs from the available device in any field is updated
///   with the available record;
/// - every available device whose name no entity has is spawned;
/// - every entity whose device name no available device has is despawned;
/// - no other action is produced, every despawn comes after all updates
///   and spawns, and there are no more actions than devices and
///   entities together.
pub proof fn lemma_reconcile(known: Seq<(EntityId, DeviceInfo)>, available: Seq<DeviceInfo>)
    ensures
        ({
            let actions = arrival_actions(known, available) + departure_actions(known, available);
            &&& forall|k: int, i: int|
                0 <= k < available.len() && is_first_named(known, i, available[k].name@)
                    && record_changed(known[i].1, available[k]) ==> #[trigger] actions.contains(
                    DeviceAction::Update { entity: known[i].0, info: available[k] },
                )
            &&& forall|k: int|
                0 <= k < available.len() && no_known_named(known, available[k].name@)
                    ==> #[trigger] actions.contains(DeviceAction::Spawn { info: available[k] })
            &&& forall|i: int|
                0 <= i < known.len() && no_device_named(available, known[i].1.name@)
                    ==> #[trigger] actions.contains(DeviceAction::Despawn { entity: known[i].0 })
            &&& forall|p: int|
                0 <= p < actions.len() ==> justified_arrival(known, available, #[trigger] actions[p])
                    || justified_departure(known, available, actions[p])
            &&& forall|p: int, q: int|
                0 <= p < q < actions.len() && #[trigger] actions[p] is Despawn ==> #[trigger] actions[q] is Despawn
            &&& actions.len() <= available.len() + known.len()
        }),
{
    lemma_action_counts(known, available);
    lemma_arrivals(known, available);
    lemma_departures(known, available);
    let arr = arrival_actions(known, available);
    let dep = departure_actions(known, available);
    let actions = arr + dep;
    assert forall|x: DeviceAction| arr.contains(x) implies actions.contains(x) by {
        let p = choose|p: int| 0 <= p < arr.len() && arr[p] == x;
        assert(actions[p] == x);
    }
    assert forall|x: DeviceAction| dep.contains(x) implies actions.contains(x) by {
        let p = choose|p: int| 0 <= p < dep.len() && dep[p] == x;
        assert(actions[arr.len() + p] == x);
    }
    assert forall|p: int| 0 <= p < actions.len() implies justified_arrival(known, available, #[trigger] actions[p])
        || justified_departure(known, available, actions[p]) by {
        if p < arr.len() {
            assert(arr.contains(arr[p]));
        } else {
            assert(dep.contains(dep[p - arr.len()]));
        }
    }
    assert forall|p: int, q: int|
        0 <= p < q < actions.len() && #[trigger] actions[p] is Despawn implies #[trigger] actions[q] is Despawn by {
        if p < arr.len() {
            assert(arr.contains(arr[p]));
        }
        assert(dep.contains(dep[q - arr.len()]));
    }
}

/// The initial audio graph configuration.
#[derive(Debug, Clone, Copy, PartialEq, Eq, Structural)]
pub enum GraphConfiguration {
    /// The default game template: sampler pools and an effects bus
    /// feeding the main bus, which feeds a limiter.
    Game,
    /// The main bus with the default pool and the dynamic bus.
    Minimal,
    /// A completely empty graph.
    Empty,
}

impl Default for GraphConfiguration {
    fn default() -> (c: Self)
        ensures
            c == GraphConfiguration::Game,
    {
        GraphConfiguration::Game
    }
}

/// A node spawned when the audio graph is set up, or the graph output.
#[derive(Debug, Clone, Copy, PartialEq, Eq, Structural)]
pub enum GraphNode {
    /// The main bus, through which all audio passes.
    MainBus,
    /// The limiter after the main bus.
    Limiter,
    /// The bus for sound effects.
    SfxBus,
    /// The bus that dynamic sampler pools feed.
    DynamicBus,
    /// The default sampler pool.
    DefaultPool,
    /// The sampler pool with spatial processing.
    SpatialPool,
    /// The sampler pool for music.
    MusicPool,
    /// The audio graph's output.
    Output,
}

/// The nodes spawned for a configuration, in order, each with the node
/// it is explicitly connected to. A node without an explicit connection
/// is connected to the main bus automatically.
pub open spec fn graph_plan_spec(config: GraphConfiguration) -> Seq<(GraphNode, Option<GraphNode>)> {
    match config {
        GraphConfiguration::Game => seq![
            (GraphNode::MainBus, Some(GraphNode::Limiter)),
            (GraphNode::Limiter, Some(GraphNode::Output)),
            (GraphNode::SfxBus, None),
            (GraphNode::DynamicBus, Some(GraphNode::SfxBus)),
            (GraphNode::DefaultPool, Some(GraphNode::SfxBus)),
            (GraphNode::SpatialPool, Some(GraphNode::SfxBus)),
            (GraphNode::MusicPool, None),
        ],
        GraphConfiguration::Minimal => seq![
            (GraphNode::MainBus, Some(GraphNode::Output)),
            (GraphNode::DynamicBus, None),
            (GraphNode::DefaultPool, None),
        ],
        GraphConfiguration::Empty => seq![],
    }
}

/// The audio node a planned entity carries.
#[derive(Debug, Clone, Copy, PartialEq, Eq, Structural)]
pub enum NodeKind {
    /// A volume node, as on every bus.
    Volume,
    /// A limiter node.
    Limiter,
    /// A sampler pool, whose sample players carry effects.
    SamplerPool,
    /// The audio graph's own output node.
    GraphOutput,
}

/// An effect applied to every sample player of a pool.
#[derive(Debug, Clone, Copy, PartialEq, Eq, Structural)]
pub enum SampleEffect {
    /// A volume node.
    Volume,
    /// A basic spatial-audio node.
    SpatialBasic,
}

/// The node each planned entity carries.
pub open spec fn node_kind_spec(node: GraphNode) -> NodeKind {
    match node {
        GraphNode::MainBus | GraphNode::SfxBus | GraphNode::DynamicBus => NodeKind::Volume,
        GraphNode::Limiter => NodeKind::Limiter,
        GraphNode::DefaultPool | GraphNode::SpatialPool | GraphNode::MusicPool => NodeKind::SamplerPool,
        GraphNode::Output => NodeKind::GraphOutput,
    }
}

/// The effects on each sample player of a planned pool; none for
/// anything that is not a pool.
pub open spec fn pool_effects_spec(node: GraphNode) -> Seq<SampleEffect> {
    match node {
        GraphNode::DefaultPool | GraphNode::MusicPool => seq![SampleEffect::Volume],
        GraphNode::SpatialPool => seq![SampleEffect::Volume, SampleEffect::SpatialBasic],
        _ => seq![],
    }
}

/// The node a planned entity carries.
pub fn node_kind(node: GraphNode) -> (k: NodeKind)
    ensures
        k == node_kind_spec(node),
{
    match node {
        GraphNode::MainBus | GraphNode::SfxBus | GraphNode::DynamicBus => NodeKind::Volume,
        GraphNode::Limiter => NodeKind::Limiter,
        GraphNode::DefaultPool | GraphNode::SpatialPool | GraphNode::MusicPool => NodeKind::SamplerPool,
        GraphNode::Output => NodeKind::GraphOutput,
    }
}

/// The effects on each sample player of a planned pool.
pub fn pool_effects(node: GraphNode) -> (effects: Vec<SampleEffect>)
    ensures
        effects@ == pool_effects_spec(node),
{
    let mut effects: Vec<SampleEffect> = Vec::new();
    match node {
        GraphNode::DefaultPool | GraphNode::MusicPool => {
            effects.push(SampleEffect::Volume);
        },
        GraphNode::SpatialPool => {
            effects.push(SampleEffect::Volume);
            effects.push(SampleEffect::SpatialBasic);
        },
        _ => {},
    }
    proof {
        assert(effects@ =~= pool_effects_spec(node));
    }
    effects
}

/// The nodes to spawn when the graph is set up, with their explicit
/// connections.
pub fn graph_plan(config: GraphConfiguration) -> (plan: Vec<(GraphNode, Option<GraphNode>)>)
    ensures
        plan@ == graph_plan_spec(config),
{
    let mut plan: Vec<(GraphNode, Option<GraphNode>)> = Vec::new();
    match config {
        GraphConfiguration::Game => {
            plan.push((GraphNode::MainBus, Some(GraphNode::Limiter)));
            plan.push((GraphNode::Limiter, Some(GraphNode::Output)));
            plan.push((GraphNode::SfxBus, None));
            plan.push((GraphNode::DynamicBus, Some(GraphNode::SfxBus)));
            plan.push((GraphNode::DefaultPool, Some(GraphNode::SfxBus)));
            plan.push((GraphNode::SpatialPool, Some(GraphNode::SfxBus)));
            plan.push((GraphNode::MusicPool, None));
        },
        GraphConfiguration::Minimal => {
            plan.push((GraphNode::MainBus, Some(GraphNode::Output)));
            plan.push((GraphNode::DynamicBus, None));
            plan.push((GraphNode::DefaultPool, None));
        },
        GraphConfiguration::Empty => {},
    }
    proof {
        assert(plan@ =~= graph_plan_spec(config));
    }
    plan
}

/// Where a node of the plan sends its audio: its explicit connection,
/// or else the main bus. Nodes outside the plan send nowhere.
pub open spec fn downstream(plan: Seq<(GraphNode, Option<GraphNode>)>, node: GraphNode) -> Option<
    GraphNode,
>
    decreases plan.len(),
{
    if plan.len() == 0 {
        None
    } else if plan[0].0 == node {
        match plan[0].1 {
            Some(target) => Some(target),
            None => Some(GraphNode::MainBus),
        }
    } else {
        downstream(plan.drop_first(), node)
    }
}

/// Following the plan from `node` reaches the graph output within
/// `steps` connections.
pub open spec fn reaches_output(
    plan: Seq<(GraphNode, Option<GraphNode>)>,
    node: GraphNode,
    steps: nat,
) -> bool
    decreases steps,
{
    if node == GraphNode::Output {
        true
    } else if steps == 0 {
        false
    } else {
        match downstream(plan, node) {
            Some(next) => reaches_output(plan, next, (steps - 1) as nat),
            None => false,
        }
    }
}

/// In every configuration, the audio of every spawned node reaches the
/// graph output, and every configuration but the empty one spawns the
/// main bus.
pub proof fn lemma_plan_reaches_output(config: GraphConfiguration)
    ensures
        forall|i: int|
            0 <= i < graph_plan_spec(config).len() ==> reaches_output(
                graph_plan_spec(config),
                #[trigger] graph_plan_spec(config)[i].0,
                4,
            ),
        config != GraphConfiguration::Empty ==> graph_plan_spec(config)[0].0 == GraphNode::MainBus,
{
    let plan = graph_plan_spec(config);
    reveal_with_fuel(downstream, 8);
    reveal_with_fuel(reaches_output, 5);
    match config {
        GraphConfiguration::Game => {
            assert(reaches_output(plan, GraphNode::Limiter, 1));
            assert(reaches_output(plan, GraphNode::MainBus, 2));
            assert(reaches_output(plan, GraphNode::SfxBus, 3));
            assert(reaches_output(plan, GraphNode::MusicPool, 3));
            assert(reaches_output(plan, GraphNode::DynamicBus, 4));
            assert(reaches_output(plan, GraphNode::DefaultPool, 4));
            assert(reaches_output(plan, GraphNode::SpatialPool, 4));
        },
        GraphConfiguration::Minimal => {
            assert(reaches_output(plan, GraphNode::MainBus, 1));
            assert(reaches_output(plan, GraphNode::DynamicBus, 2));
            assert(reaches_output(plan, GraphNode::DefaultPool, 2));
        },
        GraphConfiguration::Empty => {},
    }
    assert forall|i: int| 0 <= i < plan.len() implies reaches_output(plan, #[trigger] plan[i].0, 4) by {
        lemma_reaches_output_monotone(plan, plan[i].0, 2, 4);
        lemma_reaches_output_monotone(plan, plan[i].0, 3, 4);
    }
}

/// Reaching the output within some number of connections means
/// reaching it within any larger number.
proof fn lemma_reaches_output_monotone(
    plan: Seq<(GraphNode, Option<GraphNode>)>,
    node: GraphNode,
    fewer: nat,
    more: nat,
)
    requires
        fewer <= more,
    ensures
        reaches_output(plan, node, fewer) ==> reaches_output(plan, node, more),
    decreases fewer,
{
    if node != GraphNode::Output && fewer > 0 {
        if let Some(next) = downstream(plan, node) {
            lemma_reaches_output_monotone(plan, next, (fewer - 1) as nat, (more - 1) as nat);
        }
    }
}

} // verus!
