//! Finding the profile that is keyed by exactly the attached monitors.

use vstd::prelude::*;
use crate::config::{Config, ConfigEntry, Mode, MonConfig, Monitor, SingleConfig};
use crate::identity::{canonical, canonical_key, lemma_monitor_order_total, monitor_order};

verus! {

/// The profile that matched, with the wanted configuration of each attached
/// output that the profile names, in the order in which the outputs were given.
#[derive(Debug, PartialEq, Eq)]
pub struct ProfileMatch {
    pub name: String,
    pub fb_size: Mode,
    pub setup: Vec<(u32, MonConfig)>,
}

/// The identities of the attached monitors, in the order of their outputs.
pub open spec fn identities(attached: Seq<(u32, Monitor)>) -> Seq<Monitor> {
    Seq::new(attached.len(), |i: int| attached[i].1)
}

/// The index of the first entry at or after `from` whose key is `key`.
pub open spec fn find_profile(entries: Seq<ConfigEntry>, key: Seq<Monitor>, from: int) -> Option<int>
    decreases entries.len() - from,
{
    if from < 0 || from >= entries.len() {
        None
    } else if entries[from].key@ == key {
        Some(from)
    } else {
        find_profile(entries, key, from + 1)
    }
}

/// For each attached output whose monitor the profile names, in order, the
/// output and the configuration wanted for that monitor.
pub open spec fn output_setup(profile: SingleConfig, attached: Seq<(u32, Monitor)>) -> Seq<(u32, MonConfig)>
    decreases attached.len(),
{
    if attached.len() == 0 {
        Seq::empty()
    } else {
        let rest = output_setup(profile, attached.drop_last());
        match profile.position_of(attached.last().1) {
            Some(i) => rest.push((attached.last().0, profile.setup@[i].1)),
            None => rest,
        }
    }
}

/// The monitors that a profile names, in the order of its setup.
pub open spec fn monitors_of(profile: SingleConfig) -> Seq<Monitor> {
    Seq::new(profile.setup@.len(), |i: int| profile.setup@[i].0)
}

impl ConfigEntry {
    /// Files a profile under its key: the canonical form of the monitors
    /// that it names.
    pub fn new(profile: SingleConfig) -> (r: ConfigEntry)
        ensures
            r.profile == profile,
            r.key@ == canonical(monitors_of(profile)),
    {
        let mut monitors: Vec<Monitor> = Vec::new();
        let mut n: usize = 0;
        while n < profile.setup.len()
            invariant
                0 <= n <= profile.setup@.len(),
                monitors@ == monitors_of(profile).take(n as int),
            decreases profile.setup@.len() - n,
        {
            monitors.push(profile.setup[n].0);
            assert(monitors@ =~= monitors_of(profile).take(n + 1));
            n += 1;
        }
        assert(monitors@ =~= monitors_of(profile));
        ConfigEntry { key: canonical_key(&monitors), profile }
    }
}

/// No two entries of the profile set have the same key.
pub open spec fn distinct_keys(config: Config) -> bool {
    forall|i: int, j: int|
        0 <= i < j < config.entries@.len() ==> (#[trigger] config.entries@[i]).key@ != (
        #[trigger] config.entries@[j]).key@
}

fn same_key(a: &Vec<Monitor>, b: &Vec<Monitor>) -> (r: bool)
    ensures
        r == (a@ == b@),
{
    if a.len() != b.len() {
        return false;
    }
    let mut i: usize = 0;
    while i < a.len()
        invariant
            a@.len() == b@.len(),
            0 <= i <= a@.len(),
            forall|k: int| 0 <= k < i ==> a@[k] == b@[k],
        decreases a@.len() - i,
    {
        if a[i] != b[i] {
            return false;
        }
        i += 1;
    }
    assert(a@ =~= b@);
    true
}

fn collect_setup(profile: &SingleConfig, attached: &Vec<(u32, Monitor)>) -> (setup: Vec<(u32, MonConfig)>)
    ensures
        setup@ == output_setup(*profile, attached@),
{
    let mut setup: Vec<(u32, MonConfig)> = Vec::new();
    let mut k: usize = 0;
    while k < attached.len()
        invariant
            0 <= k <= attached@.len(),
            setup@ == output_setup(*profile, attached@.take(k as int)),
        decreases attached@.len() - k,
    {
        assert(attached@.take(k + 1).drop_last() == attached@.take(k as int));
        match profile.get(&attached[k].1) {
            Some(conf) => setup.push((attached[k].0, conf.clone())),
            None => {},
        }
        k += 1;
    }
    assert(attached@.take(attached@.len() as int) == attached@);
    setup
}

/// Finds the profile for the attached monitors. The key looked up is the
/// canonical form of their identities, and only an entry whose key equals it
/// matches. The result carries the profile's name and framebuffer size,
/// and the configuration of each attached output that the profile names.
pub fn get_config(config: &Config, attached: &Vec<(u32, Monitor)>) -> (r: Option<ProfileMatch>)
    ensures
        match find_profile(config.entries@, canonical(identities(attached@)), 0) {
            Some(i) => 0 <= i < config.entries@.len() && r.is_some() && r.unwrap().name
                == config.entries@[i].profile.name && r.unwrap().fb_size
                == config.entries@[i].profile.fb_size && r.unwrap().setup@ == output_setup(
                config.entries@[i].profile,
                attached@,
            ),
            None => r.is_none(),
        },
{
    let mut monitors: Vec<Monitor> = Vec::new();
    let mut n: usize = 0;
    while n < attached.len()
        invariant
            0 <= n <= attached@.len(),
            monitors@ == identities(attached@).take(n as int),
        decreases attached@.len() - n,
    {
        monitors.push(attached[n].1);
        assert(monitors@ =~= identities(attached@).take(n + 1));
        n += 1;
    }
    assert(monitors@ =~= identities(attached@));
    let key = canonical_key(&monitors);
    let mut e: usize = 0;
    while e < config.entries.len()
        invariant
            0 <= e <= config.entries@.len(),
            key@ == canonical(identities(attached@)),
            find_profile(config.entries@, key@, 0) == find_profile(config.entries@, key@, e as int),
        decreases config.entries@.len() - e,
    {
        if same_key(&config.entries[e].key, &key) {
            let profile = &config.entries[e].profile;
            let setup = collect_setup(profile, attached);
            return Some(ProfileMatch { name: profile.name.clone(), fb_size: profile.fb_size, setup });
        }
        e += 1;
    }
    None
}

/// What a lookup finds: an entry whose key is the one looked up, with none
/// before it that has this key; and nothing only where no entry has it.
pub proof fn lemma_find_profile(entries: Seq<ConfigEntry>, key: Seq<Monitor>, from: int)
    requires
        0 <= from,
    ensures
        match find_profile(entries, key, from) {
            Some(i) => from <= i < entries.len() && entries[i].key@ == key && forall|j: int|
                from <= j < i ==> (#[trigger] entries[j]).key@ != key,
            None => forall|j: int| from <= j < entries.len() ==> (#[trigger] entries[j]).key@ != key,
        },
    decreases entries.len() - from,
{
    if from < entries.len() && entries[from].key@ != key {
        lemma_find_profile(entries, key, from + 1);
    }
}

/// Where the canonical form of the attached identities equals the key of an
/// entry, and no two keys are the same, the lookup finds that entry.
pub proof fn lemma_exact_key_matches(config: Config, attached: Seq<(u32, Monitor)>, i: int)
    requires
        distinct_keys(config),
        0 <= i < config.entries@.len(),
        config.entries@[i].key@ == canonical(identities(attached)),
    ensures
        find_profile(config.entries@, canonical(identities(attached)), 0) == Some(i),
{
    lemma_find_profile(config.entries@, canonical(identities(attached)), 0);
}

/// Where the attached identities differ from every key in some identity or in
/// how often it occurs (one too many, one missing), the lookup finds nothing.
pub proof fn lemma_other_set_no_match(config: Config, attached: Seq<(u32, Monitor)>)
    requires
        forall|i: int|
            0 <= i < config.entries@.len() ==> (#[trigger] config.entries@[i]).key@.to_multiset()
                != identities(attached).to_multiset(),
    ensures
        find_profile(config.entries@, canonical(identities(attached)), 0).is_none(),
{
    let key = canonical(identities(attached));
    lemma_monitor_order_total();
    identities(attached).lemma_sort_by_ensures(monitor_order());
    lemma_find_profile(config.entries@, key, 0);
}

/// The order in which the monitors are attached does not matter: two lists
/// that hold the same identities, each as often, look up the same key.
pub proof fn lemma_key_ignores_order(a: Seq<Monitor>, b: Seq<Monitor>)
    requires
        a.to_multiset() == b.to_multiset(),
    ensures
        canonical(a) == canonical(b),
{
    lemma_monitor_order_total();
    a.lemma_sort_by_ensures(monitor_order());
    b.lemma_sort_by_ensures(monitor_order());
    vstd::seq_lib::lemma_sorted_unique(canonical(a), canonical(b), monitor_order());
}

/// A profile filed under its key is found whenever exactly its monitors
/// are attached, in whatever order.
pub proof fn lemma_own_monitors_match(profile: SingleConfig, attached: Seq<(u32, Monitor)>)
    requires
        identities(attached).to_multiset() == monitors_of(profile).to_multiset(),
    ensures
        canonical(identities(attached)) == canonical(monitors_of(profile)),
{
    lemma_key_ignores_order(identities(attached), monitors_of(profile));
}

} // verus!
