use vstd::prelude::*;

verus! {

/// What the registry records of a sensor: the sensor itself and its
/// sampling rate.
pub struct SensorInfo<S> {
    pub sensor: S,
    pub rate: u32,
}

/// Sensors by id; registering an id again replaces what it recorded.
pub struct SensorRegistry<S> {
    ids: Vec<String>,
    infos: Vec<SensorInfo<S>>,
}

impl<S> SensorRegistry<S> {
    /// The registered ids, in order of first registration.
    pub closed spec fn ids(&self) -> Seq<Seq<char>> {
        self.ids@.map_values(|id: String| id@)
    }

    /// What is recorded for each id, in the order of `ids`.
    pub closed spec fn infos(&self) -> Seq<SensorInfo<S>> {
        self.infos@
    }

    /// The registry's invariant: one record per id, and no id twice.
    pub closed spec fn wf(&self) -> bool {
        &&& self.ids@.len() == self.infos@.len()
        &&& forall|i: int, j: int|
            0 <= i < j < self.ids@.len() ==> (#[trigger] self.ids@[i])@ != (#[trigger] self.ids@[j])@
    }

    /// The registry as a map from id to record.
    pub open spec fn entries(&self) -> Map<Seq<char>, SensorInfo<S>> {
        Map::new(
            |k: Seq<char>| self.ids().contains(k),
            |k: Seq<char>| self.infos()[self.ids().index_of(k)],
        )
    }

    /// An empty registry.
    pub fn new() -> (r: Self)
        ensures
            r.wf(),
            r.ids() == Seq::<Seq<char>>::empty(),
            r.infos() == Seq::<SensorInfo<S>>::empty(),
    {
        let r = SensorRegistry { ids: Vec::new(), infos: Vec::new() };
        proof {
            assert(r.ids() =~= Seq::<Seq<char>>::empty());
        }
        r
    }

    /// Records `info` under `id`: an id seen before keeps its place and gets
    /// the new record; a new id comes last.
    pub fn insert(&mut self, id: String, info: SensorInfo<S>)
        requires
            old(self).wf(),
        ensures
            final(self).wf(),
            old(self).ids().contains(id@) ==> {
                &&& final(self).ids() == old(self).ids()
                &&& forall|i: int|
                    0 <= i < old(self).ids().len() && old(self).ids()[i] == id@ ==> final(self).infos() == old(self).infos().update(i, info)
            },
            !old(self).ids().contains(id@) ==> {
                &&& final(self).ids() == old(self).ids().push(id@)
                &&& final(self).infos() == old(self).infos().push(info)
            },
    {
        let n = self.ids.len();
        let mut i: usize = 0;
        while i < n
            invariant
                n == self.ids@.len(),
                self.wf(),
                *self == *old(self),
                i <= n,
                forall|j: int| 0 <= j < i ==> (#[trigger] self.ids@[j])@ != id@,
            decreases n - i,
        {
            if self.ids[i] == id {
                let ghost before = self.infos@;
                self.infos.set(i, info);
                proof {
                    assert(old(self).ids()[i as int] == id@);
                    assert(old(self).ids().contains(id@));
                    assert(self.ids() == old(self).ids());
                    assert forall|k: int|
                        0 <= k < old(self).ids().len() && old(self).ids()[k] == id@ implies self.infos()
                        == old(self).infos().update(k, info) by {
                        if k != i {
                            assert(self.ids@[k]@ == self.ids@[i as int]@);
                        }
                    }
                }
                return;
            }
            i = i + 1;
        }
        proof {
            assert forall|k: int| 0 <= k < old(self).ids().len() implies old(self).ids()[k] != id@ by {
                assert(old(self).ids()[k] == self.ids@[k]@);
            }
        }
        self.ids.push(id);
        self.infos.push(info);
        proof {
            assert(self.ids() =~= old(self).ids().push(id@));
        }
    }

    /// The number of registered sensors.
    pub fn count(&self) -> (r: usize)
        requires
            self.wf(),
        ensures
            r == self.ids().len(),
    {
        self.ids.len()
    }
}

/// The sensor count is the number of distinct ids ever registered: no id is
/// counted twice, and the registered ids are exactly the keys of the
/// registry's map.
pub proof fn lemma_count_is_distinct_ids<S>(registry: &SensorRegistry<S>)
    requires
        registry.wf(),
    ensures
        registry.ids().no_duplicates(),
        registry.infos().len() == registry.ids().len(),
        registry.entries().dom() == registry.ids().to_set(),
        registry.ids().len() == registry.entries().dom().len(),
{
    let ids = registry.ids();
    assert forall|i: int, j: int|
        0 <= i < ids.len() && 0 <= j < ids.len() && i != j implies ids[i] != ids[j] by {
        if i < j {
            assert(registry.ids@[i]@ != registry.ids@[j]@);
        } else {
            assert(registry.ids@[j]@ != registry.ids@[i]@);
        }
    }
    assert(registry.entries().dom() =~= ids.to_set());
    ids.unique_seq_to_set();
}

/// Records a sensor under its id with its rate, replacing what the id
/// recorded before, and returns the id.
pub fn register_sensor<S>(registry: &mut SensorRegistry<S>, id: String, sensor: S, rate: u32) -> (r: String)
    requires
        old(registry).wf(),
    ensures
        r@ == id@,
        final(registry).wf(),
        final(registry).ids().len() == old(registry).ids().len() + if old(registry).ids().contains(
            id@,
        ) {
            0int
        } else {
            1int
        },
        old(registry).ids().contains(id@) ==> {
            &&& final(registry).ids() == old(registry).ids()
            &&& forall|i: int|
                0 <= i < old(registry).ids().len() && old(registry).ids()[i] == id@ ==> final(registry).infos() == old(registry).infos().update(i, SensorInfo { sensor, rate })
        },
        !old(registry).ids().contains(id@) ==> {
            &&& final(registry).ids() == old(registry).ids().push(id@)
            &&& final(registry).infos() == old(registry).infos().push(SensorInfo { sensor, rate })
        },
{
    let key = id.clone();
    registry.insert(key, SensorInfo { sensor, rate });
    id
}

/// The number of registered sensors.
pub fn get_sensor_count<S>(registry: &SensorRegistry<S>) -> (r: usize)
    requires
        registry.wf(),
    ensures
        r == registry.ids().len(),
{
    registry.count()
}

} // verus!
