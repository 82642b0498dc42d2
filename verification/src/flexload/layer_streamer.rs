//! The decisions of the layer streamer. The streamer asks for layers to be loaded (the
//! requests it collects are sent to a loader by its owner), takes in loaded layers, keeps the
//! host tier within its RAM budget, stages layers onto the device within the VRAM budget, and
//! schedules prefetches ahead of the layer being run.
use vstd::prelude::*;
use std::collections::{HashMap, VecDeque};
use std::sync::Arc;
use crate::flexload::device_stage::{LayerState, StageDevice};
use crate::flexload::error::FlexLoadError;
use crate::flexload::layer_cache::{CachePolicy, LayerCache, evicted_in_turn, sizes_sum, lemma_touched_tracks, lemma_tracks_empty,
    lemma_absent_from_tier, lemma_evicted_none, lemma_without_first, lemma_without_last, lemma_without_tracks,
    lemma_without_push,
    plan_rank, position_in_plan, touched, victim_ok, without};
use crate::flexload::memory_budget::{FlexLoadConfig, FlexLoadPlan};

verus! {

broadcast use vstd::std_specs::hash::group_hash_axioms;

/// Source of layer weights (a model file, for instance), implemented by the user. The
/// streamer relies on nothing of what the methods do; `sized` names the answers of
/// `layer_size_bytes`, so that the streamer's contracts can say which size it used.
pub trait LayerStore {
    type LayerWeights: Clone;

    /// `r` is what `layer_size_bytes` may answer for `layer_id`; an implementation that says
    /// nothing allows any answer.
    open spec fn sized(&self, layer_id: usize, r: Result<u64, FlexLoadError>) -> bool {
        true
    }

    fn layer_ids(&self) -> Vec<usize>;

    fn load_layer(&self, layer_id: usize) -> Result<Self::LayerWeights, FlexLoadError>;

    fn layer_size_bytes(&self, layer_id: usize) -> (r: Result<u64, FlexLoadError>)
        ensures
            self.sized(layer_id, r),
    ;
}

/// The size used for a layer given the store's answer: the answer, or the default size when
/// the store cannot tell.
pub open spec fn size_or_default(r: Result<u64, FlexLoadError>) -> u64 {
    match r {
        Ok(n) => n,
        Err(_) => DEFAULT_LAYER_SIZE,
    }
}

/// Moves host layers onto a device and releases them, implemented by the user. The streamer
/// relies on nothing of what the methods do; the two spec functions name their answers, so
/// that the streamer's contracts can say what it handed to a call and what it did with the
/// answer.
pub trait DeviceStager {
    type HostLayer: Clone;
    type DeviceLayer;

    /// `r` is what `move_to_device` may answer when asked to move `layer` onto `device`; an
    /// implementation that says nothing allows any answer.
    open spec fn moved_to(&self, layer: Self::HostLayer, device: StageDevice, r: Result<Self::DeviceLayer, FlexLoadError>) -> bool {
        true
    }

    /// `r` is what `evict` may answer when asked to release `layer_id`; an implementation that
    /// says nothing allows any answer.
    open spec fn released(&self, layer_id: usize, r: Result<(), FlexLoadError>) -> bool {
        true
    }

    fn move_to_device(&self, layer: Self::HostLayer, device: StageDevice) -> (r: Result<
        Self::DeviceLayer,
        FlexLoadError,
    >)
        ensures
            self.moved_to(layer, device, r),
    ;

    fn evict(&self, layer_id: usize) -> (r: Result<(), FlexLoadError>)
        ensures
            self.released(layer_id, r),
    ;
}

/// A layer the loader has read, with its size in bytes.
pub struct LayerTask<L> {
    pub layer_id: usize,
    pub layer: L,
    pub size_bytes: u64,
}

/// Where `prepare_layer` got to.
#[derive(Debug, Clone, Copy, PartialEq, Eq, Structural)]
pub enum PrepareStep {
    /// The layer was already on the device.
    VramHit,
    /// The layer was in host memory and has been staged onto the device.
    Staged,
    /// The layer is not in memory yet: loaded layers must be handed to `on_fetch_result`.
    AwaitingLoad,
}

/// Size assumed for a layer whose size the store cannot tell.
pub const DEFAULT_LAYER_SIZE: u64 = 100_000_000;

/// The streamer's state.
pub struct LayerStreamer<S: LayerStore, D: DeviceStager<HostLayer = S::LayerWeights>> {
    store: Arc<S>,
    device: Arc<D>,
    config: FlexLoadConfig,
    plan: FlexLoadPlan,
    layer_states: HashMap<usize, LayerState>,
    cache: LayerCache<D::HostLayer, D::DeviceLayer>,
    prefetch_queue: VecDeque<usize>,
    pending_requests: VecDeque<usize>,
}

/// The error a result carries, if any.
pub open spec fn error_of<T>(r: Result<T, FlexLoadError>) -> Option<FlexLoadError> {
    match r {
        Ok(_) => None,
        Err(e) => Some(e),
    }
}

/// A state that asks for a load when the layer is needed.
pub open spec fn needs_request(s: Option<LayerState>) -> bool {
    match s {
        None => true,
        Some(LayerState::Queued) | Some(LayerState::InRam) | Some(LayerState::OnDevice) => false,
        _ => true,
    }
}

/// A state in which a missing layer is asked for again by `prepare_layer`.
pub open spec fn refetch_state(s: Option<LayerState>) -> bool {
    match s {
        None | Some(LayerState::NotLoaded) | Some(LayerState::Evicted) => true,
        _ => false,
    }
}

fn state_needs_request(s: Option<&LayerState>) -> (r: bool)
    ensures
        r == needs_request(match s { Some(x) => Some(*x), None => None }),
{
    match s {
        None => true,
        Some(LayerState::Queued) | Some(LayerState::InRam) | Some(LayerState::OnDevice) => false,
        _ => true,
    }
}

fn state_refetches(s: Option<&LayerState>) -> (r: bool)
    ensures
        r == refetch_state(match s { Some(x) => Some(*x), None => None }),
{
    match s {
        None | Some(LayerState::NotLoaded) | Some(LayerState::Evicted) => true,
        _ => false,
    }
}


/// The ids of `s` in the order of their first occurrence, each once.
pub open spec fn first_occurrences(s: Seq<usize>) -> Seq<usize>
    decreases s.len(),
{
    if s.len() == 0 {
        s
    } else {
        let p = first_occurrences(s.drop_last());
        if p.contains(s.last()) { p } else { p.push(s.last()) }
    }
}

impl<S: LayerStore, D: DeviceStager<HostLayer = S::LayerWeights>> LayerStreamer<S, D> {
    /// The state recorded for each layer.
    pub closed spec fn states(&self) -> Map<usize, LayerState> {
        self.layer_states@
    }

    /// The two-tier cache.
    pub closed spec fn cache_view(&self) -> LayerCache<D::HostLayer, D::DeviceLayer> {
        self.cache
    }

    /// Layer ids that were asked for and not yet handed to the loader.
    pub closed spec fn requests(&self) -> Seq<usize> {
        self.pending_requests@
    }

    /// Every layer id ever queued for prefetch, in order.
    pub closed spec fn prefetched(&self) -> Seq<usize> {
        self.prefetch_queue@
    }

    /// The streamer's limits and policies.
    pub closed spec fn config_view(&self) -> FlexLoadConfig {
        self.config
    }

    /// The plan the streamer follows.
    pub closed spec fn plan_view(&self) -> FlexLoadPlan {
        self.plan
    }

    /// The stager the streamer hands layers to.
    pub closed spec fn stager(&self) -> D {
        *self.device
    }

    /// The store the streamer asks for layers and their sizes.
    pub closed spec fn store_view(&self) -> S {
        *self.store
    }

    /// Every layer on the device in `self` that is not in `other` was released through the
    /// stager, which answered `Ok`, or answered with `err` (the error that ended the call).
    pub open spec fn evictions_released(&self, other: &Self, err: Option<FlexLoadError>) -> bool {
        forall|v: usize| #[trigger] self.cache_view().vram_cache@.contains_key(v) && !other.cache_view().vram_cache@.contains_key(v)
            ==> self.stager().released(v, Ok::<(), FlexLoadError>(())) || (err matches Some(e) && self.stager().released(
            v,
            Err::<(), FlexLoadError>(e),
        ))
    }

    /// Staging the host layer `host` ended with `moved` on the device: a clone of `host` went
    /// to the stager with the plan's device, and `moved` is what the stager answered.
    pub open spec fn staged_as(&self, host: D::HostLayer, moved: D::DeviceLayer) -> bool {
        exists|h: D::HostLayer| cloned(host, h) && #[trigger] self.stager().moved_to(
            h,
            self.plan_view().target_device,
            Ok::<D::DeviceLayer, FlexLoadError>(moved),
        )
    }

    /// Staging `layer_id`, whose host layer is `host`, failed with `e`, leaving the streamer
    /// as `after`: `e` is what the stager answered when a clone of `host` went to it with the
    /// plan's device; or what it answered to the release of a layer that was on the device and
    /// is no longer; or, as `DeviceOutOfMemory("VRAM usage counter overflow")`, the VRAM
    /// counter left after making room cannot take the size the store gave for `layer_id` (the
    /// default size when it could not tell).
    pub open spec fn staging_failed(&self, after: &Self, layer_id: usize, host: D::HostLayer, e: FlexLoadError) -> bool {
        ||| exists|h: D::HostLayer| cloned(host, h) && #[trigger] self.stager().moved_to(
            h,
            self.plan_view().target_device,
            Err::<D::DeviceLayer, FlexLoadError>(e),
        )
        ||| exists|v: usize| self.cache_view().vram_cache@.contains_key(v) && !after.cache_view().vram_cache@.contains_key(v)
            && #[trigger] self.stager().released(v, Err::<(), FlexLoadError>(e))
        ||| {
            &&& e matches FlexLoadError::DeviceOutOfMemory(m) && m@ == "VRAM usage counter overflow"@
            &&& exists|a: Result<u64, FlexLoadError>| #[trigger] self.store_view().sized(layer_id, a)
                && after.cache_view().vram_usage + size_or_default(a) > u64::MAX
        }
    }

    /// `after` has taken in the loaded layer `layer` of `id`, of `size` bytes, into the host
    /// tier, as `process_loaded` does: the tier is within the RAM budget (or empty), holds no
    /// layer it did not hold before but `id`, holds `layer` under `id` if it kept it, kept
    /// everything, with `layer` added, when that fitted the budget, and gave up the layers the
    /// eviction policy names in turn once `layer` had been added as the most recently used.
    pub open spec fn took_in(&self, after: &Self, id: usize, layer: S::LayerWeights, size: u64) -> bool {
        &&& after.cache_view().ram_usage <= after.config_view().max_ram_bytes
            || after.cache_view().ram_cache@.dom().is_empty()
        &&& after.cache_view().ram_cache@.dom().subset_of(self.cache_view().ram_cache@.dom().insert(id))
        &&& after.cache_view().ram_cache@.contains_key(id) ==> after.cache_view().ram_cache@[id] == layer
        &&& self.cache_view().ram_usage + (if self.cache_view().ram_cache@.contains_key(id) {
            0
        } else {
            size
        }) <= self.config_view().max_ram_bytes ==> after.cache_view().ram_cache@ == self.cache_view().ram_cache@.insert(
            id,
            layer,
        )
        &&& evicted_in_turn(
            self.config_view().eviction_policy,
            self.cache_view().ram_cache@.dom().insert(id),
            touched(self.cache_view().ram_order(), id),
            after.cache_view().ram_cache@.dom(),
            after.cache_view().ram_order(),
            self.plan_view().ordered_layer_ids@,
        )
    }

    /// Going from `self` to `after`, the device tier gave up, besides `layer_id`, the layers the
    /// eviction policy names in turn.
    pub open spec fn device_evicted_in_turn(&self, after: &Self, layer_id: usize) -> bool {
        evicted_in_turn(
            self.config_view().eviction_policy,
            self.cache_view().vram_cache@.dom(),
            self.cache_view().vram_order(),
            after.cache_view().vram_cache@.dom().remove(layer_id),
            without(after.cache_view().vram_order(), layer_id),
            self.plan_view().ordered_layer_ids@,
        )
    }

    /// The store gives each layer one size: it answers the same whenever it is asked.
    pub open spec fn sizes_fixed(&self) -> bool {
        forall|id: usize, a: Result<u64, FlexLoadError>, b: Result<u64, FlexLoadError>|
            #![trigger self.store_view().sized(id, a), self.store_view().sized(id, b)]
            self.store_view().sized(id, a) && self.store_view().sized(id, b) ==> a == b
    }

    /// The device counter is the sum of the sizes the device layers were counted with, and
    /// each was counted with the size the store gives it (the default size when the store
    /// cannot tell).
    pub open spec fn vram_ledger(&self) -> bool {
        &&& self.cache_view().vram_accounted()
        &&& forall|id: usize| #[trigger] self.cache_view().vram_sizes@.contains_key(id) ==> exists|a: Result<u64, FlexLoadError>|
            #[trigger] self.store_view().sized(id, a) && self.cache_view().vram_sizes@[id] == size_or_default(a)
    }

    /// Law: while the device counter keeps its ledger (which `new` sets up, and `prepare_layer`
    /// and `on_fetch_result` keep when the store gives each layer one size), the counter is
    /// the sum of the store's sizes of the layers on the device; so when it is within the VRAM
    /// budget, as a staging that succeeded leaves it unless the staged layer is alone on the
    /// device, so is that sum.
    pub proof fn law_vram_counter_is_sum_of_sizes(s: &Self, layer_id: usize)
        requires
            s.vram_ledger(),
            s.cache_view().vram_usage <= s.config_view().max_vram_bytes || s.cache_view().vram_cache@.dom() == set![layer_id],
        ensures
            s.cache_view().vram_usage == sizes_sum(s.cache_view().vram_order(), s.cache_view().vram_sizes@),
            sizes_sum(s.cache_view().vram_order(), s.cache_view().vram_sizes@) <= s.config_view().max_vram_bytes
                || s.cache_view().vram_cache@.dom() == set![layer_id],
            forall|id: usize| #[trigger] s.cache_view().vram_cache@.contains_key(id) ==> exists|a: Result<u64, FlexLoadError>|
                #[trigger] s.store_view().sized(id, a) && s.cache_view().vram_sizes@[id] == size_or_default(a),
    {
        assert forall|id: usize| #[trigger] s.cache_view().vram_cache@.contains_key(id) implies exists|a: Result<u64, FlexLoadError>|
            #[trigger] s.store_view().sized(id, a) && s.cache_view().vram_sizes@[id] == size_or_default(a) by {
            assert(s.cache_view().vram_sizes@.contains_key(id));
        }
    }

    /// The streamer's invariant: each tier's access order lists exactly its cached layers,
    /// once each.
    pub open spec fn wf(&self) -> bool {
        self.cache_view().wf()
    }

    /// Effect of asking for `layer_id`: unless it is queued or already resident, it is marked
    /// queued and appended to the prefetch queue and to the requests for the loader.
    pub open spec fn queued_after(&self, other: &Self, layer_id: usize) -> bool {
        let s = if self.states().contains_key(layer_id) { Some(self.states()[layer_id]) } else { None };
        &&& other.cache_view() == self.cache_view()
        &&& other.config_view() == self.config_view()
        &&& other.plan_view() == self.plan_view()
        &&& other.stager() == self.stager()
        &&& other.store_view() == self.store_view()
        &&& if needs_request(s) {
            &&& other.states() == self.states().insert(layer_id, LayerState::Queued)
            &&& other.prefetched() == self.prefetched().push(layer_id)
            &&& other.requests() == self.requests().push(layer_id)
        } else {
            &&& other.states() == self.states()
            &&& other.prefetched() == self.prefetched()
            &&& other.requests() == self.requests()
        }
    }

    /// Law: a layer that is in neither tier and whose state is unknown, `NotLoaded` or
    /// `Evicted` (it was loaded once and has been dropped from host memory since) is asked for
    /// again when the streamer is asked to prepare it: it becomes `Queued` and goes to the end
    /// of the prefetch queue and of the loader's requests, and the caches stay as they were.
    /// The last premise is what `prepare_layer` ensures of a layer in neither tier.
    pub proof fn law_missing_layer_is_requested(before: &Self, after: &Self, layer_id: usize)
        requires
            !before.cache_view().vram_cache@.contains_key(layer_id),
            !before.cache_view().ram_cache@.contains_key(layer_id),
            !before.states().contains_key(layer_id) || before.states()[layer_id] == LayerState::NotLoaded
                || before.states()[layer_id] == LayerState::Evicted,
            if refetch_state(if before.states().contains_key(layer_id) {
                Some(before.states()[layer_id])
            } else {
                None
            }) {
                before.queued_after(after, layer_id)
            } else {
                *after == *before
            },
        ensures
            after.states().contains_key(layer_id),
            after.states()[layer_id] == LayerState::Queued,
            after.requests() == before.requests().push(layer_id),
            after.prefetched() == before.prefetched().push(layer_id),
            after.cache_view() == before.cache_view(),
    {
    }

    /// Law: asking for a layer twice in a row asks the loader once; the second request
    /// changes nothing.
    pub proof fn law_prefetch_request_is_idempotent(s1: &Self, s2: &Self, s3: &Self, layer_id: usize)
        requires
            s1.queued_after(s2, layer_id),
            s2.queued_after(s3, layer_id),
        ensures
            s3.requests() == s2.requests(),
            s3.prefetched() == s2.prefetched(),
            s3.states() == s2.states(),
            s3.cache_view() == s1.cache_view(),
    {
        let st1 = if s1.layer_states@.contains_key(layer_id) { Some(s1.layer_states@[layer_id]) } else { None };
        if needs_request(st1) {
            assert(s2.layer_states@.contains_key(layer_id));
            assert(s2.layer_states@[layer_id] == LayerState::Queued);
        }
    }

    /// A streamer over `store` and `device` with an empty cache, which has already asked for
    /// the first `prefetch_ahead_count` layers of the plan's prefetch schedule, each once, in the
    /// order of their first occurrence.
    pub fn new(store: Arc<S>, device: Arc<D>, config: FlexLoadConfig, plan: FlexLoadPlan) -> (s: Self)
        ensures
            s.wf(),
            s.config_view() == config,
            s.plan_view() == plan,
            s.stager() == *device,
            s.store_view() == *store,
            s.vram_ledger(),
            s.cache_view().vram_cache@ == Map::<usize, D::DeviceLayer>::empty(),
            s.cache_view().ram_cache@ == Map::<usize, S::LayerWeights>::empty(),
            s.cache_view().vram_usage == 0,
            s.cache_view().ram_usage == 0,
            s.requests() == s.prefetched(),
            s.requests() == first_occurrences(plan.prefetch_schedule@.take(
                if config.prefetch_ahead_count < plan.prefetch_schedule@.len() {
                    config.prefetch_ahead_count as int
                } else {
                    plan.prefetch_schedule@.len() as int
                },
            )),
            s.requests().to_set() == plan.prefetch_schedule@.take(
                if config.prefetch_ahead_count < plan.prefetch_schedule@.len() {
                    config.prefetch_ahead_count as int
                } else {
                    plan.prefetch_schedule@.len() as int
                },
            ).to_set(),
            s.requests().no_duplicates(),
            forall|id: usize| #[trigger] s.states().contains_key(id) ==> s.states()[id] == LayerState::Queued
                && s.requests().contains(id),
    {
        let mut streamer = Self {
            store,
            device,
            config,
            plan,
            layer_states: HashMap::new(),
            cache: LayerCache::new(),
            prefetch_queue: VecDeque::new(),
            pending_requests: VecDeque::new(),
        };
        proof {
            assert(streamer.cache.vram_order().to_set() =~= streamer.cache.vram_cache@.dom());
            assert(streamer.cache.ram_order().to_set() =~= streamer.cache.ram_cache@.dom());
        }
        streamer.init_prefetch();
        streamer
    }

    /// Asks for the first `prefetch_ahead_count` layers of the prefetch schedule.
    fn init_prefetch(&mut self)
        requires
            old(self).wf(),
            old(self).layer_states@ == Map::<usize, LayerState>::empty(),
            old(self).prefetch_queue@ == Seq::<usize>::empty(),
            old(self).pending_requests@ == Seq::<usize>::empty(),
        ensures
            final(self).wf(),
            final(self).cache == old(self).cache,
            final(self).config == old(self).config,
            final(self).plan == old(self).plan,
            final(self).device == old(self).device,
            final(self).store == old(self).store,
            final(self).pending_requests@ == final(self).prefetch_queue@,
            final(self).pending_requests@ == first_occurrences(old(self).plan.prefetch_schedule@.take(
                if old(self).config.prefetch_ahead_count < old(self).plan.prefetch_schedule@.len() {
                    old(self).config.prefetch_ahead_count as int
                } else {
                    old(self).plan.prefetch_schedule@.len() as int
                },
            )),
            final(self).pending_requests@.no_duplicates(),
            final(self).pending_requests@.to_set() == old(self).plan.prefetch_schedule@.take(
                if old(self).config.prefetch_ahead_count < old(self).plan.prefetch_schedule@.len() {
                    old(self).config.prefetch_ahead_count as int
                } else {
                    old(self).plan.prefetch_schedule@.len() as int
                },
            ).to_set(),
            forall|id: usize| #[trigger] final(self).layer_states@.contains_key(id) ==> final(self).layer_states@[id]
                == LayerState::Queued && final(self).pending_requests@.contains(id),
    {
        let count = if self.config.prefetch_ahead_count < self.plan.prefetch_schedule.len() {
            self.config.prefetch_ahead_count
        } else {
            self.plan.prefetch_schedule.len()
        };
        let ghost sched = self.plan.prefetch_schedule@;
        let mut i: usize = 0;
        while i < count
            invariant
                self.wf(),
                count <= sched.len(),
                sched == self.plan.prefetch_schedule@,
                i <= count,
                self.cache == old(self).cache,
                self.config == old(self).config,
                self.plan == old(self).plan,
                self.device == old(self).device,
                self.store == old(self).store,
                self.pending_requests@ == self.prefetch_queue@,
                self.pending_requests@ == first_occurrences(sched.take(i as int)),
                self.pending_requests@.no_duplicates(),
                self.pending_requests@.to_set() == sched.take(i as int).to_set(),
                forall|id: usize| #[trigger] self.layer_states@.contains_key(id) ==> self.layer_states@[id]
                    == LayerState::Queued && self.pending_requests@.contains(id),
                forall|id: usize| self.pending_requests@.contains(id) ==> #[trigger] self.layer_states@.contains_key(id),
            decreases count - i,
        {
            let id = self.plan.prefetch_schedule[i];
            let ghost before = *self;
            self.queue_prefetch(id);
            proof {
                assert(sched.take(i + 1) =~= sched.take(i as int).push(id));
                assert(sched.take(i + 1).drop_last() =~= sched.take(i as int));
                lemma_push_to_set_usize(sched.take(i as int), id);
                lemma_push_to_set_usize(before.pending_requests@, id);
                if before.layer_states@.contains_key(id) {
                    assert(before.pending_requests@.contains(id));
                    assert(before.pending_requests@.to_set().contains(id));
                    assert(self.pending_requests@.to_set() =~= before.pending_requests@.to_set().insert(id));
                } else {
                    assert(!before.pending_requests@.contains(id));
                    assert forall|a: int, b: int| 0 <= a < b < self.pending_requests@.len() implies
                        self.pending_requests@[a] != self.pending_requests@[b] by {
                        if b == before.pending_requests@.len() {
                            assert(before.pending_requests@[a] == self.pending_requests@[a]);
                        }
                    }
                    assert forall|x: usize| self.pending_requests@.contains(x) implies
                        #[trigger] self.layer_states@.contains_key(x) by {
                        if x != id {
                            let k = choose|k: int| 0 <= k < self.pending_requests@.len() && self.pending_requests@[k] == x;
                            assert(before.pending_requests@[k] == x);
                        }
                    }
                    assert forall|x: usize| #[trigger] self.layer_states@.contains_key(x) implies
                        self.layer_states@[x] == LayerState::Queued && self.pending_requests@.contains(x) by {
                        if x == id {
                            assert(self.pending_requests@[before.pending_requests@.len() as int] == id);
                        } else {
                            assert(before.pending_requests@.contains(x));
                            let k = choose|k: int| 0 <= k < before.pending_requests@.len() && before.pending_requests@[k] == x;
                            assert(self.pending_requests@[k] == x);
                        }
                    }
                }
            }
            i = i + 1;
        }
    }

    /// Asks for `layer_id` unless it is already queued or resident (see `queued_after`).
    pub fn queue_prefetch(&mut self, layer_id: usize)
        ensures
            old(self).queued_after(final(self), layer_id),
            old(self).wf() ==> final(self).wf(),
    {
        if !state_needs_request(self.layer_states.get(&layer_id)) {
            return;
        }
        self.layer_states.insert(layer_id, LayerState::Queued);
        self.prefetch_queue.push_back(layer_id);
        self.pending_requests.push_back(layer_id);
    }

    /// Hands over the requests collected so far, oldest first, and forgets them.
    pub fn take_requests(&mut self) -> (r: Vec<usize>)
        ensures
            r@ == old(self).requests(),
            final(self).requests() == Seq::<usize>::empty(),
            final(self).states() == old(self).states(),
            final(self).cache_view() == old(self).cache_view(),
            final(self).prefetched() == old(self).prefetched(),
            final(self).config_view() == old(self).config_view(),
            final(self).plan_view() == old(self).plan_view(),
            final(self).stager() == old(self).stager(),
            final(self).store_view() == old(self).store_view(),
            old(self).wf() ==> final(self).wf(),
    {
        let mut out: Vec<usize> = Vec::new();
        let n = self.pending_requests.len();
        let mut i: usize = 0;
        while i < n
            invariant
                n == self.pending_requests@.len(),
                i <= n,
                out@ == self.pending_requests@.subrange(0, i as int),
            decreases n - i,
        {
            out.push(self.pending_requests[i]);
            i = i + 1;
        }
        assert(self.pending_requests@.subrange(0, n as int) =~= self.pending_requests@);
        self.pending_requests = VecDeque::new();
        out
    }

    /// Evicts host-tier layers, as the eviction policy names them, while the RAM counter is
    /// over budget; an evicted layer's state becomes `Evicted`.
    fn enforce_ram_budget(&mut self, current_layer_id: usize)
        requires
            old(self).wf(),
        ensures
            final(self).wf(),
            final(self).cache.ram_usage <= final(self).config.max_ram_bytes || final(self).cache.ram_cache@.dom().is_empty(),
            old(self).cache.ram_usage <= old(self).config.max_ram_bytes ==> final(self).cache.ram_cache@ == old(
                self,
            ).cache.ram_cache@ && final(self).layer_states@ == old(self).layer_states@,
            final(self).cache.vram_cache == old(self).cache.vram_cache,
            final(self).cache.vram_usage == old(self).cache.vram_usage,
            final(self).cache.vram_order() == old(self).cache.vram_order(),
            final(self).cache.ram_cache@.dom().subset_of(old(self).cache.ram_cache@.dom()),
            forall|id: usize| #[trigger] final(self).cache.ram_cache@.contains_key(id)
                ==> final(self).cache.ram_cache@[id] == old(self).cache.ram_cache@[id],
            forall|id: usize| old(self).cache.ram_cache@.contains_key(id) && !final(self).cache.ram_cache@.contains_key(id)
                ==> #[trigger] final(self).layer_states@.get(id) == Some(LayerState::Evicted),
            forall|id: usize| !(old(self).cache.ram_cache@.contains_key(id) && !final(self).cache.ram_cache@.contains_key(id))
                ==> #[trigger] final(self).layer_states@.get(id) == old(self).layer_states@.get(id),
            final(self).config == old(self).config,
            final(self).plan == old(self).plan,
            final(self).prefetch_queue == old(self).prefetch_queue,
            final(self).pending_requests == old(self).pending_requests,
            final(self).device == old(self).device,
            final(self).store == old(self).store,
            final(self).cache.vram_sizes == old(self).cache.vram_sizes,
            evicted_in_turn(
                old(self).config.eviction_policy,
                old(self).cache.ram_cache@.dom(),
                old(self).cache.ram_order(),
                final(self).cache.ram_cache@.dom(),
                final(self).cache.ram_order(),
                old(self).plan.ordered_layer_ids@,
            ),
    {
        let ghost mut gone: int = 0;
        proof {
            assert(old(self).cache.ram_order().skip(0) =~= old(self).cache.ram_order());
            assert(old(self).cache.ram_order().take(old(self).cache.ram_order().len() as int) =~= old(self).cache.ram_order());
        }
        while self.cache.ram_usage > self.config.max_ram_bytes
            invariant
                self.wf(),
                self.cache.ram_usage <= old(self).cache.ram_usage,
                old(self).cache.ram_usage <= old(self).config.max_ram_bytes ==> self.cache.ram_cache@ == old(
                    self,
                ).cache.ram_cache@ && self.layer_states@ == old(self).layer_states@,
                self.cache.vram_cache == old(self).cache.vram_cache,
                self.cache.vram_usage == old(self).cache.vram_usage,
                self.cache.vram_order() == old(self).cache.vram_order(),
                self.cache.ram_cache@.dom().subset_of(old(self).cache.ram_cache@.dom()),
                forall|id: usize| #[trigger] self.cache.ram_cache@.contains_key(id)
                    ==> self.cache.ram_cache@[id] == old(self).cache.ram_cache@[id],
                forall|id: usize| old(self).cache.ram_cache@.contains_key(id) && !self.cache.ram_cache@.contains_key(id)
                    ==> #[trigger] self.layer_states@.get(id) == Some(LayerState::Evicted),
                forall|id: usize| !(old(self).cache.ram_cache@.contains_key(id) && !self.cache.ram_cache@.contains_key(id))
                    ==> #[trigger] self.layer_states@.get(id) == old(self).layer_states@.get(id),
                self.config == old(self).config,
                self.plan == old(self).plan,
                self.prefetch_queue == old(self).prefetch_queue,
                self.pending_requests == old(self).pending_requests,
                self.device == old(self).device,
                self.store == old(self).store,
                self.cache.vram_sizes == old(self).cache.vram_sizes,
                self.config.eviction_policy == CachePolicy::Lru ==> 0 <= gone <= old(self).cache.ram_order().len()
                    && self.cache.ram_order() == old(self).cache.ram_order().skip(gone),
                self.config.eviction_policy == CachePolicy::Mru ==> 0 <= gone <= old(self).cache.ram_order().len()
                    && self.cache.ram_order() == old(self).cache.ram_order().take(old(self).cache.ram_order().len() - gone),
                self.config.eviction_policy == CachePolicy::StaticPinning ==> forall|x: usize, y: usize|
                    #![trigger self.cache.ram_cache@.contains_key(x), old(self).cache.ram_cache@.contains_key(y)]
                    self.cache.ram_cache@.contains_key(x) && old(self).cache.ram_cache@.contains_key(y)
                    && !self.cache.ram_cache@.contains_key(y) ==> plan_rank(self.plan.ordered_layer_ids@, x) <= plan_rank(
                    self.plan.ordered_layer_ids@, y),
            ensures
                self.wf(),
                self.cache.ram_usage <= self.config.max_ram_bytes || self.cache.ram_cache@.dom().is_empty(),
                old(self).cache.ram_usage <= old(self).config.max_ram_bytes ==> self.cache.ram_cache@ == old(
                    self,
                ).cache.ram_cache@ && self.layer_states@ == old(self).layer_states@,
                self.cache.vram_cache == old(self).cache.vram_cache,
                self.cache.vram_usage == old(self).cache.vram_usage,
                self.cache.vram_order() == old(self).cache.vram_order(),
                self.cache.ram_cache@.dom().subset_of(old(self).cache.ram_cache@.dom()),
                forall|id: usize| #[trigger] self.cache.ram_cache@.contains_key(id)
                    ==> self.cache.ram_cache@[id] == old(self).cache.ram_cache@[id],
                forall|id: usize| old(self).cache.ram_cache@.contains_key(id) && !self.cache.ram_cache@.contains_key(id)
                    ==> #[trigger] self.layer_states@.get(id) == Some(LayerState::Evicted),
                forall|id: usize| !(old(self).cache.ram_cache@.contains_key(id) && !self.cache.ram_cache@.contains_key(id))
                    ==> #[trigger] self.layer_states@.get(id) == old(self).layer_states@.get(id),
                self.config == old(self).config,
                self.plan == old(self).plan,
                self.prefetch_queue == old(self).prefetch_queue,
                self.pending_requests == old(self).pending_requests,
                self.device == old(self).device,
                self.store == old(self).store,
                self.cache.vram_sizes == old(self).cache.vram_sizes,
                self.config.eviction_policy == CachePolicy::Lru ==> 0 <= gone <= old(self).cache.ram_order().len()
                    && self.cache.ram_order() == old(self).cache.ram_order().skip(gone),
                self.config.eviction_policy == CachePolicy::Mru ==> 0 <= gone <= old(self).cache.ram_order().len()
                    && self.cache.ram_order() == old(self).cache.ram_order().take(old(self).cache.ram_order().len() - gone),
                self.config.eviction_policy == CachePolicy::StaticPinning ==> forall|x: usize, y: usize|
                    #![trigger self.cache.ram_cache@.contains_key(x), old(self).cache.ram_cache@.contains_key(y)]
                    self.cache.ram_cache@.contains_key(x) && old(self).cache.ram_cache@.contains_key(y)
                    && !self.cache.ram_cache@.contains_key(y) ==> plan_rank(self.plan.ordered_layer_ids@, x) <= plan_rank(
                    self.plan.ordered_layer_ids@, y),
            decreases self.cache.ram_cache@.dom().len(),
        {
            let ghost before = *self;
            proof {
                lemma_tracks_empty(self.cache.ram_order(), self.cache.ram_cache@);
            }
            let victim = self.cache.evict_ram_victim(self.config.eviction_policy, current_layer_id, self.plan.ordered_layer_ids.as_slice());
            match victim {
                Some(v) => {
                    let size_bytes = match self.store.layer_size_bytes(v) {
                        Ok(n) => n,
                        Err(_) => DEFAULT_LAYER_SIZE,
                    };
                    let removed = self.cache.remove_ram(v, size_bytes);
                    proof {
                        assert(before.cache.ram_cache@.contains_key(v));
                        lemma_without_tracks(before.cache.ram_order(), before.cache.ram_cache@, v);
                        assert(self.cache.ram_cache@.dom() =~= before.cache.ram_cache@.dom().remove(v));
                        let o = old(self).cache.ram_order();
                        if self.config.eviction_policy == CachePolicy::Lru {
                            lemma_without_first(before.cache.ram_order());
                            assert(o.skip(gone).drop_first() =~= o.skip(gone + 1));
                        } else if self.config.eviction_policy == CachePolicy::Mru {
                            lemma_without_last(before.cache.ram_order());
                            assert(o.take(o.len() - gone).drop_last() =~= o.take(o.len() - (gone + 1)));
                        }
                        gone = gone + 1;
                    }
                    if removed.is_some() {
                        self.layer_states.insert(v, LayerState::Evicted);
                    }
                    proof {
                        assert forall|id: usize| old(self).cache.ram_cache@.contains_key(id)
                            && !self.cache.ram_cache@.contains_key(id)
                            implies #[trigger] self.layer_states@.get(id) == Some(LayerState::Evicted) by {
                            if id != v {
                                assert(before.layer_states@.get(id) == Some(LayerState::Evicted));
                            }
                        }
                        assert forall|id: usize| !(old(self).cache.ram_cache@.contains_key(id)
                            && !self.cache.ram_cache@.contains_key(id))
                            implies #[trigger] self.layer_states@.get(id) == old(self).layer_states@.get(id) by {
                            assert(id != v);
                            assert(before.layer_states@.get(id) == old(self).layer_states@.get(id));
                        }
                    }
                },
                None => {
                    break;
                },
            }
        }
        proof {
            let o = old(self).cache.ram_order();
            if self.config.eviction_policy == CachePolicy::Lru {
                assert(0 <= gone <= o.len() && self.cache.ram_order() == o.skip(gone));
            } else if self.config.eviction_policy == CachePolicy::Mru {
                assert(0 <= o.len() - gone <= o.len() && self.cache.ram_order() == o.take(o.len() - gone));
            }
        }
    }

    /// Evicts device-tier layers, as the eviction policy names them, while the VRAM counter
    /// plus `incoming_size` is over budget; each evicted layer is released on the device and
    /// its state becomes `InRam`. A release that fails ends the call with its error. When no
    /// eviction is needed, or the device tier holds nothing, nothing changes and the result is
    /// `Ok`.
    fn enforce_vram_budget_for(&mut self, current_layer_id: usize, incoming_size: u64) -> (r: Result<(), FlexLoadError>)
        requires
            old(self).wf(),
        ensures
            final(self).wf(),
            r is Ok ==> final(self).cache.vram_usage + incoming_size <= final(self).config.max_vram_bytes
                || final(self).cache.vram_cache@.dom().is_empty(),
            old(self).cache.vram_usage + incoming_size <= old(self).config.max_vram_bytes ==> r is Ok && *final(self)
                == *old(self),
            old(self).cache.vram_cache@.dom().is_empty() ==> r is Ok && *final(self) == *old(self),
            final(self).cache.ram_cache == old(self).cache.ram_cache,
            final(self).cache.ram_usage == old(self).cache.ram_usage,
            final(self).cache.ram_order() == old(self).cache.ram_order(),
            final(self).cache.vram_cache@.dom().subset_of(old(self).cache.vram_cache@.dom()),
            final(self).config == old(self).config,
            final(self).plan == old(self).plan,
            final(self).prefetch_queue == old(self).prefetch_queue,
            final(self).pending_requests == old(self).pending_requests,
            final(self).device == old(self).device,
            r matches Err(e) ==> exists|v: usize| old(self).cache.vram_cache@.contains_key(v)
                && !final(self).cache.vram_cache@.contains_key(v) && #[trigger] old(self).stager().released(
                v,
                Err::<(), FlexLoadError>(e),
            ),
            final(self).store == old(self).store,
            old(self).evictions_released(final(self), error_of(r)),
            old(self).vram_ledger() && old(self).sizes_fixed() ==> final(self).vram_ledger(),
            evicted_in_turn(
                old(self).config.eviction_policy,
                old(self).cache.vram_cache@.dom(),
                old(self).cache.vram_order(),
                final(self).cache.vram_cache@.dom(),
                final(self).cache.vram_order(),
                old(self).plan.ordered_layer_ids@,
            ),
    {
        let ghost mut gone: int = 0;
        proof {
            assert(old(self).cache.vram_order().skip(0) =~= old(self).cache.vram_order());
            assert(old(self).cache.vram_order().take(old(self).cache.vram_order().len() as int) =~= old(self).cache.vram_order());
        }
        while (self.cache.vram_usage as u128) + (incoming_size as u128) > (self.config.max_vram_bytes as u128)
            invariant
                self.wf(),
                old(self).cache.vram_usage + incoming_size <= old(self).config.max_vram_bytes ==> *self == *old(self),
                old(self).cache.vram_cache@.dom().is_empty() ==> *self == *old(self),
                self.cache.ram_cache == old(self).cache.ram_cache,
                self.cache.ram_usage == old(self).cache.ram_usage,
                self.cache.ram_order() == old(self).cache.ram_order(),
                self.cache.vram_cache@.dom().subset_of(old(self).cache.vram_cache@.dom()),
                self.config == old(self).config,
                self.plan == old(self).plan,
                self.prefetch_queue == old(self).prefetch_queue,
                self.pending_requests == old(self).pending_requests,
                self.device == old(self).device,
                self.store == old(self).store,
                old(self).vram_ledger() && old(self).sizes_fixed() ==> self.vram_ledger(),
                self.config.eviction_policy == CachePolicy::Lru ==> 0 <= gone <= old(self).cache.vram_order().len()
                    && self.cache.vram_order() == old(self).cache.vram_order().skip(gone),
                self.config.eviction_policy == CachePolicy::Mru ==> 0 <= gone <= old(self).cache.vram_order().len()
                    && self.cache.vram_order() == old(self).cache.vram_order().take(old(self).cache.vram_order().len() - gone),
                self.config.eviction_policy == CachePolicy::StaticPinning ==> forall|x: usize, y: usize|
                    #![trigger self.cache.vram_cache@.contains_key(x), old(self).cache.vram_cache@.contains_key(y)]
                    self.cache.vram_cache@.contains_key(x) && old(self).cache.vram_cache@.contains_key(y)
                    && !self.cache.vram_cache@.contains_key(y) ==> plan_rank(self.plan.ordered_layer_ids@, x) <= plan_rank(
                    self.plan.ordered_layer_ids@, y),
                old(self).evictions_released(self, None),
            ensures
                self.wf(),
                old(self).cache.vram_usage + incoming_size <= old(self).config.max_vram_bytes ==> *self == *old(self),
                old(self).cache.vram_cache@.dom().is_empty() ==> *self == *old(self),
                self.cache.vram_usage + incoming_size <= self.config.max_vram_bytes
                    || self.cache.vram_cache@.dom().is_empty(),
                self.cache.ram_cache == old(self).cache.ram_cache,
                self.cache.ram_usage == old(self).cache.ram_usage,
                self.cache.ram_order() == old(self).cache.ram_order(),
                self.cache.vram_cache@.dom().subset_of(old(self).cache.vram_cache@.dom()),
                self.config == old(self).config,
                self.plan == old(self).plan,
                self.prefetch_queue == old(self).prefetch_queue,
                self.pending_requests == old(self).pending_requests,
                self.device == old(self).device,
                self.store == old(self).store,
                old(self).vram_ledger() && old(self).sizes_fixed() ==> self.vram_ledger(),
                self.config.eviction_policy == CachePolicy::Lru ==> 0 <= gone <= old(self).cache.vram_order().len()
                    && self.cache.vram_order() == old(self).cache.vram_order().skip(gone),
                self.config.eviction_policy == CachePolicy::Mru ==> 0 <= gone <= old(self).cache.vram_order().len()
                    && self.cache.vram_order() == old(self).cache.vram_order().take(old(self).cache.vram_order().len() - gone),
                self.config.eviction_policy == CachePolicy::StaticPinning ==> forall|x: usize, y: usize|
                    #![trigger self.cache.vram_cache@.contains_key(x), old(self).cache.vram_cache@.contains_key(y)]
                    self.cache.vram_cache@.contains_key(x) && old(self).cache.vram_cache@.contains_key(y)
                    && !self.cache.vram_cache@.contains_key(y) ==> plan_rank(self.plan.ordered_layer_ids@, x) <= plan_rank(
                    self.plan.ordered_layer_ids@, y),
                old(self).evictions_released(self, None),
            decreases self.cache.vram_cache@.dom().len(),
        {
            let ghost before = *self;
            proof {
                lemma_tracks_empty(self.cache.vram_order(), self.cache.vram_cache@);
            }
            let victim = self.cache.evict_vram_victim(self.config.eviction_policy, current_layer_id, self.plan.ordered_layer_ids.as_slice());
            match victim {
                Some(v) => {
                    let size_answer = self.store.layer_size_bytes(v);
                    let size_bytes = match size_answer {
                        Ok(n) => n,
                        Err(_) => DEFAULT_LAYER_SIZE,
                    };
                    proof {
                        if old(self).vram_ledger() && old(self).sizes_fixed() {
                            assert(self.cache.vram_sizes@.contains_key(v));
                            let a = choose|a: Result<u64, FlexLoadError>| #[trigger] self.store_view().sized(v, a)
                                && self.cache.vram_sizes@[v] == size_or_default(a);
                            assert(self.store_view().sized(v, size_answer));
                            assert(a == size_answer);
                            assert(size_bytes == self.cache.vram_sizes@[v]);
                            assert(before.vram_ledger());
                            assert(self.cache.vram_accounted());
                        }
                    }
                    let removed = self.cache.remove_vram(v, size_bytes);
                    let ghost after_remove = *self;
                    proof {
                        if old(self).vram_ledger() && old(self).sizes_fixed() {
                            assert forall|id: usize| #[trigger] self.cache.vram_sizes@.contains_key(id) implies exists|a: Result<
                                u64,
                                FlexLoadError,
                            >| #[trigger] self.store_view().sized(id, a) && self.cache.vram_sizes@[id] == size_or_default(a) by {
                                assert(before.cache.vram_sizes@.contains_key(id));
                                assert(self.cache.vram_sizes@[id] == before.cache.vram_sizes@[id]);
                                let a = choose|a: Result<u64, FlexLoadError>| #[trigger] before.store_view().sized(id, a)
                                    && before.cache.vram_sizes@[id] == size_or_default(a);
                                assert(self.store_view().sized(id, a));
                            }
                            assert(self.cache.vram_accounted());
                            assert(self.vram_ledger());
                        }
                    }
                    proof {
                        assert(before.cache.vram_cache@.contains_key(v));
                        lemma_without_tracks(before.cache.vram_order(), before.cache.vram_cache@, v);
                        assert(self.cache.vram_cache@.dom() =~= before.cache.vram_cache@.dom().remove(v));
                        let o = old(self).cache.vram_order();
                        if self.config.eviction_policy == CachePolicy::Lru {
                            lemma_without_first(before.cache.vram_order());
                            assert(o.skip(gone).drop_first() =~= o.skip(gone + 1));
                        } else if self.config.eviction_policy == CachePolicy::Mru {
                            lemma_without_last(before.cache.vram_order());
                            assert(o.take(o.len() - gone).drop_last() =~= o.take(o.len() - (gone + 1)));
                        }
                        gone = gone + 1;
                    }
                    if removed.is_some() {
                        let released = self.device.evict(v);
                        match released {
                            Ok(done) => {
                                assert(released == Ok::<(), FlexLoadError>(done));
                            },
                            Err(e) => {
                                assert(old(self).stager().released(v, Err::<(), FlexLoadError>(e)));
                                assert forall|w: usize| #[trigger] old(self).cache_view().vram_cache@.contains_key(w)
                                    && !self.cache_view().vram_cache@.contains_key(w) implies old(self).stager().released(
                                    w,
                                    Ok::<(), FlexLoadError>(()),
                                ) || (error_of(Err::<(), FlexLoadError>(e)) matches Some(x) && old(self).stager().released(
                                    w,
                                    Err::<(), FlexLoadError>(x),
                                )) by {
                                    if w != v {
                                        assert(!before.cache.vram_cache@.contains_key(w));
                                    }
                                }
                                proof {
                                    let o = old(self).cache.vram_order();
                                    if self.config.eviction_policy == CachePolicy::Lru {
                                        assert(0 <= gone <= o.len() && self.cache.vram_order() == o.skip(gone));
                                    } else if self.config.eviction_policy == CachePolicy::Mru {
                                        assert(0 <= o.len() - gone <= o.len() && self.cache.vram_order() == o.take(o.len() - gone));
                                    }
                                }
                                return Err(e);
                            },
                        }
                        self.layer_states.insert(v, LayerState::InRam);
                        proof {
                            assert(self.cache_view() == after_remove.cache_view());
                            assert(self.store_view() == after_remove.store_view());
                            assert(old(self).stager().released(v, Ok::<(), FlexLoadError>(())));
                            assert forall|w: usize| #[trigger] old(self).cache_view().vram_cache@.contains_key(w)
                                && !self.cache_view().vram_cache@.contains_key(w) implies old(self).stager().released(
                                w,
                                Ok::<(), FlexLoadError>(()),
                            ) by {
                                if w != v {
                                    assert(!before.cache.vram_cache@.contains_key(w));
                                }
                            }
                        }
                    }
                },
                None => {
                    break;
                },
            }
        }
        proof {
            let o = old(self).cache.vram_order();
            if self.config.eviction_policy == CachePolicy::Lru {
                assert(0 <= gone <= o.len() && self.cache.vram_order() == o.skip(gone));
            } else if self.config.eviction_policy == CachePolicy::Mru {
                assert(0 <= o.len() - gone <= o.len() && self.cache.vram_order() == o.take(o.len() - gone));
            }
        }
        Ok(())
    }

    /// Takes in one layer from the loader: it is recorded as in RAM and cached in the host
    /// tier, then the RAM budget is enforced (layers evicted as the policy names them, with
    /// `current_layer_id` as the layer being run). A load that failed is returned as is.
    pub fn process_loaded(&mut self, current_layer_id: usize, result: Result<LayerTask<S::LayerWeights>, FlexLoadError>)
        -> (r: Result<(), FlexLoadError>)
        requires
            old(self).wf(),
            result matches Ok(t) ==> !old(self).cache_view().ram_cache@.contains_key(t.layer_id)
                ==> old(self).cache_view().ram_usage + t.size_bytes <= u64::MAX,
        ensures
            final(self).wf(),
            match result {
                Ok(t) => {
                    &&& r is Ok
                    &&& old(self).took_in(final(self), t.layer_id, t.layer, t.size_bytes)
                    &&& final(self).cache_view().ram_cache@.contains_key(t.layer_id) ==> final(self).states()[t.layer_id]
                        == LayerState::InRam
                    &&& final(self).cache_view().vram_cache == old(self).cache_view().vram_cache
                    &&& final(self).cache_view().vram_order() == old(self).cache_view().vram_order()
                },
                Err(e) => r == Err::<(), FlexLoadError>(e) && *final(self) == *old(self),
            },
            final(self).requests() == old(self).requests(),
            final(self).config_view() == old(self).config_view(),
            final(self).plan_view() == old(self).plan_view(),
            final(self).stager() == old(self).stager(),
            final(self).store_view() == old(self).store_view(),
            old(self).vram_ledger() ==> final(self).vram_ledger(),
    {
        match result {
            Ok(task) => {
                let tid = task.layer_id;
                self.layer_states.insert(tid, LayerState::InRam);
                let ghost before = self.cache;
                self.cache.insert_ram(tid, task.layer, task.size_bytes);
                proof {
                    lemma_touched_tracks(before.ram_order(), before.ram_cache@, tid, task.layer);
                }
                let ghost mid = *self;
                self.enforce_ram_budget(current_layer_id);
                proof {
                    if self.cache.ram_cache@.contains_key(tid) {
                        assert(mid.layer_states@.get(tid) == Some(LayerState::InRam));
                        assert(self.layer_states@.get(tid) == mid.layer_states@.get(tid));
                    }
                    if old(self).vram_ledger() {
                        assert(self.cache.vram_accounted());
                        assert forall|id: usize| #[trigger] self.cache_view().vram_sizes@.contains_key(id) implies exists|a: Result<
                            u64,
                            FlexLoadError,
                        >| #[trigger] self.store_view().sized(id, a) && self.cache_view().vram_sizes@[id] == size_or_default(a) by {
                            assert(old(self).cache_view().vram_sizes@.contains_key(id));
                            let a = choose|a: Result<u64, FlexLoadError>| #[trigger] old(self).store_view().sized(id, a)
                                && old(self).cache_view().vram_sizes@[id] == size_or_default(a);
                            assert(self.store_view().sized(id, a));
                        }
                    }
                }
                Ok(())
            },
            Err(e) => Err(e),
        }
    }

    /// What is handed to the stager for `layer_id`: a clone of the layer cached in host
    /// memory, and the device the plan stages to; `None` when the layer is not in host memory.
    pub fn staging_request(&self, layer_id: usize) -> (r: Option<(S::LayerWeights, StageDevice)>)
        ensures
            match r {
                Some(x) => {
                    &&& self.cache_view().ram_cache@.contains_key(layer_id)
                    &&& cloned(self.cache_view().ram_cache@[layer_id], x.0)
                    &&& x.1 == self.plan_view().target_device
                },
                None => !self.cache_view().ram_cache@.contains_key(layer_id),
            },
    {
        match self.cache.get_ram(layer_id) {
            Some(l) => Some((l.clone(), self.plan.target_device)),
            None => None,
        }
    }

    /// Records what the stager returned for `layer_id`, whose size is `size`. A layer moved
    /// onto the device is cached there as the most recently used one, counted with `size`
    /// (unless it was cached already), and marked `OnDevice`; when the VRAM counter cannot take
    /// `size` the result is `DeviceOutOfMemory("VRAM usage counter overflow")` and nothing
    /// changes. A failed move is returned as it is, and nothing changes.
    pub fn finish_staging(&mut self, layer_id: usize, size: u64, moved: Result<D::DeviceLayer, FlexLoadError>) -> (r:
        Result<(), FlexLoadError>)
        requires
            old(self).wf(),
        ensures
            final(self).wf(),
            final(self).stager() == old(self).stager(),
            final(self).store_view() == old(self).store_view(),
            old(self).vram_ledger() && (exists|a: Result<u64, FlexLoadError>| #[trigger] old(self).store_view().sized(
                layer_id,
                a,
            ) && size == size_or_default(a)) ==> final(self).vram_ledger(),
            match moved {
                Ok(l) => if !old(self).cache_view().vram_cache@.contains_key(layer_id) && old(self).cache_view().vram_usage
                    + size > u64::MAX {
                    &&& r matches Err(FlexLoadError::DeviceOutOfMemory(m)) && m@ == "VRAM usage counter overflow"@
                    &&& *final(self) == *old(self)
                } else {
                    &&& r is Ok
                    &&& final(self).cache_view().vram_cache@ == old(self).cache_view().vram_cache@.insert(layer_id, l)
                    &&& final(self).cache_view().vram_usage == old(self).cache_view().vram_usage + if old(
                        self,
                    ).cache_view().vram_cache@.contains_key(layer_id) {
                        0
                    } else {
                        size
                    }
                    &&& final(self).cache_view().vram_order() == touched(old(self).cache_view().vram_order(), layer_id)
                    &&& final(self).cache_view().ram_cache == old(self).cache_view().ram_cache
                    &&& final(self).cache_view().ram_usage == old(self).cache_view().ram_usage
                    &&& final(self).cache_view().ram_order() == old(self).cache_view().ram_order()
                    &&& final(self).states() == old(self).states().insert(layer_id, LayerState::OnDevice)
                    &&& final(self).requests() == old(self).requests()
                    &&& final(self).prefetched() == old(self).prefetched()
                    &&& final(self).config_view() == old(self).config_view()
                    &&& final(self).plan_view() == old(self).plan_view()
                },
                Err(e) => r == Err::<(), FlexLoadError>(e) && *final(self) == *old(self),
            },
    {
        match moved {
            Ok(l) => {
                if self.cache.get_vram(layer_id).is_none() && self.cache.vram_usage > u64::MAX - size {
                    return Err(FlexLoadError::DeviceOutOfMemory(String::from_str("VRAM usage counter overflow")));
                }
                let ghost before = self.cache;
                let ghost pre = *self;
                self.cache.insert_vram(layer_id, l, size);
                proof {
                    lemma_touched_tracks(before.vram_order(), before.vram_cache@, layer_id, l);
                }
                self.layer_states.insert(layer_id, LayerState::OnDevice);
                proof {
                    if pre.vram_ledger() && (exists|a: Result<u64, FlexLoadError>| #[trigger] pre.store_view().sized(layer_id, a)
                        && size == size_or_default(a)) {
                        assert(self.cache.vram_accounted());
                        assert forall|id: usize| #[trigger] self.cache_view().vram_sizes@.contains_key(id) implies exists|a: Result<
                            u64,
                            FlexLoadError,
                        >| #[trigger] self.store_view().sized(id, a) && self.cache_view().vram_sizes@[id] == size_or_default(a) by {
                            if id == layer_id && !before.vram_cache@.contains_key(layer_id) {
                                let a = choose|a: Result<u64, FlexLoadError>| #[trigger] pre.store_view().sized(layer_id, a)
                                    && size == size_or_default(a);
                                assert(self.store_view().sized(id, a));
                            } else {
                                assert(before.vram_sizes@.contains_key(id));
                                let a = choose|a: Result<u64, FlexLoadError>| #[trigger] pre.store_view().sized(id, a)
                                    && pre.cache_view().vram_sizes@[id] == size_or_default(a);
                                assert(self.store_view().sized(id, a));
                            }
                        }
                    }
                }
                Ok(())
            },
            Err(e) => Err(e),
        }
    }

    /// Moves `layer_id` from the host tier onto the device: makes room under the VRAM budget
    /// (releasing on the device each layer the eviction policy names), hands the stager what
    /// `staging_request` gives, and records its answer with `finish_staging`. When the layer
    /// is not in host memory the result is `LayerNotFound`; when the VRAM counter cannot take
    /// the layer's size the result is `DeviceOutOfMemory`, before the stager is called.
    fn stage(&mut self, layer_id: usize) -> (r: Result<(), FlexLoadError>)
        requires
            old(self).wf(),
            !old(self).cache.vram_cache@.contains_key(layer_id),
        ensures
            final(self).wf(),
            r is Ok ==> {
                &&& final(self).cache.vram_cache@.contains_key(layer_id)
                &&& final(self).cache.vram_order().last() == layer_id
                &&& final(self).layer_states@[layer_id] == LayerState::OnDevice
                &&& final(self).cache.vram_usage <= final(self).config.max_vram_bytes
                    || final(self).cache.vram_cache@.dom() == set![layer_id]
            },
            r is Err ==> !final(self).cache.vram_cache@.contains_key(layer_id),
            final(self).cache.vram_cache@.dom().subset_of(old(self).cache.vram_cache@.dom().insert(layer_id)),
            !old(self).cache.ram_cache@.contains_key(layer_id) ==> r == Err::<(), FlexLoadError>(
                FlexLoadError::LayerNotFound(layer_id)) && *final(self) == *old(self),
            final(self).cache.ram_cache == old(self).cache.ram_cache,
            final(self).cache.ram_usage == old(self).cache.ram_usage,
            final(self).config == old(self).config,
            final(self).plan == old(self).plan,
            final(self).prefetch_queue@ == old(self).prefetch_queue@,
            final(self).pending_requests@ == old(self).pending_requests@,
            final(self).stager() == old(self).stager(),
            old(self).evictions_released(final(self), error_of(r)),
            r is Ok ==> old(self).staged_as(old(self).cache.ram_cache@[layer_id], final(self).cache.vram_cache@[layer_id]),
            old(self).cache.ram_cache@.contains_key(layer_id) ==> (r matches Err(e) ==> old(self).staging_failed(
                final(self),
                layer_id,
                old(self).cache.ram_cache@[layer_id],
                e,
            )),
            final(self).store_view() == old(self).store_view(),
            old(self).vram_ledger() && old(self).sizes_fixed() ==> final(self).vram_ledger(),
            final(self).cache.ram_order() == old(self).cache.ram_order(),
            evicted_in_turn(
                old(self).config.eviction_policy,
                old(self).cache.vram_cache@.dom(),
                old(self).cache.vram_order(),
                final(self).cache.vram_cache@.dom().remove(layer_id),
                without(final(self).cache.vram_order(), layer_id),
                old(self).plan.ordered_layer_ids@,
            ),
    {
        proof {
            lemma_absent_from_tier(old(self).cache.vram_order(), old(self).cache.vram_cache@, layer_id);
        }
        let (host_layer, target) = match self.staging_request(layer_id) {
            Some(x) => x,
            None => {
                proof {
                    lemma_evicted_none(self.config.eviction_policy, self.cache.vram_cache@.dom(), self.cache.vram_order(),
                        self.plan.ordered_layer_ids@);
                }
                return Err(FlexLoadError::LayerNotFound(layer_id));
            },
        };
        let size_answer = self.store.layer_size_bytes(layer_id);
        let ghost answer = size_answer;
        let size_bytes = match size_answer {
            Ok(n) => n,
            Err(_) => DEFAULT_LAYER_SIZE,
        };
        assert(size_bytes == size_or_default(answer));
        assert(old(self).store_view().sized(layer_id, answer));
        match self.enforce_vram_budget_for(layer_id, size_bytes) {
            Ok(()) => {},
            Err(e) => {
                proof {
                    lemma_absent_from_tier(self.cache.vram_order(), self.cache.vram_cache@, layer_id);
                }
                return Err(e);
            },
        }
        let ghost mid = self.cache;
        proof {
            lemma_absent_from_tier(mid.vram_order(), mid.vram_cache@, layer_id);
        }
        if self.cache.vram_usage > u64::MAX - size_bytes {
            let e = FlexLoadError::DeviceOutOfMemory(String::from_str("VRAM usage counter overflow"));
            proof {
                assert(old(self).staging_failed(self, layer_id, old(self).cache.ram_cache@[layer_id], e));
            }
            return Err(e);
        }
        self.layer_states.insert(layer_id, LayerState::MovingToDevice);
        let ghost h = host_layer;
        let moved = self.device.move_to_device(host_layer, target);
        let ghost mv = moved;
        let ghost before = self.cache;
        let r = self.finish_staging(layer_id, size_bytes, moved);
        proof {
            assert(old(self).stager().moved_to(h, old(self).plan_view().target_device, mv));
            if r is Ok {
                assert(mv == Ok::<D::DeviceLayer, FlexLoadError>(self.cache.vram_cache@[layer_id]));
            } else if mv is Err {
                assert(mv == Err::<D::DeviceLayer, FlexLoadError>(r->Err_0));
            }
            if r is Ok {
                if !before.vram_cache@.dom().is_empty() {
                    assert(before.vram_usage + size_bytes <= self.config.max_vram_bytes);
                } else {
                    assert(self.cache.vram_cache@.dom() =~= set![layer_id]);
                }
            }
        }
        proof {
            if r is Ok {
                let w = without(mid.vram_order(), layer_id);
                lemma_without_push(w, layer_id, layer_id);
                assert(self.cache.vram_order() == w.push(layer_id));
                assert(self.cache.vram_cache@.dom().remove(layer_id) =~= mid.vram_cache@.dom());
            }
        }
        r
    }

    /// Gets `layer_id` ready on the device, after the loaded layers waiting for the streamer
    /// have been handed to `process_loaded`. A layer already on the device is marked as used
    /// (`VramHit`); a layer in host memory is staged (`Staged`): a clone of it goes to the
    /// stager with the plan's device and the stager's answer is what is cached on the device,
    /// after the layers the eviction policy names in turn were evicted to make room, each
    /// released through the stager; a failed release or move ends the call with the stager's
    /// error, and a VRAM counter that cannot take the size the store gives for the layer ends
    /// it with `DeviceOutOfMemory("VRAM usage counter overflow")`. A layer in neither is asked
    /// for, when its state is unknown, `NotLoaded` or `Evicted`, and the caller must hand the
    /// loaded layers to `on_fetch_result` until that one arrives (`AwaitingLoad`).
    pub fn prepare_layer(&mut self, layer_id: usize) -> (r: Result<PrepareStep, FlexLoadError>)
        requires
            old(self).wf(),
        ensures
            final(self).wf(),
            old(self).cache_view().vram_cache@.contains_key(layer_id) ==> {
                &&& r == Ok::<PrepareStep, FlexLoadError>(PrepareStep::VramHit)
                &&& final(self).cache_view().vram_order() == touched(old(self).cache_view().vram_order(), layer_id)
                &&& final(self).states() == old(self).states().insert(layer_id, LayerState::OnDevice)
                &&& final(self).cache_view().vram_cache == old(self).cache_view().vram_cache
                &&& final(self).cache_view().ram_cache == old(self).cache_view().ram_cache
                &&& final(self).requests() == old(self).requests()
            },
            !old(self).cache_view().vram_cache@.contains_key(layer_id) && old(self).cache_view().ram_cache@.contains_key(
                layer_id) ==> {
                &&& r is Ok ==> r == Ok::<PrepareStep, FlexLoadError>(PrepareStep::Staged)
                &&& r is Ok ==> final(self).cache_view().vram_cache@.contains_key(layer_id)
                    && final(self).states()[layer_id] == LayerState::OnDevice
                    && final(self).cache_view().vram_order().last() == layer_id
                    && (final(self).cache_view().vram_usage <= final(self).config_view().max_vram_bytes
                        || final(self).cache_view().vram_cache@.dom() == set![layer_id])
                &&& r is Ok ==> old(self).staged_as(
                    old(self).cache_view().ram_cache@[layer_id],
                    final(self).cache_view().vram_cache@[layer_id],
                )
                &&& r matches Err(e) ==> old(self).staging_failed(
                    final(self),
                    layer_id,
                    old(self).cache_view().ram_cache@[layer_id],
                    e,
                )
                &&& r is Err ==> !final(self).cache_view().vram_cache@.contains_key(layer_id)
                &&& old(self).evictions_released(final(self), error_of(r))
                &&& old(self).device_evicted_in_turn(final(self), layer_id)
                &&& final(self).cache_view().vram_cache@.dom().subset_of(
                    old(self).cache_view().vram_cache@.dom().insert(layer_id))
                &&& final(self).cache_view().ram_cache == old(self).cache_view().ram_cache
                &&& final(self).requests() == old(self).requests()
            },
            !old(self).cache_view().vram_cache@.contains_key(layer_id) && !old(self).cache_view().ram_cache@.contains_key(
                layer_id) ==> {
                &&& r == Ok::<PrepareStep, FlexLoadError>(PrepareStep::AwaitingLoad)
                &&& if refetch_state(if old(self).states().contains_key(layer_id) {
                    Some(old(self).states()[layer_id])
                } else {
                    None
                }) {
                    old(self).queued_after(final(self), layer_id)
                } else {
                    *final(self) == *old(self)
                }
                &&& (!old(self).states().contains_key(layer_id) || old(self).states()[layer_id] == LayerState::NotLoaded
                    || old(self).states()[layer_id] == LayerState::Evicted) ==> {
                    &&& final(self).states().contains_key(layer_id)
                    &&& final(self).states()[layer_id] == LayerState::Queued
                    &&& final(self).requests() == old(self).requests().push(layer_id)
                    &&& final(self).prefetched() == old(self).prefetched().push(layer_id)
                    &&& final(self).cache_view() == old(self).cache_view()
                }
            },
            final(self).config_view() == old(self).config_view(),
            final(self).plan_view() == old(self).plan_view(),
            final(self).stager() == old(self).stager(),
            final(self).store_view() == old(self).store_view(),
            old(self).vram_ledger() && old(self).sizes_fixed() ==> final(self).vram_ledger(),
    {
        if self.cache.get_vram(layer_id).is_some() {
            let ghost before = self.cache;
            self.cache.mark_vram_accessed(layer_id);
            proof {
                lemma_touched_tracks(before.vram_order(), before.vram_cache@, layer_id, before.vram_cache@[layer_id]);
                assert(before.vram_cache@.insert(layer_id, before.vram_cache@[layer_id]) =~= before.vram_cache@);
            }
            self.layer_states.insert(layer_id, LayerState::OnDevice);
            return Ok(PrepareStep::VramHit);
        }
        if self.cache.get_ram(layer_id).is_some() {
            match self.stage(layer_id) {
                Ok(()) => Ok(PrepareStep::Staged),
                Err(e) => Err(e),
            }
        } else {
            if state_refetches(self.layer_states.get(&layer_id)) {
                self.queue_prefetch(layer_id);
            }
            Ok(PrepareStep::AwaitingLoad)
        }
    }

    /// Takes in one layer the loader produced while `layer_id` is awaited (see
    /// `process_loaded`, with `layer_id` as the current layer). When it is the awaited layer,
    /// it is staged onto the device (`Staged`), or `LayerNotFound` when it did not fit in the
    /// RAM budget and was evicted again; otherwise the wait goes on (`AwaitingLoad`). A failed
    /// load is returned as is.
    pub fn on_fetch_result(&mut self, layer_id: usize, result: Result<LayerTask<S::LayerWeights>, FlexLoadError>)
        -> (r: Result<PrepareStep, FlexLoadError>)
        requires
            old(self).wf(),
            !old(self).cache_view().vram_cache@.contains_key(layer_id),
            result matches Ok(t) ==> !old(self).cache_view().ram_cache@.contains_key(t.layer_id)
                ==> old(self).cache_view().ram_usage + t.size_bytes <= u64::MAX,
        ensures
            final(self).wf(),
            match result {
                Ok(t) => if t.layer_id == layer_id {
                    &&& r is Ok ==> {
                        &&& r == Ok::<PrepareStep, FlexLoadError>(PrepareStep::Staged)
                        &&& final(self).cache_view().vram_cache@.contains_key(layer_id)
                        &&& final(self).states()[layer_id] == LayerState::OnDevice
                        &&& final(self).cache_view().vram_order().last() == layer_id
                    }
                    &&& r is Ok ==> old(self).staged_as(t.layer, final(self).cache_view().vram_cache@[layer_id])
                    &&& r matches Err(e) ==> old(self).staging_failed(final(self), layer_id, t.layer, e) || {
                        &&& e matches FlexLoadError::LayerNotFound(id) && id == layer_id
                        &&& old(self).cache_view().ram_usage + (if old(self).cache_view().ram_cache@.contains_key(
                            layer_id,
                        ) {
                            0
                        } else {
                            t.size_bytes
                        }) > old(self).config_view().max_ram_bytes
                    }
                    &&& r is Err ==> !final(self).cache_view().vram_cache@.contains_key(layer_id)
                    &&& old(self).evictions_released(final(self), error_of(r))
                    &&& old(self).device_evicted_in_turn(final(self), layer_id)
                    &&& final(self).cache_view().vram_cache@.dom().subset_of(
                        old(self).cache_view().vram_cache@.dom().insert(layer_id))
                    &&& old(self).took_in(final(self), t.layer_id, t.layer, t.size_bytes)
                } else {
                    &&& r == Ok::<PrepareStep, FlexLoadError>(PrepareStep::AwaitingLoad)
                    &&& final(self).cache_view().vram_cache == old(self).cache_view().vram_cache
                    &&& old(self).took_in(final(self), t.layer_id, t.layer, t.size_bytes)
                    &&& final(self).cache_view().ram_cache@.contains_key(t.layer_id) ==> final(self).states()[t.layer_id]
                        == LayerState::InRam
                },
                Err(e) => r == Err::<PrepareStep, FlexLoadError>(e) && *final(self) == *old(self),
            },
            final(self).requests() == old(self).requests(),
            final(self).config_view() == old(self).config_view(),
            final(self).plan_view() == old(self).plan_view(),
            final(self).stager() == old(self).stager(),
            final(self).store_view() == old(self).store_view(),
            old(self).vram_ledger() && old(self).sizes_fixed() ==> final(self).vram_ledger(),
    {
        match result {
            Ok(task) => {
                let tid = task.layer_id;
                match self.process_loaded(layer_id, Ok(task)) {
                    Ok(()) => {},
                    Err(e) => {
                        return Err(e);
                    },
                }
                if tid == layer_id {
                    match self.stage(layer_id) {
                        Ok(()) => Ok(PrepareStep::Staged),
                        Err(e) => Err(e),
                    }
                } else {
                    Ok(PrepareStep::AwaitingLoad)
                }
            },
            Err(e) => Err(e),
        }
    }

    /// The bytes counted in the host tier.
    pub fn ram_usage(&self) -> (r: u64)
        ensures
            r == self.cache_view().ram_usage,
    {
        self.cache.ram_usage
    }

    /// The layer cached on the device under `layer_id`.
    pub fn get_layer(&self, layer_id: usize) -> (r: Option<&D::DeviceLayer>)
        ensures
            match r {
                Some(v) => self.cache_view().vram_cache@.contains_key(layer_id) && *v == self.cache_view().vram_cache@[
                    layer_id],
                None => !self.cache_view().vram_cache@.contains_key(layer_id),
            },
    {
        self.cache.get_vram(layer_id)
    }

    /// Called when `layer_id` has been run: asks for the layer `prefetch_ahead_count`
    /// places after it in the plan's order (counting from the start when `layer_id` is not
    /// in the plan), if there is one.
    pub fn release_layer(&mut self, layer_id: usize) -> (r: Result<(), FlexLoadError>)
        ensures
            r is Ok,
            ({
                let order = old(self).plan_view().ordered_layer_ids@;
                let pos = if order.contains(layer_id) { plan_rank(order, layer_id) } else { 0 };
                let next = pos + old(self).config_view().prefetch_ahead_count;
                if next < order.len() {
                    old(self).queued_after(final(self), order[next])
                } else {
                    *final(self) == *old(self)
                }
            }),
            old(self).wf() ==> final(self).wf(),
    {
        let order = &self.plan.ordered_layer_ids;
        let rank = position_in_plan(order.as_slice(), layer_id);
        proof {
            lemma_rank_in_range(order@, layer_id);
        }
        let pos: usize = if rank == usize::MAX { 0 } else { rank };
        let ahead = self.config.prefetch_ahead_count;
        if pos <= order.len() && ahead < order.len() - pos {
            let next_layer = order[pos + ahead];
            self.queue_prefetch(next_layer);
        }
        Ok(())
    }
}

/// Law: using a layer makes it the most recent entry of the access order, keeps every other
/// entry in its relative order, and lists it once; so under MRU the layer just used is the
/// next victim, and under LRU it is the victim only when it is the only entry.
pub proof fn law_use_makes_layer_most_recent(order: Seq<usize>, id: usize, plan: Seq<usize>, keys: Set<usize>)
    requires
        order.no_duplicates(),
    ensures
        touched(order, id).no_duplicates(),
        touched(order, id).last() == id,
        touched(order, id).to_set() == order.to_set().insert(id),
        touched(order, id).drop_last() == without(order, id),
        victim_ok(CachePolicy::Mru, keys, touched(order, id), plan, Some(id)),
        victim_ok(CachePolicy::Lru, keys, touched(order, id), plan, Some(id)) ==> touched(order, id).len() == 1,
{
    let m = Map::<usize, ()>::new(|x: usize| order.to_set().contains(x), |x: usize| ());
    assert(m.dom() =~= order.to_set());
    lemma_touched_tracks(order, m, id, ());
    assert(m.insert(id, ()).dom() =~= order.to_set().insert(id));
    assert(touched(order, id).drop_last() =~= without(order, id));
    let t = touched(order, id);
    if t.len() > 1 && t[0] == id {
        assert(t[0] == t[t.len() - 1]);
    }
}

/// Law: a layer cached in a tier and then removed from it, with the size it was counted
/// with, leaves the tier's contents and byte counter as they were.
pub proof fn law_insert_then_remove_restores<V>(m: Map<usize, V>, usage: u64, id: usize, v: V, size: u64)
    requires
        !m.contains_key(id),
        usage + size <= u64::MAX,
    ensures
        m.insert(id, v).remove(id) == m,
        m.insert(id, v).contains_key(id) && m.insert(id, v)[id] == v,
        ({
            let after_insert = (usage + size) as u64;
            (if size > after_insert { 0 } else { (after_insert - size) as u64 }) == usage
        }),
{
    assert(m.insert(id, v).remove(id) =~= m);
}

/// Law: under static pinning the victim is a cached layer that runs no earlier in the plan
/// than any other cached layer; a layer the plan does not hold is evicted before any layer
/// it holds.
pub proof fn law_static_pinning_keeps_early_layers(keys: Set<usize>, order: Seq<usize>, plan: Seq<usize>, v: usize, k: usize)
    requires
        victim_ok(CachePolicy::StaticPinning, keys, order, plan, Some(v)),
        keys.contains(k),
        !plan.contains(k),
        plan.len() <= usize::MAX,
    ensures
        !plan.contains(v),
{
    lemma_rank_in_range(plan, k);
    lemma_rank_in_range(plan, v);
    assert(plan_rank(plan, k) <= plan_rank(plan, v));
}

/// Lemma: the rank of a layer the plan holds is one of its indices.
proof fn lemma_rank_in_range(order: Seq<usize>, id: usize)
    ensures
        order.contains(id) ==> 0 <= plan_rank(order, id) < order.len(),
        !order.contains(id) ==> plan_rank(order, id) == usize::MAX as int,
{
    if order.contains(id) {
        let k = choose|k: int| 0 <= k < order.len() && order[k] == id;
        lemma_first_index_exists(order, id, k);
    }
}

/// Lemma: a value that occurs has a first occurrence.
proof fn lemma_first_index_exists(order: Seq<usize>, id: usize, k: int)
    requires
        0 <= k < order.len(),
        order[k] == id,
    ensures
        exists|i: int| 0 <= i < order.len() && order[i] == id && forall|j: int| 0 <= j < i ==> order[j] != id,
    decreases k,
{
    if exists|j: int| 0 <= j < k && order[j] == id {
        let j = choose|j: int| 0 <= j < k && order[j] == id;
        lemma_first_index_exists(order, id, j);
    } else {
        assert(forall|j: int| 0 <= j < k ==> order[j] != id);
    }
}

/// Lemma: the elements of `s.push(x)` are those of `s` and `x`.
proof fn lemma_push_to_set_usize(s: Seq<usize>, x: usize)
    ensures
        s.push(x).to_set() == s.to_set().insert(x),
{
    assert forall|y: usize| #[trigger] s.push(x).to_set().contains(y) <==> s.to_set().insert(x).contains(y) by {
        if s.push(x).to_set().contains(y) {
            let j = choose|j: int| 0 <= j < s.push(x).len() && s.push(x)[j] == y;
            if j < s.len() {
                assert(s[j] == y);
            }
        }
        if s.to_set().contains(y) {
            let j = choose|j: int| 0 <= j < s.len() && s[j] == y;
            assert(s.push(x)[j] == y);
        }
        if y == x {
            assert(s.push(x)[s.len() as int] == x);
        }
    }
    assert(s.push(x).to_set() =~= s.to_set().insert(x));
}

} // verus!
