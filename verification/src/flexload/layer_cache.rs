//! The two-tier layer cache of the streamer: layers resident on the device (VRAM) and
//! layers staged in host memory (RAM), each with a byte counter and an access order.
use vstd::prelude::*;
use std::collections::{HashMap, VecDeque};

verus! {

broadcast use vstd::std_specs::hash::group_hash_axioms;

/// Which cached layer gives way when a tier is over its budget.
#[derive(Debug, Clone, Copy, PartialEq, Eq, Structural)]
pub enum CachePolicy {
    /// Least Recently Used: evicts the layer that was used longest ago. (Poor for looping)
    Lru,
    /// Most Recently Used: evicts the layer that was just used. (Good for looping)
    Mru,
    /// Static Pinning: Keeps layers 0..K permanently pinned, streams the rest. (Best for FlexLoad)
    StaticPinning,
}

/// How layers ahead of the current one are fetched.
#[derive(Debug, Clone, Copy, PartialEq, Eq, Structural)]
pub enum PrefetchPolicy {
    Sequential,
    Windowed,
}

/// Layers cached on the device (`D`) and in host memory (`H`), keyed by layer id.
#[verifier::reject_recursive_types(H)]
#[verifier::reject_recursive_types(D)]
pub struct LayerCache<H, D> {
    pub vram_cache: HashMap<usize, D>,
    pub ram_cache: HashMap<usize, H>,
    pub vram_usage: u64,
    pub ram_usage: u64,
    pub vram_access_order: VecDeque<usize>,
    pub ram_access_order: VecDeque<usize>,
    /// The size each device-tier layer was counted with when it was cached.
    pub vram_sizes: Ghost<Map<usize, u64>>,
}

/// The sum of the sizes `sizes` gives the ids of `order`.
pub open spec fn sizes_sum(order: Seq<usize>, sizes: Map<usize, u64>) -> nat
    decreases order.len(),
{
    if order.len() == 0 {
        0
    } else {
        sizes_sum(order.drop_last(), sizes) + sizes[order.last()] as nat
    }
}

/// Lemma: the sum only reads the sizes of the ids in the order.
pub(crate) proof fn lemma_sum_agree(order: Seq<usize>, m1: Map<usize, u64>, m2: Map<usize, u64>)
    requires
        forall|k: int| 0 <= k < order.len() ==> m1[#[trigger] order[k]] == m2[order[k]],
    ensures
        sizes_sum(order, m1) == sizes_sum(order, m2),
    decreases order.len(),
{
    if order.len() > 0 {
        let t = order.drop_last();
        assert forall|k: int| 0 <= k < t.len() implies m1[#[trigger] t[k]] == m2[t[k]] by {
            assert(t[k] == order[k]);
        }
        lemma_sum_agree(t, m1, m2);
        assert(order.last() == order[order.len() - 1]);
    }
}

/// `order` with every occurrence of `id` taken out.
pub open spec fn without(order: Seq<usize>, id: usize) -> Seq<usize> {
    order.filter(|x: usize| x != id)
}

/// `order` after `id` was used: moved (or added) to the most recent end.
pub open spec fn touched(order: Seq<usize>, id: usize) -> Seq<usize> {
    without(order, id).push(id)
}

/// The position of `id` in the plan's layer order, as `position` finds it: its first index,
/// or `usize::MAX` when the plan does not hold it.
pub open spec fn plan_rank(plan: Seq<usize>, id: usize) -> int {
    if plan.contains(id) {
        choose|i: int| 0 <= i < plan.len() && plan[i] == id && forall|j: int| 0 <= j < i ==> plan[j] != id
    } else {
        usize::MAX as int
    }
}

/// The victim a policy names: for static pinning, a cached layer that stands last in the plan
/// (layers the plan does not hold count as last of all; among several of those any one may be
/// named); for MRU the most recently used layer; for LRU the least recently used one.
pub open spec fn victim_ok(
    policy: CachePolicy,
    keys: Set<usize>,
    order: Seq<usize>,
    plan: Seq<usize>,
    r: Option<usize>,
) -> bool {
    match policy {
        CachePolicy::StaticPinning => match r {
            Some(k) => keys.contains(k) && forall|k2: usize| #[trigger] keys.contains(k2) ==> plan_rank(plan, k2)
                <= plan_rank(plan, k),
            None => keys.is_empty(),
        },
        CachePolicy::Mru => r == (if order.len() > 0 { Some(order.last()) } else { None::<usize> }),
        CachePolicy::Lru => r == (if order.len() > 0 { Some(order[0]) } else { None::<usize> }),
    }
}

/// The access order of a tier lists each cached layer exactly once.
pub open spec fn order_tracks<V>(order: Seq<usize>, m: Map<usize, V>) -> bool {
    &&& order.no_duplicates()
    &&& order.to_set() == m.dom()
}

/// Lemma: moving an id to the most recent end keeps an order that tracks a map tracking the
/// map with that id added.
pub(crate) proof fn lemma_touched_tracks<V>(order: Seq<usize>, m: Map<usize, V>, id: usize, v: V)
    requires
        order_tracks(order, m),
    ensures
        order_tracks(touched(order, id), m.insert(id, v)),
        touched(order, id).last() == id,
{
    let w = without(order, id);
    lemma_without_props(order, id);
    assert(w.push(id).no_duplicates()) by {
        assert forall|i: int, j: int| 0 <= i < j < w.push(id).len() implies w.push(id)[i] != w.push(id)[j] by {
            if j == w.len() {
                assert(w.contains(w[i]));
            }
        }
    }
    assert forall|x: usize| #[trigger] w.push(id).to_set().contains(x) <==> m.insert(id, v).dom().contains(x) by {
        if x == id {
            assert(w.push(id)[w.len() as int] == id);
        } else {
            if w.push(id).to_set().contains(x) {
                let k = choose|k: int| 0 <= k < w.push(id).len() && w.push(id)[k] == x;
                assert(w[k] == x);
                assert(w.contains(x));
            }
            if m.dom().contains(x) {
                assert(order.to_set().contains(x));
                assert(order.contains(x));
                assert(w.contains(x));
                let k = choose|k: int| 0 <= k < w.len() && w[k] == x;
                assert(w.push(id)[k] == x);
            }
        }
    }
    assert(w.push(id).to_set() =~= m.insert(id, v).dom());
}

/// Lemma: what is left of an order after an id is taken out.
pub(crate) proof fn lemma_without_props(order: Seq<usize>, id: usize)
    ensures
        without(order, id).no_duplicates() <== order.no_duplicates(),
        forall|x: usize| without(order, id).contains(x) <==> (order.contains(x) && x != id),
        without(order, id).len() <= order.len(),
    decreases order.len(),
{
    reveal_with_fuel(Seq::filter, 1);
    if order.len() > 0 {
        let init = order.drop_last();
        lemma_without_props(init, id);
        assert(order =~= init.push(order.last()));
        let w0 = without(init, id);
        assert(without(order, id) == if order.last() != id { w0.push(order.last()) } else { w0 });
        assert forall|x: usize| without(order, id).contains(x) <==> (order.contains(x) && x != id) by {
            if order.contains(x) && x != id {
                let k = choose|k: int| 0 <= k < order.len() && order[k] == x;
                if k < init.len() {
                    assert(init[k] == x);
                    assert(init.contains(x));
                    assert(w0.contains(x));
                    let k2 = choose|k2: int| 0 <= k2 < w0.len() && w0[k2] == x;
                    if order.last() != id {
                        assert(w0.push(order.last())[k2] == x);
                    }
                } else {
                    assert(order.last() == x);
                    assert(w0.push(order.last())[w0.len() as int] == x);
                }
            }
            if without(order, id).contains(x) {
                let k = choose|k: int| 0 <= k < without(order, id).len() && without(order, id)[k] == x;
                if order.last() != id && k == w0.len() {
                    assert(order[order.len() - 1] == x);
                } else {
                    assert(without(order, id)[k] == w0[k]);
                    assert(w0[k] == x);
                    assert(w0.contains(x));
                    assert(init.contains(x));
                    let k2 = choose|k2: int| 0 <= k2 < init.len() && init[k2] == x;
                    assert(order[k2] == x);
                }
            }
        }
        if order.no_duplicates() {
            assert(init.no_duplicates()) by {
                assert forall|i: int, j: int| 0 <= i < j < init.len() implies init[i] != init[j] by {
                    assert(order[i] == init[i] && order[j] == init[j]);
                }
            }
            if order.last() != id {
                assert forall|i: int, j: int| 0 <= i < j < w0.push(order.last()).len() implies w0.push(
                    order.last(),
                )[i] != w0.push(order.last())[j] by {
                    if j == w0.len() {
                        assert(w0.contains(w0[i]));
                        assert(init.contains(w0[i]));
                        let k = choose|k: int| 0 <= k < init.len() && init[k] == w0[i];
                        assert(order[k] == init[k]);
                        assert(order[order.len() - 1] == order.last());
                    }
                }
            }
        }
    } else {
        assert(without(order, id) =~= order);
    }
}

/// Lemma: taking an id out of both the order and the map keeps them in step.
pub(crate) proof fn lemma_without_tracks<V>(order: Seq<usize>, m: Map<usize, V>, id: usize)
    requires
        order_tracks(order, m),
    ensures
        order_tracks(without(order, id), m.remove(id)),
{
    lemma_without_props(order, id);
    let w = without(order, id);
    assert forall|x: usize| #[trigger] w.to_set().contains(x) <==> m.remove(id).dom().contains(x) by {
        assert(w.to_set().contains(x) <==> w.contains(x));
        assert(order.to_set().contains(x) <==> order.contains(x));
    }
    assert(w.to_set() =~= m.remove(id).dom());
}

/// Lemma: an order tracking a map is empty exactly when the map is.
pub(crate) proof fn lemma_tracks_empty<V>(order: Seq<usize>, m: Map<usize, V>)
    requires
        order_tracks(order, m),
    ensures
        (order.len() == 0) <==> m.dom().is_empty(),
        order.len() > 0 ==> m.dom().contains(order.last()) && m.dom().contains(order[0]),
{
    if order.len() > 0 {
        assert(order.to_set().contains(order[0]));
        assert(order.to_set().contains(order[order.len() - 1]));
    } else {
        assert(order.to_set() =~= Set::empty());
    }
}

/// Lemma: taking `id` out of `s.push(x)` is taking it out of `s`, then pushing `x` if it differs.
pub(crate) proof fn lemma_without_push(s: Seq<usize>, x: usize, id: usize)
    ensures
        without(s.push(x), id) == if x != id { without(s, id).push(x) } else { without(s, id) },
{
    let f = |y: usize| y != id;
    assert(s.push(x).drop_last() =~= s);
    reveal_with_fuel(Seq::filter, 1);
}

/// Lemma: taking out an id that does not occur leaves the order as it is.
pub(crate) proof fn lemma_without_absent(s: Seq<usize>, id: usize)
    requires
        !s.contains(id),
    ensures
        without(s, id) == s,
    decreases s.len(),
{
    if s.len() > 0 {
        let t = s.drop_last();
        assert(t.push(s.last()) =~= s);
        assert(!t.contains(id)) by {
            if t.contains(id) {
                let k = choose|k: int| 0 <= k < t.len() && t[k] == id;
                assert(s[k] == id);
            }
        }
        lemma_without_absent(t, id);
        lemma_without_push(t, s.last(), id);
        assert(s.last() != id) by {
            assert(s[s.len() - 1] == s.last());
        }
    } else {
        lemma_without_props(s, id);
        assert(without(s, id) =~= s);
    }
}

/// Lemma: in an order without repeats, taking out the last id drops the last place.
pub(crate) proof fn lemma_without_last(s: Seq<usize>)
    requires
        s.len() > 0,
        s.no_duplicates(),
    ensures
        without(s, s.last()) == s.drop_last(),
{
    let t = s.drop_last();
    assert(t.push(s.last()) =~= s);
    assert(!t.contains(s.last())) by {
        if t.contains(s.last()) {
            let k = choose|k: int| 0 <= k < t.len() && t[k] == s.last();
            assert(s[k] == s[s.len() - 1]);
        }
    }
    lemma_without_push(t, s.last(), s.last());
    lemma_without_absent(t, s.last());
}

/// Lemma: in an order without repeats, taking out the first id drops the first place.
pub(crate) proof fn lemma_without_first(s: Seq<usize>)
    requires
        s.len() > 0,
        s.no_duplicates(),
    ensures
        without(s, s[0]) == s.drop_first(),
    decreases s.len(),
{
    let t = s.drop_last();
    assert(t.push(s.last()) =~= s);
    lemma_without_push(t, s.last(), s[0]);
    if s.len() == 1 {
        lemma_without_props(t, s[0]);
        assert(without(t, s[0]) =~= t);
        assert(s.drop_first() =~= t);
    } else {
        assert(t.no_duplicates()) by {
            assert forall|i: int, j: int| 0 <= i < t.len() && 0 <= j < t.len() && i != j implies t[i] != t[j] by {
                assert(s[i] == t[i] && s[j] == t[j]);
            }
        }
        assert(t[0] == s[0]);
        lemma_without_first(t);
        assert(s.last() != s[0]) by {
            assert(s[s.len() - 1] == s.last());
        }
        assert(t.drop_first().push(s.last()) =~= s.drop_first());
    }
}

/// The layers a tier gave up, going from `keys` and `order` to `keys2` and `order2`, are the
/// ones the policy names in turn: for LRU the least recently used ones (the order lost a
/// prefix), for MRU the most recently used ones (it lost a suffix), for static pinning layers
/// that stand in the plan no earlier than any layer kept.
pub open spec fn evicted_in_turn(
    policy: CachePolicy,
    keys: Set<usize>,
    order: Seq<usize>,
    keys2: Set<usize>,
    order2: Seq<usize>,
    plan: Seq<usize>,
) -> bool {
    match policy {
        CachePolicy::Lru => exists|k: int| 0 <= k <= order.len() && order2 == order.skip(k),
        CachePolicy::Mru => exists|k: int| 0 <= k <= order.len() && order2 == order.take(k),
        CachePolicy::StaticPinning => forall|a: usize, b: usize|
            #![trigger keys2.contains(a), keys.contains(b)]
            keys2.contains(a) && keys.contains(b) && !keys2.contains(b) ==> plan_rank(plan, a) <= plan_rank(plan, b),
    }
}

/// Lemma: giving up no layer is what every policy allows.
pub(crate) proof fn lemma_evicted_none(policy: CachePolicy, keys: Set<usize>, order: Seq<usize>, plan: Seq<usize>)
    ensures
        evicted_in_turn(policy, keys, order, keys, order, plan),
{
    assert(order.skip(0) =~= order);
    assert(order.take(order.len() as int) =~= order);
}

/// Lemma: an id a tier does not hold is in neither its keys nor its order.
pub(crate) proof fn lemma_absent_from_tier<V>(order: Seq<usize>, m: Map<usize, V>, id: usize)
    requires
        order_tracks(order, m),
        !m.dom().contains(id),
    ensures
        without(order, id) == order,
        m.dom().remove(id) == m.dom(),
{
    assert(!order.contains(id)) by {
        if order.contains(id) {
            assert(order.to_set().contains(id));
        }
    }
    lemma_without_absent(order, id);
    assert(m.dom().remove(id) =~= m.dom());
}

/// Lemma: in an order without repeats that holds `id`, the sum is the sum without `id` plus
/// the size of `id`.
pub(crate) proof fn lemma_sum_without(order: Seq<usize>, sizes: Map<usize, u64>, id: usize)
    requires
        order.no_duplicates(),
        order.contains(id),
    ensures
        sizes_sum(order, sizes) == sizes_sum(without(order, id), sizes) + sizes[id],
    decreases order.len(),
{
    let t = order.drop_last();
    let x = order.last();
    assert(t.push(x) =~= order);
    lemma_without_push(t, x, id);
    assert(t.no_duplicates()) by {
        assert forall|i: int, j: int| 0 <= i < t.len() && 0 <= j < t.len() && i != j implies t[i] != t[j] by {
            assert(order[i] == t[i] && order[j] == t[j]);
        }
    }
    if x == id {
        assert(!t.contains(id)) by {
            if t.contains(id) {
                let k = choose|k: int| 0 <= k < t.len() && t[k] == id;
                assert(order[k] == order[order.len() - 1]);
            }
        }
        lemma_without_absent(t, id);
    } else {
        assert(t.contains(id)) by {
            let k = choose|k: int| 0 <= k < order.len() && order[k] == id;
            if k == order.len() - 1 {
                assert(order[k] == x);
            }
            assert(t[k] == id);
        }
        lemma_sum_without(t, sizes, id);
        let w = without(t, id);
        assert(w.push(x).drop_last() =~= w);
    }
}

/// Removes every occurrence of `id` from `order` (what `VecDeque::retain(|&x| x != id)` does).
fn retain_other(order: &mut VecDeque<usize>, id: usize)
    ensures
        final(order)@ == without(old(order)@, id),
{
    let ghost orig = order@;
    let mut kept: VecDeque<usize> = VecDeque::new();
    let mut i: usize = 0;
    let n = order.len();
    while i < n
        invariant
            order@ == orig,
            n == orig.len(),
            i <= n,
            kept@ == without(orig.subrange(0, i as int), id),
        decreases n - i,
    {
        let x = order[i];
        proof {
            assert(orig.subrange(0, i + 1) =~= orig.subrange(0, i as int).push(x));
            lemma_without_push(orig.subrange(0, i as int), x, id);
        }
        if x != id {
            kept.push_back(x);
        }
        i = i + 1;
    }
    assert(orig.subrange(0, n as int) =~= orig);
    *order = kept;
}

/// Lemma: the elements of `s.push(x)` are those of `s` and `x`.
proof fn lemma_push_to_set(s: Seq<usize>, x: usize)
    ensures
        s.push(x).to_set() == s.to_set().insert(x),
{
    assert forall|y: usize| #[trigger] s.push(x).to_set().contains(y) <==> s.to_set().insert(x).contains(y) by {
        if s.push(x).to_set().contains(y) {
            let j = choose|j: int| 0 <= j < s.push(x).len() && s.push(x)[j] == y;
            if j < s.len() {
                assert(s[j] == y);
            }
        }
        if s.to_set().contains(y) {
            let j = choose|j: int| 0 <= j < s.len() && s[j] == y;
            assert(s.push(x)[j] == y);
        }
        if y == x {
            assert(s.push(x)[s.len() as int] == x);
        }
    }
    assert(s.push(x).to_set() =~= s.to_set().insert(x));
}

/// First index of `id` in `plan`, or `usize::MAX`.
pub(crate) fn position_in_plan(plan: &[usize], id: usize) -> (r: usize)
    ensures
        r as int == plan_rank(plan@, id),
{
    let mut i: usize = 0;
    while i < plan.len()
        invariant
            i <= plan@.len(),
            forall|j: int| 0 <= j < i ==> plan@[j] != id,
        decreases plan@.len() - i,
    {
        if plan[i] == id {
            proof {
                let c = choose|k: int| 0 <= k < plan@.len() && plan@[k] == id && forall|j: int| 0 <= j < k
                    ==> plan@[j] != id;
                assert(plan@.contains(id));
                if c < i {
                } else if c > i {
                    assert(plan@[i as int] == id);
                }
            }
            return i;
        }
        i = i + 1;
    }
    proof {
        if plan@.contains(id) {
            let k = choose|k: int| 0 <= k < plan@.len() && plan@[k] == id;
            assert(plan@[k] != id);
        }
    }
    usize::MAX
}

/// The cached key standing last in the plan.
fn last_in_plan<V>(cache: &HashMap<usize, V>, plan: &[usize]) -> (r: Option<usize>)
    ensures
        match r {
            Some(k) => cache@.dom().contains(k) && forall|k2: usize| #[trigger] cache@.dom().contains(k2)
                ==> plan_rank(plan@, k2) <= plan_rank(plan@, k),
            None => cache@.dom().is_empty(),
        },
{
    let mut best: Option<(usize, usize)> = None;
    let ghost keys = cache@.dom();
    let ghost mut seen: Set<usize> = Set::empty();
    for k in it: cache.keys()
        invariant
            keys == cache@.dom(),
            it.seq().unref().to_set() == keys,
            seen == it.seq().take(it.index()).unref().to_set(),
            it.index() == it.seq().len() ==> seen == keys,
            match best {
                Some((b, rank)) => {
                    &&& keys.contains(b)
                    &&& rank as int == plan_rank(plan@, b)
                    &&& forall|k2: usize| #[trigger] seen.contains(k2) ==> plan_rank(plan@, k2) <= rank
                },
                None => seen.is_empty(),
            },
    {
        let rank = position_in_plan(plan, *k);
        let take = match best {
            None => true,
            Some((_, r)) => rank >= r,
        };
        proof {
            let full = it.seq().unref();
            let before = it.seq().take(it.index()).unref();
            let after = it.seq().take(it.index() + 1).unref();
            assert(full[it.index()] == *k);
            assert(full.to_set().contains(*k));
            assert(after =~= before.push(*k));
            lemma_push_to_set(before, *k);
            if it.index() + 1 == it.seq().len() {
                assert(after =~= full);
            }
            seen = seen.insert(*k);
        }
        if take {
            best = Some((*k, rank));
        }
    }
    proof {
        if best is None {
            assert(keys =~= Set::empty());
        }
    }
    match best {
        Some((b, _)) => Some(b),
        None => None,
    }
}

impl<H, D> LayerCache<H, D> {
    /// Layer ids in the order the device tier was last used, least recent first.
    pub open spec fn vram_order(&self) -> Seq<usize> {
        self.vram_access_order@
    }

    /// Layer ids in the order the host tier was last used, least recent first.
    pub open spec fn ram_order(&self) -> Seq<usize> {
        self.ram_access_order@
    }

    /// The cache's invariant: each tier's access order lists exactly the layers cached on
    /// that tier, once each. Every operation keeps it (marking a use keeps it for a cached id).
    pub open spec fn wf(&self) -> bool {
        &&& order_tracks(self.vram_order(), self.vram_cache@)
        &&& order_tracks(self.ram_order(), self.ram_cache@)
    }

    /// The device counter is the sum of the sizes the device-tier layers were counted with.
    pub open spec fn vram_accounted(&self) -> bool {
        &&& self.vram_sizes@.dom() == self.vram_cache@.dom()
        &&& self.vram_usage == sizes_sum(self.vram_order(), self.vram_sizes@)
    }

    /// An empty cache.
    pub fn new() -> (c: Self)
        ensures
            c.wf(),
            c.vram_cache@ == Map::<usize, D>::empty(),
            c.ram_cache@ == Map::<usize, H>::empty(),
            c.vram_usage == 0,
            c.ram_usage == 0,
            c.vram_order() == Seq::<usize>::empty(),
            c.ram_order() == Seq::<usize>::empty(),
            c.vram_accounted(),
    {
        let c = Self {
            vram_cache: HashMap::new(),
            ram_cache: HashMap::new(),
            vram_usage: 0,
            ram_usage: 0,
            vram_access_order: VecDeque::new(),
            ram_access_order: VecDeque::new(),
            vram_sizes: Ghost(Map::empty()),
        };
        assert(c.vram_order().to_set() =~= c.vram_cache@.dom());
        assert(c.ram_order().to_set() =~= c.ram_cache@.dom());
        assert(c.vram_sizes@.dom() =~= c.vram_cache@.dom());
        c
    }

    /// The layer cached on the device under `layer_id`.
    pub fn get_vram(&self, layer_id: usize) -> (r: Option<&D>)
        ensures
            match r {
                Some(v) => self.vram_cache@.contains_key(layer_id) && *v == self.vram_cache@[layer_id],
                None => !self.vram_cache@.contains_key(layer_id),
            },
    {
        self.vram_cache.get(&layer_id)
    }

    /// The layer cached in host memory under `layer_id`.
    pub fn get_ram(&self, layer_id: usize) -> (r: Option<&H>)
        ensures
            match r {
                Some(v) => self.ram_cache@.contains_key(layer_id) && *v == self.ram_cache@[layer_id],
                None => !self.ram_cache@.contains_key(layer_id),
            },
    {
        self.ram_cache.get(&layer_id)
    }

    /// Records a use of `layer_id` on the device tier: it becomes the most recent.
    pub fn mark_vram_accessed(&mut self, layer_id: usize)
        ensures
            old(self).wf() && old(self).vram_accounted() && old(self).vram_cache@.contains_key(layer_id)
                ==> final(self).vram_accounted(),
            final(self).vram_sizes == old(self).vram_sizes,
            old(self).wf() && old(self).vram_cache@.contains_key(layer_id) ==> final(self).wf(),
            final(self).vram_order() == touched(old(self).vram_order(), layer_id),
            final(self).ram_order() == old(self).ram_order(),
            final(self).vram_cache == old(self).vram_cache,
            final(self).ram_cache == old(self).ram_cache,
            final(self).vram_usage == old(self).vram_usage,
            final(self).ram_usage == old(self).ram_usage,
    {
        let ghost o = *self;
        retain_other(&mut self.vram_access_order, layer_id);
        self.vram_access_order.push_back(layer_id);
        proof {
            if o.wf() && o.vram_cache@.contains_key(layer_id) {
                lemma_touched_tracks(o.vram_order(), o.vram_cache@, layer_id, o.vram_cache@[layer_id]);
                assert(o.vram_cache@.insert(layer_id, o.vram_cache@[layer_id]) =~= o.vram_cache@);
                assert(o.vram_order().contains(layer_id)) by {
                    assert(o.vram_order().to_set().contains(layer_id));
                }
                lemma_sum_without(o.vram_order(), o.vram_sizes@, layer_id);
                let w = without(o.vram_order(), layer_id);
                assert(w.push(layer_id).drop_last() =~= w);
            }
        }
    }

    /// Records a use of `layer_id` on the host tier: it becomes the most recent.
    pub fn mark_ram_accessed(&mut self, layer_id: usize)
        ensures
            final(self).vram_sizes == old(self).vram_sizes,
            old(self).wf() && old(self).ram_cache@.contains_key(layer_id) ==> final(self).wf(),
            final(self).ram_order() == touched(old(self).ram_order(), layer_id),
            final(self).vram_order() == old(self).vram_order(),
            final(self).vram_cache == old(self).vram_cache,
            final(self).ram_cache == old(self).ram_cache,
            final(self).vram_usage == old(self).vram_usage,
            final(self).ram_usage == old(self).ram_usage,
    {
        let ghost o = *self;
        retain_other(&mut self.ram_access_order, layer_id);
        self.ram_access_order.push_back(layer_id);
        proof {
            if o.wf() && o.ram_cache@.contains_key(layer_id) {
                lemma_touched_tracks(o.ram_order(), o.ram_cache@, layer_id, o.ram_cache@[layer_id]);
                assert(o.ram_cache@.insert(layer_id, o.ram_cache@[layer_id]) =~= o.ram_cache@);
            }
        }
    }

    /// Caches `layer` on the device tier; its size is counted only when the id was not
    /// cached there before. The layer becomes the most recently used.
    pub fn insert_vram(&mut self, layer_id: usize, layer: D, size_bytes: u64)
        requires
            !old(self).vram_cache@.contains_key(layer_id) ==> old(self).vram_usage + size_bytes <= u64::MAX,
        ensures
            old(self).wf() ==> final(self).wf(),
            old(self).wf() && old(self).vram_accounted() ==> final(self).vram_accounted(),
            final(self).vram_sizes@ == if old(self).vram_cache@.contains_key(layer_id) {
                old(self).vram_sizes@
            } else {
                old(self).vram_sizes@.insert(layer_id, size_bytes)
            },
            final(self).vram_cache@ == old(self).vram_cache@.insert(layer_id, layer),
            final(self).vram_usage == old(self).vram_usage + if old(self).vram_cache@.contains_key(layer_id) {
                0
            } else {
                size_bytes
            },
            final(self).vram_order() == touched(old(self).vram_order(), layer_id),
            final(self).ram_order() == old(self).ram_order(),
            final(self).ram_cache == old(self).ram_cache,
            final(self).ram_usage == old(self).ram_usage,
    {
        let ghost o = *self;
        let ghost l = layer;
        if self.vram_cache.insert(layer_id, layer).is_none() {
            self.vram_usage = self.vram_usage + size_bytes;
            self.vram_sizes = Ghost(self.vram_sizes@.insert(layer_id, size_bytes));
        }
        self.mark_vram_accessed(layer_id);
        proof {
            if o.wf() {
                lemma_touched_tracks(o.vram_order(), o.vram_cache@, layer_id, l);
                if o.vram_accounted() {
                    if o.vram_cache@.contains_key(layer_id) {
                        assert(o.vram_order().contains(layer_id)) by {
                            assert(o.vram_order().to_set().contains(layer_id));
                        }
                        lemma_sum_without(o.vram_order(), o.vram_sizes@, layer_id);
                        let w = without(o.vram_order(), layer_id);
                        assert(w.push(layer_id).drop_last() =~= w);
                        assert(self.vram_order() == w.push(layer_id));
                        assert(sizes_sum(w.push(layer_id), o.vram_sizes@) == sizes_sum(w, o.vram_sizes@)
                            + o.vram_sizes@[layer_id]);
                        assert(self.vram_cache@.dom() =~= o.vram_cache@.dom());
                    } else {
                        lemma_absent_from_tier(o.vram_order(), o.vram_cache@, layer_id);
                        let m2 = o.vram_sizes@.insert(layer_id, size_bytes);
                        assert(!o.vram_order().contains(layer_id)) by {
                            if o.vram_order().contains(layer_id) {
                                assert(o.vram_order().to_set().contains(layer_id));
                            }
                        }
                        lemma_sum_agree(o.vram_order(), o.vram_sizes@, m2);
                        let op = o.vram_order().push(layer_id);
                        assert(op.drop_last() =~= o.vram_order());
                        assert(self.vram_order() == op);
                        assert(sizes_sum(op, m2) == sizes_sum(o.vram_order(), m2) + size_bytes);
                        assert(m2.dom() =~= self.vram_cache@.dom());
                    }
                }
            }
        }
    }

    /// Caches `layer` on the host tier; its size is counted only when the id was not
    /// cached there before. The layer becomes the most recently used.
    pub fn insert_ram(&mut self, layer_id: usize, layer: H, size_bytes: u64)
        requires
            !old(self).ram_cache@.contains_key(layer_id) ==> old(self).ram_usage + size_bytes <= u64::MAX,
        ensures
            old(self).wf() ==> final(self).wf(),
            final(self).vram_sizes == old(self).vram_sizes,
            final(self).ram_cache@ == old(self).ram_cache@.insert(layer_id, layer),
            final(self).ram_usage == old(self).ram_usage + if old(self).ram_cache@.contains_key(layer_id) {
                0
            } else {
                size_bytes
            },
            final(self).ram_order() == touched(old(self).ram_order(), layer_id),
            final(self).vram_order() == old(self).vram_order(),
            final(self).vram_cache == old(self).vram_cache,
            final(self).vram_usage == old(self).vram_usage,
    {
        let ghost o = *self;
        let ghost l = layer;
        if self.ram_cache.insert(layer_id, layer).is_none() {
            self.ram_usage = self.ram_usage + size_bytes;
        }
        self.mark_ram_accessed(layer_id);
        proof {
            if o.wf() {
                lemma_touched_tracks(o.ram_order(), o.ram_cache@, layer_id, l);
            }
        }
    }

    /// Drops `layer_id` from the device tier and hands it back; the counter goes down by
    /// `size_bytes` (not below 0). Nothing changes when the id is not cached there.
    pub fn remove_vram(&mut self, layer_id: usize, size_bytes: u64) -> (r: Option<D>)
        ensures
            old(self).wf() ==> final(self).wf(),
            old(self).wf() && old(self).vram_accounted() && (old(self).vram_cache@.contains_key(layer_id)
                ==> size_bytes == old(self).vram_sizes@[layer_id]) ==> final(self).vram_accounted(),
            r is Some ==> final(self).vram_sizes@ == old(self).vram_sizes@.remove(layer_id),
            r is None ==> final(self).vram_sizes == old(self).vram_sizes,
            match r {
                Some(v) => {
                    &&& old(self).vram_cache@.contains_key(layer_id)
                    &&& v == old(self).vram_cache@[layer_id]
                    &&& final(self).vram_cache@ == old(self).vram_cache@.remove(layer_id)
                    &&& final(self).vram_usage == if size_bytes > old(self).vram_usage {
                        0
                    } else {
                        (old(self).vram_usage - size_bytes) as u64
                    }
                    &&& final(self).vram_order() == without(old(self).vram_order(), layer_id)
                },
                None => {
                    &&& !old(self).vram_cache@.contains_key(layer_id)
                    &&& final(self).vram_cache@ == old(self).vram_cache@
                    &&& final(self).vram_usage == old(self).vram_usage
                    &&& final(self).vram_order() == old(self).vram_order()
                },
            },
            final(self).ram_order() == old(self).ram_order(),
            final(self).ram_cache == old(self).ram_cache,
            final(self).ram_usage == old(self).ram_usage,
    {
        let ghost o = *self;
        if let Some(layer) = self.vram_cache.remove(&layer_id) {
            self.vram_usage = self.vram_usage.saturating_sub(size_bytes);
            retain_other(&mut self.vram_access_order, layer_id);
            self.vram_sizes = Ghost(self.vram_sizes@.remove(layer_id));
            proof {
                if o.wf() {
                    lemma_without_tracks(o.vram_order(), o.vram_cache@, layer_id);
                    if o.vram_accounted() && size_bytes == o.vram_sizes@[layer_id] {
                        assert(o.vram_order().contains(layer_id)) by {
                            assert(o.vram_order().to_set().contains(layer_id));
                        }
                        lemma_sum_without(o.vram_order(), o.vram_sizes@, layer_id);
                        let w = without(o.vram_order(), layer_id);
                        lemma_without_props(o.vram_order(), layer_id);
                        lemma_sum_agree(w, o.vram_sizes@, self.vram_sizes@);
                        assert(self.vram_sizes@.dom() =~= self.vram_cache@.dom());
                    }
                }
            }
            Some(layer)
        } else {
            proof {
                assert(self.vram_cache@ =~= o.vram_cache@);
            }
            None
        }
    }

    /// Drops `layer_id` from the host tier and hands it back; the counter goes down by
    /// `size_bytes` (not below 0). Nothing changes when the id is not cached there.
    pub fn remove_ram(&mut self, layer_id: usize, size_bytes: u64) -> (r: Option<H>)
        ensures
            final(self).vram_sizes == old(self).vram_sizes,
            old(self).wf() ==> final(self).wf(),
            match r {
                Some(v) => {
                    &&& old(self).ram_cache@.contains_key(layer_id)
                    &&& v == old(self).ram_cache@[layer_id]
                    &&& final(self).ram_cache@ == old(self).ram_cache@.remove(layer_id)
                    &&& final(self).ram_usage == if size_bytes > old(self).ram_usage {
                        0
                    } else {
                        (old(self).ram_usage - size_bytes) as u64
                    }
                    &&& final(self).ram_order() == without(old(self).ram_order(), layer_id)
                },
                None => {
                    &&& !old(self).ram_cache@.contains_key(layer_id)
                    &&& final(self).ram_cache@ == old(self).ram_cache@
                    &&& final(self).ram_usage == old(self).ram_usage
                    &&& final(self).ram_order() == old(self).ram_order()
                },
            },
            final(self).vram_order() == old(self).vram_order(),
            final(self).vram_cache == old(self).vram_cache,
            final(self).vram_usage == old(self).vram_usage,
    {
        let ghost o = *self;
        if let Some(layer) = self.ram_cache.remove(&layer_id) {
            self.ram_usage = self.ram_usage.saturating_sub(size_bytes);
            retain_other(&mut self.ram_access_order, layer_id);
            proof {
                if o.wf() {
                    lemma_without_tracks(o.ram_order(), o.ram_cache@, layer_id);
                }
            }
            Some(layer)
        } else {
            proof {
                assert(self.ram_cache@ =~= o.ram_cache@);
            }
            None
        }
    }

    /// Names the device-tier layer to evict under `policy` (see `victim_ok`); the cache is
    /// left as it is.
    pub fn evict_vram_victim(&mut self, policy: CachePolicy, _current_layer_id: usize, plan_order: &[usize]) -> (r:
        Option<usize>)
        ensures
            victim_ok(policy, old(self).vram_cache@.dom(), old(self).vram_order(), plan_order@, r),
            *final(self) == *old(self),
    {
        match policy {
            CachePolicy::StaticPinning => last_in_plan(&self.vram_cache, plan_order),
            CachePolicy::Mru => {
                let n = self.vram_access_order.len();
                if n > 0 { Some(self.vram_access_order[n - 1]) } else { None }
            },
            CachePolicy::Lru => {
                if self.vram_access_order.len() > 0 { Some(self.vram_access_order[0]) } else { None }
            },
        }
    }

    /// Names the host-tier layer to evict under `policy` (see `victim_ok`); the cache is
    /// left as it is.
    pub fn evict_ram_victim(&mut self, policy: CachePolicy, _current_layer_id: usize, plan_order: &[usize]) -> (r:
        Option<usize>)
        ensures
            victim_ok(policy, old(self).ram_cache@.dom(), old(self).ram_order(), plan_order@, r),
            *final(self) == *old(self),
    {
        match policy {
            CachePolicy::StaticPinning => last_in_plan(&self.ram_cache, plan_order),
            CachePolicy::Mru => {
                let n = self.ram_access_order.len();
                if n > 0 { Some(self.ram_access_order[n - 1]) } else { None }
            },
            CachePolicy::Lru => {
                if self.ram_access_order.len() > 0 { Some(self.ram_access_order[0]) } else { None }
            },
        }
    }

    /// Law: in a cache that keeps its invariant, every policy names a victim exactly when the
    /// tier holds a layer, and the victim it names is one the tier holds.
    pub proof fn law_victim_is_cached(&self, policy: CachePolicy, plan: Seq<usize>, on_device: bool, r: Option<usize>)
        requires
            self.wf(),
            victim_ok(
                policy,
                if on_device { self.vram_cache@.dom() } else { self.ram_cache@.dom() },
                if on_device { self.vram_order() } else { self.ram_order() },
                plan,
                r,
            ),
        ensures
            ({
                let keys = if on_device { self.vram_cache@.dom() } else { self.ram_cache@.dom() };
                &&& (r is Some <==> !keys.is_empty())
                &&& (r matches Some(k) ==> keys.contains(k))
            }),
    {
        if on_device {
            lemma_tracks_empty(self.vram_order(), self.vram_cache@);
        } else {
            lemma_tracks_empty(self.ram_order(), self.ram_cache@);
        }
        let keys = if on_device { self.vram_cache@.dom() } else { self.ram_cache@.dom() };
        if r is Some {
            if policy == CachePolicy::StaticPinning {
                assert(keys.contains(r->0));
            }
        }
    }
}

} // verus!
