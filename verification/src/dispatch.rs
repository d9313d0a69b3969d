//! Request descriptors, their resource paths, the bounded response cache,
//! and the per-chunk dispatch steps: which descriptors of a chunk must be
//! fetched (each distinct miss exactly once), and how a chunk's responses
//! are assembled in input order once the fetches return.

use vstd::prelude::*;

use crate::model::{Response, ResponseView, responses_view};
use crate::strnum::dec_str;
use crate::strnum::u32_to_string;

verus! {

/// An immutable description of one fetchable resource; the cache and
/// deduplication key. The credential is deliberately not part of the key.
#[derive(Clone, Copy, PartialEq, Eq, Hash, Structural, Debug)]
pub enum Request {
    Groups(u16),
    PeopleOfGroup(u16),
    People(u16, u32),
}

/// The resource path of a descriptor.
pub open spec fn spec_url(r: Request) -> Seq<char> {
    match r {
        Request::Groups(id) => "https://db.scout.ch/de/groups/"@ + dec_str(id as int),
        Request::PeopleOfGroup(id) => "https://db.scout.ch/de/groups/"@ + dec_str(id as int)
            + "/people"@,
        Request::People(gid, pid) => "https://db.scout.ch/de/groups/"@ + dec_str(gid as int)
            + "/people/"@ + dec_str(pid as int),
    }
}

impl Request {
    /// Builds the resource path this descriptor is fetched from.
    pub fn url(&self) -> (r: String)
        ensures
            r@ == spec_url(*self),
    {
        match self {
            Request::Groups(id) => {
                let mut s = String::from_str("https://db.scout.ch/de/groups/");
                let num = u32_to_string(*id as u32);
                s.append(num.as_str());
                s
            },
            Request::PeopleOfGroup(id) => {
                let mut s = String::from_str("https://db.scout.ch/de/groups/");
                let num = u32_to_string(*id as u32);
                s.append(num.as_str());
                s.append("/people");
                s
            },
            Request::People(gid, pid) => {
                let mut s = String::from_str("https://db.scout.ch/de/groups/");
                let gnum = u32_to_string(*gid as u32);
                s.append(gnum.as_str());
                s.append("/people/");
                let pnum = u32_to_string(*pid as u32);
                s.append(pnum.as_str());
                s
            },
        }
    }
}

/// Capacity of the response cache.
pub const DEDUP_CACHE_CAPACITY: usize = 1000;

/// Maximum number of descriptors fetched concurrently in one chunk.
pub const DISPATCH_CHUNK: usize = 100;

/// The view of cache entries: descriptor and response view, oldest first.
pub open spec fn entries_view(s: Seq<(Request, Response)>) -> Seq<(Request, ResponseView)> {
    s.map(|i: int, e: (Request, Response)| (e.0, e.1@))
}

/// The first cached response for a descriptor, if any.
pub open spec fn cache_lookup(c: Seq<(Request, ResponseView)>, r: Request) -> Option<ResponseView>
    decreases c.len(),
{
    if c.len() == 0 {
        None
    } else if c.first().0 == r {
        Some(c.first().1)
    } else {
        cache_lookup(c.drop_first(), r)
    }
}

/// Whether a descriptor is cached.
pub open spec fn cache_contains(c: Seq<(Request, ResponseView)>, r: Request) -> bool {
    cache_lookup(c, r) is Some
}

/// A cache sequence with the entry for a descriptor removed.
pub open spec fn remove_key(c: Seq<(Request, ResponseView)>, r: Request) -> Seq<
    (Request, ResponseView),
>
    decreases c.len(),
{
    if c.len() == 0 {
        c
    } else if c.first().0 == r {
        c.drop_first()
    } else {
        seq![c.first()] + remove_key(c.drop_first(), r)
    }
}

/// Storing one response: any previous entry for the descriptor is dropped,
/// the oldest entry is evicted at capacity, and the new entry goes last.
pub open spec fn spec_store(
    c: Seq<(Request, ResponseView)>,
    r: Request,
    v: ResponseView,
) -> Seq<(Request, ResponseView)> {
    let without = remove_key(c, r);
    let trimmed = if without.len() >= DEDUP_CACHE_CAPACITY as nat {
        without.drop_first()
    } else {
        without
    };
    trimmed.push((r, v))
}

/// Bounded per-connection store of decoded responses keyed by descriptor;
/// concurrent identical fetches collapse onto one cached result.
pub struct DedupCache {
    entries: Vec<(Request, Response)>,
}

impl View for DedupCache {
    type V = Seq<(Request, ResponseView)>;

    closed spec fn view(&self) -> Seq<(Request, ResponseView)> {
        entries_view(self.entries@)
    }
}

proof fn lemma_cache_lookup_at(c: Seq<(Request, ResponseView)>, r: Request, j: int)
    requires
        0 <= j < c.len(),
        c[j].0 == r,
        forall|k: int| 0 <= k < j ==> (#[trigger] c[k]).0 != r,
    ensures
        cache_lookup(c, r) == Some(c[j].1),
    decreases c.len(),
{
    if j > 0 {
        lemma_cache_lookup_at(c.drop_first(), r, j - 1);
    }
}

proof fn lemma_cache_lookup_none(c: Seq<(Request, ResponseView)>, r: Request)
    requires
        forall|k: int| 0 <= k < c.len() ==> (#[trigger] c[k]).0 != r,
    ensures
        cache_lookup(c, r) is None,
    decreases c.len(),
{
    if c.len() > 0 {
        lemma_cache_lookup_none(c.drop_first(), r);
    }
}

proof fn lemma_remove_key_at(c: Seq<(Request, ResponseView)>, r: Request, j: int)
    requires
        0 <= j < c.len(),
        c[j].0 == r,
        forall|k: int| 0 <= k < j ==> (#[trigger] c[k]).0 != r,
    ensures
        remove_key(c, r) == c.take(j) + c.skip(j + 1),
    decreases c.len(),
{
    if j == 0 {
        assert(remove_key(c, r) =~= c.take(0) + c.skip(1));
    } else {
        lemma_remove_key_at(c.drop_first(), r, j - 1);
        assert(seq![c.first()] + (c.drop_first().take(j - 1) + c.drop_first().skip(j)) =~= c.take(j)
            + c.skip(j + 1));
    }
}

proof fn lemma_remove_key_absent(c: Seq<(Request, ResponseView)>, r: Request)
    requires
        forall|k: int| 0 <= k < c.len() ==> (#[trigger] c[k]).0 != r,
    ensures
        remove_key(c, r) == c,
    decreases c.len(),
{
    if c.len() > 0 {
        lemma_remove_key_absent(c.drop_first(), r);
        assert(seq![c.first()] + c.drop_first() =~= c);
    }
}

impl DedupCache {
    /// Keys are unique and the capacity bound holds.
    pub open spec fn wf(&self) -> bool {
        &&& self@.len() <= DEDUP_CACHE_CAPACITY as nat
        &&& forall|i: int, j: int|
            0 <= i < j < self@.len() ==> (#[trigger] self@[i]).0 != (#[trigger] self@[j]).0
    }

    /// An empty cache.
    pub fn new() -> (c: DedupCache)
        ensures
            c.wf(),
            c@ == Seq::<(Request, ResponseView)>::empty(),
    {
        let c = DedupCache { entries: Vec::new() };
        proof {
            assert(c@ =~= Seq::<(Request, ResponseView)>::empty());
        }
        c
    }

    /// A copy of the cached response for a descriptor, if one is stored.
    /// The cache is not touched.
    pub fn peek(&self, r: &Request) -> (out: Option<Response>)
        ensures
            match out {
                Some(resp) => cache_lookup(self@, *r) == Some(resp@),
                None => cache_lookup(self@, *r) is None,
            },
    {
        let mut j: usize = 0;
        while j < self.entries.len()
            invariant
                j <= self.entries@.len(),
                forall|k: int| 0 <= k < j ==> (#[trigger] self@[k]).0 != *r,
            decreases self.entries@.len() - j,
        {
            if self.entries[j].0 == *r {
                proof {
                    assert(self@[j as int].0 == *r);
                    lemma_cache_lookup_at(self@, *r, j as int);
                    assert(self@[j as int].1 == self.entries@[j as int].1@);
                }
                return Some(self.entries[j].1.clone());
            }
            proof {
                assert(self@[j as int].0 == self.entries@[j as int].0);
            }
            j = j + 1;
        }
        proof {
            lemma_cache_lookup_none(self@, *r);
        }
        None
    }

    /// Stores a response, dropping any previous entry for the descriptor
    /// and evicting the oldest entry at capacity.
    pub fn store(&mut self, r: Request, resp: Response)
        requires
            old(self).wf(),
        ensures
            final(self).wf(),
            final(self)@ == spec_store(old(self)@, r, resp@),
    {
        let ghost c0 = self@;
        let mut j: usize = 0;
        let mut found: bool = false;
        while j < self.entries.len() && !found
            invariant
                j <= self.entries@.len(),
                self@ == c0,
                !found ==> forall|k: int| 0 <= k < j ==> (#[trigger] c0[k]).0 != r,
                found ==> j > 0 && j - 1 < c0.len() && c0[j - 1].0 == r && forall|k: int|
                    0 <= k < j - 1 ==> (#[trigger] c0[k]).0 != r,
            decreases self.entries@.len() - j,
        {
            if self.entries[j].0 == r {
                found = true;
                proof {
                    assert(c0[j as int].0 == r);
                }
            } else {
                proof {
                    assert(c0[j as int].0 == self.entries@[j as int].0);
                }
            }
            j = j + 1;
        }
        if found {
            let idx = j - 1;
            proof {
                lemma_remove_key_at(c0, r, idx as int);
            }
            self.entries.remove(idx);
            proof {
                assert(entries_view(self.entries@) =~= c0.take(idx as int) + c0.skip(idx as int + 1));
            }
        } else {
            proof {
                lemma_remove_key_absent(c0, r);
            }
        }
        proof {
            assert(self@ == remove_key(c0, r));
        }
        if self.entries.len() >= DEDUP_CACHE_CAPACITY {
            let ghost before = self.entries@;
            self.entries.remove(0);
            proof {
                assert(entries_view(self.entries@) =~= entries_view(before).drop_first());
            }
        }
        let ghost trimmed = self@;
        self.entries.push((r, resp));
        proof {
            assert(self@ =~= trimmed.push((r, resp@)));
            assert(self@ == spec_store(c0, r, resp@));
            let f = self@;
            assert forall|i: int, jj: int| 0 <= i < jj < f.len() implies (#[trigger] f[i]).0 != (
            #[trigger] f[jj]).0 by {
                lemma_remove_key_unique(c0, r);
            }
        }
    }
}

/// The length of the chunk that starts at `pos` in a run of `total`
/// descriptors: full width, or the remainder for the final chunk.
pub open spec fn spec_chunk_len(total: int, pos: int) -> int {
    if total - pos < DISPATCH_CHUNK as int {
        total - pos
    } else {
        DISPATCH_CHUNK as int
    }
}

/// Computes the chunk length at a position.
pub fn chunk_len(total: usize, pos: usize) -> (n: usize)
    requires
        pos <= total,
    ensures
        n as int == spec_chunk_len(total as int, pos as int),
{
    let rem = total - pos;
    if rem < DISPATCH_CHUNK {
        rem
    } else {
        DISPATCH_CHUNK
    }
}

/// The fetches one chunk issues: the distinct cache misses of the chunk in
/// first-occurrence order. A descriptor that repeats in the chunk, or that
/// is already cached, is not fetched again.
pub open spec fn spec_plan(c: Seq<(Request, ResponseView)>, chunk: Seq<Request>) -> Seq<Request>
    decreases chunk.len(),
{
    if chunk.len() == 0 {
        Seq::empty()
    } else {
        let rest = spec_plan(c, chunk.drop_last());
        if cache_contains(c, chunk.last()) || rest.contains(chunk.last()) {
            rest
        } else {
            rest.push(chunk.last())
        }
    }
}

/// Position of the first occurrence of a descriptor in a plan.
pub open spec fn plan_index(plan: Seq<Request>, r: Request) -> int
    decreases plan.len(),
{
    if plan.len() == 0 {
        0
    } else if plan.first() == r {
        0
    } else {
        1 + plan_index(plan.drop_first(), r)
    }
}

/// The response a chunk hands out for one descriptor: the cached value on a
/// hit, else the fetched response of the plan entry for it.
pub open spec fn response_for(
    c: Seq<(Request, ResponseView)>,
    plan: Seq<Request>,
    fetched: Seq<ResponseView>,
    r: Request,
) -> ResponseView {
    match cache_lookup(c, r) {
        Some(v) => v,
        None => fetched[plan_index(plan, r)],
    }
}

/// The cache after storing every fetched response of a plan, in order.
pub open spec fn spec_store_all(
    c: Seq<(Request, ResponseView)>,
    plan: Seq<Request>,
    fetched: Seq<ResponseView>,
) -> Seq<(Request, ResponseView)>
    decreases plan.len(),
{
    if plan.len() == 0 {
        c
    } else {
        spec_store(
            spec_store_all(c, plan.drop_last(), fetched.drop_last()),
            plan.last(),
            fetched.last(),
        )
    }
}

/// The plan of a chunk covers every miss, lists only misses that occur in
/// the chunk, and never lists a descriptor twice: the single-flight
/// guarantee of one fetch per distinct missed descriptor.
pub proof fn lemma_plan_props(c: Seq<(Request, ResponseView)>, chunk: Seq<Request>)
    ensures
        forall|i: int|
            0 <= i < chunk.len() && !cache_contains(c, #[trigger] chunk[i]) ==> spec_plan(
                c,
                chunk,
            ).contains(chunk[i]),
        forall|j: int|
            0 <= j < spec_plan(c, chunk).len() ==> !cache_contains(
                c,
                #[trigger] spec_plan(c, chunk)[j],
            ) && chunk.contains(spec_plan(c, chunk)[j]),
        forall|i: int, j: int|
            0 <= i < j < spec_plan(c, chunk).len() ==> spec_plan(c, chunk)[i] != spec_plan(
                c,
                chunk,
            )[j],
    decreases chunk.len(),
{
    if chunk.len() > 0 {
        let pre = chunk.drop_last();
        lemma_plan_props(c, pre);
        let rest = spec_plan(c, pre);
        let plan = spec_plan(c, chunk);
        let x = chunk.last();
        assert forall|j: int| 0 <= j < plan.len() implies !cache_contains(c, #[trigger] plan[j])
            && chunk.contains(plan[j]) by {
            if j < rest.len() {
                assert(plan[j] == rest[j]);
                let w = choose|w: int| 0 <= w < pre.len() && pre[w] == rest[j];
                assert(chunk[w] == rest[j]);
            } else {
                assert(plan[j] == x);
                assert(chunk[chunk.len() - 1] == x);
            }
        }
        assert forall|i: int|
            0 <= i < chunk.len() && !cache_contains(c, #[trigger] chunk[i]) implies plan.contains(
            chunk[i],
        ) by {
            if i < chunk.len() - 1 {
                assert(pre[i] == chunk[i]);
                assert(rest.contains(chunk[i]));
                let w = choose|w: int| 0 <= w < rest.len() && rest[w] == chunk[i];
                assert(plan[w] == chunk[i]);
            } else {
                if rest.contains(x) {
                    let w = choose|w: int| 0 <= w < rest.len() && rest[w] == x;
                    assert(plan[w] == x);
                } else {
                    assert(plan[plan.len() - 1] == x);
                }
            }
        }
        assert forall|i: int, j: int| 0 <= i < j < plan.len() implies plan[i] != plan[j] by {
            if j < rest.len() {
            } else if plan.len() > rest.len() {
                assert(plan[j] == x);
                assert(!rest.contains(x));
                assert(plan[i] == rest[i]);
                if rest[i] == x {
                    assert(rest.contains(x));
                }
            }
        }
    }
}

proof fn lemma_plan_index_valid(plan: Seq<Request>, r: Request)
    requires
        plan.contains(r),
    ensures
        0 <= plan_index(plan, r) < plan.len(),
        plan[plan_index(plan, r)] == r,
    decreases plan.len(),
{
    if plan.first() != r {
        let w = choose|w: int| 0 <= w < plan.len() && plan[w] == r;
        assert(plan.drop_first()[w - 1] == r);
        lemma_plan_index_valid(plan.drop_first(), r);
    }
}

/// Dispatch order invariance: when each plan entry is fetched — the fetched
/// run is the plan mapped through one fetch outcome `f` — the response
/// assembled for a chunk's i-th descriptor is the cached or fetched value of
/// that descriptor alone. Where the descriptor stands in the chunk, what
/// else the chunk holds, and in what order the fetches completed play no
/// part.
pub proof fn lemma_dispatch_order_invariance(
    c: Seq<(Request, ResponseView)>,
    chunk: Seq<Request>,
    f: spec_fn(Request) -> ResponseView,
    i: int,
)
    requires
        0 <= i < chunk.len(),
    ensures
        response_for(
            c,
            spec_plan(c, chunk),
            spec_plan(c, chunk).map(|k: int, r: Request| f(r)),
            chunk[i],
        ) == (match cache_lookup(c, chunk[i]) {
            Some(v) => v,
            None => f(chunk[i]),
        }),
{
    if !cache_contains(c, chunk[i]) {
        lemma_plan_props(c, chunk);
        let plan = spec_plan(c, chunk);
        lemma_plan_index_valid(plan, chunk[i]);
        assert(plan.map(|k: int, r: Request| f(r))[plan_index(plan, chunk[i])] == f(chunk[i]));
    }
}

proof fn lemma_plan_index_at(plan: Seq<Request>, r: Request, j: int)
    requires
        0 <= j < plan.len(),
        plan[j] == r,
        forall|k: int| 0 <= k < j ==> (#[trigger] plan[k]) != r,
    ensures
        plan_index(plan, r) == j,
    decreases plan.len(),
{
    if j > 0 {
        lemma_plan_index_at(plan.drop_first(), r, j - 1);
    }
}

fn vec_contains_req(v: &Vec<Request>, r: &Request) -> (b: bool)
    ensures
        b == v@.contains(*r),
{
    let mut j: usize = 0;
    while j < v.len()
        invariant
            j <= v@.len(),
            forall|k: int| 0 <= k < j ==> (#[trigger] v@[k]) != *r,
        decreases v@.len() - j,
    {
        if v[j] == *r {
            return true;
        }
        j = j + 1;
    }
    false
}

fn find_in_plan(plan: &Vec<Request>, r: &Request) -> (j: usize)
    requires
        plan@.contains(*r),
    ensures
        j < plan@.len(),
        plan@[j as int] == *r,
        plan_index(plan@, *r) == j as int,
{
    let mut j: usize = 0;
    while j < plan.len()
        invariant
            j <= plan@.len(),
            plan@.contains(*r),
            forall|k: int| 0 <= k < j ==> (#[trigger] plan@[k]) != *r,
        decreases plan@.len() - j,
    {
        if plan[j] == *r {
            proof {
                lemma_plan_index_at(plan@, *r, j as int);
            }
            return j;
        }
        j = j + 1;
    }
    proof {
        let w = choose|w: int| 0 <= w < plan@.len() && plan@[w] == *r;
        assert(false);
    }
    0
}

impl DedupCache {
    /// Whether a descriptor is cached, without copying anything.
    pub fn contains_key(&self, r: &Request) -> (b: bool)
        ensures
            b == cache_contains(self@, *r),
    {
        let mut j: usize = 0;
        while j < self.entries.len()
            invariant
                j <= self.entries@.len(),
                forall|k: int| 0 <= k < j ==> (#[trigger] self@[k]).0 != *r,
            decreases self.entries@.len() - j,
        {
            if self.entries[j].0 == *r {
                proof {
                    assert(self@[j as int].0 == *r);
                    lemma_cache_lookup_at(self@, *r, j as int);
                }
                return true;
            }
            proof {
                assert(self@[j as int].0 == self.entries@[j as int].0);
            }
            j = j + 1;
        }
        proof {
            lemma_cache_lookup_none(self@, *r);
        }
        false
    }
}

/// Computes the fetch plan of one chunk: its distinct cache misses in
/// first-occurrence order.
pub fn dispatch_plan(cache: &DedupCache, chunk: &Vec<Request>) -> (plan: Vec<Request>)
    ensures
        plan@ == spec_plan(cache@, chunk@),
{
    let mut plan: Vec<Request> = Vec::new();
    let mut i: usize = 0;
    while i < chunk.len()
        invariant
            i <= chunk@.len(),
            plan@ == spec_plan(cache@, chunk@.take(i as int)),
        decreases chunk@.len() - i,
    {
        proof {
            assert(chunk@.take(i as int + 1).drop_last() =~= chunk@.take(i as int));
            assert(chunk@.take(i as int + 1).last() == chunk@[i as int]);
        }
        let r = chunk[i];
        if !cache.contains_key(&r) && !vec_contains_req(&plan, &r) {
            plan.push(r);
        }
        i = i + 1;
    }
    proof {
        assert(chunk@.take(chunk@.len() as int) =~= chunk@);
    }
    plan
}

/// Assembles one chunk's responses in input order from the cache and the
/// fetched plan responses, then stores the fetched responses. The output's
/// i-th element answers the chunk's i-th descriptor, whatever order the
/// fetches completed in.
pub fn dispatch_supply(
    cache: &mut DedupCache,
    chunk: &Vec<Request>,
    plan: &Vec<Request>,
    fetched: &Vec<Response>,
) -> (out: Vec<Response>)
    requires
        old(cache).wf(),
        plan@ == spec_plan(old(cache)@, chunk@),
        fetched@.len() == plan@.len(),
    ensures
        final(cache).wf(),
        out@.len() == chunk@.len(),
        forall|i: int|
            0 <= i < chunk@.len() ==> (#[trigger] out@[i])@ == response_for(
                old(cache)@,
                plan@,
                responses_view(fetched@),
                chunk@[i],
            ),
        final(cache)@ == spec_store_all(old(cache)@, plan@, responses_view(fetched@)),
{
    let ghost c0 = cache@;
    let ghost fv = responses_view(fetched@);
    proof {
        lemma_plan_props(c0, chunk@);
    }
    let mut out: Vec<Response> = Vec::new();
    let mut i: usize = 0;
    while i < chunk.len()
        invariant
            i <= chunk@.len(),
            cache@ == c0,
            cache.wf(),
            plan@ == spec_plan(c0, chunk@),
            fetched@.len() == plan@.len(),
            fv == responses_view(fetched@),
            out@.len() == i as nat,
            forall|k: int|
                0 <= k < i ==> (#[trigger] out@[k])@ == response_for(c0, plan@, fv, chunk@[k]),
        decreases chunk@.len() - i,
    {
        let r = chunk[i];
        match cache.peek(&r) {
            Some(resp) => {
                out.push(resp);
            },
            None => {
                proof {
                    lemma_plan_props(c0, chunk@);
                    assert(plan@.contains(chunk@[i as int]));
                }
                let j = find_in_plan(plan, &r);
                let resp = fetched[j].clone();
                proof {
                    assert(fv[j as int] == fetched@[j as int]@);
                }
                out.push(resp);
            },
        }
        i = i + 1;
    }
    let mut k: usize = 0;
    while k < plan.len()
        invariant
            k <= plan@.len(),
            fetched@.len() == plan@.len(),
            fv == responses_view(fetched@),
            cache.wf(),
            cache@ == spec_store_all(c0, plan@.take(k as int), fv.take(k as int)),
        decreases plan@.len() - k,
    {
        proof {
            assert(plan@.take(k as int + 1).drop_last() =~= plan@.take(k as int));
            assert(fv.take(k as int + 1).drop_last() =~= fv.take(k as int));
            assert(plan@.take(k as int + 1).last() == plan@[k as int]);
            assert(fv.take(k as int + 1).last() == fv[k as int]);
            assert(fv[k as int] == fetched@[k as int]@);
        }
        let resp = fetched[k].clone();
        cache.store(plan[k], resp);
        k = k + 1;
    }
    proof {
        assert(plan@.take(plan@.len() as int) =~= plan@);
        assert(fv.take(fv.len() as int) =~= fv);
    }
    out
}

/// Key uniqueness survives removal: helper facts about `remove_key`.
proof fn lemma_remove_key_unique(c: Seq<(Request, ResponseView)>, r: Request)
    requires
        forall|i: int, j: int| 0 <= i < j < c.len() ==> (#[trigger] c[i]).0 != (#[trigger] c[j]).0,
    ensures
        remove_key(c, r).len() <= c.len(),
        forall|i: int, j: int|
            0 <= i < j < remove_key(c, r).len() ==> (#[trigger] remove_key(c, r)[i]).0 != (
            #[trigger] remove_key(c, r)[j]).0,
        forall|i: int|
            0 <= i < remove_key(c, r).len() ==> (#[trigger] remove_key(c, r)[i]).0 != r,
        forall|i: int|
            0 <= i < remove_key(c, r).len() ==> exists|k: int|
                0 <= k < c.len() && c[k] == #[trigger] remove_key(c, r)[i],
    decreases c.len(),
{
    if c.len() > 0 {
        lemma_remove_key_unique(c.drop_first(), r);
        if c.first().0 == r {
        } else {
            let rk = remove_key(c, r);
            let rkd = remove_key(c.drop_first(), r);
            assert(rk =~= seq![c.first()] + rkd);
            assert forall|i: int| 0 <= i < rk.len() implies (#[trigger] rk[i]).0 != r by {
                if i > 0 {
                    assert(rk[i] == rkd[i - 1]);
                }
            }
            assert forall|i: int| 0 <= i < rk.len() implies exists|k: int|
                0 <= k < c.len() && c[k] == #[trigger] rk[i] by {
                if i == 0 {
                    assert(c[0] == rk[0]);
                } else {
                    assert(rk[i] == rkd[i - 1]);
                    let k0 = choose|k0: int|
                        0 <= k0 < c.drop_first().len() && c.drop_first()[k0] == rkd[i - 1];
                    assert(c[k0 + 1] == rk[i]);
                }
            }
            assert forall|i: int, j: int| 0 <= i < j < rk.len() implies (#[trigger] rk[i]).0 != (
            #[trigger] rk[j]).0 by {
                if i == 0 {
                    let k0 = choose|k0: int|
                        0 <= k0 < c.drop_first().len() && c.drop_first()[k0] == rkd[j - 1];
                    assert(c[k0 + 1].0 != c[0].0);
                } else {
                    assert(rk[i] == rkd[i - 1] && rk[j] == rkd[j - 1]);
                }
            }
        }
    }
}

} // verus!
