//! Which models give way when memory is short.
use vstd::prelude::*;
use vstd::string::*;

use crate::config::model::ModelConfig;
use crate::order::{law_sorted_by, ordered, ranks, sort_stable, sorted_by};
use crate::table::Table;
use crate::text::same_text;

verus! {

broadcast use vstd::string::group_string_axioms;

/// What to do to free memory.
#[derive(Debug)]
pub enum EvictionAction {
    /// Stop the model of that id.
    Evict(String),
}

impl EvictionAction {
    /// The id of the model to stop.
    pub open spec fn victim(&self) -> Seq<char> {
        match self {
            EvictionAction::Evict(id) => id@,
        }
    }
}

/// Whether a list of names holds a name.
pub open spec fn names_hold(names: Seq<String>, k: Seq<char>) -> bool {
    exists|i: int| 0 <= i < names.len() && #[trigger] names[i]@ == k
}

/// Whether a list of names holds a name.
pub fn holds_name(names: &Vec<String>, k: &str) -> (r: bool)
    ensures
        r == names_hold(names@, k@),
{
    let mut i: usize = 0;
    while i < names.len()
        invariant
            i <= names@.len(),
            forall|j: int| 0 <= j < i ==> #[trigger] names@[j]@ != k@,
        decreases names@.len() - i,
    {
        if same_text(names[i].as_str(), k) {
            return true;
        }
        i += 1;
    }
    false
}

/// Whether a model may be stopped to free memory: it runs, no request is in
/// flight, and it is known how much memory it holds.
pub open spec fn evictable(m: ModelConfig, idle: Seq<String>) -> bool {
    m.state is Running && m.estimated_vram > 0 && names_hold(idle, m.id@)
}

/// A model that may be stopped. A greater score is stopped first.
pub struct Candidate {
    pub id: String,
    pub estimated_vram: u64,
    pub score: u64,
}

/// The candidates among the first `n` models.
pub open spec fn candidates(
    models: Seq<ModelConfig>,
    scores: Seq<u64>,
    idle: Seq<String>,
    n: int,
) -> Seq<Candidate>
    decreases n,
{
    if n <= 0 {
        Seq::empty()
    } else {
        let front = candidates(models, scores, idle, n - 1);
        let m = models[n - 1];
        if evictable(m, idle) {
            front.push(
                Candidate { id: m.id, estimated_vram: m.estimated_vram, score: scores[n - 1] },
            )
        } else {
            front
        }
    }
}

/// The order in which candidates are stopped.
pub open spec fn stopped_first() -> spec_fn(Candidate, Candidate) -> bool {
    |a: Candidate, b: Candidate| a.score >= b.score
}

/// As many of the candidates, from the first on, as it takes to free `deficit`
/// bytes.
pub open spec fn victims(s: Seq<Candidate>, deficit: int) -> Seq<Candidate>
    decreases s.len(),
{
    if s.len() == 0 || deficit <= 0 {
        Seq::empty()
    } else {
        seq![s[0]] + victims(s.drop_first(), deficit - s[0].estimated_vram)
    }
}

/// The memory that the candidates hold.
pub open spec fn held(s: Seq<Candidate>) -> int
    decreases s.len(),
{
    if s.len() == 0 {
        0
    } else {
        s[0].estimated_vram + held(s.drop_first())
    }
}

/// The models to stop so that `needed` bytes are free, in order.
pub open spec fn to_stop(
    models: Seq<ModelConfig>,
    scores: Seq<u64>,
    free: int,
    needed: int,
    idle: Seq<String>,
) -> Seq<Candidate> {
    victims(
        sorted_by(candidates(models, scores, idle, models.len() as int), stopped_first()),
        needed - free,
    )
}

fn is_evictable(m: &ModelConfig, idle_models: &Vec<String>) -> (r: bool)
    ensures
        r == evictable(*m, idle_models@),
{
    m.state.is_running() && m.estimated_vram > 0 && holds_name(idle_models, m.id.as_str())
}

fn collect_candidates(
    models: &Table<ModelConfig>,
    scores: &Vec<u64>,
    idle_models: &Vec<String>,
) -> (r: Vec<Candidate>)
    requires
        scores@.len() == models.records().len(),
    ensures
        r@ == candidates(
            models.records(),
            scores@,
            idle_models@,
            models.records().len() as int,
        ),
{
    let mut r: Vec<Candidate> = Vec::new();
    let mut i: usize = 0;
    while i < models.len()
        invariant
            i <= models.records().len(),
            scores@.len() == models.records().len(),
            r@ == candidates(models.records(), scores@, idle_models@, i as int),
        decreases models.records().len() - i,
    {
        let m = models.at(i);
        if is_evictable(m, idle_models) {
            r.push(
                Candidate {
                    id: m.id.clone(),
                    estimated_vram: m.estimated_vram,
                    score: scores[i],
                },
            );
        }
        i += 1;
    }
    r
}

/// Decides which models to stop so that `needed` bytes are free. `scores` ranks
/// the models in the order of the table; the greatest is stopped first.
pub fn decide_eviction(
    models: &Table<ModelConfig>,
    scores: &Vec<u64>,
    free_vram: u64,
    needed: u64,
    idle_models: &Vec<String>,
) -> (r: Vec<EvictionAction>)
    requires
        scores@.len() == models.records().len(),
    ensures
        ({
            let stop = to_stop(
                models.records(),
                scores@,
                free_vram as int,
                needed as int,
                idle_models@,
            );
            &&& r@.len() == stop.len()
            &&& forall|i: int| 0 <= i < r@.len() ==> (#[trigger] r@[i]).victim() == stop[i].id@
        }),
{
    let mut actions: Vec<EvictionAction> = Vec::new();
    if free_vram >= needed {
        return actions;
    }
    let all = collect_candidates(models, scores, idle_models);
    let le = |a: &Candidate, b: &Candidate| -> (c: bool)
        ensures
            c == stopped_first()(*a, *b),
        {
            let x = a.score;
            let y = b.score;
            y <= x
        };
    let sorted = sort_stable(all, le, Ghost(stopped_first()));
    let ghost s = sorted@;
    let ghost deficit = needed - free_vram;
    let mut left: u64 = needed - free_vram;
    let mut i: usize = 0;
    assert(s.subrange(0, s.len() as int) =~= s);
    while i < sorted.len() && left > 0
        invariant
            i <= s.len(),
            s == sorted@,
            actions@.len() == i,
            victims(s, deficit) == s.take(i as int) + victims(
                s.subrange(i as int, s.len() as int),
                left as int,
            ),
            forall|j: int| 0 <= j < i ==> (#[trigger] actions@[j]).victim() == s[j].id@,
        decreases s.len() - i,
    {
        let ghost rest = s.subrange(i as int, s.len() as int);
        let c = &sorted[i];
        actions.push(EvictionAction::Evict(c.id.clone()));
        proof {
            assert(rest[0] == s[i as int]);
            assert(rest.drop_first() =~= s.subrange(i + 1, s.len() as int));
            assert(s.take(i + 1) =~= s.take(i as int) + seq![s[i as int]]);
            lemma_no_deficit(rest.drop_first(), left - c.estimated_vram);
            lemma_no_deficit(rest.drop_first(), 0);
        }
        left = left.saturating_sub(c.estimated_vram);
        i += 1;
        assert(victims(s, deficit) =~= s.take(i as int) + victims(
            s.subrange(i as int, s.len() as int),
            left as int,
        ));
    }
    assert(victims(s, deficit) =~= s.take(i as int));
    actions
}

/// Nothing is stopped where nothing is missing.
proof fn lemma_no_deficit(s: Seq<Candidate>, deficit: int)
    ensures
        deficit <= 0 ==> victims(s, deficit) == Seq::<Candidate>::empty(),
{
}

// ----- laws -----

proof fn lemma_stopped_first_ranks()
    ensures
        ranks(stopped_first()),
{
}

proof fn lemma_victims_prefix(s: Seq<Candidate>, deficit: int)
    ensures
        victims(s, deficit).len() <= s.len(),
        victims(s, deficit) == s.take(victims(s, deficit).len() as int),
        held(victims(s, deficit)) >= deficit || victims(s, deficit) == s,
        victims(s, deficit).len() > 0 ==> held(victims(s, deficit).drop_last()) < deficit,
    decreases s.len(),
{
    let v = victims(s, deficit);
    if s.len() == 0 || deficit <= 0 {
        assert(s.take(0) =~= v);
        if s.len() == 0 {
            assert(v =~= s);
        }
    } else {
        let t = s.drop_first();
        let d = deficit - s[0].estimated_vram;
        lemma_victims_prefix(t, d);
        let w = victims(t, d);
        assert(v.drop_first() =~= w);
        assert(v =~= s.take(v.len() as int));
        if w == t {
            assert(v =~= s);
        }
        if w.len() > 0 {
            assert(v.drop_last() =~= seq![s[0]] + w.drop_last());
            assert((seq![s[0]] + w.drop_last()).drop_first() =~= w.drop_last());
        } else {
            assert(v.drop_last() =~= Seq::empty());
        }
    }
}

/// Only models that run, that are idle and whose memory is known are stopped.
pub proof fn law_only_evictable_models_are_stopped(
    models: Seq<ModelConfig>,
    scores: Seq<u64>,
    free: int,
    needed: int,
    idle: Seq<String>,
    i: int,
)
    requires
        scores.len() == models.len(),
        0 <= i < to_stop(models, scores, free, needed, idle).len(),
    ensures
        exists|j: int|
            0 <= j < models.len() && evictable(#[trigger] models[j], idle) && models[j].id
                == to_stop(models, scores, free, needed, idle)[i].id,
{
    let all = candidates(models, scores, idle, models.len() as int);
    let s = sorted_by(all, stopped_first());
    let v = to_stop(models, scores, free, needed, idle);
    lemma_stopped_first_ranks();
    law_sorted_by(all, stopped_first());
    lemma_victims_prefix(s, needed - free);
    assert(v[i] == s[i]);
    s.to_multiset_ensures();
    all.to_multiset_ensures();
    assert(s.contains(s[i]));
    assert(s.to_multiset().count(s[i]) > 0);
    assert(all.contains(s[i]));
    let k = choose|k: int| 0 <= k < all.len() && all[k] == s[i];
    lemma_candidate_source(models, scores, idle, models.len() as int, k);
}

proof fn lemma_candidate_source(
    models: Seq<ModelConfig>,
    scores: Seq<u64>,
    idle: Seq<String>,
    n: int,
    k: int,
)
    requires
        0 <= n <= models.len(),
        0 <= k < candidates(models, scores, idle, n).len(),
    ensures
        exists|j: int|
            0 <= j < n && evictable(#[trigger] models[j], idle) && models[j].id == candidates(
                models,
                scores,
                idle,
                n,
            )[k].id,
    decreases n,
{
    let front = candidates(models, scores, idle, n - 1);
    if evictable(models[n - 1], idle) && k == front.len() {
        assert(models[n - 1].id == candidates(models, scores, idle, n)[k].id);
    } else {
        lemma_candidate_source(models, scores, idle, n - 1, k);
    }
}

/// What is stopped frees what is missing, or is all that may be stopped; and
/// without the last of it too little would be freed. So nothing is stopped
/// where enough is free.
pub proof fn law_no_more_is_stopped_than_needed(
    models: Seq<ModelConfig>,
    scores: Seq<u64>,
    free: int,
    needed: int,
    idle: Seq<String>,
)
    ensures
        ({
            let v = to_stop(models, scores, free, needed, idle);
            let all = candidates(models, scores, idle, models.len() as int);
            &&& free + held(v) >= needed || v.len() == all.len()
            &&& v.len() > 0 ==> free + held(v.drop_last()) < needed
            &&& free >= needed ==> v.len() == 0
        }),
{
    let all = candidates(models, scores, idle, models.len() as int);
    lemma_stopped_first_ranks();
    law_sorted_by(all, stopped_first());
    lemma_victims_prefix(sorted_by(all, stopped_first()), needed - free);
}

/// Models are stopped in the order of their scores, and none is spared that
/// scores higher than one that is stopped.
pub proof fn law_highest_scores_are_stopped_first(
    models: Seq<ModelConfig>,
    scores: Seq<u64>,
    free: int,
    needed: int,
    idle: Seq<String>,
)
    ensures
        ({
            let v = to_stop(models, scores, free, needed, idle);
            let s = sorted_by(
                candidates(models, scores, idle, models.len() as int),
                stopped_first(),
            );
            &&& v.len() <= s.len()
            &&& v == s.take(v.len() as int)
            &&& ordered(s, stopped_first())
        }),
{
    let all = candidates(models, scores, idle, models.len() as int);
    lemma_stopped_first_ranks();
    law_sorted_by(all, stopped_first());
    lemma_victims_prefix(sorted_by(all, stopped_first()), needed - free);
}

} // verus!
