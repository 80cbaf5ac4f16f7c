//! What the models folder holds that is not configured yet, and taking it over.
use vstd::prelude::*;
use vstd::string::*;

use crate::api::model_scan::{
    candidate_model, id_stem, id_try, is_candidate, is_first_free, is_mmproj_file,
    is_projector, template_for, ModelReconcileResponse,
};
use crate::config::model::{is_blank, GgufMeta, ModelConfig, WeightsFormat};
use crate::orchestrator::engine::Orchestrator;
use crate::orchestrator::errors::MutationError;
use crate::text::{holds_text, texts};

verus! {

broadcast use vstd::string::group_string_axioms;

// ----- which files are new -----

/// The files that are looked into.
#[derive(Debug)]
pub struct NewFiles {
    /// Files of models that are not configured.
    pub models: Vec<String>,
    /// Files that go with models that take pictures.
    pub projectors: Vec<String>,
}

/// The models among the first `n` files that are not configured. Files are told
/// apart by what the file system resolves them to.
pub open spec fn unknown_models(
    files: Seq<Seq<char>>,
    keys: Seq<Seq<char>>,
    known: Seq<Seq<char>>,
    n: int,
) -> Seq<Seq<char>>
    decreases n,
{
    if n <= 0 {
        Seq::empty()
    } else {
        let front = unknown_models(files, keys, known, n - 1);
        if !is_projector(files[n - 1]) && !known.contains(keys[n - 1]) {
            front.push(files[n - 1])
        } else {
            front
        }
    }
}

/// The projectors among the first `n` files.
pub open spec fn projectors(files: Seq<Seq<char>>, n: int) -> Seq<Seq<char>>
    decreases n,
{
    if n <= 0 {
        Seq::empty()
    } else if is_projector(files[n - 1]) {
        projectors(files, n - 1).push(files[n - 1])
    } else {
        projectors(files, n - 1)
    }
}

/// Whether a file is that of a configured GGUF model, as the file system
/// resolves it.
pub open spec fn is_known(models: Seq<ModelConfig>, keys: Seq<Seq<char>>, key: Seq<char>) -> bool {
    exists|i: int|
        0 <= i < models.len() && (#[trigger] models[i]).weights_format == WeightsFormat::Gguf
            && keys[i] == key
}

/// The files of configured GGUF models. Of each model it is told what the file
/// system resolves its path to.
pub fn known_files(models: &Vec<ModelConfig>, keys: &Vec<String>) -> (r: Vec<String>)
    requires
        keys@.len() == models@.len(),
    ensures
        forall|key: Seq<char>| #[trigger]
            texts(r@).contains(key) == is_known(models@, texts(keys@), key),
{
    let ghost ks = texts(keys@);
    let mut r: Vec<String> = Vec::new();
    let mut i: usize = 0;
    while i < models.len()
        invariant
            i <= models@.len() == keys@.len(),
            ks == texts(keys@),
            forall|j: int|
                0 <= j < i && (#[trigger] models@[j]).weights_format == WeightsFormat::Gguf
                    ==> texts(r@).contains(ks[j]),
            forall|k: int|
                0 <= k < r@.len() ==> is_known(models@, ks, #[trigger] texts(r@)[k]),
        decreases models@.len() - i,
    {
        assert(ks[i as int] == keys@[i as int]@);
        if models[i].weights_format == WeightsFormat::Gguf {
            let ghost before = r@;
            r.push(keys[i].clone());
            assert(texts(r@) =~= texts(before).push(ks[i as int]));
            proof {
                assert(texts(r@)[before.len() as int] == ks[i as int]);
                assert forall|key: Seq<char>| texts(before).contains(key) implies #[trigger] texts(
                    r@,
                ).contains(key) by {
                    let x = texts(before).index_of(key);
                    assert(texts(r@)[x] == key);
                }
                assert forall|k: int| 0 <= k < r@.len() implies is_known(
                    models@,
                    ks,
                    #[trigger] texts(r@)[k],
                ) by {
                    if k < before.len() {
                        assert(texts(r@)[k] == texts(before)[k]);
                    } else {
                        assert(models@[i as int].weights_format == WeightsFormat::Gguf);
                    }
                }
            }
        }
        i += 1;
    }
    r
}

/// Parts the files that were found. Of each it is told what the file system
/// resolves it to; `known` are the files of configured models, resolved.
pub fn part_files(files: &Vec<String>, keys: &Vec<String>, known: &Vec<String>) -> (r: NewFiles)
    requires
        keys@.len() == files@.len(),
    ensures
        texts(r.models@) == unknown_models(
            texts(files@),
            texts(keys@),
            texts(known@),
            files@.len() as int,
        ),
        texts(r.projectors@) == projectors(texts(files@), files@.len() as int),
{
    let ghost all = texts(files@);
    let ghost ks = texts(keys@);
    let mut models: Vec<String> = Vec::new();
    let mut others: Vec<String> = Vec::new();
    assert(texts(models@) =~= Seq::empty());
    assert(texts(others@) =~= Seq::empty());
    let mut i: usize = 0;
    while i < files.len()
        invariant
            i <= files@.len() == keys@.len(),
            all == texts(files@),
            ks == texts(keys@),
            texts(models@) == unknown_models(all, ks, texts(known@), i as int),
            texts(others@) == projectors(all, i as int),
        decreases files@.len() - i,
    {
        assert(all[i as int] == files@[i as int]@);
        assert(ks[i as int] == keys@[i as int]@);
        let ghost m0 = models@;
        let ghost o0 = others@;
        if is_mmproj_file(files[i].as_str()) {
            others.push(files[i].clone());
            assert(texts(others@) =~= texts(o0).push(all[i as int]));
        } else if !holds_text(known, keys[i].as_str()) {
            models.push(files[i].clone());
            assert(texts(models@) =~= texts(m0).push(all[i as int]));
        }
        i += 1;
    }
    NewFiles { models, projectors: others }
}

// ----- candidates -----

/// A file of a model, with what could be read of it.
pub struct ReadFile {
    pub path: String,
    /// What stands in the file, or why it cannot be read.
    pub meta: Result<GgufMeta, String>,
}

/// A model that can be added.
pub struct ModelScanCandidate {
    pub path: String,
    pub model: ModelConfig,
}

/// What came of looking into files.
pub struct Findings {
    pub candidates: Vec<ModelScanCandidate>,
    pub errors: Vec<String>,
}

/// How many of the first `n` files could be read.
pub open spec fn readable(files: Seq<ReadFile>, n: int) -> nat
    decreases n,
{
    if n <= 0 {
        0
    } else if files[n - 1].meta is Ok {
        readable(files, n - 1) + 1
    } else {
        readable(files, n - 1)
    }
}

/// What is told of the first `n` files that could not be read.
pub open spec fn unreadable(files: Seq<ReadFile>, n: int) -> Seq<Seq<char>>
    decreases n,
{
    if n <= 0 {
        Seq::empty()
    } else {
        match files[n - 1].meta {
            Ok(_) => unreadable(files, n - 1),
            Err(e) => unreadable(files, n - 1).push(files[n - 1].path@ + ": "@ + e@),
        }
    }
}

/// The ids that are in use when a candidate is made: those of the models and
/// of the candidates before it.
pub open spec fn ids_before(
    models: Seq<ModelConfig>,
    candidates: Seq<ModelScanCandidate>,
    k: int,
) -> Seq<Seq<char>> {
    models.map_values(|m: ModelConfig| m.id@) + candidates.take(k).map_values(
        |c: ModelScanCandidate| c.model.id@,
    )
}

/// Whether a candidate is made of a file: it takes after the nearest configured
/// model, under an id that is not in use.
pub open spec fn made_of(
    c: ModelScanCandidate,
    path: Seq<char>,
    meta: GgufMeta,
    models: Seq<ModelConfig>,
    present: Seq<bool>,
    projectors: Seq<Seq<char>>,
    used: Seq<Seq<char>>,
) -> bool {
    &&& c.path@ == path
    &&& exists|k: nat| #[trigger]
        is_first_free(id_stem(meta.suggested_id@), used, k) && c.model.id@ == id_try(
            id_stem(meta.suggested_id@),
            k,
        )
    &&& match template_for(path, models) {
        Some(i) => is_candidate(c.model, models[i], path, meta, models, present, projectors),
        None => exists|base: ModelConfig|
            is_blank(base) && #[trigger] is_candidate(
                c.model,
                base,
                path,
                meta,
                models,
                present,
                projectors,
            ),
    }
}

/// Makes candidates of the files that could be read, and adds what is wrong
/// with the others to the errors. Of each configured model it is told whether
/// its file exists.
pub fn make_candidates(
    files: Vec<ReadFile>,
    models: &Vec<ModelConfig>,
    present: &Vec<bool>,
    projectors: &Vec<String>,
    errors: Vec<String>,
) -> (r: Findings)
    requires
        present@.len() == models@.len(),
    ensures
        r.candidates@.len() == readable(files@, files@.len() as int),
        forall|i: int|
            0 <= i < files@.len() && (#[trigger] files@[i]).meta is Ok ==> {
                let k = readable(files@, i) as int;
                made_of(
                    r.candidates@[k],
                    files@[i].path@,
                    files@[i].meta->Ok_0,
                    models@,
                    present@,
                    texts(projectors@),
                    ids_before(models@, r.candidates@, k),
                )
            },
        texts(r.errors@) == texts(errors@) + unreadable(files@, files@.len() as int),
{
    let ghost all = files@;
    let ghost before = texts(errors@);
    let ghost near = texts(projectors@);
    let mut errors = errors;
    let mut used: Vec<String> = Vec::new();
    let mut j: usize = 0;
    assert(texts(used@) =~= models@.take(0).map_values(|m: ModelConfig| m.id@));
    while j < models.len()
        invariant
            j <= models@.len(),
            texts(used@) == models@.take(j as int).map_values(|m: ModelConfig| m.id@),
        decreases models@.len() - j,
    {
        let ghost u0 = used@;
        used.push(models[j].id.clone());
        assert(texts(used@) =~= texts(u0).push(models@[j as int].id@));
        assert(models@.take(j + 1).map_values(|m: ModelConfig| m.id@) =~= models@.take(
            j as int,
        ).map_values(|m: ModelConfig| m.id@).push(models@[j as int].id@));
        j += 1;
    }
    assert(models@.take(j as int) =~= models@);
    let mut candidates: Vec<ModelScanCandidate> = Vec::new();
    let mut files = files;
    let mut i: usize = 0;
    assert(texts(used@) =~= ids_before(models@, candidates@, 0));
    assert(before + unreadable(all, 0) =~= before);
    let n = files.len();
    while files.len() > 0
        invariant
            i <= n == all.len(),
            files@ == all.skip(i as int),
            present@.len() == models@.len(),
            near == texts(projectors@),
            candidates@.len() == readable(all, i as int),
            texts(used@) == ids_before(models@, candidates@, candidates@.len() as int),
            forall|k: int|
                0 <= k < i && (#[trigger] all[k]).meta is Ok ==> {
                    let c = readable(all, k) as int;
                    &&& c < candidates@.len()
                    &&& made_of(
                        candidates@[c],
                        all[k].path@,
                        all[k].meta->Ok_0,
                        models@,
                        present@,
                        near,
                        ids_before(models@, candidates@, c),
                    )
                },
            texts(errors@) == before + unreadable(all, i as int),
        decreases files@.len(),
    {
        let f = files.remove(0);
        assert(f == all[i as int]);
        assert(files@ =~= all.skip(i + 1));
        match f.meta {
            Ok(meta) => {
                let ghost c0 = candidates@;
                let ghost u0 = texts(used@);
                let model = candidate_model(
                    f.path.as_str(),
                    meta,
                    models,
                    present,
                    &mut used,
                    projectors,
                );
                let ghost id = model.id@;
                let c = ModelScanCandidate { path: f.path, model };
                assert(made_of(c, f.path@, meta, models@, present@, near, u0));
                candidates.push(c);
                proof {
                    assert(candidates@.take(c0.len() as int) =~= c0.take(c0.len() as int));
                    assert(c0.take(c0.len() as int) =~= c0);
                    assert(candidates@.take(candidates@.len() as int) =~= candidates@);
                    assert(candidates@.map_values(|c: ModelScanCandidate| c.model.id@)
                        =~= c0.map_values(|c: ModelScanCandidate| c.model.id@).push(id));
                    assert(texts(used@) =~= ids_before(
                        models@,
                        candidates@,
                        candidates@.len() as int,
                    ));
                    assert forall|k: int|
                        0 <= k < i + 1 && (#[trigger] all[k]).meta is Ok implies {
                        let c = readable(all, k) as int;
                        &&& c < candidates@.len()
                        &&& made_of(
                            candidates@[c],
                            all[k].path@,
                            all[k].meta->Ok_0,
                            models@,
                            present@,
                            near,
                            ids_before(models@, candidates@, c),
                        )
                    } by {
                        let c = readable(all, k) as int;
                        if k < i {
                            assert(c < c0.len());
                            assert(candidates@.take(c) =~= c0.take(c));
                        } else {
                            assert(c == c0.len());
                        }
                    }
                }
            },
            Err(e) => {
                let ghost e0 = errors@;
                let t = f.path.concat(": ").concat(e.as_str());
                let ghost tv = t@;
                errors.push(t);
                assert(texts(errors@) =~= texts(e0).push(tv));
                assert(texts(errors@) =~= before + unreadable(all, i + 1));
            },
        }
        i += 1;
    }
    assert(i == n);
    Findings { candidates, errors }
}

// ----- taking over -----

/// The ids among the first `n` models that were added.
pub open spec fn added_ids(
    add: Seq<ModelConfig>,
    results: Seq<Result<(), MutationError>>,
    n: int,
) -> Seq<Seq<char>>
    decreases n,
{
    if n <= 0 {
        Seq::empty()
    } else if results[n - 1] is Ok {
        added_ids(add, results, n - 1).push(add[n - 1].id@)
    } else {
        added_ids(add, results, n - 1)
    }
}

/// What is told of the first `n` models that were not added.
pub open spec fn add_faults(
    add: Seq<ModelConfig>,
    results: Seq<Result<(), MutationError>>,
    n: int,
) -> Seq<Seq<char>>
    decreases n,
{
    if n <= 0 {
        Seq::empty()
    } else {
        match results[n - 1] {
            Ok(_) => add_faults(add, results, n - 1),
            Err(e) => add_faults(add, results, n - 1).push(
                "add "@ + add[n - 1].id@ + ": "@ + e.text(),
            ),
        }
    }
}

/// The ids among the first `n` that were removed.
pub open spec fn removed_ids(
    remove: Seq<Seq<char>>,
    results: Seq<Result<Vec<i32>, MutationError>>,
    n: int,
) -> Seq<Seq<char>>
    decreases n,
{
    if n <= 0 {
        Seq::empty()
    } else if results[n - 1] is Ok {
        removed_ids(remove, results, n - 1).push(remove[n - 1])
    } else {
        removed_ids(remove, results, n - 1)
    }
}

/// What is told of the first `n` models that were not removed.
pub open spec fn remove_faults(
    remove: Seq<Seq<char>>,
    results: Seq<Result<Vec<i32>, MutationError>>,
    n: int,
) -> Seq<Seq<char>>
    decreases n,
{
    if n <= 0 {
        Seq::empty()
    } else {
        match results[n - 1] {
            Ok(_) => remove_faults(remove, results, n - 1),
            Err(e) => remove_faults(remove, results, n - 1).push(
                "remove "@ + remove[n - 1] + ": "@ + e.text(),
            ),
        }
    }
}

/// The processes of the first `n` models that were removed.
pub open spec fn removal_signals(results: Seq<Result<Vec<i32>, MutationError>>, n: int) -> Seq<i32>
    decreases n,
{
    if n <= 0 {
        Seq::empty()
    } else {
        match results[n - 1] {
            Ok(pids) => removal_signals(results, n - 1) + pids@,
            Err(_) => removal_signals(results, n - 1),
        }
    }
}

/// Whether the models were added one after the other, from state to state.
pub open spec fn adds_in_turn(
    states: Seq<Orchestrator>,
    add: Seq<ModelConfig>,
    results: Seq<Result<(), MutationError>>,
) -> bool {
    &&& results.len() == add.len()
    &&& states.len() == add.len() + 1
    &&& forall|i: int|
        0 <= i < add.len() ==> (#[trigger] states[i]).adds(&states[i + 1], add[i], results[i])
}

/// Whether the models were removed one after the other, from state to state.
pub open spec fn removes_in_turn(
    states: Seq<Orchestrator>,
    remove: Seq<Seq<char>>,
    now: u64,
    results: Seq<Result<Vec<i32>, MutationError>>,
) -> bool {
    &&& results.len() == remove.len()
    &&& states.len() == remove.len() + 1
    &&& forall|i: int|
        0 <= i < remove.len() ==> (#[trigger] states[i]).removes(
            &states[i + 1],
            remove[i],
            now,
            results[i],
        )
}

/// What came of taking over a scan, and which processes are to be ended.
pub struct TakenOver {
    pub response: ModelReconcileResponse,
    pub signal: Vec<i32>,
}

impl Orchestrator {
    /// Adds models that were found and removes models whose files are gone.
    /// What is refused is told; the rest is done.
    pub fn reconcile_models_folder(
        &mut self,
        add: Vec<ModelConfig>,
        remove: &Vec<String>,
        now: u64,
    ) -> (r: TakenOver)
        requires
            old(self).wf(),
        ensures
            final(self).wf(),
            exists|
                s: Seq<Orchestrator>,
                a: Seq<Result<(), MutationError>>,
                t: Seq<Orchestrator>,
                d: Seq<Result<Vec<i32>, MutationError>>,
            |
                {
                    &&& #[trigger] adds_in_turn(s, add@, a)
                    &&& #[trigger] removes_in_turn(t, texts(remove@), now, d)
                    &&& s[0] == *old(self)
                    &&& t[0] == s.last()
                    &&& *final(self) == t.last()
                    &&& texts(r.response.added@) == added_ids(add@, a, a.len() as int)
                    &&& texts(r.response.removed@) == removed_ids(
                        texts(remove@),
                        d,
                        d.len() as int,
                    )
                    &&& texts(r.response.errors@) == add_faults(add@, a, a.len() as int)
                        + remove_faults(texts(remove@), d, d.len() as int)
                    &&& r.signal@ == removal_signals(d, d.len() as int)
                },
    {
        let ghost all = add@;
        let mut added: Vec<String> = Vec::new();
        let mut removed: Vec<String> = Vec::new();
        let mut errors: Vec<String> = Vec::new();
        let mut signal: Vec<i32> = Vec::new();
        let ghost mut s: Seq<Orchestrator> = seq![*self];
        let ghost mut a: Seq<Result<(), MutationError>> = Seq::empty();
        let mut add = add;
        let mut i: usize = 0;
        let n = add.len();
        assert(texts(added@) =~= Seq::empty());
        assert(texts(errors@) =~= Seq::empty());
        while add.len() > 0
            invariant
                i <= n == all.len(),
                add@ == all.skip(i as int),
                self.wf(),
                s.len() == i + 1,
                a.len() == i,
                s[0] == *old(self),
                s[i as int] == *self,
                forall|k: int|
                    0 <= k < i ==> (#[trigger] s[k]).adds(&s[k + 1], all[k], a[k]),
                texts(added@) == added_ids(all, a, i as int),
                texts(errors@) == add_faults(all, a, i as int),
            decreases add@.len(),
        {
            let m = add.remove(0);
            assert(m == all[i as int]);
            assert(add@ =~= all.skip(i + 1));
            let id = m.id.clone();
            let ghost a0 = a;
            let ghost s0 = s;
            let ghost added0 = added@;
            let ghost errors0 = errors@;
            let res = self.add_model(m);
            proof {
                s = s0.push(*self);
                a = a0.push(res);
                lemma_added_frame(all, a0, res, i as int);
                assert forall|k: int| 0 <= k < i + 1 implies (#[trigger] s[k]).adds(
                    &s[k + 1],
                    all[k],
                    a[k],
                ) by {
                    if k < i {
                        assert(s[k] == s0[k] && s[k + 1] == s0[k + 1] && a[k] == a0[k]);
                    }
                }
            }
            match res {
                Ok(_) => {
                    added.push(id);
                    assert(texts(added@) =~= texts(added0).push(id@));
                },
                Err(e) => {
                    let why = e.message();
                    let t = "add ".to_owned().concat(id.as_str()).concat(": ").concat(
                        why.as_str(),
                    );
                    let ghost tv = t@;
                    errors.push(t);
                    assert(texts(errors@) =~= texts(errors0).push(tv));
                },
            }
            i += 1;
        }
        assert(i == n);
        let ghost told = texts(errors@);
        let ghost gone = texts(remove@);
        let ghost mut t: Seq<Orchestrator> = seq![*self];
        let ghost mut d: Seq<Result<Vec<i32>, MutationError>> = Seq::empty();
        let mut j: usize = 0;
        assert(texts(removed@) =~= Seq::empty());
        assert(told + remove_faults(gone, d, 0) =~= told);
        while j < remove.len()
            invariant
                j <= remove@.len(),
                gone == texts(remove@),
                self.wf(),
                t.len() == j + 1,
                d.len() == j,
                t[0] == s.last(),
                t[j as int] == *self,
                forall|k: int|
                    0 <= k < j ==> (#[trigger] t[k]).removes(&t[k + 1], gone[k], now, d[k]),
                texts(removed@) == removed_ids(gone, d, j as int),
                texts(errors@) == told + remove_faults(gone, d, j as int),
                signal@ == removal_signals(d, j as int),
            decreases remove@.len() - j,
        {
            assert(gone[j as int] == remove@[j as int]@);
            let ghost d0 = d;
            let ghost t0 = t;
            let ghost removed0 = removed@;
            let ghost errors0 = errors@;
            let res = self.remove_model(remove[j].as_str(), now);
            proof {
                t = t0.push(*self);
                d = d0.push(res);
                lemma_removed_frame(gone, d0, res, j as int);
                assert forall|k: int| 0 <= k < j + 1 implies (#[trigger] t[k]).removes(
                    &t[k + 1],
                    gone[k],
                    now,
                    d[k],
                ) by {
                    if k < j {
                        assert(t[k] == t0[k] && t[k + 1] == t0[k + 1] && d[k] == d0[k]);
                    }
                }
            }
            match res {
                Ok(pids) => {
                    let mut pids = pids;
                    signal.append(&mut pids);
                    removed.push(remove[j].clone());
                    assert(texts(removed@) =~= texts(removed0).push(gone[j as int]));
                },
                Err(e) => {
                    let why = e.message();
                    let t = "remove ".to_owned().concat(remove[j].as_str()).concat(": ").concat(
                        why.as_str(),
                    );
                    let ghost tv = t@;
                    errors.push(t);
                    assert(texts(errors@) =~= texts(errors0).push(tv));
                    assert(texts(errors@) =~= told + remove_faults(gone, d, j + 1));
                },
            }
            j += 1;
        }
        assert(adds_in_turn(s, all, a));
        assert(removes_in_turn(t, gone, now, d));
        TakenOver { response: ModelReconcileResponse { added, removed, errors }, signal }
    }
}

proof fn lemma_added_frame(
    add: Seq<ModelConfig>,
    a: Seq<Result<(), MutationError>>,
    x: Result<(), MutationError>,
    n: int,
)
    requires
        0 <= n <= a.len(),
    ensures
        added_ids(add, a.push(x), n) == added_ids(add, a, n),
        add_faults(add, a.push(x), n) == add_faults(add, a, n),
    decreases n,
{
    if n > 0 {
        lemma_added_frame(add, a, x, n - 1);
    }
}

proof fn lemma_removed_frame(
    remove: Seq<Seq<char>>,
    d: Seq<Result<Vec<i32>, MutationError>>,
    x: Result<Vec<i32>, MutationError>,
    n: int,
)
    requires
        0 <= n <= d.len(),
    ensures
        removed_ids(remove, d.push(x), n) == removed_ids(remove, d, n),
        remove_faults(remove, d.push(x), n) == remove_faults(remove, d, n),
        removal_signals(d.push(x), n) == removal_signals(d, n),
    decreases n,
{
    if n > 0 {
        lemma_removed_frame(remove, d, x, n - 1);
    }
}

} // verus!
