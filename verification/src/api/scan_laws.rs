//! What holds of every scan of the models folder.
use vstd::prelude::*;
use vstd::string::*;

use crate::api::folder::{
    add_faults, added_ids, projectors, readable, removal_signals, remove_faults, removed_ids,
    unknown_models, unreadable, ReadFile,
};
use crate::api::model_scan::{
    as_near, directories, in_directory, is_candidate, is_entry, is_gguf, is_missing, is_projector,
    missing_among, model_files, nearest_among, nearness, projector_for, shard_of, template_for,
    MissingView, ScanEntry,
};
use crate::config::model::{GgufMeta, ModelConfig, WeightsFormat};
use crate::orchestrator::errors::MutationError;
use crate::paths::{file_name, lies_under, parent_parts, shared, stem_and_extension};
use crate::text::{
    decimal, has_infix, last_at, lower, occurs_at, option_text, same_ignoring_case,
};
use crate::text_laws::{law_numbers_are_read_back, lemma_last};

verus! {

broadcast use vstd::string::group_string_axioms;

/// A file counts as a model file exactly where its extension is that of GGUF,
/// in any case of letters; of a model in several parts only the first counts.
pub proof fn law_model_files_are_told_by_their_names(path: Seq<char>)
    ensures
        is_gguf(path) <==> (file_name(path) matches Some(n) && (stem_and_extension(
            n,
        ).1 matches Some(e) && same_ignoring_case(e, "gguf"@))),
        file_name(path) matches Some(n) ==> is_entry(path) == match shard_of(n) {
            Some(p) => p.0 == 1,
            None => true,
        },
        is_projector(path) <==> (file_name(path) matches Some(n) && (has_infix(
            lower(n),
            "mmproj"@,
        ) || has_infix(lower(n), "projector"@))),
{
}

/// The number of a part and the number of parts are read from the name of a
/// file as they are written there, whatever stands before them.
pub proof fn law_parts_are_numbered_in_names(stem: Seq<char>, part: nat, parts: nat)
    requires
        part <= u32::MAX,
        parts <= u32::MAX,
    ensures
        shard_of(stem + "-"@ + decimal(part) + "-of-"@ + decimal(parts) + ".gguf"@) == Some(
            (part, parts),
        ),
{
    reveal_strlit("-");
    reveal_strlit("-of-");
    reveal_strlit(".gguf");
    law_numbers_are_read_back(part, u32::MAX as nat);
    law_numbers_are_read_back(parts, u32::MAX as nat);
    let front = stem + "-"@ + decimal(part);
    let rest = front + "-of-"@ + decimal(parts);
    let name = rest + ".gguf"@;
    assert(name.subrange(rest.len() as int, name.len() as int) =~= ".gguf"@);
    assert(name.take(name.len() - ".gguf"@.len()) =~= rest);
    let n = front.len() as int;
    lemma_last(rest, "-of-"@, rest.len() as int);
    assert(rest.subrange(n, n + 4) =~= "-of-"@);
    assert(occurs_at(rest, "-of-"@, n));
    let i = last_at(rest, "-of-"@, rest.len() as int)->0;
    if i > n {
        let w = rest.subrange(i, i + 4);
        assert(w[0] == '-' && w[1] == 'o');
        assert(rest[i] == '-' && rest[i + 1] == 'o');
        if i >= n + 4 {
            assert(rest[i] == decimal(parts)[i - n - 4]);
        } else if i == n + 3 {
            assert(rest[i + 1] == decimal(parts)[0]);
        } else {
            assert(rest[i] == "-of-"@[i - n]);
        }
    }
    assert(rest.take(n) =~= front);
    assert(rest.skip(n + 4) =~= decimal(parts));
    let m = stem.len() as int;
    lemma_last(front, "-"@, front.len() as int);
    assert(front.subrange(m, m + 1) =~= "-"@);
    assert(occurs_at(front, "-"@, m));
    let j = last_at(front, "-"@, front.len() as int)->0;
    if j > m {
        assert(front.subrange(j, j + 1)[0] == front[j]);
        assert(front[j] == decimal(part)[j - m - 1]);
    }
    assert(front.skip(m + 1) =~= decimal(part));
}

/// Every directory that is found is walked through, and every model file that a
/// model starts from is taken, in the order in which they were found.
pub proof fn law_a_walk_takes_every_entry(e: Seq<ScanEntry>, n: int, i: int)
    requires
        0 <= i < n <= e.len(),
    ensures
        e[i].is_dir ==> directories(e, n).contains(e[i].path@),
        !e[i].is_dir && is_gguf(e[i].path@) && is_entry(e[i].path@) ==> model_files(e, n).contains(
            e[i].path@,
        ),
    decreases n,
{
    if i < n - 1 {
        law_a_walk_takes_every_entry(e, n - 1, i);
        let d = directories(e, n - 1);
        if d.contains(e[i].path@) {
            let k = choose|k: int| 0 <= k < d.len() && d[k] == e[i].path@;
            assert(directories(e, n)[k] == d[k]);
        }
        let f = model_files(e, n - 1);
        if f.contains(e[i].path@) {
            let k = choose|k: int| 0 <= k < f.len() && f[k] == e[i].path@;
            assert(model_files(e, n)[k] == f[k]);
        }
    } else {
        if e[i].is_dir {
            assert(directories(e, n).last() == e[i].path@);
        } else if is_gguf(e[i].path@) && is_entry(e[i].path@) {
            assert(model_files(e, n).last() == e[i].path@);
        }
    }
}

/// A file that is found is offered as a new model exactly where it is no
/// projector and no model is configured for it; projectors are kept apart.
pub proof fn law_new_files_are_offered(
    files: Seq<Seq<char>>,
    keys: Seq<Seq<char>>,
    known: Seq<Seq<char>>,
    n: int,
    i: int,
)
    requires
        0 <= i < n <= files.len(),
        keys.len() == files.len(),
    ensures
        !is_projector(files[i]) && !known.contains(keys[i]) ==> unknown_models(
            files,
            keys,
            known,
            n,
        ).contains(files[i]),
        is_projector(files[i]) ==> projectors(files, n).contains(files[i]),
        forall|x: Seq<char>| #[trigger]
            unknown_models(files, keys, known, n).contains(x) ==> exists|k: int|
                0 <= k < n && files[k] == x && !is_projector(#[trigger] files[k]) && !known.contains(
                    keys[k],
                ),
    decreases n,
{
    let u = unknown_models(files, keys, known, n - 1);
    let all = unknown_models(files, keys, known, n);
    let p = projectors(files, n - 1);
    if i < n - 1 {
        law_new_files_are_offered(files, keys, known, n - 1, i);
        if u.contains(files[i]) {
            let k = choose|k: int| 0 <= k < u.len() && u[k] == files[i];
            assert(all[k] == u[k]);
        }
        if p.contains(files[i]) {
            let k = choose|k: int| 0 <= k < p.len() && p[k] == files[i];
            assert(projectors(files, n)[k] == p[k]);
        }
    } else {
        if n > 1 {
            law_new_files_are_offered(files, keys, known, n - 1, 0);
        }
        if is_projector(files[i]) {
            assert(projectors(files, n).last() == files[i]);
        } else if !known.contains(keys[i]) {
            assert(all.last() == files[i]);
        }
    }
    assert forall|x: Seq<char>| #[trigger] all.contains(x) implies exists|k: int|
        0 <= k < n && files[k] == x && !is_projector(#[trigger] files[k]) && !known.contains(
            keys[k],
        ) by {
        let j = choose|j: int| 0 <= j < all.len() && all[j] == x;
        if j < u.len() {
            assert(u[j] == x);
            assert(u.contains(x));
            let k = choose|k: int|
                0 <= k < n - 1 && files[k] == x && !is_projector(#[trigger] files[k])
                    && !known.contains(keys[k]);
            assert(!is_projector(files[k]));
        } else {
            assert(files[n - 1] == x);
        }
    }
}

proof fn lemma_nearest(dir: Seq<Seq<char>>, models: Seq<ModelConfig>, n: int)
    requires
        0 <= n <= models.len(),
    ensures
        match nearest_among(dir, models, n) {
            Some(j) => {
                &&& 0 <= j < n
                &&& nearness(dir, models[j]) is Some
                &&& forall|i: int|
                    0 <= i < n && nearness(dir, #[trigger] models[i]) is Some ==> as_near(
                        nearness(dir, models[j])->0,
                        nearness(dir, models[i])->0,
                    )
                &&& forall|i: int|
                    j < i < n && nearness(dir, #[trigger] models[i]) is Some ==> !as_near(
                        nearness(dir, models[i])->0,
                        nearness(dir, models[j])->0,
                    )
            },
            None => forall|i: int| 0 <= i < n ==> nearness(dir, #[trigger] models[i]) is None,
        },
    decreases n,
{
    if n > 0 {
        lemma_nearest(dir, models, n - 1);
    }
}

/// A new file takes after a GGUF model that lies in the same directory, beside
/// it, above it or below it, and after none that lies elsewhere. Of several it
/// takes after one that shares the most of its way, of those after the deepest,
/// and of those after the last.
pub proof fn law_a_new_file_takes_after_the_nearest(
    path: Seq<char>,
    models: Seq<ModelConfig>,
    dir: Seq<Seq<char>>,
    i: int,
)
    requires
        parent_parts(path) == Some(dir),
        0 <= i < models.len(),
    ensures
        models[i].weights_format == WeightsFormat::Gguf && (parent_parts(
            models[i].model_path@,
        ) matches Some(p) && shared(dir, p) + 1 >= dir.len()) ==> {
            &&& template_for(path, models) matches Some(j)
            &&& 0 <= j < models.len()
            &&& models[j].weights_format == WeightsFormat::Gguf
            &&& parent_parts(models[j].model_path@) matches Some(q)
            &&& shared(dir, q) + 1 >= dir.len()
            &&& shared(dir, q) > shared(dir, parent_parts(models[i].model_path@)->0) || (shared(
                dir,
                q,
            ) == shared(dir, parent_parts(models[i].model_path@)->0) && q.len() >= parent_parts(
                models[i].model_path@,
            )->0.len())
            &&& i > j ==> shared(dir, q) > shared(dir, parent_parts(models[i].model_path@)->0)
                || q.len() > parent_parts(models[i].model_path@)->0.len()
        },
{
    lemma_nearest(dir, models, models.len() as int);
}

/// What a new file becomes: its own name, path, context and metadata, and
/// nothing that runs; all other settings are those of the model that it takes
/// after.
pub proof fn law_a_new_model_takes_over_settings(
    m: ModelConfig,
    base: ModelConfig,
    path: Seq<char>,
    meta: GgufMeta,
    existing: Seq<ModelConfig>,
    present: Seq<bool>,
    projs: Seq<Seq<char>>,
)
    requires
        is_candidate(m, base, path, meta, existing, present, projs),
    ensures
        m.model_path@ == path,
        m.name == meta.suggested_name,
        m.context == meta.max_context,
        m.gguf_meta == Some(meta),
        m.weights_format == WeightsFormat::Gguf,
        m.state is Idle && m.pid is None && m.estimated_vram == 0 && m.last_used is None,
        option_text(m.mmproj_path) == projector_for(path, projs),
        m.extra_args@ == base.extra_args@,
        m == (ModelConfig {
            id: m.id,
            name: m.name,
            weights_format: m.weights_format,
            model_path: m.model_path,
            context: m.context,
            state: m.state,
            pid: m.pid,
            estimated_vram: m.estimated_vram,
            last_used: m.last_used,
            gguf_meta: m.gguf_meta,
            mmproj_path: m.mmproj_path,
            draft_model_id: m.draft_model_id,
            extra_args: m.extra_args,
            ..base
        }),
        m.draft_model_id == base.draft_model_id || m.draft_model_id is None,
        base.draft_model_id matches Some(d) ==> (m.draft_model_id is Some <==> d@ != m.id@
            && exists|i: int|
            0 <= i < existing.len() && (#[trigger] existing[i]).id@ == d@ && present[i]),
        base.draft_model_id is None ==> m.draft_model_id is None,
{
}

/// A model is missing from the folder exactly where it is a GGUF model whose
/// file is gone and whose path lies in the folder, as it is configured or as it
/// is resolved; and every missing model is told.
pub proof fn law_missing_models_are_told(
    models: Seq<ModelConfig>,
    present: Seq<bool>,
    expanded: Seq<Seq<char>>,
    root: Seq<char>,
    resolved: Seq<char>,
    n: int,
    i: int,
)
    requires
        0 <= i < n <= models.len(),
    ensures
        models[i].weights_format == WeightsFormat::Gguf && !present[i] && (lies_under(
            expanded[i],
            root,
        ) || lies_under(expanded[i], resolved)) <==> is_missing(
            models[i],
            present[i],
            expanded[i],
            root,
            resolved,
        ),
        is_missing(models[i], present[i], expanded[i], root, resolved) ==> missing_among(
            models,
            present,
            expanded,
            root,
            resolved,
            n,
        ).contains(
            MissingView { id: models[i].id@, name: models[i].name@, path: models[i].model_path@ },
        ),
    decreases n,
{
    let front = missing_among(models, present, expanded, root, resolved, n - 1);
    let all = missing_among(models, present, expanded, root, resolved, n);
    let x = MissingView { id: models[i].id@, name: models[i].name@, path: models[i].model_path@ };
    if i < n - 1 {
        law_missing_models_are_told(models, present, expanded, root, resolved, n - 1, i);
        if front.contains(x) {
            let k = choose|k: int| 0 <= k < front.len() && front[k] == x;
            assert(all[k] == x);
        }
    } else if is_missing(models[i], present[i], expanded[i], root, resolved) {
        assert(all.last() == x);
    }
}

/// The projector of a model is one that lies in its directory, and the only one
/// there.
pub proof fn law_the_projector_lies_beside_the_model(
    path: Seq<char>,
    files: Seq<Seq<char>>,
    p: Seq<char>,
    i: int,
)
    requires
        projector_for(path, files) == Some(p),
    ensures
        files.contains(p),
        parent_parts(path) is Some,
        parent_parts(p) == parent_parts(path),
        0 <= i < files.len() && parent_parts(files[i]) == parent_parts(path) ==> files[i] == p,
{
    let f = in_directory(parent_parts(path)->0);
    let near = files.filter(f);
    lemma_filter_has(files, f);
    assert(near.contains(near[0]));
    if 0 <= i < files.len() && parent_parts(files[i]) == parent_parts(path) {
        assert(f(files[i]));
        assert(near.contains(files[i]));
    }
}

/// Where one projector alone lies beside a model, the model gets it.
pub proof fn law_a_projector_beside_the_model_is_found(
    path: Seq<char>,
    files: Seq<Seq<char>>,
    i: int,
)
    requires
        0 <= i < files.len(),
        parent_parts(path) is Some,
        parent_parts(files[i]) == parent_parts(path),
        forall|j: int|
            0 <= j < files.len() && j != i ==> parent_parts(#[trigger] files[j]) != parent_parts(
                path,
            ),
    ensures
        projector_for(path, files) == Some(files[i]),
{
    lemma_only_one(files, in_directory(parent_parts(path)->0), i);
}

/// Of every file that cannot be read it is told why.
pub proof fn law_unreadable_files_are_told(files: Seq<ReadFile>, n: int, i: int)
    requires
        0 <= i < n <= files.len(),
    ensures
        files[i].meta matches Err(e) ==> unreadable(files, n).contains(
            files[i].path@ + ": "@ + e@,
        ),
        unreadable(files, n).len() + readable(files, n) == n,
    decreases n,
{
    let front = unreadable(files, n - 1);
    let all = unreadable(files, n);
    assert(n == 1 ==> readable(files, n - 1) == 0);
    if i < n - 1 {
        law_unreadable_files_are_told(files, n - 1, i);
        if let Err(e) = files[i].meta {
            let x = files[i].path@ + ": "@ + e@;
            let k = choose|k: int| 0 <= k < front.len() && front[k] == x;
            assert(all[k] == x);
        }
    } else {
        if n > 1 {
            law_unreadable_files_are_told(files, n - 1, 0);
        }
        if let Err(e) = files[i].meta {
            assert(all.last() == files[i].path@ + ": "@ + e@);
        }
    }
}

/// Every model of a request is either added and told by its id or refused and
/// told with the reason.
pub proof fn law_every_addition_is_told(
    add: Seq<ModelConfig>,
    results: Seq<Result<(), MutationError>>,
    n: int,
    i: int,
)
    requires
        0 <= i < n <= add.len(),
    ensures
        results[i] is Ok ==> added_ids(add, results, n).contains(add[i].id@),
        results[i] matches Err(e) ==> add_faults(add, results, n).contains(
            "add "@ + add[i].id@ + ": "@ + e.text(),
        ),
        added_ids(add, results, n).len() + add_faults(add, results, n).len() == n,
    decreases n,
{
    let ids = added_ids(add, results, n - 1);
    let faults = add_faults(add, results, n - 1);
    if i < n - 1 {
        law_every_addition_is_told(add, results, n - 1, i);
        match results[i] {
            Ok(_) => {
                let k = choose|k: int| 0 <= k < ids.len() && ids[k] == add[i].id@;
                assert(added_ids(add, results, n)[k] == add[i].id@);
            },
            Err(e) => {
                let x = "add "@ + add[i].id@ + ": "@ + e.text();
                let k = choose|k: int| 0 <= k < faults.len() && faults[k] == x;
                assert(add_faults(add, results, n)[k] == x);
            },
        }
    } else {
        if n > 1 {
            law_every_addition_is_told(add, results, n - 1, 0);
        }
        match results[i] {
            Ok(_) => {
                assert(added_ids(add, results, n).last() == add[i].id@);
            },
            Err(e) => {
                assert(add_faults(add, results, n).last() == "add "@ + add[i].id@ + ": "@
                    + e.text());
            },
        }
    }
}

/// Every model that a request removes is told by its id, and its processes are
/// ended; where it is refused, that is told with the reason.
pub proof fn law_every_removal_is_told(
    remove: Seq<Seq<char>>,
    results: Seq<Result<Vec<i32>, MutationError>>,
    n: int,
    i: int,
)
    requires
        0 <= i < n <= remove.len(),
    ensures
        results[i] matches Ok(pids) ==> {
            &&& removed_ids(remove, results, n).contains(remove[i])
            &&& forall|p: i32| #[trigger]
                pids@.contains(p) ==> removal_signals(results, n).contains(p)
        },
        results[i] matches Err(e) ==> remove_faults(remove, results, n).contains(
            "remove "@ + remove[i] + ": "@ + e.text(),
        ),
        removed_ids(remove, results, n).len() + remove_faults(remove, results, n).len() == n,
    decreases n,
{
    let ids = removed_ids(remove, results, n - 1);
    let faults = remove_faults(remove, results, n - 1);
    let front = removal_signals(results, n - 1);
    let all = removal_signals(results, n);
    if i < n - 1 {
        law_every_removal_is_told(remove, results, n - 1, i);
        match results[i] {
            Ok(pids) => {
                let k = choose|k: int| 0 <= k < ids.len() && ids[k] == remove[i];
                assert(removed_ids(remove, results, n)[k] == remove[i]);
                assert forall|p: i32| #[trigger] pids@.contains(p) implies all.contains(p) by {
                    let k = choose|k: int| 0 <= k < front.len() && front[k] == p;
                    assert(all[k] == p);
                }
            },
            Err(e) => {
                let x = "remove "@ + remove[i] + ": "@ + e.text();
                let k = choose|k: int| 0 <= k < faults.len() && faults[k] == x;
                assert(remove_faults(remove, results, n)[k] == x);
            },
        }
    } else {
        if n > 1 {
            law_every_removal_is_told(remove, results, n - 1, 0);
        }
        match results[i] {
            Ok(pids) => {
                assert(removed_ids(remove, results, n).last() == remove[i]);
                assert forall|p: i32| #[trigger] pids@.contains(p) implies all.contains(p) by {
                    let k = choose|k: int| 0 <= k < pids@.len() && pids@[k] == p;
                    assert(all[front.len() + k] == p);
                }
            },
            Err(e) => {
                assert(remove_faults(remove, results, n).last() == "remove "@ + remove[i] + ": "@
                    + e.text());
            },
        }
    }
}

proof fn lemma_only_one(s: Seq<Seq<char>>, p: spec_fn(Seq<char>) -> bool, i: int)
    requires
        0 <= i < s.len(),
        p(s[i]),
        forall|j: int| 0 <= j < s.len() && j != i ==> !p(#[trigger] s[j]),
    ensures
        s.filter(p) == seq![s[i]],
    decreases s.len(),
{
    reveal(Seq::filter);
    let front = s.drop_last();
    assert forall|j: int| 0 <= j < front.len() && j != i implies !p(#[trigger] front[j]) by {
        assert(front[j] == s[j]);
    }
    if i < front.len() {
        lemma_only_one(front, p, i);
        assert(!p(s[s.len() - 1]));
    } else {
        lemma_none(front, p);
    }
    assert(s.filter(p) =~= seq![s[i]]);
}

proof fn lemma_none(s: Seq<Seq<char>>, p: spec_fn(Seq<char>) -> bool)
    requires
        forall|j: int| 0 <= j < s.len() ==> !p(#[trigger] s[j]),
    ensures
        s.filter(p).len() == 0,
    decreases s.len(),
{
    reveal(Seq::filter);
    if s.len() > 0 {
        let front = s.drop_last();
        assert forall|j: int| 0 <= j < front.len() implies !p(#[trigger] front[j]) by {
            assert(front[j] == s[j]);
        }
        assert(!p(s[s.len() - 1]));
        lemma_none(front, p);
    }
}

proof fn lemma_filter_has(s: Seq<Seq<char>>, p: spec_fn(Seq<char>) -> bool)
    ensures
        forall|i: int| 0 <= i < s.len() && p(#[trigger] s[i]) ==> s.filter(p).contains(s[i]),
        forall|x: Seq<char>| #[trigger] s.filter(p).contains(x) ==> s.contains(x) && p(x),
    decreases s.len(),
{
    reveal(Seq::filter);
    if s.len() > 0 {
        let front = s.drop_last();
        lemma_filter_has(front, p);
        let f = front.filter(p);
        let all = s.filter(p);
        assert forall|i: int| 0 <= i < s.len() && p(#[trigger] s[i]) implies all.contains(s[i]) by {
            if i < front.len() {
                assert(front[i] == s[i]);
                let k = choose|k: int| 0 <= k < f.len() && f[k] == s[i];
                assert(all[k] == f[k]);
            } else {
                assert(all[f.len() as int] == s[i]);
            }
        }
        assert forall|x: Seq<char>| #[trigger] all.contains(x) implies s.contains(x) && p(x) by {
            let k = choose|k: int| 0 <= k < all.len() && all[k] == x;
            if k < f.len() {
                assert(f[k] == x);
                assert(f.contains(x));
                let j = choose|j: int| 0 <= j < front.len() && front[j] == x;
                assert(s[j] == x);
            } else {
                assert(s[s.len() - 1] == x);
            }
        }
    }
}

} // verus!
