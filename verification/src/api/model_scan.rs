//! What is made of the model files in a folder.
use vstd::prelude::*;
use vstd::set_lib::lemma_len_subset;
use vstd::string::*;

use crate::config::model::{is_blank, GgufMeta, ModelConfig, ModelState, WeightsFormat};
use crate::order::{sort_stable, sorted_by};
use crate::paths::{
    expand_tilde, file_name, from_home, lies_under, name_extension, parent_parts, path_le, path_leq,
    path_name, path_parent, same_parts, shared, shared_prefix_len, stands_for, starts_with_path,
    stem_and_extension,
};
use crate::text::{
    blank, chars_of, contains_text, cut_last, decimal, has_infix, has_suffix, holds_text,
    is_blank as is_blank_text, lower, option_text, parse_unsigned, same_ignoring_case, same_text,
    same_text_ignoring_case, split_last_text, string_of_range, texts, to_lower, unsigned_up_to,
};
use crate::units::large_decimal;

verus! {

broadcast use vstd::string::group_string_axioms;

/// A model whose file is gone.
#[derive(Debug)]
pub struct MissingModel {
    pub id: String,
    pub name: String,
    pub path: String,
}

/// What became of several changes.
#[derive(Debug)]
pub struct ModelReconcileResponse {
    pub added: Vec<String>,
    pub removed: Vec<String>,
    pub errors: Vec<String>,
}

// ----- files -----

/// Whether a path is that of a GGUF file.
pub open spec fn is_gguf(path: Seq<char>) -> bool {
    match file_name(path) {
        Some(n) => match stem_and_extension(n).1 {
            Some(ext) => same_ignoring_case(ext, "gguf"@),
            None => false,
        },
        None => false,
    }
}

/// Whether a path is that of a GGUF file.
pub fn is_gguf_file(path: &str) -> (r: bool)
    ensures
        r == is_gguf(path@),
{
    match path_name(path) {
        Some(n) => match name_extension(n.as_str()) {
            Some(ext) => same_text_ignoring_case(ext.as_str(), "gguf"),
            None => false,
        },
        None => false,
    }
}

/// The number of a part and the number of parts of a model in several files,
/// by the name of the file.
pub open spec fn shard_of(name: Seq<char>) -> Option<(nat, nat)> {
    if !has_suffix(name, ".gguf"@) {
        None
    } else {
        match cut_last(name.take(name.len() - ".gguf"@.len()), "-of-"@) {
            Some((front, total)) => match unsigned_up_to(total, u32::MAX as nat) {
                Some(t) => match cut_last(front, "-"@) {
                    Some((_, idx)) => match unsigned_up_to(idx, u32::MAX as nat) {
                        Some(i) => Some((i, t)),
                        None => None,
                    },
                    None => None,
                },
                None => None,
            },
            None => None,
        }
    }
}

/// The number of a part and the number of parts of a model in several files.
pub fn sharded_gguf_index(path: &str) -> (r: Option<(u32, u32)>)
    ensures
        match file_name(path@) {
            Some(n) => match shard_of(n) {
                Some((i, t)) => r == Some((i as u32, t as u32)) && i <= u32::MAX && t <= u32::MAX,
                None => r is None,
            },
            None => r is None,
        },
{
    let name = match path_name(path) {
        Some(n) => n,
        None => {
            return None;
        },
    };
    let v = chars_of(name.as_str());
    let end = chars_of(".gguf");
    if !crate::text::ends_with_text(name.as_str(), ".gguf") {
        return None;
    }
    let rest = string_of_range(&v, 0, v.len() - end.len());
    assert(rest@ =~= name@.take(name@.len() - ".gguf"@.len()));
    match split_last_text(rest.as_str(), "-of-") {
        Some((front, total)) => match parse_unsigned(total.as_str(), 4294967295) {
            Some(t) => match split_last_text(front.as_str(), "-") {
                Some((_, idx)) => match parse_unsigned(idx.as_str(), 4294967295) {
                    Some(i) => Some((i as u32, t as u32)),
                    None => None,
                },
                None => None,
            },
            None => None,
        },
        None => None,
    }
}

/// Whether a model is started from a file: the only one, or the first part.
pub open spec fn is_entry(path: Seq<char>) -> bool {
    match file_name(path) {
        Some(n) => match shard_of(n) {
            Some((i, _)) => i == 1,
            None => true,
        },
        None => true,
    }
}

/// Whether a model is started from a file.
pub fn is_runnable_gguf_entrypoint(path: &str) -> (r: bool)
    ensures
        r == is_entry(path@),
{
    match sharded_gguf_index(path) {
        Some((i, _)) => i == 1,
        None => true,
    }
}

/// Whether a file holds the projector of a vision model.
pub open spec fn is_projector(path: Seq<char>) -> bool {
    match file_name(path) {
        Some(n) => has_infix(lower(n), "mmproj"@) || has_infix(lower(n), "projector"@),
        None => false,
    }
}

/// Whether a file holds the projector of a vision model.
pub fn is_mmproj_file(path: &str) -> (r: bool)
    ensures
        r == is_projector(path@),
{
    match path_name(path) {
        Some(n) => {
            let l = to_lower(n.as_str());
            contains_text(l.as_str(), "mmproj") || contains_text(l.as_str(), "projector")
        },
        None => false,
    }
}

/// The files that lie in a directory.
pub open spec fn in_directory(dir: Seq<Seq<char>>) -> spec_fn(Seq<char>) -> bool {
    |path: Seq<char>| parent_parts(path) == Some(dir)
}

/// The projector of a model: the only one that lies beside it.
pub open spec fn projector_for(path: Seq<char>, files: Seq<Seq<char>>) -> Option<Seq<char>> {
    match parent_parts(path) {
        Some(dir) => {
            let near = files.filter(in_directory(dir));
            if near.len() == 1 {
                Some(near[0])
            } else {
                None
            }
        },
        None => None,
    }
}

/// The projector of a model: the only one that lies beside it.
pub fn matching_mmproj(path: &str, files: &Vec<String>) -> (r: Option<String>)
    ensures
        option_text(r) == projector_for(path@, texts(files@)),
{
    let dir = match path_parent(path) {
        Some(d) => d,
        None => {
            return None;
        },
    };
    let ghost dv = texts(dir@);
    let ghost all = texts(files@);
    let ghost near = in_directory(dv);
    let mut found: Vec<String> = Vec::new();
    let mut i: usize = 0;
    assert(all.take(0).filter(near) =~= Seq::empty()) by {
        reveal(Seq::filter);
    }
    assert(texts(found@) =~= Seq::empty());
    while i < files.len()
        invariant
            i <= files@.len(),
            all == texts(files@),
            dv == texts(dir@),
            near == in_directory(dv),
            texts(found@) == all.take(i as int).filter(near),
        decreases files@.len() - i,
    {
        proof {
            reveal(Seq::filter);
            assert(all.take(i + 1).drop_last() =~= all.take(i as int));
            assert(all.take(i + 1).last() == files@[i as int]@);
        }
        let here = match path_parent(files[i].as_str()) {
            Some(d) => same_parts(&d, &dir),
            None => false,
        };
        if here {
            let ghost before = found@;
            found.push(files[i].clone());
            assert(texts(found@) =~= texts(before).push(files@[i as int]@));
        }
        i += 1;
    }
    assert(all.take(i as int) =~= all);
    assert(all.filter(near).len() == found@.len());
    if found.len() == 1 {
        assert(all.filter(near)[0] == found@[0]@);
        Some(found[0].clone())
    } else {
        None
    }
}

/// Whether a full path lies in the folder that is scanned, as it is configured
/// or as the file system resolves it.
pub fn lies_in_folder(full: &str, root: &str, resolved_root: &str) -> (r: bool)
    ensures
        r == (lies_under(full@, root@) || lies_under(full@, resolved_root@)),
{
    starts_with_path(full, root) || starts_with_path(full, resolved_root)
}

/// Whether a path, with the home directory put in, lies in the folder that is
/// scanned.
pub fn path_appears_under_root(path: &str, root: &str, resolved_root: &str) -> (r: bool)
    ensures
        exists|full: Seq<char>| #[trigger]
            stands_for(path@, full) && r == (lies_under(full, root@) || lies_under(
                full,
                resolved_root@,
            )),
        !from_home(path@) ==> r == (lies_under(path@, root@) || lies_under(
            path@,
            resolved_root@,
        )),
{
    let full = expand_tilde(path);
    assert(stands_for(path@, full@));
    lies_in_folder(full.as_str(), root, resolved_root)
}

/// The paths of models, with the home directory put in.
pub fn full_paths(models: &Vec<ModelConfig>) -> (r: Vec<String>)
    ensures
        r@.len() == models@.len(),
        forall|i: int|
            0 <= i < models@.len() ==> #[trigger] stands_for(models@[i].model_path@, r@[i]@) && (
            !from_home(models@[i].model_path@) ==> r@[i]@ == models@[i].model_path@),
{
    let mut r: Vec<String> = Vec::new();
    let mut i: usize = 0;
    while i < models.len()
        invariant
            i <= models@.len(),
            r@.len() == i,
            forall|j: int|
                0 <= j < i ==> #[trigger] stands_for(models@[j].model_path@, r@[j]@) && (
                !from_home(models@[j].model_path@) ==> r@[j]@ == models@[j].model_path@),
        decreases models@.len() - i,
    {
        r.push(expand_tilde(models[i].model_path.as_str()));
        i += 1;
    }
    r
}

// ----- the walk -----

/// An entry of a directory.
#[derive(Debug)]
pub struct ScanEntry {
    pub path: String,
    pub is_dir: bool,
}

/// The directories among the first `n` entries.
pub open spec fn directories(e: Seq<ScanEntry>, n: int) -> Seq<Seq<char>>
    decreases n,
{
    if n <= 0 {
        Seq::empty()
    } else if e[n - 1].is_dir {
        directories(e, n - 1).push(e[n - 1].path@)
    } else {
        directories(e, n - 1)
    }
}

/// The model files among the first `n` entries.
pub open spec fn model_files(e: Seq<ScanEntry>, n: int) -> Seq<Seq<char>>
    decreases n,
{
    if n <= 0 {
        Seq::empty()
    } else if !e[n - 1].is_dir && is_gguf(e[n - 1].path@) && is_entry(e[n - 1].path@) {
        model_files(e, n - 1).push(e[n - 1].path@)
    } else {
        model_files(e, n - 1)
    }
}

/// The order of paths.
pub open spec fn path_order() -> spec_fn(String, String) -> bool {
    |a: String, b: String| path_leq(a@, b@)
}

/// A walk through a folder: the directories still to be read, those that were
/// read, and the model files that were found.
#[derive(Debug)]
pub struct FolderScan {
    pub stack: Vec<String>,
    pub visited: Vec<String>,
    pub found: Vec<String>,
    pub errors: Vec<String>,
}

impl FolderScan {
    /// A walk that begins at a directory.
    pub fn new(root: &str) -> (r: FolderScan)
        ensures
            texts(r.stack@) == seq![root@],
            r.visited@.len() == 0,
            r.found@.len() == 0,
            r.errors@.len() == 0,
    {
        let mut stack: Vec<String> = Vec::new();
        stack.push(root.to_owned());
        let r = FolderScan {
            stack,
            visited: Vec::new(),
            found: Vec::new(),
            errors: Vec::new(),
        };
        assert(texts(r.stack@) =~= seq![root@]);
        r
    }

    /// The next directory: the one that was found last.
    pub fn next_dir(&mut self) -> (r: Option<String>)
        ensures
            match r {
                Some(d) => old(self).stack@.len() > 0 && d == old(self).stack@.last()
                    && final(self).stack@ == old(self).stack@.drop_last(),
                None => old(self).stack@.len() == 0 && final(self).stack@ == old(self).stack@,
            },
            *final(self) == (FolderScan { stack: final(self).stack, ..*old(self) }),
    {
        self.stack.pop()
    }

    /// Whether a directory is read, given what the file system resolves it to.
    /// Each is read once, by whatever way it was reached.
    pub fn enter(&mut self, resolved: &str) -> (r: bool)
        ensures
            r == !texts(old(self).visited@).contains(resolved@),
            texts(final(self).visited@).contains(resolved@),
            texts(final(self).visited@) == (if r {
                texts(old(self).visited@).push(resolved@)
            } else {
                texts(old(self).visited@)
            }),
            *final(self) == (FolderScan { visited: final(self).visited, ..*old(self) }),
    {
        let ghost before = texts(self.visited@);
        let mut i: usize = 0;
        while i < self.visited.len()
            invariant
                i <= self.visited@.len(),
                *self == *old(self),
                forall|j: int| 0 <= j < i ==> (#[trigger] self.visited@[j])@ != resolved@,
            decreases self.visited@.len() - i,
        {
            if same_text(self.visited[i].as_str(), resolved) {
                assert(texts(self.visited@)[i as int] == resolved@);
                return false;
            }
            i += 1;
        }
        proof {
            if before.contains(resolved@) {
                let j = choose|j: int| 0 <= j < before.len() && before[j] == resolved@;
                assert(self.visited@[j]@ == resolved@);
            }
        }
        self.visited.push(resolved.to_owned());
        assert(texts(self.visited@) =~= before.push(resolved@));
        assert(texts(self.visited@)[before.len() as int] == resolved@);
        true
    }

    /// Takes in the entries of a directory.
    pub fn add_entries(&mut self, entries: &Vec<ScanEntry>)
        ensures
            texts(final(self).stack@) == texts(old(self).stack@) + directories(
                entries@,
                entries@.len() as int,
            ),
            texts(final(self).found@) == texts(old(self).found@) + model_files(
                entries@,
                entries@.len() as int,
            ),
            final(self).visited == old(self).visited,
            final(self).errors == old(self).errors,
    {
        let ghost dirs = texts(self.stack@);
        let ghost files = texts(self.found@);
        let mut i: usize = 0;
        assert(dirs + directories(entries@, 0) =~= dirs);
        assert(files + model_files(entries@, 0) =~= files);
        while i < entries.len()
            invariant
                i <= entries@.len(),
                self.visited == old(self).visited,
                self.errors == old(self).errors,
                texts(self.stack@) == dirs + directories(entries@, i as int),
                texts(self.found@) == files + model_files(entries@, i as int),
            decreases entries@.len() - i,
        {
            let ghost p = entries@[i as int].path@;
            if entries[i].is_dir {
                let ghost before = self.stack@;
                self.stack.push(entries[i].path.clone());
                assert(texts(self.stack@) =~= texts(before).push(p));
                assert(texts(self.stack@) =~= dirs + directories(entries@, i + 1));
            } else if is_gguf_file(entries[i].path.as_str()) && is_runnable_gguf_entrypoint(
                entries[i].path.as_str(),
            ) {
                let ghost before = self.found@;
                self.found.push(entries[i].path.clone());
                assert(texts(self.found@) =~= texts(before).push(p));
                assert(texts(self.found@) =~= files + model_files(entries@, i + 1));
            }
            i += 1;
        }
    }

    /// Notes that a directory could not be read.
    pub fn fail(&mut self, dir: &str, why: &str)
        ensures
            texts(final(self).errors@) == texts(old(self).errors@).push(dir@ + ": "@ + why@),
            *final(self) == (FolderScan { errors: final(self).errors, ..*old(self) }),
    {
        let ghost before = self.errors@;
        let t = dir.to_owned().concat(": ").concat(why);
        let ghost tv = t@;
        self.errors.push(t);
        assert(texts(self.errors@) =~= texts(before).push(tv));
    }

    /// The model files that were found, in order.
    pub fn finish(self) -> (r: Vec<String>)
        ensures
            r@ == sorted_by(self.found@, path_order()),
    {
        let le = |a: &String, b: &String| -> (c: bool)
            ensures
                c == path_order()(*a, *b),
            { path_le(a.as_str(), b.as_str()) };
        sort_stable(self.found, le, Ghost(path_order()))
    }
}

// ----- ids -----

/// The `k`th id that is tried for a model: its own, then with a number.
pub open spec fn id_try(stem: Seq<char>, k: nat) -> Seq<char> {
    if k <= 1 {
        stem
    } else {
        stem + "-"@ + decimal(k)
    }
}

/// Whether the `k`th try is the first that is not used.
pub open spec fn is_first_free(stem: Seq<char>, used: Seq<Seq<char>>, k: nat) -> bool {
    &&& k >= 1
    &&& !used.contains(id_try(stem, k))
    &&& forall|j: nat| 1 <= j < k ==> used.contains(#[trigger] id_try(stem, j))
}

/// The id that is tried first: the one that is suggested, if there is one.
pub open spec fn id_stem(base: Seq<char>) -> Seq<char> {
    if is_blank_text(base) {
        "model"@
    } else {
        base
    }
}

proof fn lemma_decimal_injective(a: nat, b: nat)
    requires
        decimal(a) == decimal(b),
    ensures
        a == b,
    decreases a,
{
    let x = decimal(a);
    let y = decimal(b);
    assert(x.len() > 0 && y.len() > 0);
    assert(x.last() == y.last());
    if a < 10 && b < 10 {
        assert(x[0] == y[0]);
    } else if a < 10 {
        assert(decimal(b / 10).len() > 0) by {
            reveal_with_fuel(decimal, 2);
        }
        assert(y.len() >= 2);
        assert(x.len() == 1);
    } else if b < 10 {
        assert(decimal(a / 10).len() > 0) by {
            reveal_with_fuel(decimal, 2);
        }
        assert(x.len() >= 2);
        assert(y.len() == 1);
    } else {
        assert(x.drop_last() =~= decimal(a / 10));
        assert(y.drop_last() =~= decimal(b / 10));
        lemma_decimal_injective(a / 10, b / 10);
        assert(a % 10 == b % 10);
    }
}

proof fn lemma_tries_differ(stem: Seq<char>, j: nat, k: nat)
    requires
        1 <= j < k,
    ensures
        id_try(stem, j) != id_try(stem, k),
{
    reveal_strlit("-");
    let x = id_try(stem, j);
    let y = id_try(stem, k);
    if x == y {
        assert(y.len() == stem.len() + 1 + decimal(k).len());
        if j == 1 {
            assert(x.len() == stem.len());
        } else {
            let n = (stem.len() + 1) as int;
            assert(x.skip(n) =~= decimal(j));
            assert(y.skip(n) =~= decimal(k));
            lemma_decimal_injective(j, k);
        }
    }
}

/// The ids that are tried up to the `m`th.
spec fn tries(stem: Seq<char>, m: nat) -> Set<Seq<char>>
    decreases m,
{
    if m == 0 {
        Set::empty()
    } else {
        tries(stem, (m - 1) as nat).insert(id_try(stem, m))
    }
}

proof fn lemma_tries(stem: Seq<char>, m: nat)
    ensures
        tries(stem, m).finite(),
        tries(stem, m).len() == m,
        forall|x: Seq<char>| #[trigger]
            tries(stem, m).contains(x) ==> exists|j: nat|
                1 <= j <= m && x == #[trigger] id_try(stem, j),
    decreases m,
{
    if m > 0 {
        let n = (m - 1) as nat;
        lemma_tries(stem, n);
        assert(!tries(stem, n).contains(id_try(stem, m))) by {
            if tries(stem, n).contains(id_try(stem, m)) {
                let j = choose|j: nat| 1 <= j <= n && id_try(stem, m) == #[trigger] id_try(stem, j);
                lemma_tries_differ(stem, j, m);
            }
        }
        assert forall|x: Seq<char>| #[trigger] tries(stem, m).contains(x) implies exists|j: nat|
            1 <= j <= m && x == #[trigger] id_try(stem, j) by {
            if x == id_try(stem, m) {
            } else {
                assert(tries(stem, n).contains(x));
                let j = choose|j: nat| 1 <= j <= n && x == #[trigger] id_try(stem, j);
                assert(1 <= j <= m && x == id_try(stem, j));
            }
        }
    }
}

proof fn lemma_some_try_is_free(stem: Seq<char>, used: Seq<Seq<char>>, m: nat)
    requires
        forall|j: nat| 1 <= j <= m ==> used.contains(#[trigger] id_try(stem, j)),
    ensures
        m <= used.len(),
{
    lemma_tries(stem, m);
    let s = tries(stem, m);
    assert(s.subset_of(used.to_set())) by {
        assert forall|x: Seq<char>| s.contains(x) implies used.to_set().contains(x) by {
            let j = choose|j: nat| 1 <= j <= m && x == #[trigger] id_try(stem, j);
            assert(used.contains(id_try(stem, j)));
        }
    }
    used.lemma_cardinality_of_set();
    lemma_len_subset(s, used.to_set());
}

/// An id that is not used: the one that is suggested, or with the first number
/// that is free. Afterwards it is used.
pub fn unique_id(base: &str, used: &mut Vec<String>) -> (r: String)
    ensures
        exists|k: nat| #[trigger]
            is_first_free(id_stem(base@), texts(old(used)@), k) && r@ == id_try(
                id_stem(base@),
                k,
            ),
        texts(final(used)@) == texts(old(used)@).push(r@),
{
    let ghost all = texts(used@);
    let stem = if blank(base) {
        "model".to_owned()
    } else {
        base.to_owned()
    };
    let mut candidate = stem.clone();
    let mut k: u128 = 1;
    assert(all.len() == used@.len());
    let n = used.len();
    while holds_text(used, candidate.as_str())
        invariant
            used@ == old(used)@,
            all == texts(used@),
            n == used@.len(),
            all.len() == n,
            stem@ == id_stem(base@),
            candidate@ == id_try(stem@, k as nat),
            1 <= k <= n + 1,
            forall|j: nat| 1 <= j < k ==> all.contains(#[trigger] id_try(stem@, j)),
        decreases n + 1 - k,
    {
        proof {
            lemma_some_try_is_free(stem@, all, k as nat);
        }
        k = k + 1;
        candidate = stem.clone().concat("-").concat(large_decimal(k).as_str());
    }
    assert(is_first_free(stem@, all, k as nat));
    used.push(candidate.clone());
    assert(texts(used@) =~= all.push(candidate@));
    candidate
}

// ----- templates -----

/// How near a model lies to a directory: the parts they share, and how deep
/// the model lies. Nothing for a model that lies elsewhere.
pub open spec fn nearness(dir: Seq<Seq<char>>, m: ModelConfig) -> Option<(nat, nat)> {
    if m.weights_format != WeightsFormat::Gguf {
        None
    } else {
        match parent_parts(m.model_path@) {
            Some(p) => if shared(dir, p) + 1 >= dir.len() {
                Some((shared(dir, p), p.len()))
            } else {
                None
            },
            None => None,
        }
    }
}

/// Whether one is at least as near as another.
pub open spec fn as_near(a: (nat, nat), b: (nat, nat)) -> bool {
    a.0 > b.0 || (a.0 == b.0 && a.1 >= b.1)
}

/// The nearest among the first `n` models; of equally near ones the last.
pub open spec fn nearest_among(dir: Seq<Seq<char>>, models: Seq<ModelConfig>, n: int) -> Option<int>
    decreases n,
{
    if n <= 0 {
        None
    } else {
        let front = nearest_among(dir, models, n - 1);
        match nearness(dir, models[n - 1]) {
            Some(x) => match front {
                Some(j) => if as_near(x, nearness(dir, models[j])->0) {
                    Some(n - 1)
                } else {
                    front
                },
                None => Some(n - 1),
            },
            None => front,
        }
    }
}

/// The model that a new file takes its configuration from.
pub open spec fn template_for(path: Seq<char>, models: Seq<ModelConfig>) -> Option<int> {
    match parent_parts(path) {
        Some(dir) => nearest_among(dir, models, models.len() as int),
        None => None,
    }
}

fn measure(dir: &Vec<String>, m: &ModelConfig) -> (r: Option<(usize, usize)>)
    ensures
        match r {
            Some((s, d)) => nearness(texts(dir@), *m) == Some((s as nat, d as nat)),
            None => nearness(texts(dir@), *m) is None,
        },
{
    if m.weights_format != WeightsFormat::Gguf {
        return None;
    }
    match path_parent(m.model_path.as_str()) {
        Some(p) => {
            let s = shared_prefix_len(dir, &p);
            assert(texts(dir@).len() == dir@.len() && texts(p@).len() == p@.len());
            if s >= dir.len() || s + 1 >= dir.len() {
                Some((s, p.len()))
            } else {
                None
            }
        },
        None => None,
    }
}

fn template_index(path: &str, existing: &Vec<ModelConfig>) -> (r: Option<usize>)
    ensures
        match r {
            Some(i) => i < existing@.len() && template_for(path@, existing@) == Some(i as int),
            None => template_for(path@, existing@) is None,
        },
{
    let dir = match path_parent(path) {
        Some(d) => d,
        None => {
            return None;
        },
    };
    let ghost dv = texts(dir@);
    let mut best: Option<usize> = None;
    let mut near: (usize, usize) = (0, 0);
    let mut i: usize = 0;
    while i < existing.len()
        invariant
            i <= existing@.len(),
            dv == texts(dir@),
            match best {
                Some(j) => j < i && nearest_among(dv, existing@, i as int) == Some(j as int)
                    && nearness(dv, existing@[j as int]) == Some((near.0 as nat, near.1 as nat)),
                None => nearest_among(dv, existing@, i as int) is None,
            },
        decreases existing@.len() - i,
    {
        match measure(&dir, &existing[i]) {
            Some((s, d)) => {
                let wins = match best {
                    Some(_) => s > near.0 || (s == near.0 && d >= near.1),
                    None => true,
                };
                if wins {
                    best = Some(i);
                    near = (s, d);
                }
            },
            None => {},
        }
        i += 1;
    }
    best
}

/// The model that a new file takes its configuration from: a GGUF model in the
/// same directory, beside it, above it or below it, and of several the nearest.
pub fn nearest_template<'a>(path: &str, existing: &'a Vec<ModelConfig>) -> (r: Option<
    &'a ModelConfig,
>)
    ensures
        match r {
            Some(m) => template_for(path@, existing@) is Some && *m == existing@[template_for(
                path@,
                existing@,
            )->0],
            None => template_for(path@, existing@) is None,
        },
{
    match template_index(path, existing) {
        Some(i) => Some(&existing[i]),
        None => None,
    }
}

// ----- candidates -----

/// Whether a model of that id is there with its file, where `present` says of
/// which models the file exists.
pub open spec fn draft_present(id: Seq<char>, existing: Seq<ModelConfig>, present: Seq<bool>) -> bool {
    exists|i: int|
        0 <= i < existing.len() && (#[trigger] existing[i]).id@ == id && present[i]
}

fn existing_draft_is_present(id: &str, existing: &Vec<ModelConfig>, present: &Vec<bool>) -> (r: bool)
    requires
        present@.len() == existing@.len(),
    ensures
        r == draft_present(id@, existing@, present@),
{
    let mut i: usize = 0;
    while i < existing.len()
        invariant
            i <= existing@.len() == present@.len(),
            forall|j: int|
                0 <= j < i ==> !((#[trigger] existing@[j]).id@ == id@ && present@[j]),
        decreases existing@.len() - i,
    {
        if same_text(existing[i].id.as_str(), id) && present[i] {
            return true;
        }
        i += 1;
    }
    false
}

/// The draft that a candidate keeps: one that is there and is not itself.
pub open spec fn kept_draft(
    draft: Option<String>,
    id: Seq<char>,
    existing: Seq<ModelConfig>,
    present: Seq<bool>,
) -> Option<String> {
    match draft {
        Some(d) => if d@ == id || !draft_present(d@, existing, present) {
            None
        } else {
            draft
        },
        None => None,
    }
}

/// Whether `m` is what a file with that metadata becomes on the basis of
/// another configuration.
pub open spec fn is_candidate(
    m: ModelConfig,
    base: ModelConfig,
    path: Seq<char>,
    meta: GgufMeta,
    existing: Seq<ModelConfig>,
    present: Seq<bool>,
    projectors: Seq<Seq<char>>,
) -> bool {
    &&& m.name == meta.suggested_name
    &&& m.model_path@ == path
    &&& option_text(m.mmproj_path) == projector_for(path, projectors)
    &&& m.extra_args@ == base.extra_args@
    &&& m == (ModelConfig {
        id: m.id,
        name: m.name,
        weights_format: WeightsFormat::Gguf,
        model_path: m.model_path,
        context: meta.max_context,
        state: ModelState::Idle,
        pid: None,
        estimated_vram: 0,
        last_used: None,
        gguf_meta: Some(meta),
        mmproj_path: m.mmproj_path,
        draft_model_id: kept_draft(base.draft_model_id, m.id@, existing, present),
        extra_args: m.extra_args,
        ..base
    })
}

/// What a new file becomes: the configuration of the nearest model, or a blank
/// one, with an id that is not used.
pub fn candidate_model(
    path: &str,
    meta: GgufMeta,
    existing: &Vec<ModelConfig>,
    present: &Vec<bool>,
    used_ids: &mut Vec<String>,
    mmproj_files: &Vec<String>,
) -> (r: ModelConfig)
    requires
        present@.len() == existing@.len(),
    ensures
        exists|k: nat| #[trigger]
            is_first_free(id_stem(meta.suggested_id@), texts(old(used_ids)@), k) && r.id@
                == id_try(id_stem(meta.suggested_id@), k),
        texts(final(used_ids)@) == texts(old(used_ids)@).push(r.id@),
        match template_for(path@, existing@) {
            Some(i) => is_candidate(
                r,
                existing@[i],
                path@,
                meta,
                existing@,
                present@,
                texts(mmproj_files@),
            ),
            None => exists|base: ModelConfig|
                is_blank(base) && #[trigger] is_candidate(
                    r,
                    base,
                    path@,
                    meta,
                    existing@,
                    present@,
                    texts(mmproj_files@),
                ),
        },
{
    let mut m = match template_index(path, existing) {
        Some(i) => existing[i].clone(),
        None => ModelConfig::default(),
    };
    let ghost base = m;
    let id = unique_id(meta.suggested_id.as_str(), used_ids);
    let draft = match &m.draft_model_id {
        Some(d) => {
            if same_text(d.as_str(), id.as_str()) || !existing_draft_is_present(
                d.as_str(),
                existing,
                present,
            ) {
                None
            } else {
                Some(d.clone())
            }
        },
        None => None,
    };
    m.id = id;
    m.name = meta.suggested_name.clone();
    m.weights_format = WeightsFormat::Gguf;
    m.model_path = path.to_owned();
    m.context = meta.max_context;
    m.state = ModelState::Idle;
    m.pid = None;
    m.estimated_vram = 0;
    m.last_used = None;
    m.gguf_meta = Some(meta);
    m.mmproj_path = matching_mmproj(path, mmproj_files);
    m.draft_model_id = draft;
    assert(is_candidate(
        m,
        base,
        path@,
        meta,
        existing@,
        present@,
        texts(mmproj_files@),
    ));
    m
}

// ----- missing models -----

/// Whether a model is missing from the folder: a GGUF model whose file is gone
/// and whose path lies in it.
pub open spec fn is_missing(
    m: ModelConfig,
    present: bool,
    expanded: Seq<char>,
    root: Seq<char>,
    resolved_root: Seq<char>,
) -> bool {
    &&& m.weights_format == WeightsFormat::Gguf
    &&& !present
    &&& lies_under(expanded, root) || lies_under(expanded, resolved_root)
}

/// The mathematical content of a `MissingModel`.
pub struct MissingView {
    pub id: Seq<char>,
    pub name: Seq<char>,
    pub path: Seq<char>,
}

impl View for MissingModel {
    type V = MissingView;

    open spec fn view(&self) -> MissingView {
        MissingView { id: self.id@, name: self.name@, path: self.path@ }
    }
}

/// The missing models as values.
pub open spec fn missing_views(s: Seq<MissingModel>) -> Seq<MissingView> {
    s.map_values(|m: MissingModel| m@)
}

/// The missing among the first `n` models.
pub open spec fn missing_among(
    models: Seq<ModelConfig>,
    present: Seq<bool>,
    expanded: Seq<Seq<char>>,
    root: Seq<char>,
    resolved_root: Seq<char>,
    n: int,
) -> Seq<MissingView>
    decreases n,
{
    if n <= 0 {
        Seq::empty()
    } else {
        let front = missing_among(models, present, expanded, root, resolved_root, n - 1);
        let m = models[n - 1];
        if is_missing(m, present[n - 1], expanded[n - 1], root, resolved_root) {
            front.push(MissingView { id: m.id@, name: m.name@, path: m.model_path@ })
        } else {
            front
        }
    }
}

/// The models that are missing from the folder. Of each model it is told
/// whether its file exists, and its path with the home directory put in.
pub fn missing_models(
    models: &Vec<ModelConfig>,
    present: &Vec<bool>,
    expanded: &Vec<String>,
    root: &str,
    resolved_root: &str,
) -> (r: Vec<MissingModel>)
    requires
        present@.len() == models@.len(),
        expanded@.len() == models@.len(),
    ensures
        missing_views(r@) == missing_among(
            models@,
            present@,
            texts(expanded@),
            root@,
            resolved_root@,
            models@.len() as int,
        ),
{
    let ghost paths = texts(expanded@);
    let mut r: Vec<MissingModel> = Vec::new();
    let mut i: usize = 0;
    assert(missing_views(r@) =~= Seq::empty());
    while i < models.len()
        invariant
            i <= models@.len() == present@.len() == expanded@.len(),
            paths == texts(expanded@),
            missing_views(r@) == missing_among(
                models@,
                present@,
                paths,
                root@,
                resolved_root@,
                i as int,
            ),
        decreases models@.len() - i,
    {
        assert(paths[i as int] == expanded@[i as int]@);
        if models[i].weights_format == WeightsFormat::Gguf && !present[i]
            && lies_in_folder(expanded[i].as_str(), root, resolved_root) {
            let x = MissingModel {
                id: models[i].id.clone(),
                name: models[i].name.clone(),
                path: models[i].model_path.clone(),
            };
            let ghost xv = x@;
            let ghost before = r@;
            r.push(x);
            assert(missing_views(r@) =~= missing_views(before).push(xv));
        }
        i += 1;
    }
    r
}

/// An id that is given to a new model was not used before.
pub proof fn law_new_ids_are_new(base: Seq<char>, used: Seq<Seq<char>>, k: nat)
    requires
        is_first_free(id_stem(base), used, k),
    ensures
        !used.contains(id_try(id_stem(base), k)),
        k <= used.len() + 1,
{
    assert forall|j: nat| 1 <= j <= (k - 1) as nat implies used.contains(
        #[trigger] id_try(id_stem(base), j),
    ) by {
        assert(j < k);
    }
    lemma_some_try_is_free(id_stem(base), used, (k - 1) as nat);
}

} // verus!
