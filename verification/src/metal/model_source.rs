//! Where a model's files are: a directory given by path, a local copy, or a
//! repository to download from.
use vstd::prelude::*;
use vstd::string::*;

use crate::text::{
    contains_text, extension, past_last, same_text, sorted_texts, starts_with_text, to_chars,
    trimmed,
};
#[allow(unused_imports)]
use crate::text::{
    extension_of, in_order, last_place, occurs, occurs_at, texts, trim_of,
};

verus! {

// ---- what a name looks like ----

/// How often a character stands among the first `n`.
pub open spec fn count_of(s: Seq<char>, c: char, n: int) -> int
    decreases n,
{
    if n <= 0 || n > s.len() {
        0
    } else {
        count_of(s, c, n - 1) + if s[n - 1] == c {
            1int
        } else {
            0
        }
    }
}

/// A name that can only be a path of the file system: rooted, relative to a
/// directory, with a backslash, or with more than one slash.
pub open spec fn path_like(input: Seq<char>) -> bool {
    let t = trim_of(input);
    ||| occurs_at(t, "/"@, 0)
    ||| occurs_at(t, "./"@, 0)
    ||| occurs_at(t, "../"@, 0)
    ||| occurs_at(t, "~"@, 0)
    ||| occurs(t, "\\"@)
    ||| count_of(t, '/', t.len() as int) > 1
}

/// Whether a model name looks like a path of the file system.
pub fn looks_like_local_path(input: &str) -> (r: bool)
    ensures
        r == path_like(input@),
{
    let t: String = trimmed(input);
    let s: &str = t.as_str();
    if starts_with_text(s, "/") || starts_with_text(s, "./") || starts_with_text(s, "../")
        || starts_with_text(s, "~") || contains_text(s, "\\") {
        return true;
    }
    let chars: Vec<char> = to_chars(s);
    let total: usize = chars.len();
    let mut slashes: usize = 0;
    let mut i: usize = 0;
    while i < total
        invariant
            i <= total == chars@.len(),
            slashes <= i,
            slashes == count_of(chars@, '/', i as int),
        decreases total - i,
    {
        if chars[i] == '/' {
            slashes = slashes + 1;
        }
        i = i + 1;
    }
    slashes > 1
}

/// The last part of a model's name.
pub open spec fn short_name(id: Seq<char>) -> Seq<char> {
    trim_of(id.skip(last_place(id, '/', id.len() as int) + 1))
}

/// The directory that a local copy of a model goes by.
pub fn model_name(id: &str) -> (name: String)
    ensures
        name@ == short_name(id@),
{
    let chars: Vec<char> = to_chars(id);
    let total: usize = chars.len();
    let at: usize = past_last(chars.as_slice(), '/', total);
    let tail: &str = id.substring_char(at, total);
    assert(tail@ =~= id@.skip(at as int));
    trimmed(tail)
}

pub open spec fn first_slash(s: Seq<char>, i: int) -> int
    decreases s.len() - i,
{
    if i < 0 || i >= s.len() || s[i] == '/' {
        i
    } else {
        first_slash(s, i + 1)
    }
}

/// The cache directory of a repository, from the parts before and behind the
/// first slash of its name.
pub open spec fn repo_dir(id: Seq<char>) -> Option<Seq<char>> {
    let k = first_slash(id, 0);
    if k >= id.len() {
        None
    } else {
        Some("models--"@ + id.take(k) + "--"@ + id.skip(k + 1))
    }
}

/// The name of a repository's cache directory.
pub fn cache_repo_name(id: &str) -> (r: Option<String>)
    ensures
        match (r, repo_dir(id@)) {
            (Some(a), Some(b)) => a@ == b,
            (None, None) => true,
            _ => false,
        },
{
    let chars: Vec<char> = to_chars(id);
    let total: usize = chars.len();
    let mut k: usize = 0;
    while k < total && chars[k] != '/'
        invariant
            k <= total == chars@.len(),
            first_slash(chars@, 0) == first_slash(chars@, k as int),
        decreases total - k,
    {
        k = k + 1;
    }
    if k >= total {
        return None;
    }
    let org: &str = id.substring_char(0, k);
    let repo: &str = id.substring_char(k + 1, total);
    assert(org@ =~= id@.take(k as int));
    assert(repo@ =~= id@.skip(k + 1));
    let mut name: String = String::from_str("models--");
    name.append(org);
    name.append("--");
    name.append(repo);
    Some(name)
}

// ---- local directories ----

/// Directories that may hold models beside the one that is named.
#[derive(Debug, Clone, Copy, PartialEq, Eq, Structural)]
pub enum LocalRoot {
    /// `models` in the working directory.
    WorkingModels,
    /// `infer/models` in the working directory.
    WorkingInferModels,
    /// `models` at home.
    HomeModels,
    /// `llm` at home.
    HomeLlm,
    /// `.cache/mlx-models` at home.
    HomeCache,
}

/// The roots to search, in order, as far as the two directories are known.
pub fn common_local_roots(has_working_dir: bool, has_home: bool) -> (r: Vec<LocalRoot>)
    ensures
        r@ == (if has_working_dir {
            seq![LocalRoot::WorkingModels, LocalRoot::WorkingInferModels]
        } else {
            Seq::empty()
        }) + (if has_home {
            seq![LocalRoot::HomeModels, LocalRoot::HomeLlm, LocalRoot::HomeCache]
        } else {
            Seq::empty()
        }),
{
    let mut r: Vec<LocalRoot> = Vec::new();
    if has_working_dir {
        r.push(LocalRoot::WorkingModels);
        r.push(LocalRoot::WorkingInferModels);
    }
    if has_home {
        r.push(LocalRoot::HomeModels);
        r.push(LocalRoot::HomeLlm);
        r.push(LocalRoot::HomeCache);
    }
    r
}

/// Where the hub keeps its cache.
#[derive(Debug, Clone, Copy, PartialEq, Eq, Structural)]
pub enum HubRoot {
    /// `hub` in the configured directory.
    Configured,
    /// `.cache/huggingface/hub` at home.
    Home,
    /// `.cache/huggingface/hub` in the working directory.
    Relative,
}

/// The hub's cache: the configured directory unless it is blank, else the
/// home directory.
pub fn huggingface_hub_root(configured: Option<&str>, has_home: bool) -> (r: HubRoot)
    ensures
        r == if configured is Some && trim_of(configured->0@).len() > 0 {
            HubRoot::Configured
        } else if has_home {
            HubRoot::Home
        } else {
            HubRoot::Relative
        },
{
    let named: bool = match configured {
        Some(dir) => to_chars(trimmed(dir).as_str()).len() > 0,
        None => false,
    };
    if named {
        HubRoot::Configured
    } else if has_home {
        HubRoot::Home
    } else {
        HubRoot::Relative
    }
}

/// Every name comes no earlier than those behind it.
pub open spec fn newest_first(s: Seq<Seq<char>>) -> bool {
    in_order(s.reverse())
}

proof fn lemma_reverse_multiset(s: Seq<Seq<char>>)
    ensures
        s.reverse().to_multiset() == s.to_multiset(),
    decreases s.len(),
{
    broadcast use vstd::seq_lib::group_to_multiset_ensures;

    if s.len() == 0 {
        assert(s.reverse() =~= s);
    } else {
        let front = s.drop_last();
        lemma_reverse_multiset(front);
        assert(s =~= front.push(s.last()));
        assert(s.reverse() =~= front.reverse().insert(0, s.last()));
    }
}

/// Snapshot directories, the last in the order of their names first.
pub fn snapshot_dirs(names: &Vec<String>) -> (out: Vec<String>)
    ensures
        newest_first(texts(out@)),
        texts(out@).to_multiset() == texts(names@).to_multiset(),
{
    let sorted: Vec<String> = sorted_texts(names);
    let total: usize = sorted.len();
    let mut out: Vec<String> = Vec::new();
    let mut k: usize = total;
    let ghost up = texts(sorted@);
    while k > 0
        invariant
            k <= total == sorted@.len(),
            up == texts(sorted@),
            out@.len() == total - k,
            forall|i: int| 0 <= i < total - k ==> #[trigger] texts(out@)[i] == up[total - 1 - i],
        decreases k,
    {
        let ghost before = texts(out@);
        out.push(String::from_str(sorted[k - 1].as_str()));
        assert(texts(out@) =~= before.push(up[k - 1]));
        k = k - 1;
    }
    assert(texts(out@) =~= up.reverse());
    proof {
        assert(up.reverse().reverse() =~= up);
        lemma_reverse_multiset(up);
    }
    out
}

/// An entry of a directory.
#[derive(Debug)]
pub struct DirEntry {
    pub name: String,
    pub is_file: bool,
}

pub open spec fn weight_entry(e: DirEntry) -> bool {
    e.is_file && extension_of(e.name@) == Some("safetensors"@)
}

pub open spec fn weighted(is_dir: bool, has_config: bool, entries: Option<Seq<DirEntry>>) -> bool {
    is_dir && has_config && entries is Some && exists|i: int|
        0 <= i < entries->0.len() && #[trigger] weight_entry(entries->0[i])
}

fn has_extension(name: &str, wanted: &str) -> (r: bool)
    ensures
        r == (extension_of(name@) == Some(wanted@)),
{
    match extension(name) {
        Some(e) => same_text(e.as_str(), wanted),
        None => false,
    }
}

/// Whether a directory holds a model: a configuration and a weight file.
/// `entries` is nothing where it cannot be listed.
pub fn is_weighted_model_dir(
    is_dir: bool,
    has_config: bool,
    entries: &Option<Vec<DirEntry>>,
) -> (r: bool)
    ensures
        r == weighted(
            is_dir,
            has_config,
            match *entries {
                Some(v) => Some(v@),
                None => None,
            },
        ),
{
    if !is_dir || !has_config {
        return false;
    }
    match entries {
        None => false,
        Some(list) => {
            let mut i: usize = 0;
            while i < list.len()
                invariant
                    i <= list@.len(),
                    is_dir && has_config,
                    *entries == Some(*list),
                    forall|k: int| 0 <= k < i ==> !#[trigger] weight_entry(list@[k]),
                decreases list@.len() - i,
            {
                if list[i].is_file && has_extension(list[i].name.as_str(), "safetensors") {
                    assert(weight_entry(list@[i as int]));
                    let ghost seen = Some(list@);
                    assert(seen->0 == list@);
                    assert(weight_entry(seen->0[i as int]) && 0 <= i < seen->0.len());
                    assert(weighted(is_dir, has_config, seen));
                    return true;
                }
                i = i + 1;
            }
            false
        },
    }
}

/// What to do about a model's name.
#[derive(Debug, Clone, Copy, PartialEq, Eq, Structural)]
pub enum ModelSource {
    /// The named directory itself.
    Named,
    /// The candidate of this index.
    Candidate(usize),
    /// A path that is not there.
    Missing,
    /// A repository to download.
    Download,
}

/// The first place that holds `true`.
pub open spec fn first_true(s: Seq<bool>, i: nat) -> Option<nat>
    decreases s.len() - i,
{
    if i >= s.len() {
        None
    } else if s[i as int] {
        Some(i)
    } else {
        first_true(s, i + 1)
    }
}

pub open spec fn source_of(input: Seq<char>, named: bool, candidates: Seq<bool>) -> ModelSource {
    if named {
        ModelSource::Named
    } else if first_true(candidates, 0) is Some {
        ModelSource::Candidate(first_true(candidates, 0)->0 as usize)
    } else if path_like(input) {
        ModelSource::Missing
    } else {
        ModelSource::Download
    }
}

/// Decides where a model comes from. `named` says whether the name itself is a
/// model directory, `candidates` which of the searched directories are. A name
/// that looks like a path is never looked up in the hub.
pub fn resolve_model_path(input: &str, named: bool, candidates: &Vec<bool>) -> (r: ModelSource)
    ensures
        r == source_of(input@, named, candidates@),
{
    if named {
        return ModelSource::Named;
    }
    let mut i: usize = 0;
    while i < candidates.len()
        invariant
            i <= candidates@.len(),
            !named,
            first_true(candidates@, 0) == first_true(candidates@, i as nat),
        decreases candidates@.len() - i,
    {
        if candidates[i] {
            return ModelSource::Candidate(i);
        }
        i = i + 1;
    }
    if looks_like_local_path(input) {
        ModelSource::Missing
    } else {
        ModelSource::Download
    }
}

/// A local copy is always preferred to the hub, and a name that looks like a
/// path never goes there.
pub proof fn paths_stay_local(input: Seq<char>, named: bool, candidates: Seq<bool>)
    ensures
        source_of(input, named, candidates) == ModelSource::Download ==> !named && !path_like(input)
            && forall|i: int| 0 <= i < candidates.len() ==> !#[trigger] candidates[i],
{
    lemma_no_true(candidates, 0);
}

proof fn lemma_no_true(s: Seq<bool>, i: nat)
    ensures
        first_true(s, i) is None ==> forall|k: int| i <= k < s.len() ==> !#[trigger] s[k],
    decreases s.len() - i,
{
    if i < s.len() && !s[i as int] {
        lemma_no_true(s, i + 1);
    }
}

// ---- what to download ----

/// Files beside the weights that a model may have.
pub open spec fn side_files() -> Seq<Seq<char>> {
    seq![
        "config.json"@,
        "tokenizer.json"@,
        "tokenizer_config.json"@,
        "special_tokens_map.json"@,
        "generation_config.json"@,
        "model.safetensors.index.json"@,
    ]
}

/// Those of the first `n` wanted names that are there.
pub open spec fn present(wanted: Seq<Seq<char>>, names: Seq<Seq<char>>, n: nat) -> Seq<Seq<char>>
    decreases n,
{
    if n == 0 {
        Seq::empty()
    } else if names.contains(wanted[n - 1]) {
        present(wanted, names, (n - 1) as nat).push(wanted[n - 1])
    } else {
        present(wanted, names, (n - 1) as nat)
    }
}

fn holds_name(names: &Vec<String>, wanted: &str) -> (r: bool)
    ensures
        r == texts(names@).contains(wanted@),
{
    let mut i: usize = 0;
    while i < names.len()
        invariant
            i <= names@.len(),
            forall|k: int| 0 <= k < i ==> #[trigger] texts(names@)[k] != wanted@,
        decreases names@.len() - i,
    {
        assert(texts(names@)[i as int] == names@[i as int]@);
        if same_text(names[i].as_str(), wanted) {
            return true;
        }
        i = i + 1;
    }
    false
}

fn keep_present(out: &mut Vec<String>, names: &Vec<String>, wanted: &str)
    ensures
        texts(final(out)@) == if texts(names@).contains(wanted@) {
            texts(old(out)@).push(wanted@)
        } else {
            texts(old(out)@)
        },
{
    if holds_name(names, wanted) {
        let ghost before = texts(out@);
        out.push(String::from_str(wanted));
        assert(texts(out@) =~= before.push(wanted@));
    }
}

/// The files beside the weights to fetch, in order.
pub fn side_files_to_fetch(names: &Vec<String>) -> (out: Vec<String>)
    ensures
        texts(out@) == present(side_files(), texts(names@), 6),
{
    let mut out: Vec<String> = Vec::new();
    assert(texts(out@) =~= Seq::<Seq<char>>::empty());
    keep_present(&mut out, names, "config.json");
    keep_present(&mut out, names, "tokenizer.json");
    keep_present(&mut out, names, "tokenizer_config.json");
    keep_present(&mut out, names, "special_tokens_map.json");
    keep_present(&mut out, names, "generation_config.json");
    keep_present(&mut out, names, "model.safetensors.index.json");
    proof {
        reveal_with_fuel(present, 7);
    }
    out
}

pub open spec fn weight_name(name: Seq<char>) -> bool {
    extension_of(name) == Some("safetensors"@) && !occurs(name, "adapter"@)
}

/// A repository without weights.
#[derive(Debug, Clone, Copy, PartialEq, Eq, Structural)]
pub struct NoWeights;

/// The weight files to fetch, in the order in which they are listed: those
/// with the weight extension, save for adapters.
pub fn weight_files_to_fetch(names: &Vec<String>) -> (r: Result<Vec<String>, NoWeights>)
    ensures
        ({
            let wanted = texts(names@).filter(|n: Seq<char>| weight_name(n));
            match r {
                Ok(v) => texts(v@) == wanted && wanted.len() > 0,
                Err(_) => wanted.len() == 0,
            }
        }),
{
    let mut out: Vec<String> = Vec::new();
    let ghost keep = |n: Seq<char>| weight_name(n);
    let mut i: usize = 0;
    proof {
        reveal(Seq::filter);
        assert(texts(names@).take(0) =~= Seq::<Seq<char>>::empty());
        assert(texts(out@) =~= Seq::<Seq<char>>::empty());
    }
    while i < names.len()
        invariant
            i <= names@.len(),
            keep == (|n: Seq<char>| weight_name(n)),
            texts(out@) == texts(names@).take(i as int).filter(keep),
        decreases names@.len() - i,
    {
        let ghost all = texts(names@);
        let ghost before = texts(out@);
        proof {
            reveal(Seq::filter);
            assert(all.take(i + 1).drop_last() =~= all.take(i as int));
            assert(all[i as int] == names@[i as int]@);
        }
        if has_extension(names[i].as_str(), "safetensors") && !contains_text(
            names[i].as_str(),
            "adapter",
        ) {
            out.push(String::from_str(names[i].as_str()));
            assert(texts(out@) =~= before.push(all[i as int]));
        }
        i = i + 1;
    }
    assert(texts(names@).take(i as int) =~= texts(names@));
    if out.len() == 0 {
        assert(texts(out@).len() == 0);
        return Err(NoWeights);
    }
    assert(texts(out@).len() > 0);
    Ok(out)
}

// ---- weight sizes ----

/// The extensions of the weight files that the runtime loads.
pub open spec fn weight_extension(path: Seq<char>) -> bool {
    match extension_of(path) {
        Some(e) => e == "safetensors"@ || e == "bin"@ || e == "gguf"@ || e == "npz"@,
        None => false,
    }
}

/// Whether a path names a weight file that the runtime loads.
pub fn is_weight_file_ext(path: &str) -> (r: bool)
    ensures
        r == weight_extension(path@),
{
    match extension(path) {
        Some(e) => same_text(e.as_str(), "safetensors") || same_text(e.as_str(), "bin")
            || same_text(e.as_str(), "gguf") || same_text(e.as_str(), "npz"),
        None => false,
    }
}

/// A file and its size.
#[derive(Debug)]
pub struct SizedFile {
    pub name: String,
    pub bytes: u64,
}

/// Bytes of the weight files among the first `n`.
pub open spec fn weight_sum(files: Seq<SizedFile>, n: nat) -> nat
    decreases n,
{
    if n == 0 {
        0
    } else {
        weight_sum(files, (n - 1) as nat) + if weight_extension(files[n - 1].name@) {
            files[n - 1].bytes as nat
        } else {
            0
        }
    }
}

proof fn lemma_weight_sum(files: Seq<SizedFile>, a: nat, b: nat)
    requires
        a <= b,
    ensures
        weight_sum(files, a) <= weight_sum(files, b),
    decreases b,
{
    if a < b {
        lemma_weight_sum(files, a, (b - 1) as nat);
    }
}

/// The weight bytes of a directory's files, nothing where there are none.
pub fn sum_weight_files(files: &Vec<SizedFile>) -> (r: Option<u64>)
    requires
        weight_sum(files@, files@.len()) <= u64::MAX,
    ensures
        r == if weight_sum(files@, files@.len()) > 0 {
            Some(weight_sum(files@, files@.len()) as u64)
        } else {
            None
        },
{
    let mut total: u64 = 0;
    let mut i: usize = 0;
    while i < files.len()
        invariant
            i <= files@.len(),
            total == weight_sum(files@, i as nat),
            weight_sum(files@, files@.len()) <= u64::MAX,
        decreases files@.len() - i,
    {
        proof {
            lemma_weight_sum(files@, (i + 1) as nat, files@.len());
        }
        if is_weight_file_ext(files[i].name.as_str()) {
            total = total + files[i].bytes;
        }
        i = i + 1;
    }
    if total > 0 {
        Some(total)
    } else {
        None
    }
}

} // verus!
