//! Where a model is found, and which draft goes with it.
use vstd::prelude::*;

#[allow(unused_imports)]
use crate::metal::backend::{dflash_choice, named_draft, SpeculativeFlags};
#[allow(unused_imports)]
use crate::metal::model_source::{
    count_of, first_slash, first_true, path_like, present, repo_dir, source_of, weight_extension,
    weight_name, weight_sum, ModelSource, SizedFile,
};
#[allow(unused_imports)]
use crate::text::{extension_of, occurs, parsed_number, trim_of};

verus! {

/// Counting a letter counts every place where it stands, and over two texts in
/// a row what it counts over each.
pub proof fn letters_are_counted_where_they_stand(a: Seq<char>, b: Seq<char>, c: char, n: int)
    requires
        0 <= n <= b.len(),
    ensures
        count_of(a + b, c, a.len() + n) == count_of(a, c, a.len() as int) + count_of(b, c, n),
        0 <= count_of(b, c, n) <= n,
        count_of(b, c, n) == 0 <==> forall|k: int| 0 <= k < n ==> #[trigger] b[k] != c,
    decreases n,
{
    if n > 0 {
        letters_are_counted_where_they_stand(a, b, c, n - 1);
        assert((a + b)[a.len() + n - 1] == b[n - 1]);
    } else {
        lemma_count_front(a, b, c, a.len() as int);
    }
}

proof fn lemma_count_front(a: Seq<char>, b: Seq<char>, c: char, n: int)
    requires
        0 <= n <= a.len(),
    ensures
        count_of(a + b, c, n) == count_of(a, c, n),
    decreases n,
{
    if n > 0 {
        lemma_count_front(a, b, c, n - 1);
        assert((a + b)[n - 1] == a[n - 1]);
    }
}

proof fn lemma_first_slash(s: Seq<char>, i: int)
    requires
        0 <= i <= s.len(),
    ensures
        i <= first_slash(s, i) <= s.len(),
        first_slash(s, i) < s.len() ==> s[first_slash(s, i)] == '/',
        forall|k: int| i <= k < first_slash(s, i) ==> #[trigger] s[k] != '/',
    decreases s.len() - i,
{
    if i < s.len() && s[i] != '/' {
        lemma_first_slash(s, i + 1);
    }
}

/// A repository's cache directory is made of its owner and its name: what
/// stands before its first slash, and what stands behind.
pub proof fn repositories_are_cached_by_owner_and_name(owner: Seq<char>, name: Seq<char>)
    requires
        !owner.contains('/'),
    ensures
        repo_dir(owner.push('/') + name) == Some("models--"@ + owner + "--"@ + name),
        repo_dir(owner) is None,
{
    let id = owner.push('/') + name;
    lemma_first_slash(id, 0);
    lemma_first_slash(owner, 0);
    assert(id[owner.len() as int] == '/');
    assert forall|k: int| 0 <= k < owner.len() implies id[k] != '/' by {
        assert(id[k] == owner[k]);
        assert(owner.contains(owner[k]));
    }
    let k = first_slash(id, 0);
    assert(k == owner.len());
    assert(id.take(k) =~= owner);
    assert(id.skip(k + 1) =~= name);
    assert forall|k: int| 0 <= k < owner.len() implies owner[k] != '/' by {
        assert(owner.contains(owner[k]));
    }
}

proof fn lemma_first_true(s: Seq<bool>, i: nat)
    requires
        i <= s.len(),
    ensures
        match first_true(s, i) {
            Some(k) => i <= k < s.len() && s[k as int] && forall|j: int|
                i <= j < k ==> !#[trigger] s[j],
            None => forall|j: int| i <= j < s.len() ==> !#[trigger] s[j],
        },
    decreases s.len() - i,
{
    if i < s.len() && !s[i as int] {
        lemma_first_true(s, i + 1);
    }
}

/// A model comes from where it was named, if that is a model, else from the
/// first place searched that is; a path that is neither is missing, and any
/// other name is fetched.
pub proof fn models_come_from_the_first_place(
    input: Seq<char>,
    named: bool,
    candidates: Seq<bool>,
)
    requires
        candidates.len() <= usize::MAX,
    ensures
        match source_of(input, named, candidates) {
            ModelSource::Named => named,
            ModelSource::Candidate(k) => !named && k < candidates.len() && candidates[k as int]
                && forall|j: int| 0 <= j < k ==> !#[trigger] candidates[j],
            ModelSource::Missing => !named && path_like(input) && forall|j: int|
                0 <= j < candidates.len() ==> !#[trigger] candidates[j],
            ModelSource::Download => !named && !path_like(input) && forall|j: int|
                0 <= j < candidates.len() ==> !#[trigger] candidates[j],
        },
{
    lemma_first_true(candidates, 0);
}

/// Of the wanted files exactly those that a repository has are fetched, in the
/// order in which they are wanted.
pub proof fn wanted_files_that_are_there_are_fetched(
    wanted: Seq<Seq<char>>,
    names: Seq<Seq<char>>,
    n: nat,
)
    requires
        n <= wanted.len(),
    ensures
        forall|x: Seq<char>| #[trigger]
            present(wanted, names, n).contains(x) <==> names.contains(x) && wanted.take(
                n as int,
            ).contains(x),
        present(wanted, names, n).len() <= n,
        (forall|k: int| 0 <= k < n ==> names.contains(#[trigger] wanted[k])) ==> present(
            wanted,
            names,
            n,
        ) == wanted.take(n as int),
    decreases n,
{
    if n == 0 {
        assert(wanted.take(0) =~= Seq::empty());
    } else {
        let m = (n - 1) as nat;
        wanted_files_that_are_there_are_fetched(wanted, names, m);
        let before = present(wanted, names, m);
        let now = present(wanted, names, n);
        let w = wanted[n - 1];
        assert(wanted.take(n as int) =~= wanted.take(m as int).push(w));
        assert forall|x: Seq<char>| #[trigger] now.contains(x) <==> names.contains(x)
            && wanted.take(n as int).contains(x) by {
            assert(wanted.take(m as int).push(w).contains(x) <==> wanted.take(m as int).contains(x)
                || x == w) by {
                let t = wanted.take(m as int);
                assert(t.push(w)[t.len() as int] == w);
                if t.contains(x) {
                    let k = choose|k: int| 0 <= k < t.len() && t[k] == x;
                    assert(t.push(w)[k] == x);
                }
            }
            if names.contains(w) {
                assert(before.push(w)[before.len() as int] == w);
                if before.contains(x) {
                    let k = choose|k: int| 0 <= k < before.len() && before[k] == x;
                    assert(before.push(w)[k] == x);
                }
            }
        }
    }
}

/// Fetched weights are files of the one extension and no adapters; each of them
/// counts as a weight in a directory too, beside those of other formats.
pub proof fn fetched_weights_count(name: Seq<char>)
    ensures
        weight_name(name) ==> weight_extension(name),
        weight_name(name) ==> !occurs(name, "adapter"@),
        weight_extension(name) <==> extension_of(name) == Some("safetensors"@) || extension_of(name)
            == Some("bin"@) || extension_of(name) == Some("gguf"@) || extension_of(name) == Some(
            "npz"@,
        ),
        extension_of(name) == Some("safetensors"@) && !occurs(name, "adapter"@) ==> weight_name(
            name,
        ),
{
}

/// Weight bytes add up over a directory's files: those before a place and those
/// from it on, and files that are no weights add nothing.
pub proof fn weight_bytes_add_up(a: Seq<SizedFile>, b: Seq<SizedFile>, n: nat)
    requires
        n <= b.len(),
    ensures
        weight_sum(a + b, a.len() + n) == weight_sum(a, a.len()) + weight_sum(b, n),
        (forall|k: int| 0 <= k < n ==> !weight_extension((#[trigger] b[k]).name@)) ==> weight_sum(
            b,
            n,
        ) == 0,
        n == 1 && weight_extension(b[0].name@) ==> weight_sum(b, n) == b[0].bytes,
    decreases n,
{
    if n > 0 {
        weight_bytes_add_up(a, b, (n - 1) as nat);
        assert((a + b)[a.len() + n - 1] == b[n - 1]);
    } else {
        lemma_sum_front(a, b, a.len());
    }
}

proof fn lemma_sum_front(a: Seq<SizedFile>, b: Seq<SizedFile>, n: nat)
    requires
        n <= a.len(),
    ensures
        weight_sum(a + b, n) == weight_sum(a, n),
    decreases n,
{
    if n > 0 {
        lemma_sum_front(a, b, (n - 1) as nat);
        assert((a + b)[n - 1] == a[n - 1]);
    }
}

/// A draft is used where drafting is switched on and one is named or the family
/// has one; a named one is used as it is named, at least one token is accepted
/// from, and as many rows are taken as were asked for.
pub proof fn drafts_are_used_as_named(f: SpeculativeFlags, path: Seq<char>)
    ensures
        match dflash_choice(f, path) {
            Ok(None) => !f.speculative || (named_draft(f) is None && !occurs(
                path,
                "Qwen3.6-27B"@,
            )),
            Ok(Some(o)) => {
                &&& f.speculative
                &&& named_draft(f) matches Some(d) ==> o.draft_model == d && o.speculative_tokens
                    == f.speculative_tokens
                &&& named_draft(f) is None ==> occurs(path, "Qwen3.6-27B"@)
                    && o.speculative_tokens is Some
                &&& named_draft(f) is None && f.speculative_tokens is Some ==> o.speculative_tokens
                    == f.speculative_tokens
                &&& o.accept_topk >= 1 && (f.accept_topk >= 1 ==> o.accept_topk == f.accept_topk)
                &&& f.max_rows matches Some(text) ==> (trim_of(text@).len() > 0 ==> parsed_number(
                    trim_of(text@),
                    usize::MAX as nat,
                ) == Some(o.max_rows as nat))
            },
            Err(_) => f.speculative && (f.max_rows matches Some(text) && trim_of(text@).len() > 0
                && parsed_number(trim_of(text@), usize::MAX as nat) is None),
        },
{
}

} // verus!
