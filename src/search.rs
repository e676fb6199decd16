use vstd::prelude::*;

use crate::models::{ModLoader, SearchResult};

verus! {

/// Whether a search result stays in a search restricted to `loader`.
pub open spec fn suits(loader: ModLoader, r: SearchResult) -> bool {
    match loader {
        ModLoader::Forge => !r.spec_is_fabric(),
        ModLoader::Fabric => r.spec_is_fabric(),
        ModLoader::Both => true,
    }
}

/// The results that suit `loader`, in their order.
pub open spec fn suited(loader: ModLoader, rs: Seq<SearchResult>) -> Seq<SearchResult>
    decreases rs.len(),
{
    if rs.len() == 0 {
        Seq::empty()
    } else if suits(loader, rs.last()) {
        suited(loader, rs.drop_last()).push(rs.last())
    } else {
        suited(loader, rs.drop_last())
    }
}

/// Everything that filtering keeps suits the loader.
pub proof fn lemma_suited_all_suit(loader: ModLoader, rs: Seq<SearchResult>)
    ensures
        forall|i: int|
            0 <= i < suited(loader, rs).len() ==> suits(loader, #[trigger] suited(loader, rs)[i]),
    decreases rs.len(),
{
    if rs.len() > 0 {
        lemma_suited_all_suit(loader, rs.drop_last());
        let prev = suited(loader, rs.drop_last());
        assert forall|i: int| 0 <= i < suited(loader, rs).len() implies suits(
            loader,
            #[trigger] suited(loader, rs)[i],
        ) by {
            if i < prev.len() {
                assert(suited(loader, rs)[i] == prev[i]);
            }
        }
    }
}

/// A list whose results all suit the loader is left as it is.
pub proof fn lemma_suited_keeps_suitable(loader: ModLoader, rs: Seq<SearchResult>)
    requires
        forall|i: int| 0 <= i < rs.len() ==> suits(loader, #[trigger] rs[i]),
    ensures
        suited(loader, rs) == rs,
    decreases rs.len(),
{
    if rs.len() > 0 {
        lemma_suited_keeps_suitable(loader, rs.drop_last());
        assert(suited(loader, rs) =~= rs);
    }
}

/// Filtering by loader is idempotent: filtering a filtered list again with the same loader
/// gives the same list.
pub proof fn lemma_filter_idempotent(loader: ModLoader, rs: Seq<SearchResult>)
    ensures
        suited(loader, suited(loader, rs)) == suited(loader, rs),
{
    lemma_suited_all_suit(loader, rs);
    lemma_suited_keeps_suitable(loader, suited(loader, rs));
}

/// Keeps the results that suit `loader`, in their order: with Forge those without the Fabric
/// tag, with Fabric those with it, with both every one.
pub fn filter_by_loader(results: Vec<SearchResult>, loader: &ModLoader) -> (r: Vec<SearchResult>)
    ensures
        r@ == suited(*loader, results@),
{
    let ghost orig = results@;
    let mut results = results;
    let mut i: usize = 0;
    let ghost mut k: int = 0;
    while i != results.len()
        invariant
            0 <= k <= orig.len(),
            i <= results@.len(),
            results@.take(i as int) == suited(*loader, orig.take(k)),
            results@.skip(i as int) == orig.skip(k),
            results@.len() - i == orig.len() - k,
        decreases results@.len() - i,
    {
        let ghost before = results@;
        assert(orig.take(k + 1).drop_last() =~= orig.take(k));
        assert(before[i as int] == orig[k]) by {
            assert(before.skip(i as int)[0] == orig.skip(k)[0]);
        }
        if *loader == ModLoader::Forge && results[i].is_fabric() {
            results.remove(i);
            assert(results@.take(i as int) =~= before.take(i as int));
            assert(results@.skip(i as int) =~= orig.skip(k + 1)) by {
                assert(results@.skip(i as int) =~= before.skip(i as int).drop_first());
            }
        } else if *loader == ModLoader::Fabric && !results[i].is_fabric() {
            results.remove(i);
            assert(results@.take(i as int) =~= before.take(i as int));
            assert(results@.skip(i as int) =~= orig.skip(k + 1)) by {
                assert(results@.skip(i as int) =~= before.skip(i as int).drop_first());
            }
        } else {
            assert(results@.take(i + 1) =~= before.take(i as int).push(orig[k]));
            assert(results@.skip(i + 1) =~= orig.skip(k + 1)) by {
                assert(results@.skip(i + 1) =~= before.skip(i as int).drop_first());
            }
            i = i + 1;
        }
        proof {
            k = k + 1;
        }
    }
    assert(orig.skip(k).len() == 0);
    assert(orig.take(k) =~= orig);
    assert(results@ =~= results@.take(i as int));
    results
}

} // verus!
