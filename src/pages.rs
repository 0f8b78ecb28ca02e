use vstd::prelude::*;

use crate::types::{Error, Repo, User};

verus! {

/// The page indices requested for a user declaring `public_repos` repositories,
/// `page_size` per page: every index from 0 through `public_repos / page_size`,
/// one page more than the floor quotient.
pub open spec fn page_indices(public_repos: nat, page_size: nat) -> Seq<nat>
    recommends
        page_size > 0,
{
    Seq::new(public_repos / page_size + 1, |i: int| i as nat)
}

/// The repositories that each fetch result carries (nothing for a failed one).
pub open spec fn page_contents<E>(results: Seq<Result<Vec<Repo>, E>>) -> Seq<Seq<Repo>> {
    results.map_values(
        |res: Result<Vec<Repo>, E>|
            match res {
                Ok(page) => page@,
                Err(_) => Seq::empty(),
            },
    )
}

/// Whether some fetch result is a failure.
pub open spec fn has_failure<E>(results: Seq<Result<Vec<Repo>, E>>) -> bool {
    exists|i: int| 0 <= i < results.len() && results[i] is Err
}

/// Whether `e` is the failure of the first failed fetch result.
pub open spec fn is_first_failure<E>(results: Seq<Result<Vec<Repo>, E>>, e: E) -> bool {
    exists|i: int|
        0 <= i < results.len() && results[i] == Err::<Vec<Repo>, E>(e) && forall|j: int|
            0 <= j < i ==> results[j] is Ok
}

/// The index of the last page to fetch: pages `0..=r` are requested.
/// A page size of zero is refused before any page is requested.
pub fn last_page(user: &User, page_size: usize) -> (r: Result<usize, Error>)
    ensures
        page_size == 0 <==> r is Err,
        page_size == 0 ==> r == Err::<usize, Error>(Error::ZeroPageSize),
        page_size > 0 ==> r == Ok::<usize, Error>(user.public_repos / page_size),
        r matches Ok(n) ==> page_indices(user.public_repos as nat, page_size as nat) == Seq::new(
            n as nat + 1,
            |i: int| i as nat,
        ),
{
    if page_size == 0 {
        return Err(Error::ZeroPageSize);
    }
    Ok(user.public_repos / page_size)
}

/// Relies on itertools::concat: the lists are joined, in order, into one.
#[verifier::external_body]
fn concat_pages(pages: Vec<Vec<Repo>>) -> (r: Vec<Repo>)
    ensures
        r@ == pages@.map_values(|p: Vec<Repo>| p@).flatten(),
{
    itertools::concat(pages)
}

/// Assembles the fetch results of pages `0, 1, ...` given in page order.
/// Fails with the first failure in page order if any page failed; otherwise
/// the pages' repositories are joined in page order.
pub fn collect_pages<E>(results: Vec<Result<Vec<Repo>, E>>) -> (r: Result<Vec<Repo>, E>)
    ensures
        r is Err <==> has_failure(results@),
        r matches Err(e) ==> is_first_failure(results@, e),
        r matches Ok(v) ==> v@ == page_contents(results@).flatten(),
{
    let ghost all = results@;
    let mut rest = results;
    let mut pages: Vec<Vec<Repo>> = Vec::new();
    while rest.len() > 0
        invariant
            all == results@,
            pages@.len() + rest@.len() == all.len(),
            rest@ == all.subrange(pages@.len() as int, all.len() as int),
            forall|k: int| 0 <= k < pages@.len()
                ==> all[k] == Ok::<Vec<Repo>, E>(#[trigger] pages@[k]),
        decreases rest@.len(),
    {
        let res = rest.remove(0);
        match res {
            Ok(page) => {
                pages.push(page);
            },
            Err(e) => {
                proof {
                    let i = pages@.len() as int;
                    assert(all[i] == Err::<Vec<Repo>, E>(e));
                    assert(forall|j: int| 0 <= j < i ==> all[j] == Ok::<Vec<Repo>, E>(pages@[j]));
                    assert(all[i] is Err);
                    assert(has_failure(all));
                    assert(is_first_failure(all, e));
                }
                return Err(e);
            },
        }
    }
    proof {
        assert forall|i: int| 0 <= i < all.len() implies all[i] is Ok by {
            assert(all[i] == Ok::<Vec<Repo>, E>(pages@[i]));
        }
        assert(pages@.map_values(|p: Vec<Repo>| p@) =~= page_contents(all));
    }
    Ok(concat_pages(pages))
}

/// A user without repositories gets exactly one page requested, page 0.
pub proof fn law_single_page_without_repos(page_size: nat)
    requires
        page_size > 0,
    ensures
        page_indices(0, page_size) == seq![0nat],
{
    assert(0nat / page_size == 0) by (nonlinear_arith)
        requires
            page_size > 0,
    ;
    assert(page_indices(0, page_size) =~= seq![0nat]);
}

} // verus!
